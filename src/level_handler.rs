//! Per-level bookkeeping of the files that in-flight tasks have reserved.
use vstd::prelude::*;
use crate::model::{files_size, files_view, sat_add, SstView, SstableInfo};

verus! {

/// One in-flight task's reservation at one level.
#[derive(Clone, Debug)]
pub struct RunningCompactTask {
    pub task_id: u64,
    pub target_level: usize,
    pub total_file_size: u64,
    pub ssts: Vec<u64>,
}

/// The value of a `RunningCompactTask`.
pub struct TaskView {
    pub task_id: u64,
    pub target_level: usize,
    pub total_file_size: u64,
    pub ssts: Seq<u64>,
}

impl View for RunningCompactTask {
    type V = TaskView;

    open spec fn view(&self) -> TaskView {
        TaskView {
            task_id: self.task_id,
            target_level: self.target_level,
            total_file_size: self.total_file_size,
            ssts: self.ssts@,
        }
    }
}

/// `a + b`, clamped to the largest `usize`.
pub open spec fn sat_add_usize(a: int, b: int) -> int {
    if a + b > usize::MAX {
        usize::MAX as int
    } else {
        a + b
    }
}

/// Some task of `tasks` holds `file`.
pub open spec fn reserved(tasks: Seq<TaskView>, file: u64) -> bool {
    exists|i: int, j: int|
        0 <= i < tasks.len() && 0 <= j < tasks[i].ssts.len() && #[trigger] tasks[i].ssts[j] == file
}

/// No file is held by two tasks with different ids.
pub open spec fn exclusive(tasks: Seq<TaskView>) -> bool {
    forall|i: int, j: int, a: int, b: int|
        0 <= i < tasks.len() && 0 <= j < tasks.len() && 0 <= a < tasks[i].ssts.len() && 0 <= b
            < tasks[j].ssts.len() && #[trigger] tasks[i].ssts[a] == #[trigger] tasks[j].ssts[b]
            ==> tasks[i].task_id == tasks[j].task_id
}

/// Number of reserved files, clamped to the largest `usize` at every step.
pub open spec fn reserved_count(tasks: Seq<TaskView>) -> int
    decreases tasks.len(),
{
    if tasks.len() == 0 {
        0
    } else {
        sat_add_usize(reserved_count(tasks.drop_last()), tasks.last().ssts.len() as int)
    }
}

/// Bytes reserved by tasks that write into `to_level`, clamped to the largest `u64` at
/// every step.
pub open spec fn pending_output(tasks: Seq<TaskView>, to_level: int) -> int
    decreases tasks.len(),
{
    if tasks.len() == 0 {
        0
    } else if tasks.last().target_level == to_level {
        sat_add(pending_output(tasks.drop_last(), to_level), tasks.last().total_file_size as int)
    } else {
        pending_output(tasks.drop_last(), to_level)
    }
}

/// `tasks` without those of task `task_id`, order kept.
pub open spec fn without_task(tasks: Seq<TaskView>, task_id: u64) -> Seq<TaskView>
    decreases tasks.len(),
{
    if tasks.len() == 0 {
        tasks
    } else if tasks.last().task_id == task_id {
        without_task(tasks.drop_last(), task_id)
    } else {
        without_task(tasks.drop_last(), task_id).push(tasks.last())
    }
}

/// The reservation that task `task_id` makes for `files`.
pub open spec fn task_for(task_id: u64, target_level: usize, files: Seq<SstView>) -> TaskView {
    TaskView {
        task_id,
        target_level,
        total_file_size: files_size(files) as u64,
        ssts: files.map_values(|f: SstView| f.id),
    }
}

/// The values of a sequence of handlers.
pub open spec fn handler_views(hs: Seq<LevelHandler>) -> Seq<HandlerView> {
    hs.map_values(|h: LevelHandler| h@)
}

/// The reservations held at one level of the tree.
#[derive(Clone, Debug)]
pub struct LevelHandler {
    level: u32,
    pending_tasks: Vec<RunningCompactTask>,
}

/// The value of a `LevelHandler`.
pub struct HandlerView {
    pub level: u32,
    pub tasks: Seq<TaskView>,
}

impl View for LevelHandler {
    type V = HandlerView;

    closed spec fn view(&self) -> HandlerView {
        HandlerView { level: self.level, tasks: self.pending_tasks@.map_values(|t: RunningCompactTask| t@) }
    }
}

impl LevelHandler {
    pub fn new(level: u32) -> (r: LevelHandler)
        ensures
            r@.level == level,
            r@.tasks.len() == 0,
    {
        let r = LevelHandler { level, pending_tasks: Vec::new() };
        assert(r@.tasks =~= Seq::<TaskView>::empty());
        r
    }

    pub fn get_level(&self) -> (r: u32)
        ensures
            r == self@.level,
    {
        self.level
    }

    /// Whether some pending task holds file `sst_id`.
    pub fn is_pending_compact(&self, sst_id: &u64) -> (r: bool)
        ensures
            r == reserved(self@.tasks, *sst_id),
    {
        let ghost tasks = self@.tasks;
        let mut i: usize = 0;
        while i < self.pending_tasks.len()
            invariant
                tasks == self@.tasks,
                i <= tasks.len(),
                forall|k: int, j: int|
                    0 <= k < i && 0 <= j < tasks[k].ssts.len() ==> #[trigger] tasks[k].ssts[j]
                        != *sst_id,
            decreases tasks.len() - i,
        {
            let t = &self.pending_tasks[i];
            assert(t@ == tasks[i as int]);
            let mut j: usize = 0;
            while j < t.ssts.len()
                invariant
                    tasks == self@.tasks,
                    t@ == tasks[i as int],
                    i < tasks.len(),
                    j <= t.ssts@.len(),
                    forall|b: int| 0 <= b < j ==> #[trigger] t.ssts@[b] != *sst_id,
                decreases t.ssts@.len() - j,
            {
                if t.ssts[j] == *sst_id {
                    assert(tasks[i as int].ssts[j as int] == *sst_id);
                    assert(reserved(tasks, *sst_id));
                    return true;
                }
                j += 1;
            }
            i += 1;
        }
        false
    }

    /// Whether some file of `files` is held by a pending task.
    pub fn is_any_pending(&self, files: &Vec<SstableInfo>) -> (r: bool)
        ensures
            r == exists|k: int| 0 <= k < files@.len() && reserved(self@.tasks, #[trigger] files@[k].id),
    {
        let mut k: usize = 0;
        while k < files.len()
            invariant
                k <= files@.len(),
                forall|m: int| 0 <= m < k ==> !reserved(self@.tasks, #[trigger] files@[m].id),
            decreases files@.len() - k,
        {
            if self.is_pending_compact(&files[k].id) {
                return true;
            }
            k += 1;
        }
        false
    }

    /// Number of files held by pending tasks.
    pub fn get_pending_file_count(&self) -> (r: usize)
        ensures
            r == reserved_count(self@.tasks),
    {
        let ghost tasks = self@.tasks;
        let mut n: usize = 0;
        let mut i: usize = 0;
        while i < self.pending_tasks.len()
            invariant
                tasks == self@.tasks,
                i <= tasks.len(),
                n == reserved_count(tasks.subrange(0, i as int)),
            decreases tasks.len() - i,
        {
            assert(tasks.subrange(0, i + 1).drop_last() =~= tasks.subrange(0, i as int));
            assert(self.pending_tasks[i as int]@ == tasks[i as int]);
            n = n.saturating_add(self.pending_tasks[i].ssts.len());
            i += 1;
        }
        assert(tasks.subrange(0, i as int) =~= tasks);
        n
    }

    /// Bytes held by pending tasks that write into `to_level`.
    pub fn get_pending_output_file_size(&self, to_level: usize) -> (r: u64)
        ensures
            r == pending_output(self@.tasks, to_level as int),
    {
        let ghost tasks = self@.tasks;
        let mut n: u64 = 0;
        let mut i: usize = 0;
        while i < self.pending_tasks.len()
            invariant
                tasks == self@.tasks,
                i <= tasks.len(),
                n == pending_output(tasks.subrange(0, i as int), to_level as int),
            decreases tasks.len() - i,
        {
            assert(tasks.subrange(0, i + 1).drop_last() =~= tasks.subrange(0, i as int));
            assert(self.pending_tasks[i as int]@ == tasks[i as int]);
            if self.pending_tasks[i].target_level == to_level {
                n = n.saturating_add(self.pending_tasks[i].total_file_size);
            }
            i += 1;
        }
        assert(tasks.subrange(0, i as int) =~= tasks);
        n
    }

    /// Reserves `ssts` for task `task_id`, which writes into `target_level`.
    pub fn add_pending_task(&mut self, task_id: u64, target_level: usize, ssts: &Vec<SstableInfo>)
        ensures
            final(self)@.level == old(self)@.level,
            final(self)@.tasks == old(self)@.tasks.push(
                task_for(task_id, target_level, files_view(ssts@)),
            ),
    {
        let total_file_size = crate::model::total_size(ssts);
        let mut ids: Vec<u64> = Vec::new();
        let mut i: usize = 0;
        while i < ssts.len()
            invariant
                i <= ssts@.len(),
                ids@ == files_view(ssts@).subrange(0, i as int).map_values(|f: SstView| f.id),
            decreases ssts@.len() - i,
        {
            ids.push(ssts[i].id);
            i += 1;
            assert(ids@ =~= files_view(ssts@).subrange(0, i as int).map_values(|f: SstView| f.id));
        }
        assert(files_view(ssts@).subrange(0, i as int) =~= files_view(ssts@));
        let t = RunningCompactTask { task_id, target_level, total_file_size, ssts: ids };
        let ghost before = self.pending_tasks@;
        self.pending_tasks.push(t);
        assert(self.pending_tasks@.map_values(|t: RunningCompactTask| t@) =~= before.map_values(
            |t: RunningCompactTask| t@,
        ).push(task_for(task_id, target_level, files_view(ssts@))));
    }

    /// Releases every reservation of task `task_id`.
    pub fn remove_task(&mut self, task_id: u64)
        ensures
            final(self)@.level == old(self)@.level,
            final(self)@.tasks == without_task(old(self)@.tasks, task_id),
    {
        let ghost tasks = self@.tasks;
        let mut kept: Vec<RunningCompactTask> = Vec::new();
        let mut i: usize = 0;
        while i < self.pending_tasks.len()
            invariant
                tasks == self@.tasks,
                i <= tasks.len(),
                kept@.map_values(|t: RunningCompactTask| t@) == without_task(
                    tasks.subrange(0, i as int),
                    task_id,
                ),
            decreases tasks.len() - i,
        {
            assert(tasks.subrange(0, i + 1).drop_last() =~= tasks.subrange(0, i as int));
            assert(self.pending_tasks[i as int]@ == tasks[i as int]);
            if self.pending_tasks[i].task_id != task_id {
                let t2 = RunningCompactTask {
                    task_id: self.pending_tasks[i].task_id,
                    target_level: self.pending_tasks[i].target_level,
                    total_file_size: self.pending_tasks[i].total_file_size,
                    ssts: copy_ids(&self.pending_tasks[i].ssts),
                };
                let ghost before = kept@;
                kept.push(t2);
                assert(kept@.map_values(|t: RunningCompactTask| t@) =~= before.map_values(
                    |t: RunningCompactTask| t@,
                ).push(tasks[i as int]));
            }
            i += 1;
        }
        assert(tasks.subrange(0, i as int) =~= tasks);
        self.pending_tasks = kept;
    }
}

/// Removing a task id that no reservation carries changes nothing.
pub proof fn lemma_without_absent_task(tasks: Seq<TaskView>, task_id: u64)
    requires
        forall|i: int| 0 <= i < tasks.len() ==> #[trigger] tasks[i].task_id != task_id,
    ensures
        without_task(tasks, task_id) == tasks,
    decreases tasks.len(),
{
    if tasks.len() > 0 {
        lemma_without_absent_task(tasks.drop_last(), task_id);
        assert(tasks.drop_last().push(tasks.last()) =~= tasks);
    }
}

/// Reserving files for a new task, when none of them is reserved yet, leaves every file
/// held by at most one task.
pub proof fn lemma_add_keeps_exclusive(
    tasks: Seq<TaskView>,
    task_id: u64,
    target_level: usize,
    files: Seq<SstView>,
)
    requires
        exclusive(tasks),
        forall|k: int| 0 <= k < files.len() ==> !reserved(tasks, #[trigger] files[k].id),
    ensures
        exclusive(tasks.push(task_for(task_id, target_level, files))),
{
    let t = task_for(task_id, target_level, files);
    let all = tasks.push(t);
    assert forall|i: int, j: int, a: int, b: int|
        0 <= i < all.len() && 0 <= j < all.len() && 0 <= a < all[i].ssts.len() && 0 <= b
            < all[j].ssts.len() && #[trigger] all[i].ssts[a] == #[trigger] all[j].ssts[b]
        implies all[i].task_id == all[j].task_id by {
        if i < tasks.len() && j == tasks.len() {
            assert(all[j].ssts[b] == files[b].id);
            assert(tasks[i].ssts[a] == all[i].ssts[a]);
            assert(reserved(tasks, files[b].id));
        } else if j < tasks.len() && i == tasks.len() {
            assert(all[i].ssts[a] == files[a].id);
            assert(tasks[j].ssts[b] == all[j].ssts[b]);
            assert(reserved(tasks, files[a].id));
        }
    }
}

/// Reserving files for a task whose id no reservation carries, and then releasing that
/// task, gives back exactly the reservations held before.
pub proof fn lemma_add_then_remove(
    tasks: Seq<TaskView>,
    task_id: u64,
    target_level: usize,
    files: Seq<SstView>,
)
    requires
        forall|i: int| 0 <= i < tasks.len() ==> #[trigger] tasks[i].task_id != task_id,
    ensures
        without_task(tasks.push(task_for(task_id, target_level, files)), task_id) == tasks,
{
    let all = tasks.push(task_for(task_id, target_level, files));
    assert(all.drop_last() =~= tasks);
    lemma_without_absent_task(tasks, task_id);
}

fn copy_ids(v: &Vec<u64>) -> (r: Vec<u64>)
    ensures
        r@ == v@,
{
    let mut r: Vec<u64> = Vec::new();
    let mut i: usize = 0;
    while i < v.len()
        invariant
            i <= v@.len(),
            r@ == v@.subrange(0, i as int),
        decreases v@.len() - i,
    {
        r.push(v[i]);
        i += 1;
        assert(r@ =~= v@.subrange(0, i as int));
    }
    assert(r@ =~= v@);
    r
}

} // verus!
