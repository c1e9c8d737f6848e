//! The input of one compaction, and the helpers that the pickers share.
use vstd::prelude::*;
use crate::level_handler::{
    exclusive, handler_views, lemma_add_keeps_exclusive, lemma_without_absent_task, reserved,
    task_for, without_task, HandlerView, LevelHandler, TaskView,
};
use crate::model::{files_view, KeyRange, Level, LevelType, Levels, SstView, SstableInfo};

verus! {

/// The files that a compaction reads from one level.
#[derive(Clone, Debug)]
pub struct InputLevel {
    pub level_idx: u32,
    pub level_type: LevelType,
    pub table_infos: Vec<SstableInfo>,
}

/// The value of an `InputLevel`.
pub struct InputLevelView {
    pub level_idx: u32,
    pub level_type: LevelType,
    pub files: Seq<SstView>,
}

impl View for InputLevel {
    type V = InputLevelView;

    open spec fn view(&self) -> InputLevelView {
        InputLevelView {
            level_idx: self.level_idx,
            level_type: self.level_type,
            files: files_view(self.table_infos@),
        }
    }
}

/// What a picker selects: the input levels, then the level that the output goes to.
#[derive(Clone, Debug)]
pub struct CompactionInput {
    pub input_levels: Vec<InputLevel>,
    pub target_level: usize,
    pub target_sub_level_id: u64,
}

/// The value of a `CompactionInput`.
pub struct InputView {
    pub levels: Seq<InputLevelView>,
    pub target_level: usize,
    pub target_sub_level_id: u64,
}

impl View for CompactionInput {
    type V = InputView;

    open spec fn view(&self) -> InputView {
        InputView {
            levels: self.input_levels@.map_values(|l: InputLevel| l@),
            target_level: self.target_level,
            target_sub_level_id: self.target_sub_level_id,
        }
    }
}

/// The value of an optional input.
pub open spec fn opt_view(r: Option<CompactionInput>) -> Option<InputView> {
    match r {
        Some(i) => Some(i@),
        None => None,
    }
}

/// An input of two levels: `files` read from `select`, and `target_files` from `target`,
/// written to `target`.
pub open spec fn two_level_input(
    select: int,
    select_type: LevelType,
    files: Seq<SstView>,
    target: int,
    target_files: Seq<SstView>,
    target_sub_level_id: u64,
) -> InputView {
    InputView {
        levels: seq![
            InputLevelView { level_idx: select as u32, level_type: select_type, files },
            InputLevelView {
                level_idx: target as u32,
                level_type: LevelType::Nonoverlapping,
                files: target_files,
            },
        ],
        target_level: target as usize,
        target_sub_level_id,
    }
}

/// The handlers after task `task_id` has reserved the first `n` input levels of `input`
/// (a level without a handler reserves nothing).
pub open spec fn reserve_input(hs: Seq<HandlerView>, task_id: u64, input: InputView, n: int) -> Seq<
    HandlerView,
>
    decreases n,
{
    if n <= 0 {
        hs
    } else {
        let prev = reserve_input(hs, task_id, input, n - 1);
        let il = input.levels[n - 1];
        let i = il.level_idx as int;
        if i < prev.len() {
            prev.update(
                i,
                HandlerView {
                    level: prev[i].level,
                    tasks: prev[i].tasks.push(task_for(task_id, input.target_level, il.files)),
                },
            )
        } else {
            prev
        }
    }
}

/// Some file of `files` is held by a task of `h`.
pub open spec fn any_reserved(h: HandlerView, files: Seq<SstView>) -> bool {
    exists|k: int| 0 <= k < files.len() && reserved(h.tasks, #[trigger] files[k].id)
}

/// The files of the sub-levels `subs[start..end]`, oldest sub-level first.
pub open spec fn flatten(subs: Seq<Level>, start: int, end: int) -> Seq<SstView>
    decreases end - start,
{
    if end <= start {
        Seq::empty()
    } else {
        flatten(subs, start, end - 1) + files_view(subs[end - 1].table_infos@)
    }
}

/// The files of `files` whose key range meets `r`, in order.
pub open spec fn overlapping(files: Seq<SstView>, r: KeyRange) -> Seq<SstView>
    decreases files.len(),
{
    if files.len() == 0 {
        files
    } else if files.last().key_range.spec_overlaps(r) {
        overlapping(files.drop_last(), r).push(files.last())
    } else {
        overlapping(files.drop_last(), r)
    }
}

/// The smallest left bound among `files`, which must not be empty.
pub open spec fn min_left(files: Seq<SstView>) -> u64
    decreases files.len(),
{
    if files.len() <= 1 {
        files[0].key_range.left
    } else {
        let m = min_left(files.drop_last());
        if files.last().key_range.left < m {
            files.last().key_range.left
        } else {
            m
        }
    }
}

/// The largest right bound among `files`, which must not be empty.
pub open spec fn max_right(files: Seq<SstView>) -> u64
    decreases files.len(),
{
    if files.len() <= 1 {
        files[0].key_range.right
    } else {
        let m = max_right(files.drop_last());
        if files.last().key_range.right > m {
            files.last().key_range.right
        } else {
            m
        }
    }
}

/// The inclusive range from the smallest to the largest key of `files`.
pub open spec fn union_range(files: Seq<SstView>) -> KeyRange {
    KeyRange { left: min_left(files), right: max_right(files), right_exclusive: false }
}

/// Every file of every input level is free in the handler of its level.
pub open spec fn input_unreserved(inp: InputView, hs: Seq<HandlerView>) -> bool {
    forall|k: int|
        0 <= k < inp.levels.len() && (inp.levels[k].level_idx as int) < hs.len() ==> !any_reserved(
            hs[inp.levels[k].level_idx as int],
            #[trigger] inp.levels[k].files,
        )
}

/// An input of two levels whose second level either is another level than the first or
/// reads no file.
pub open spec fn two_distinct_levels(inp: InputView) -> bool {
    &&& inp.levels.len() == 2
    &&& inp.levels[0].level_idx == inp.levels[1].level_idx ==> inp.levels[1].files.len() == 0
}

/// No sub-level of `subs[start..end]` holds a reserved file.
pub open spec fn sub_levels_free(subs: Seq<Level>, h: HandlerView, start: int, end: int) -> bool {
    forall|i: int|
        start <= i < end ==> !any_reserved(h, files_view(#[trigger] subs[i].table_infos@))
}

/// The files of free sub-levels are free.
pub proof fn lemma_flatten_free(subs: Seq<Level>, h: HandlerView, start: int, end: int)
    requires
        0 <= start,
        end <= subs.len(),
        sub_levels_free(subs, h, start, end),
    ensures
        !any_reserved(h, flatten(subs, start, end)),
    decreases end - start,
{
    if end > start {
        lemma_flatten_free(subs, h, start, end - 1);
        let a = flatten(subs, start, end - 1);
        let b = files_view(subs[end - 1].table_infos@);
        assert(!any_reserved(h, b));
        assert forall|k: int| 0 <= k < a.len() + b.len() implies !reserved(
            h.tasks,
            #[trigger] (a + b)[k].id,
        ) by {
            if k < a.len() {
                assert((a + b)[k] == a[k]);
            } else {
                assert((a + b)[k] == b[k - a.len()]);
            }
        }
    }
}

pub(crate) proof fn lemma_reserve_len(hs: Seq<HandlerView>, task_id: u64, inp: InputView, n: int)
    ensures
        reserve_input(hs, task_id, inp, n).len() == hs.len(),
    decreases n,
{
    if n > 0 {
        lemma_reserve_len(hs, task_id, inp, n - 1);
    }
}

proof fn lemma_reserve_remove_step(hs: Seq<HandlerView>, task_id: u64, inp: InputView, n: int, i: int)
    requires
        0 <= i < hs.len(),
    ensures
        without_task(reserve_input(hs, task_id, inp, n)[i].tasks, task_id) == without_task(
            hs[i].tasks,
            task_id,
        ),
    decreases n,
{
    if n > 0 {
        lemma_reserve_len(hs, task_id, inp, n - 1);
        lemma_reserve_remove_step(hs, task_id, inp, n - 1, i);
        let prev = reserve_input(hs, task_id, inp, n - 1);
        let idx = inp.levels[n - 1].level_idx as int;
        if idx == i {
            let t = task_for(task_id, inp.target_level, inp.levels[n - 1].files);
            assert(prev[i].tasks.push(t).drop_last() =~= prev[i].tasks);
        }
    }
}

/// Releasing a task from every handler right after reserving its input, when no earlier
/// reservation carried its id, gives back every handler's reservations as they were.
pub proof fn lemma_reserve_then_remove(hs: Seq<HandlerView>, task_id: u64, inp: InputView)
    requires
        forall|i: int, j: int|
            0 <= i < hs.len() && 0 <= j < hs[i].tasks.len() ==> #[trigger] hs[i].tasks[j].task_id
                != task_id,
    ensures
        forall|i: int|
            0 <= i < hs.len() ==> without_task(
                #[trigger] reserve_input(hs, task_id, inp, inp.levels.len() as int)[i].tasks,
                task_id,
            ) == hs[i].tasks,
{
    assert forall|i: int| 0 <= i < hs.len() implies without_task(
        #[trigger] reserve_input(hs, task_id, inp, inp.levels.len() as int)[i].tasks,
        task_id,
    ) == hs[i].tasks by {
        lemma_reserve_remove_step(hs, task_id, inp, inp.levels.len() as int, i);
        assert forall|j: int| 0 <= j < hs[i].tasks.len() implies #[trigger] hs[i].tasks[j].task_id
            != task_id by {
            assert(hs[i].tasks[j].task_id != task_id);
        }
        lemma_without_absent_task(hs[i].tasks, task_id);
    }
}

/// The files of level `level`, level 0 taken sub-level by sub-level, oldest first.
pub open spec fn level_files(levels: Levels, level: int) -> Seq<SstView> {
    if level == 0 {
        flatten(levels.l0.sub_levels@, 0, levels.l0.sub_levels@.len() as int)
    } else {
        files_view(levels.levels@[level - 1].table_infos@)
    }
}

/// Every input level exists in the snapshot, and every input file is a file of the level
/// it is read from.
pub open spec fn input_in_place(inp: InputView, levels: Levels) -> bool {
    &&& forall|k: int|
        0 <= k < inp.levels.len() ==> (#[trigger] inp.levels[k]).level_idx <= levels.levels@.len()
    &&& forall|k: int, a: int|
        0 <= k < inp.levels.len() && 0 <= a < inp.levels[k].files.len() ==> level_files(
            levels,
            inp.levels[k].level_idx as int,
        ).contains(#[trigger] inp.levels[k].files[a])
}

/// Each handler reserves only ids that no other level's files carry.
pub open spec fn reservations_in_place(levels: Levels, hs: Seq<HandlerView>) -> bool {
    forall|h: int, l: int, x: SstView|
        0 <= h < hs.len() && 0 <= l <= levels.levels@.len() && l != h && #[trigger] level_files(
            levels,
            l,
        ).contains(x) ==> !#[trigger] reserved(hs[h].tasks, x.id)
}

/// Files that were free at their own level, read from where they are, are free in every
/// handler when reservations stay at their own level.
pub proof fn lemma_free_everywhere(inp: InputView, levels: Levels, hs: Seq<HandlerView>)
    requires
        hs.len() > levels.levels@.len(),
        input_unreserved(inp, hs),
        input_in_place(inp, levels),
        reservations_in_place(levels, hs),
    ensures
        input_free_everywhere(inp, hs),
{
    assert forall|k: int, a: int, h: int|
        0 <= k < inp.levels.len() && 0 <= a < inp.levels[k].files.len() && 0 <= h < hs.len()
            implies !reserved(#[trigger] hs[h].tasks, (#[trigger] inp.levels[k].files[a]).id) by {
        let f = inp.levels[k].files[a];
        let l = inp.levels[k].level_idx as int;
        assert(level_files(levels, l).contains(f));
        if h == l {
            assert(!any_reserved(hs[l], inp.levels[k].files));
            if reserved(hs[h].tasks, f.id) {
                assert(reserved(hs[l].tasks, inp.levels[k].files[a].id));
            }
        }
    }
}

/// No file id is held by two tasks with different ids, in any handlers.
pub open spec fn global_exclusive(hs: Seq<HandlerView>) -> bool {
    forall|h1: int, h2: int, i: int, j: int, a: int, b: int|
        0 <= h1 < hs.len() && 0 <= h2 < hs.len() && 0 <= i < hs[h1].tasks.len() && 0 <= j
            < hs[h2].tasks.len() && 0 <= a < hs[h1].tasks[i].ssts.len() && 0 <= b
            < hs[h2].tasks[j].ssts.len() && #[trigger] hs[h1].tasks[i].ssts[a]
            == #[trigger] hs[h2].tasks[j].ssts[b] ==> hs[h1].tasks[i].task_id
            == hs[h2].tasks[j].task_id
}

/// `flatten` splits at any sub-level in between.
pub proof fn lemma_flatten_split(subs: Seq<Level>, a: int, b: int, c: int)
    requires
        a <= b <= c,
    ensures
        flatten(subs, a, c) == flatten(subs, a, b) + flatten(subs, b, c),
    decreases c - b,
{
    if c > b {
        lemma_flatten_split(subs, a, b, c - 1);
        assert(flatten(subs, a, c) =~= flatten(subs, a, b) + flatten(subs, b, c));
    } else {
        assert(flatten(subs, a, c) =~= flatten(subs, a, b) + flatten(subs, b, c));
    }
}

/// The files of a run of sub-levels are level-0 files.
pub proof fn lemma_flatten_in_level(levels: Levels, s: int, e: int, x: SstView)
    requires
        0 <= s <= e <= levels.l0.sub_levels@.len(),
        flatten(levels.l0.sub_levels@, s, e).contains(x),
    ensures
        level_files(levels, 0).contains(x),
{
    let subs = levels.l0.sub_levels@;
    let n = subs.len() as int;
    lemma_flatten_split(subs, 0, s, e);
    lemma_flatten_split(subs, 0, e, n);
    let mid = flatten(subs, s, e);
    let k = choose|k: int| 0 <= k < mid.len() && mid[k] == x;
    let pre = flatten(subs, 0, s);
    assert(flatten(subs, 0, n)[pre.len() + k] == x);
}

/// What meets a range is among the files it was taken from.
pub proof fn lemma_overlapping_subset(files: Seq<SstView>, r: KeyRange, x: SstView)
    requires
        overlapping(files, r).contains(x),
    ensures
        files.contains(x),
    decreases files.len(),
{
    if files.len() > 0 {
        let rest = overlapping(files.drop_last(), r);
        if files.last().key_range.spec_overlaps(r) && x != files.last() {
            let k = choose|k: int| 0 <= k < rest.push(files.last()).len() && rest.push(files.last())[k] == x;
            assert(rest[k] == x);
            lemma_overlapping_subset(files.drop_last(), r, x);
        } else if !files.last().key_range.spec_overlaps(r) {
            lemma_overlapping_subset(files.drop_last(), r, x);
        }
        if files.drop_last().contains(x) {
            let k = choose|k: int| 0 <= k < files.drop_last().len() && files.drop_last()[k] == x;
            assert(files[k] == x);
        } else {
            assert(files[files.len() - 1] == x);
        }
    }
}

/// `t` is the reservation that task `task_id` made at level `h` for one of the first `n`
/// input levels of `inp`.
pub open spec fn reserved_by_input(task_id: u64, inp: InputView, h: int, n: int, t: TaskView) -> bool {
    exists|k: int|
        0 <= k < n && inp.levels[k].level_idx == h && t == task_for(
            task_id,
            inp.target_level,
            inp.levels[k].files,
        )
}

proof fn lemma_reserve_shape(hs: Seq<HandlerView>, task_id: u64, inp: InputView, n: int)
    requires
        0 <= n <= inp.levels.len(),
    ensures
        reserve_input(hs, task_id, inp, n).len() == hs.len(),
        forall|h: int|
            0 <= h < hs.len() ==> (#[trigger] reserve_input(hs, task_id, inp, n)[h]).tasks.len()
                >= hs[h].tasks.len(),
        forall|h: int, i: int|
            0 <= h < hs.len() && 0 <= i < hs[h].tasks.len() ==> #[trigger] reserve_input(
                hs,
                task_id,
                inp,
                n,
            )[h].tasks[i] == hs[h].tasks[i],
        forall|h: int, i: int|
            0 <= h < hs.len() && hs[h].tasks.len() <= i < reserve_input(hs, task_id, inp, n)[h].tasks.len()
                ==> reserved_by_input(
                task_id,
                inp,
                h,
                n,
                #[trigger] reserve_input(hs, task_id, inp, n)[h].tasks[i],
            ),
        forall|k: int|
            0 <= k < n && ((#[trigger] inp.levels[k]).level_idx as int) < hs.len() ==> exists|i: int|
                0 <= i < reserve_input(hs, task_id, inp, n)[inp.levels[k].level_idx as int].tasks.len()
                    && reserve_input(hs, task_id, inp, n)[inp.levels[k].level_idx as int].tasks[i]
                    == task_for(task_id, inp.target_level, inp.levels[k].files),
    decreases n,
{
    lemma_reserve_len(hs, task_id, inp, n);
    if n > 0 {
        lemma_reserve_shape(hs, task_id, inp, n - 1);
        let prev = reserve_input(hs, task_id, inp, n - 1);
        let cur = reserve_input(hs, task_id, inp, n);
        let idx = inp.levels[n - 1].level_idx as int;
        let t = task_for(task_id, inp.target_level, inp.levels[n - 1].files);
        assert forall|h: int, i: int|
            0 <= h < hs.len() && hs[h].tasks.len() <= i < cur[h].tasks.len() implies reserved_by_input(
                task_id,
                inp,
                h,
                n,
                #[trigger] cur[h].tasks[i],
            ) by {
            if h == idx && i == prev[h].tasks.len() {
                assert(cur[h].tasks[i] == t);
                assert(0 <= n - 1 < n && inp.levels[n - 1].level_idx == h && cur[h].tasks[i]
                    == task_for(task_id, inp.target_level, inp.levels[n - 1].files));
            } else {
                assert(cur[h].tasks[i] == prev[h].tasks[i]);
                assert(reserved_by_input(task_id, inp, h, n - 1, prev[h].tasks[i]));
                let k = choose|k: int|
                    0 <= k < n - 1 && inp.levels[k].level_idx == h && prev[h].tasks[i]
                        == task_for(task_id, inp.target_level, inp.levels[k].files);
                assert(0 <= k < n && inp.levels[k].level_idx == h && cur[h].tasks[i]
                    == task_for(task_id, inp.target_level, inp.levels[k].files));
            }
        }
        assert forall|k: int|
            0 <= k < n && ((#[trigger] inp.levels[k]).level_idx as int) < hs.len() implies exists|i: int|
                0 <= i < cur[inp.levels[k].level_idx as int].tasks.len()
                    && cur[inp.levels[k].level_idx as int].tasks[i]
                    == task_for(task_id, inp.target_level, inp.levels[k].files) by {
            let h = inp.levels[k].level_idx as int;
            if k == n - 1 {
                let i = prev[h].tasks.len() as int;
                assert(cur[h].tasks[i] == t);
                assert(0 <= i < cur[h].tasks.len() && cur[h].tasks[i] == task_for(
                    task_id,
                    inp.target_level,
                    inp.levels[k].files,
                ));
            } else {
                let i = choose|i: int|
                    0 <= i < prev[h].tasks.len() && #[trigger] prev[h].tasks[i]
                        == task_for(task_id, inp.target_level, inp.levels[k].files);
                assert(cur[h].tasks[i] == prev[h].tasks[i]);
                assert(0 <= i < cur[h].tasks.len() && cur[h].tasks[i] == task_for(
                    task_id,
                    inp.target_level,
                    inp.levels[k].files,
                ));
            }
        }
    }
}

/// No handler holds any file of `inp`.
pub open spec fn input_free_everywhere(inp: InputView, hs: Seq<HandlerView>) -> bool {
    forall|k: int, a: int, h: int|
        0 <= k < inp.levels.len() && 0 <= a < inp.levels[k].files.len() && 0 <= h < hs.len()
            ==> !reserved(#[trigger] hs[h].tasks, (#[trigger] inp.levels[k].files[a]).id)
}

proof fn lemma_new_task_id(
    hs: Seq<HandlerView>,
    task_id: u64,
    inp: InputView,
    h: int,
    i: int,
    a: int,
)
    requires
        0 <= h < hs.len(),
        hs[h].tasks.len() <= i < reserve_input(hs, task_id, inp, inp.levels.len() as int)[h].tasks.len(),
        0 <= a < reserve_input(hs, task_id, inp, inp.levels.len() as int)[h].tasks[i].ssts.len(),
        reserved_by_input(
            task_id,
            inp,
            h,
            inp.levels.len() as int,
            reserve_input(hs, task_id, inp, inp.levels.len() as int)[h].tasks[i],
        ),
    ensures
        reserve_input(hs, task_id, inp, inp.levels.len() as int)[h].tasks[i].task_id == task_id,
        exists|k: int, c: int|
            0 <= k < inp.levels.len() && 0 <= c < inp.levels[k].files.len()
                && reserve_input(hs, task_id, inp, inp.levels.len() as int)[h].tasks[i].ssts[a]
                == (#[trigger] inp.levels[k].files[c]).id,
{
    let t = reserve_input(hs, task_id, inp, inp.levels.len() as int)[h].tasks[i];
    let k = choose|k: int|
        0 <= k < inp.levels.len() && inp.levels[k].level_idx == h && t == task_for(
            task_id,
            inp.target_level,
            inp.levels[k].files,
        );
    assert(t.ssts[a] == inp.levels[k].files[a].id);
}

/// Reserving an input of which no handler holds any file keeps every file id with at most
/// one task across all handlers.
pub proof fn lemma_reserve_keeps_global_exclusive(hs: Seq<HandlerView>, task_id: u64, inp: InputView)
    requires
        global_exclusive(hs),
        input_free_everywhere(inp, hs),
    ensures
        global_exclusive(reserve_input(hs, task_id, inp, inp.levels.len() as int)),
{
    let n = inp.levels.len() as int;
    lemma_reserve_shape(hs, task_id, inp, n);
    let r = reserve_input(hs, task_id, inp, n);
    assert forall|h1: int, h2: int, i: int, j: int, a: int, b: int|
        0 <= h1 < r.len() && 0 <= h2 < r.len() && 0 <= i < r[h1].tasks.len() && 0 <= j
            < r[h2].tasks.len() && 0 <= a < r[h1].tasks[i].ssts.len() && 0 <= b
            < r[h2].tasks[j].ssts.len() && #[trigger] r[h1].tasks[i].ssts[a]
            == #[trigger] r[h2].tasks[j].ssts[b] implies r[h1].tasks[i].task_id
            == r[h2].tasks[j].task_id by {
        let old1 = i < hs[h1].tasks.len();
        let old2 = j < hs[h2].tasks.len();
        if old1 && old2 {
            assert(r[h1].tasks[i] == hs[h1].tasks[i]);
            assert(r[h2].tasks[j] == hs[h2].tasks[j]);
        } else if !old1 && !old2 {
            lemma_new_task_id(hs, task_id, inp, h1, i, a);
            lemma_new_task_id(hs, task_id, inp, h2, j, b);
        } else if !old1 {
            lemma_new_task_id(hs, task_id, inp, h1, i, a);
            let (k, c) = choose|k: int, c: int|
                0 <= k < inp.levels.len() && 0 <= c < inp.levels[k].files.len()
                    && r[h1].tasks[i].ssts[a] == (#[trigger] inp.levels[k].files[c]).id;
            assert(r[h2].tasks[j] == hs[h2].tasks[j]);
            assert(!reserved(hs[h2].tasks, inp.levels[k].files[c].id));
            assert(hs[h2].tasks[j].ssts[b] == inp.levels[k].files[c].id);
        } else {
            lemma_new_task_id(hs, task_id, inp, h2, j, b);
            let (k, c) = choose|k: int, c: int|
                0 <= k < inp.levels.len() && 0 <= c < inp.levels[k].files.len()
                    && r[h2].tasks[j].ssts[b] == (#[trigger] inp.levels[k].files[c]).id;
            assert(r[h1].tasks[i] == hs[h1].tasks[i]);
            assert(!reserved(hs[h1].tasks, inp.levels[k].files[c].id));
            assert(hs[h1].tasks[i].ssts[a] == inp.levels[k].files[c].id);
        }
    }
}

/// Every input file is held under `task_id` in the handler of its level.
pub open spec fn input_held(inp: InputView, hs: Seq<HandlerView>, task_id: u64) -> bool {
    forall|k: int, a: int|
        0 <= k < inp.levels.len() && (inp.levels[k].level_idx as int) < hs.len() && 0 <= a
            < inp.levels[k].files.len() ==> exists|i: int, c: int|
            0 <= i < hs[inp.levels[k].level_idx as int].tasks.len() && 0 <= c
                < hs[inp.levels[k].level_idx as int].tasks[i].ssts.len()
                && hs[inp.levels[k].level_idx as int].tasks[i].task_id == task_id
                && hs[inp.levels[k].level_idx as int].tasks[i].ssts[c]
                == (#[trigger] inp.levels[k].files[a]).id
}

/// After reserving, every input file is held under `task_id` in the handler of its level.
pub proof fn lemma_reserve_holds_input(hs: Seq<HandlerView>, task_id: u64, inp: InputView)
    ensures
        input_held(inp, reserve_input(hs, task_id, inp, inp.levels.len() as int), task_id),
{
    let n = inp.levels.len() as int;
    lemma_reserve_shape(hs, task_id, inp, n);
    let r = reserve_input(hs, task_id, inp, n);
    assert forall|k: int, a: int|
        0 <= k < inp.levels.len() && (inp.levels[k].level_idx as int) < hs.len() && 0 <= a
            < inp.levels[k].files.len() implies exists|i: int, c: int|
            0 <= i < r[inp.levels[k].level_idx as int].tasks.len() && 0 <= c
                < r[inp.levels[k].level_idx as int].tasks[i].ssts.len()
                && r[inp.levels[k].level_idx as int].tasks[i].task_id == task_id
                && r[inp.levels[k].level_idx as int].tasks[i].ssts[c]
                == (#[trigger] inp.levels[k].files[a]).id by {
        let h = inp.levels[k].level_idx as int;
        let i = choose|i: int|
            0 <= i < r[h].tasks.len() && r[h].tasks[i] == task_for(
                task_id,
                inp.target_level,
                inp.levels[k].files,
            );
        assert(r[h].tasks[i].ssts[a] == inp.levels[k].files[a].id);
    }
}

/// Reserving an input whose files are free, where every handler already kept each file
/// with one task, keeps each file with one task in every handler.
pub proof fn lemma_reserve_keeps_exclusive(hs: Seq<HandlerView>, task_id: u64, inp: InputView)
    requires
        forall|i: int| 0 <= i < hs.len() ==> exclusive(#[trigger] hs[i].tasks),
        input_unreserved(inp, hs),
        two_distinct_levels(inp),
    ensures
        reserve_input(hs, task_id, inp, inp.levels.len() as int).len() == hs.len(),
        forall|i: int|
            0 <= i < hs.len() ==> exclusive(
                #[trigger] reserve_input(hs, task_id, inp, inp.levels.len() as int)[i].tasks,
            ),
{
    lemma_reserve_len(hs, task_id, inp, inp.levels.len() as int);
    let l0 = inp.levels[0];
    let l1 = inp.levels[1];
    let first = reserve_input(hs, task_id, inp, 1);
    assert(reserve_input(hs, task_id, inp, 0) == hs);
    let i0 = l0.level_idx as int;
    let i1 = l1.level_idx as int;
    if i0 < hs.len() {
        assert(!any_reserved(hs[i0], l0.files));
        lemma_add_keeps_exclusive(hs[i0].tasks, task_id, inp.target_level, l0.files);
    }
    assert(forall|i: int| 0 <= i < first.len() ==> exclusive(#[trigger] first[i].tasks));
    if i1 < first.len() {
        if i1 != i0 {
            assert(first[i1] == hs[i1]);
            assert(!any_reserved(hs[i1], l1.files));
        } else {
            assert(l1.files.len() == 0);
        }
        lemma_add_keeps_exclusive(first[i1].tasks, task_id, inp.target_level, l1.files);
    }
}

impl CompactionInput {
    /// Reserves every input file for task `task_id` in the handler of its level.
    pub fn add_pending_task(&self, task_id: u64, handlers: &mut Vec<LevelHandler>)
        ensures
            handler_views(final(handlers)@) == reserve_input(
                handler_views(old(handlers)@),
                task_id,
                self@,
                self@.levels.len() as int,
            ),
    {
        let ghost hs0 = handler_views(handlers@);
        let mut k: usize = 0;
        while k < self.input_levels.len()
            invariant
                k <= self.input_levels@.len(),
                handlers@.len() == hs0.len(),
                handler_views(handlers@) == reserve_input(hs0, task_id, self@, k as int),
            decreases self.input_levels@.len() - k,
        {
            let il = &self.input_levels[k];
            let idx = il.level_idx as usize;
            assert(self@.levels[k as int] == il@);
            if idx < handlers.len() {
                handlers[idx].add_pending_task(task_id, self.target_level, &il.table_infos);
            }
            assert(handler_views(handlers@) =~= reserve_input(hs0, task_id, self@, k + 1));
            k += 1;
        }
    }
}

/// Whether some file of `files` is held by a task of `h`.
pub fn files_pending(h: &LevelHandler, files: &Vec<SstableInfo>) -> (r: bool)
    ensures
        r == any_reserved(h@, files_view(files@)),
{
    let r = h.is_any_pending(files);
    proof {
        if r {
            let k = choose|k: int| 0 <= k < files@.len() && reserved(h@.tasks, #[trigger] files@[k].id);
            assert(files_view(files@)[k].id == files@[k].id);
        }
        if any_reserved(h@, files_view(files@)) {
            let k = choose|k: int|
                0 <= k < files_view(files@).len() && reserved(h@.tasks, #[trigger] files_view(files@)[k].id);
            assert(files@[k].id == files_view(files@)[k].id);
        }
    }
    r
}

/// Copies of the files of `subs[start..end]`, oldest sub-level first.
pub fn collect_sub_level_files(subs: &Vec<Level>, start: usize, end: usize) -> (r: Vec<SstableInfo>)
    requires
        start <= end <= subs@.len(),
    ensures
        files_view(r@) == flatten(subs@, start as int, end as int),
{
    let mut out: Vec<SstableInfo> = Vec::new();
    let mut j: usize = start;
    assert(files_view(out@) =~= flatten(subs@, start as int, start as int));
    while j < end
        invariant
            start <= j <= end <= subs@.len(),
            files_view(out@) == flatten(subs@, start as int, j as int),
        decreases end - j,
    {
        let files = &subs[j].table_infos;
        let ghost base = files_view(out@);
        let mut k: usize = 0;
        while k < files.len()
            invariant
                k <= files@.len(),
                files_view(out@) == base + files_view(files@).subrange(0, k as int),
            decreases files@.len() - k,
        {
            let ghost prev = out@;
            let f = files[k].duplicate();
            out.push(f);
            assert(files_view(out@) =~= files_view(prev).push(f@));
            assert(files_view(files@).subrange(0, k + 1) =~= files_view(files@).subrange(0, k as int).push(f@));
            k += 1;
            assert(files_view(out@) =~= base + files_view(files@).subrange(0, k as int));
        }
        assert(files_view(files@).subrange(0, k as int) =~= files_view(files@));
        j += 1;
    }
    out
}

/// Copies of the files of `files` whose range meets `r`, in order.
pub fn collect_overlapping(files: &Vec<SstableInfo>, r: &KeyRange) -> (out: Vec<SstableInfo>)
    ensures
        files_view(out@) == overlapping(files_view(files@), *r),
{
    let mut out: Vec<SstableInfo> = Vec::new();
    let mut k: usize = 0;
    while k < files.len()
        invariant
            k <= files@.len(),
            files_view(out@) == overlapping(files_view(files@).subrange(0, k as int), *r),
        decreases files@.len() - k,
    {
        let ghost pre = files_view(files@).subrange(0, k as int);
        let ghost next = files_view(files@).subrange(0, k + 1);
        assert(next.drop_last() =~= pre);
        if files[k].key_range.overlaps(r) {
            out.push(files[k].duplicate());
            assert(files_view(out@) =~= overlapping(pre, *r).push(files[k as int]@));
        }
        k += 1;
    }
    assert(files_view(files@).subrange(0, k as int) =~= files_view(files@));
    out
}

/// The inclusive range covering every file of `files`, which must not be empty.
pub fn union_key_range(files: &Vec<SstableInfo>) -> (r: KeyRange)
    requires
        files@.len() > 0,
    ensures
        r == union_range(files_view(files@)),
{
    let mut left = files[0].key_range.left;
    let mut right = files[0].key_range.right;
    let mut k: usize = 1;
    while k < files.len()
        invariant
            1 <= k <= files@.len(),
            left == min_left(files_view(files@).subrange(0, k as int)),
            right == max_right(files_view(files@).subrange(0, k as int)),
        decreases files@.len() - k,
    {
        let ghost next = files_view(files@).subrange(0, k + 1);
        assert(next.drop_last() =~= files_view(files@).subrange(0, k as int));
        if files[k].key_range.left < left {
            left = files[k].key_range.left;
        }
        if files[k].key_range.right > right {
            right = files[k].key_range.right;
        }
        k += 1;
    }
    assert(files_view(files@).subrange(0, k as int) =~= files_view(files@));
    KeyRange { left, right, right_exclusive: false }
}

} // verus!
