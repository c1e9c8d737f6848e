//! Rewriting files whose contents are all dead: of dropped tables, or past their time to live.
use vstd::prelude::*;
use crate::level_handler::{handler_views, reserved, HandlerView, LevelHandler};
use crate::model::{
    contains_u32, files_view, sat_add, Level, LevelType, Levels, SstView, SstableInfo,
};
use crate::picker::{
    any_reserved, input_in_place, input_unreserved, level_files, opt_view, two_distinct_levels,
    two_level_input, CompactionInput, InputLevel, InputView,
};

verus! {

/// Which files are dead.
#[derive(Clone, Copy, Debug, PartialEq, Eq, Structural)]
pub enum ReclaimRule {
    /// Files holding no table of the live set.
    DroppedTables,
    /// Files whose every key is stale.
    Expired,
}

/// The file holds nothing that `rule` keeps alive.
pub open spec fn is_reclaimable(f: SstView, rule: ReclaimRule, live: Seq<u32>) -> bool {
    match rule {
        ReclaimRule::DroppedTables => forall|k: int|
            0 <= k < f.table_ids.len() ==> !live.contains(#[trigger] f.table_ids[k]),
        ReclaimRule::Expired => f.total_key_count > 0 && f.stale_key_count >= f.total_key_count,
    }
}

/// Dead files of `files[..n]` taken in order, unreserved ones only, until the bytes taken
/// reach `budget`; and those bytes.
pub open spec fn reclaim_take(
    files: Seq<SstView>,
    h: HandlerView,
    rule: ReclaimRule,
    live: Seq<u32>,
    budget: int,
    n: int,
) -> (Seq<SstView>, int)
    decreases n,
{
    if n <= 0 {
        (Seq::empty(), 0)
    } else {
        let (taken, acc) = reclaim_take(files, h, rule, live, budget, n - 1);
        let f = files[n - 1];
        if acc >= budget || !is_reclaimable(f, rule, live) || reserved(h.tasks, f.id) {
            (taken, acc)
        } else {
            (taken.push(f), sat_add(acc, f.file_size as int))
        }
    }
}

/// What reclaiming takes from level `level`, which is `levels[level - 1]`.
pub open spec fn level_take(
    levels: Seq<Level>,
    hs: Seq<HandlerView>,
    rule: ReclaimRule,
    live: Seq<u32>,
    budget: int,
    level: int,
) -> Seq<SstView> {
    let files = files_view(levels[level - 1].table_infos@);
    reclaim_take(files, hs[level], rule, live, budget, files.len() as int).0
}

/// The deepest level among `1..=n` from which reclaiming takes something, or 0.
pub open spec fn reclaim_level(
    levels: Seq<Level>,
    hs: Seq<HandlerView>,
    rule: ReclaimRule,
    live: Seq<u32>,
    budget: int,
    n: int,
) -> int
    decreases n,
{
    if n <= 0 {
        0
    } else if level_take(levels, hs, rule, live, budget, n).len() > 0 {
        n
    } else {
        reclaim_level(levels, hs, rule, live, budget, n - 1)
    }
}

/// What a reclaim picker selects: the dead files taken from the deepest level that has
/// any, rewritten in place.
pub open spec fn spec_reclaim_pick(
    rule: ReclaimRule,
    live: Seq<u32>,
    budget: int,
    levels: Levels,
    hs: Seq<HandlerView>,
) -> Option<InputView> {
    let ls = levels.levels@;
    let l = reclaim_level(ls, hs, rule, live, budget, ls.len() as int);
    if l == 0 {
        None
    } else {
        Some(
            two_level_input(
                l,
                LevelType::Nonoverlapping,
                level_take(ls, hs, rule, live, budget, l),
                l,
                Seq::empty(),
                0,
            ),
        )
    }
}

proof fn lemma_take_free(
    files: Seq<SstView>,
    h: HandlerView,
    rule: ReclaimRule,
    live: Seq<u32>,
    budget: int,
    n: int,
)
    ensures
        !any_reserved(h, reclaim_take(files, h, rule, live, budget, n).0),
    decreases n,
{
    if n > 0 {
        lemma_take_free(files, h, rule, live, budget, n - 1);
        let (taken, acc) = reclaim_take(files, h, rule, live, budget, n - 1);
        let t = reclaim_take(files, h, rule, live, budget, n).0;
        assert forall|k: int| 0 <= k < t.len() implies !reserved(h.tasks, #[trigger] t[k].id) by {
            if k < taken.len() {
                assert(t[k] == taken[k]);
            }
        }
    }
}

proof fn lemma_reclaim_level(
    levels: Seq<Level>,
    hs: Seq<HandlerView>,
    rule: ReclaimRule,
    live: Seq<u32>,
    budget: int,
    n: int,
)
    requires
        0 <= n,
    ensures
        0 <= reclaim_level(levels, hs, rule, live, budget, n) <= n,
    decreases n,
{
    if n > 0 {
        lemma_reclaim_level(levels, hs, rule, live, budget, n - 1);
    }
}

/// A reclaim picker selects only free files, and reads none from its target.
pub proof fn lemma_reclaim_pick_free(
    rule: ReclaimRule,
    live: Seq<u32>,
    budget: int,
    levels: Levels,
    hs: Seq<HandlerView>,
)
    requires
        hs.len() > levels.levels@.len(),
        levels.levels@.len() < u32::MAX,
    ensures
        spec_reclaim_pick(rule, live, budget, levels, hs) matches Some(inp) ==> input_unreserved(
            inp,
            hs,
        ) && two_distinct_levels(inp),
{
    let ls = levels.levels@;
    lemma_reclaim_level(ls, hs, rule, live, budget, ls.len() as int);
    let l = reclaim_level(ls, hs, rule, live, budget, ls.len() as int);
    if l != 0 {
        let files = files_view(ls[l - 1].table_infos@);
        lemma_take_free(files, hs[l], rule, live, budget, files.len() as int);
        let inp = spec_reclaim_pick(rule, live, budget, levels, hs)->0;
        assert(!any_reserved(hs[l], inp.levels[1].files));
    }
}

proof fn lemma_take_subset(
    files: Seq<SstView>,
    h: HandlerView,
    rule: ReclaimRule,
    live: Seq<u32>,
    budget: int,
    n: int,
    x: SstView,
)
    requires
        0 <= n <= files.len(),
        reclaim_take(files, h, rule, live, budget, n).0.contains(x),
    ensures
        files.contains(x),
    decreases n,
{
    if n > 0 {
        let (taken, acc) = reclaim_take(files, h, rule, live, budget, n - 1);
        let t = reclaim_take(files, h, rule, live, budget, n).0;
        let k = choose|k: int| 0 <= k < t.len() && t[k] == x;
        if k < taken.len() {
            assert(taken[k] == x);
            lemma_take_subset(files, h, rule, live, budget, n - 1, x);
        } else {
            assert(files[n - 1] == x);
        }
    }
}

/// A reclaim picker reads each file from the level that holds it.
pub proof fn lemma_reclaim_pick_in_place(
    rule: ReclaimRule,
    live: Seq<u32>,
    budget: int,
    levels: Levels,
    hs: Seq<HandlerView>,
)
    requires
        levels.levels@.len() < u32::MAX,
    ensures
        spec_reclaim_pick(rule, live, budget, levels, hs) matches Some(inp) ==> input_in_place(
            inp,
            levels,
        ),
{
    let ls = levels.levels@;
    lemma_reclaim_level(ls, hs, rule, live, budget, ls.len() as int);
    let l = reclaim_level(ls, hs, rule, live, budget, ls.len() as int);
    if let Some(inp) = spec_reclaim_pick(rule, live, budget, levels, hs) {
        let files = files_view(ls[l - 1].table_infos@);
        let taken = level_take(ls, hs, rule, live, budget, l);
        assert forall|k: int, a: int|
            0 <= k < inp.levels.len() && 0 <= a < inp.levels[k].files.len() implies level_files(
                levels,
                inp.levels[k].level_idx as int,
            ).contains(#[trigger] inp.levels[k].files[a]) by {
            let f = inp.levels[k].files[a];
            assert(taken[a] == f);
            lemma_take_subset(files, hs[l], rule, live, budget, files.len() as int, f);
        }
    }
}

/// Whether `f` holds nothing that `rule` keeps alive.
pub fn reclaimable(f: &SstableInfo, rule: ReclaimRule, live: &Vec<u32>) -> (r: bool)
    ensures
        r == is_reclaimable(f@, rule, live@),
{
    match rule {
        ReclaimRule::Expired => f.total_key_count > 0 && f.stale_key_count >= f.total_key_count,
        ReclaimRule::DroppedTables => {
            let mut k: usize = 0;
            while k < f.table_ids.len()
                invariant
                    rule == ReclaimRule::DroppedTables,
                    k <= f.table_ids@.len(),
                    forall|j: int| 0 <= j < k ==> !live@.contains(#[trigger] f.table_ids@[j]),
                decreases f.table_ids@.len() - k,
            {
                if contains_u32(live, f.table_ids[k]) {
                    assert(f@.table_ids[k as int] == f.table_ids@[k as int]);
                    return false;
                }
                k += 1;
            }
            true
        },
    }
}

/// Takes the dead, unreserved files of `files` in order until `budget` bytes are reached.
fn take_dead_files(
    files: &Vec<SstableInfo>,
    h: &LevelHandler,
    rule: ReclaimRule,
    live: &Vec<u32>,
    budget: u64,
) -> (r: Vec<SstableInfo>)
    ensures
        files_view(r@) == reclaim_take(
            files_view(files@),
            h@,
            rule,
            live@,
            budget as int,
            files@.len() as int,
        ).0,
{
    let ghost fv = files_view(files@);
    let mut taken: Vec<SstableInfo> = Vec::new();
    let mut acc: u64 = 0;
    let mut k: usize = 0;
    while k < files.len()
        invariant
            k <= files@.len(),
            fv == files_view(files@),
            (files_view(taken@), acc as int) == reclaim_take(
                fv,
                h@,
                rule,
                live@,
                budget as int,
                k as int,
            ),
        decreases files@.len() - k,
    {
        let f = &files[k];
        assert(fv[k as int] == f@);
        if acc < budget && reclaimable(f, rule, live) && !h.is_pending_compact(&f.id) {
            let ghost prev = taken@;
            let c = f.duplicate();
            taken.push(c);
            assert(files_view(taken@) =~= files_view(prev).push(c@));
            acc = acc.saturating_add(f.file_size);
        }
        k += 1;
    }
    taken
}

/// Picks dead files of the deepest level that has any.
pub fn pick_reclaim(
    levels: &Levels,
    handlers: &Vec<LevelHandler>,
    rule: ReclaimRule,
    live: &Vec<u32>,
    budget: u64,
) -> (r: Option<CompactionInput>)
    requires
        handlers@.len() > levels.levels@.len(),
    ensures
        opt_view(r) == spec_reclaim_pick(rule, live@, budget as int, *levels, handler_views(handlers@)),
{
    let ghost hs = handler_views(handlers@);
    let ghost ls = levels.levels@;
    let mut n: usize = levels.levels.len();
    while n > 0
        invariant
            n <= ls.len(),
            ls == levels.levels@,
            hs == handler_views(handlers@),
            handlers@.len() > ls.len(),
            reclaim_level(ls, hs, rule, live@, budget as int, ls.len() as int) == reclaim_level(
                ls,
                hs,
                rule,
                live@,
                budget as int,
                n as int,
            ),
        decreases n,
    {
        assert(handlers@[n as int]@ == hs[n as int]);
        let taken = take_dead_files(&levels.levels[n - 1].table_infos, &handlers[n], rule, live, budget);
        if taken.len() > 0 {
            let mut input_levels: Vec<InputLevel> = Vec::new();
            input_levels.push(
                InputLevel {
                    level_idx: n as u32,
                    level_type: LevelType::Nonoverlapping,
                    table_infos: taken,
                },
            );
            input_levels.push(
                InputLevel {
                    level_idx: n as u32,
                    level_type: LevelType::Nonoverlapping,
                    table_infos: Vec::new(),
                },
            );
            let r = CompactionInput { input_levels, target_level: n, target_sub_level_id: 0 };
            assert(r.input_levels@[1]@.files =~= Seq::<SstView>::empty());
            assert(r@.levels =~= two_level_input(
                n as int,
                LevelType::Nonoverlapping,
                level_take(ls, hs, rule, live@, budget as int, n as int),
                n as int,
                Seq::empty(),
                0,
            ).levels);
            return Some(r);
        }
        n -= 1;
    }
    None
}

/// Picks files that hold only dropped tables.
pub struct SpaceReclaimCompactionPicker {
    pub max_space_reclaim_bytes: u64,
    /// The tables that still exist, as a set: order and repeats do not matter.
    pub all_table_ids: Vec<u32>,
}

impl SpaceReclaimCompactionPicker {
    pub fn new(max_space_reclaim_bytes: u64, all_table_ids: Vec<u32>) -> (r:
        SpaceReclaimCompactionPicker)
        ensures
            r.max_space_reclaim_bytes == max_space_reclaim_bytes,
            r.all_table_ids@ == all_table_ids@,
    {
        SpaceReclaimCompactionPicker { max_space_reclaim_bytes, all_table_ids }
    }

    pub fn pick_compaction(&self, levels: &Levels, handlers: &Vec<LevelHandler>) -> (r: Option<
        CompactionInput,
    >)
        requires
            handlers@.len() > levels.levels@.len(),
        ensures
            opt_view(r) == spec_reclaim_pick(
                ReclaimRule::DroppedTables,
                self.all_table_ids@,
                self.max_space_reclaim_bytes as int,
                *levels,
                handler_views(handlers@),
            ),
    {
        pick_reclaim(
            levels,
            handlers,
            ReclaimRule::DroppedTables,
            &self.all_table_ids,
            self.max_space_reclaim_bytes,
        )
    }
}

/// Picks files whose every key has expired.
pub struct TtlReclaimCompactionPicker {
    pub max_ttl_reclaim_bytes: u64,
}

impl TtlReclaimCompactionPicker {
    pub fn new(max_ttl_reclaim_bytes: u64) -> (r: TtlReclaimCompactionPicker)
        ensures
            r.max_ttl_reclaim_bytes == max_ttl_reclaim_bytes,
    {
        TtlReclaimCompactionPicker { max_ttl_reclaim_bytes }
    }

    pub fn pick_compaction(&self, levels: &Levels, handlers: &Vec<LevelHandler>) -> (r: Option<
        CompactionInput,
    >)
        requires
            handlers@.len() > levels.levels@.len(),
        ensures
            opt_view(r) == spec_reclaim_pick(
                ReclaimRule::Expired,
                Seq::empty(),
                self.max_ttl_reclaim_bytes as int,
                *levels,
                handler_views(handlers@),
            ),
    {
        let no_tables: Vec<u32> = Vec::new();
        pick_reclaim(levels, handlers, ReclaimRule::Expired, &no_tables, self.max_ttl_reclaim_bytes)
    }
}

} // verus!
