//! The four selectors: each turns a snapshot and the handlers into at most one task per tick.
use vstd::prelude::*;
use crate::config::CompactionConfig;
use crate::level_handler::{exclusive, handler_views, reserved, HandlerView, LevelHandler};
use crate::level_picker::{
    l0_prefix, l0_prefix_end, lemma_level_pick_free, lemma_level_pick_in_place, spec_level_pick,
    LevelCompactionPicker,
};
use crate::level_selector::{
    candidates, lemma_base_level_in_range, level_candidates, pending_anomaly, sort_by_score,
    spec_base_level, DynamicLevelSelectorCore, SCORE_BASE,
};
use crate::manual_picker::{
    lemma_manual_pick_free, lemma_manual_pick_in_place, pick_manual, spec_manual_pick,
    ManualCompactionOption, ManualCompactionPicker,
};
use crate::min_overlapping_picker::{
    lemma_min_overlap_pick_free, lemma_min_overlap_pick_in_place, spec_min_overlap_pick,
    MinOverlappingPicker,
};
use crate::model::{same_id_set, same_u32_sets, Levels};
use crate::picker::{
    any_reserved, global_exclusive, input_held, input_in_place, input_unreserved,
    lemma_free_everywhere, lemma_reserve_holds_input, lemma_reserve_keeps_exclusive,
    lemma_reserve_keeps_global_exclusive, lemma_reserve_len, opt_view, reservations_in_place,
    reserve_input, two_distinct_levels, CompactionInput, InputView,
};
use crate::reclaim_picker::{
    lemma_reclaim_pick_free, lemma_reclaim_pick_in_place, spec_reclaim_pick, ReclaimRule,
    SpaceReclaimCompactionPicker, TtlReclaimCompactionPicker,
};
use crate::selector_option::{SelectorOption, SpaceReclaimCompactionSelectorOption};
use crate::task::{create_compaction_task, spec_task, CompactionTask, TaskType};
use crate::tier_picker::{
    lemma_tier_pick_free, lemma_tier_pick_in_place, spec_tier_pick, TierCompactionPicker,
};

verus! {

/// One picker, of any kind.
pub enum CompactionPicker {
    Tier(TierCompactionPicker),
    Level(LevelCompactionPicker),
    MinOverlapping(MinOverlappingPicker),
    Manual(ManualCompactionPicker),
    SpaceReclaim(SpaceReclaimCompactionPicker),
    Ttl(TtlReclaimCompactionPicker),
}

impl CompactionPicker {
    /// The picker's levels exist in a snapshot of `n_levels` levels below 0 with
    /// `n_handlers` handlers.
    pub open spec fn can_pick(&self, n_levels: int, n_handlers: int) -> bool {
        match self {
            CompactionPicker::Tier(_) => n_handlers >= 1,
            CompactionPicker::Level(p) => 1 <= p.target_level <= n_levels && p.target_level
                < n_handlers,
            CompactionPicker::MinOverlapping(p) => 1 <= p.select_level && p.target_level
                == p.select_level + 1 && p.target_level <= n_levels && p.target_level < n_handlers,
            CompactionPicker::Manual(p) => p.option.level <= n_levels && p.target_level <= n_levels
                && p.option.level < n_handlers && p.target_level < n_handlers && (p.target_level
                >= 1 || p.target_level == p.option.level),
            CompactionPicker::SpaceReclaim(_) => n_handlers > n_levels,
            CompactionPicker::Ttl(_) => n_handlers > n_levels,
        }
    }

    /// What the picker selects.
    pub open spec fn spec_pick(&self, levels: Levels, hs: Seq<HandlerView>) -> Option<InputView> {
        match self {
            CompactionPicker::Tier(p) => spec_tier_pick(
                p.level0_tier_compact_file_number as int,
                p.level0_max_compact_file_number as int,
                levels,
                hs,
            ),
            CompactionPicker::Level(p) => spec_level_pick(
                p.target_level as int,
                p.max_compaction_bytes as int,
                levels,
                hs,
            ),
            CompactionPicker::MinOverlapping(p) => spec_min_overlap_pick(
                p.select_level as int,
                p.target_level as int,
                levels,
                hs,
            ),
            CompactionPicker::Manual(p) => spec_manual_pick(
                p.option,
                p.target_level as int,
                levels,
                hs,
            ),
            CompactionPicker::SpaceReclaim(p) => spec_reclaim_pick(
                ReclaimRule::DroppedTables,
                p.all_table_ids@,
                p.max_space_reclaim_bytes as int,
                levels,
                hs,
            ),
            CompactionPicker::Ttl(p) => spec_reclaim_pick(
                ReclaimRule::Expired,
                Seq::empty(),
                p.max_ttl_reclaim_bytes as int,
                levels,
                hs,
            ),
        }
    }

    pub fn pick_compaction(&self, levels: &Levels, handlers: &Vec<LevelHandler>) -> (r: Option<
        CompactionInput,
    >)
        requires
            self.can_pick(levels.levels@.len() as int, handlers@.len() as int),
        ensures
            opt_view(r) == self.spec_pick(*levels, handler_views(handlers@)),
    {
        match self {
            CompactionPicker::Tier(p) => p.pick_compaction(levels, handlers),
            CompactionPicker::Level(p) => p.pick_compaction(levels, handlers),
            CompactionPicker::MinOverlapping(p) => p.pick_compaction(levels, handlers),
            CompactionPicker::Manual(p) => p.pick_compaction(levels, handlers),
            CompactionPicker::SpaceReclaim(p) => p.pick_compaction(levels, handlers),
            CompactionPicker::Ttl(p) => p.pick_compaction(levels, handlers),
        }
    }
}

/// The picker for the candidate `(select, target)`: intra-level-0 merge, level 0 into
/// `target`, or one file from `select` into `target`.
pub open spec fn spec_picker_for(cfg: CompactionConfig, select: int, target: int) -> CompactionPicker {
    if select == 0 {
        if target == 0 {
            CompactionPicker::Tier(
                TierCompactionPicker {
                    level0_tier_compact_file_number: cfg.level0_tier_compact_file_number,
                    level0_max_compact_file_number: cfg.level0_max_compact_file_number,
                },
            )
        } else {
            CompactionPicker::Level(
                LevelCompactionPicker {
                    target_level: target as usize,
                    max_compaction_bytes: cfg.max_compaction_bytes,
                },
            )
        }
    } else {
        CompactionPicker::MinOverlapping(
            MinOverlappingPicker { select_level: select as usize, target_level: target as usize },
        )
    }
}

impl DynamicLevelSelectorCore {
    /// The picker for the candidate `(select_level, target_level)`.
    pub fn create_compaction_picker(&self, select_level: usize, target_level: usize) -> (r:
        CompactionPicker)
        requires
            select_level == 0 || target_level == select_level + 1,
        ensures
            r == spec_picker_for(self.spec_config(), select_level as int, target_level as int),
    {
        let cfg = self.get_config();
        if select_level == 0 {
            if target_level == 0 {
                CompactionPicker::Tier(
                    TierCompactionPicker::new(
                        cfg.level0_tier_compact_file_number,
                        cfg.level0_max_compact_file_number,
                    ),
                )
            } else {
                CompactionPicker::Level(
                    LevelCompactionPicker::new(target_level, cfg.max_compaction_bytes),
                )
            }
        } else {
            CompactionPicker::MinOverlapping(MinOverlappingPicker::new(select_level, target_level))
        }
    }
}

/// A candidate names levels that exist: level 0 into a level, or one level into the next.
pub open spec fn candidate_ok(c: (u64, usize, usize), max_level: int) -> bool {
    (c.1 == 0 && c.2 <= max_level) || (c.1 >= 1 && c.2 == c.1 + 1 && c.2 <= max_level)
}

/// The input that the dynamic selector settles on, trying `cands[i..]` in order until a
/// score is at most `SCORE_BASE` or a picker selects something.
pub open spec fn dynamic_choice(
    cfg: CompactionConfig,
    levels: Levels,
    hs: Seq<HandlerView>,
    cands: Seq<(u64, usize, usize)>,
    i: int,
) -> Option<InputView>
    decreases cands.len() - i,
{
    if i < 0 || i >= cands.len() || cands[i].0 <= SCORE_BASE {
        None
    } else {
        match spec_picker_for(cfg, cands[i].1 as int, cands[i].2 as int).spec_pick(levels, hs) {
            Some(inp) => Some(inp),
            None => dynamic_choice(cfg, levels, hs, cands, i + 1),
        }
    }
}

/// Why a candidate's picker selected nothing.
#[derive(Clone, Copy, Debug, PartialEq, Eq, Structural)]
pub enum SkipReason {
    /// No run of free level-0 sub-levels was long enough to merge.
    NoTierRun,
    /// The oldest level-0 sub-level is reserved, too large, or absent.
    L0Unavailable,
    /// A target-level file in the key span of the chosen level-0 files is reserved.
    TargetPending,
    /// No file of the select level is free with all the target files it overlaps.
    NoPickableFile,
}

/// The reason recorded when the picker for `(select, target)` selects nothing.
pub open spec fn spec_skip_reason(
    cfg: CompactionConfig,
    select: int,
    target: int,
    levels: Levels,
    hs: Seq<HandlerView>,
) -> SkipReason {
    if select == 0 {
        if target == 0 {
            SkipReason::NoTierRun
        } else if l0_prefix(levels.l0.sub_levels@, hs[0], cfg.max_compaction_bytes as int, 0, 0)
            == 0 {
            SkipReason::L0Unavailable
        } else {
            SkipReason::TargetPending
        }
    } else {
        SkipReason::NoPickableFile
    }
}

/// The candidates `(select, target, reason)` whose picker was tried from `cands[i..]` and
/// selected nothing.
pub open spec fn dynamic_skips(
    cfg: CompactionConfig,
    levels: Levels,
    hs: Seq<HandlerView>,
    cands: Seq<(u64, usize, usize)>,
    i: int,
) -> Seq<(usize, usize, SkipReason)>
    decreases cands.len() - i,
{
    if i < 0 || i >= cands.len() || cands[i].0 <= SCORE_BASE {
        Seq::empty()
    } else {
        match spec_picker_for(cfg, cands[i].1 as int, cands[i].2 as int).spec_pick(levels, hs) {
            Some(_) => Seq::empty(),
            None => seq![
                (
                    cands[i].1,
                    cands[i].2,
                    spec_skip_reason(cfg, cands[i].1 as int, cands[i].2 as int, levels, hs),
                ),
            ] + dynamic_skips(cfg, levels, hs, cands, i + 1),
        }
    }
}

/// The input one dynamic tick settles on.
pub open spec fn spec_dynamic_pick(cfg: CompactionConfig, levels: Levels, hs: Seq<HandlerView>) -> Option<
    InputView,
> {
    dynamic_choice(cfg, levels, hs, sort_by_score(candidates(cfg, levels, hs)), 0)
}

/// What a tick returns and leaves in the handlers, given the input it settled on: nothing
/// and the handlers untouched, or the task built from the input with its files reserved.
pub open spec fn tick_outcome(
    choice: Option<InputView>,
    cfg: CompactionConfig,
    base_level: int,
    task_type: TaskType,
    task_id: u64,
    before: Seq<HandlerView>,
    r: Option<CompactionTask>,
    after: Seq<HandlerView>,
) -> bool {
    match choice {
        None => r is None && after == before,
        Some(inp) => r is Some && r->0@ == spec_task(cfg, inp, base_level as usize, task_type)
            && after == reserve_input(before, task_id, inp, inp.levels.len() as int),
    }
}

proof fn lemma_level_candidates_ok(cfg: CompactionConfig, levels: Levels, hs: Seq<HandlerView>, n: int)
    requires
        cfg.valid(),
        levels.wf(cfg.max_level as int),
        0 <= n <= levels.levels@.len(),
    ensures
        forall|i: int|
            0 <= i < level_candidates(cfg, levels.levels@, hs, n).len() ==> candidate_ok(
                #[trigger] level_candidates(cfg, levels.levels@, hs, n)[i],
                cfg.max_level as int,
            ),
    decreases n,
{
    if n > 0 {
        lemma_level_candidates_ok(cfg, levels, hs, n - 1);
        lemma_base_level_in_range(cfg, levels);
        assert(levels.levels@[n - 1].level_idx == n);
        let rest = level_candidates(cfg, levels.levels@, hs, n - 1);
        let all = level_candidates(cfg, levels.levels@, hs, n);
        assert forall|i: int| 0 <= i < all.len() implies candidate_ok(
            #[trigger] all[i],
            cfg.max_level as int,
        ) by {
            if i < rest.len() {
                assert(all[i] == rest[i]);
            }
        }
    }
}

proof fn lemma_sort_keeps(s: Seq<(u64, usize, usize)>, max_level: int)
    requires
        forall|i: int| 0 <= i < s.len() ==> candidate_ok(#[trigger] s[i], max_level),
    ensures
        forall|i: int|
            0 <= i < sort_by_score(s).len() ==> candidate_ok(#[trigger] sort_by_score(s)[i], max_level),
    decreases s.len(),
{
    if s.len() > 0 {
        let rest = s.drop_last();
        assert forall|i: int| 0 <= i < rest.len() implies candidate_ok(#[trigger] rest[i], max_level) by {
            assert(rest[i] == s[i]);
        }
        lemma_sort_keeps(rest, max_level);
        let sorted = sort_by_score(rest);
        let p = crate::level_selector::first_lower(sorted, s.last().0, 0);
        crate::level_selector::lemma_first_lower_range(sorted, s.last().0, 0);
        assert(candidate_ok(s.last(), max_level)) by {
            assert(s.last() == s[s.len() - 1]);
        }
        let out = sorted.insert(p, s.last());
        assert forall|i: int| 0 <= i < out.len() implies candidate_ok(#[trigger] out[i], max_level) by {
            if i < p {
                assert(out[i] == sorted[i]);
            } else if i == p {
                assert(out[i] == s.last());
            } else {
                assert(out[i] == sorted[i - 1]);
            }
        }
    }
}

proof fn lemma_candidates_ok(cfg: CompactionConfig, levels: Levels, hs: Seq<HandlerView>)
    requires
        cfg.valid(),
        levels.wf(cfg.max_level as int),
    ensures
        forall|i: int|
            0 <= i < sort_by_score(candidates(cfg, levels, hs)).len() ==> candidate_ok(
                #[trigger] sort_by_score(candidates(cfg, levels, hs))[i],
                cfg.max_level as int,
            ),
{
    lemma_base_level_in_range(cfg, levels);
    lemma_level_candidates_ok(cfg, levels, hs, levels.levels@.len() as int);
    let c = candidates(cfg, levels, hs);
    let lc = level_candidates(cfg, levels.levels@, hs, levels.levels@.len() as int);
    let head_len = c.len() - lc.len();
    assert forall|i: int| 0 <= i < c.len() implies candidate_ok(#[trigger] c[i], cfg.max_level as int) by {
        if i >= head_len {
            assert(c[i] == lc[i - head_len]);
        }
    }
    lemma_sort_keeps(c, cfg.max_level as int);
}

/// Two ticks that settle on the same input from the same handlers return the same task
/// and leave the same handlers.
pub proof fn lemma_tick_deterministic(
    choice: Option<InputView>,
    cfg: CompactionConfig,
    base_level: int,
    task_type: TaskType,
    task_id: u64,
    before: Seq<HandlerView>,
    r1: Option<CompactionTask>,
    after1: Seq<HandlerView>,
    r2: Option<CompactionTask>,
    after2: Seq<HandlerView>,
)
    requires
        tick_outcome(choice, cfg, base_level, task_type, task_id, before, r1, after1),
        tick_outcome(choice, cfg, base_level, task_type, task_id, before, r2, after2),
    ensures
        r1 is Some <==> r2 is Some,
        r1 is Some ==> r1->0@ == r2->0@,
        after1 == after2,
{
}

/// Every handler keeps each file with at most one task.
pub open spec fn all_exclusive(hs: Seq<HandlerView>) -> bool {
    forall|i: int| 0 <= i < hs.len() ==> exclusive(#[trigger] hs[i].tasks)
}

proof fn lemma_picker_free(
    cfg: CompactionConfig,
    c: (u64, usize, usize),
    levels: Levels,
    hs: Seq<HandlerView>,
)
    requires
        cfg.valid(),
        levels.wf(cfg.max_level as int),
        hs.len() == cfg.max_level + 1,
        candidate_ok(c, cfg.max_level as int),
    ensures
        spec_picker_for(cfg, c.1 as int, c.2 as int).spec_pick(levels, hs) matches Some(inp)
            ==> input_unreserved(inp, hs) && two_distinct_levels(inp) && input_in_place(inp, levels),
{
    if c.1 == 0 {
        if c.2 == 0 {
            lemma_tier_pick_in_place(
                cfg.level0_tier_compact_file_number as int,
                cfg.level0_max_compact_file_number as int,
                levels,
                hs,
            );
            lemma_tier_pick_free(
                cfg.level0_tier_compact_file_number as int,
                cfg.level0_max_compact_file_number as int,
                levels,
                hs,
            );
        } else {
            lemma_level_pick_free(c.2 as int, cfg.max_compaction_bytes as int, levels, hs);
            lemma_level_pick_in_place(c.2 as int, cfg.max_compaction_bytes as int, levels, hs);
        }
    } else {
        lemma_min_overlap_pick_free(c.1 as int, c.2 as int, levels, hs);
        lemma_min_overlap_pick_in_place(c.1 as int, c.2 as int, levels, hs);
    }
}

proof fn lemma_dynamic_choice_free(
    cfg: CompactionConfig,
    levels: Levels,
    hs: Seq<HandlerView>,
    cands: Seq<(u64, usize, usize)>,
    i: int,
)
    requires
        cfg.valid(),
        levels.wf(cfg.max_level as int),
        hs.len() == cfg.max_level + 1,
        forall|j: int| 0 <= j < cands.len() ==> candidate_ok(#[trigger] cands[j], cfg.max_level as int),
    ensures
        dynamic_choice(cfg, levels, hs, cands, i) matches Some(inp) ==> input_unreserved(inp, hs)
            && two_distinct_levels(inp) && input_in_place(inp, levels),
    decreases cands.len() - i,
{
    if 0 <= i < cands.len() && cands[i].0 > SCORE_BASE {
        lemma_picker_free(cfg, cands[i], levels, hs);
        lemma_dynamic_choice_free(cfg, levels, hs, cands, i + 1);
    }
}

/// A dynamic tick never leaves a file reserved by two different tasks, given that no
/// handler did so before.
pub proof fn lemma_dynamic_tick_exclusive(
    cfg: CompactionConfig,
    levels: Levels,
    hs: Seq<HandlerView>,
    task_id: u64,
)
    requires
        cfg.valid(),
        levels.wf(cfg.max_level as int),
        hs.len() == cfg.max_level + 1,
        all_exclusive(hs),
    ensures
        spec_dynamic_pick(cfg, levels, hs) matches Some(inp) ==> all_exclusive(
            reserve_input(hs, task_id, inp, inp.levels.len() as int),
        ),
{
    lemma_candidates_ok(cfg, levels, hs);
    lemma_dynamic_choice_free(cfg, levels, hs, sort_by_score(candidates(cfg, levels, hs)), 0);
    if let Some(inp) = spec_dynamic_pick(cfg, levels, hs) {
        lemma_reserve_keeps_exclusive(hs, task_id, inp);
    }
}

/// A manual tick never leaves a file reserved by two different tasks, given that no
/// handler did so before.
pub proof fn lemma_manual_tick_exclusive(
    cfg: CompactionConfig,
    o: ManualCompactionOption,
    levels: Levels,
    hs: Seq<HandlerView>,
    task_id: u64,
)
    requires
        cfg.valid(),
        levels.wf(cfg.max_level as int),
        hs.len() == cfg.max_level + 1,
        all_exclusive(hs),
    ensures
        spec_manual_choice(cfg, o, levels, hs) matches Some(inp) ==> all_exclusive(
            reserve_input(hs, task_id, inp, inp.levels.len() as int),
        ),
{
    lemma_base_level_in_range(cfg, levels);
    let base = spec_base_level(cfg, levels.levels@);
    let level = o.level as int;
    if !(level > cfg.max_level || (level > 0 && level < base)) {
        lemma_manual_pick_free(o, manual_target(cfg, base, level), levels, hs);
    }
    if let Some(inp) = spec_manual_choice(cfg, o, levels, hs) {
        lemma_reserve_keeps_exclusive(hs, task_id, inp);
    }
}

/// A reclaim tick never leaves a file reserved by two different tasks, given that no
/// handler did so before.
pub proof fn lemma_reclaim_tick_exclusive(
    rule: ReclaimRule,
    live: Seq<u32>,
    budget: int,
    cfg: CompactionConfig,
    levels: Levels,
    hs: Seq<HandlerView>,
    task_id: u64,
)
    requires
        cfg.valid(),
        levels.wf(cfg.max_level as int),
        hs.len() == cfg.max_level + 1,
        all_exclusive(hs),
    ensures
        spec_reclaim_pick(rule, live, budget, levels, hs) matches Some(inp) ==> all_exclusive(
            reserve_input(hs, task_id, inp, inp.levels.len() as int),
        ),
{
    lemma_reclaim_pick_free(rule, live, budget, levels, hs);
    if let Some(inp) = spec_reclaim_pick(rule, live, budget, levels, hs) {
        lemma_reserve_keeps_exclusive(hs, task_id, inp);
    }
}

/// When every handler reserves only ids that no other level's files carry, a dynamic tick
/// never leaves a file id with two different tasks across all handlers, and the task's
/// files are then held under its id in the handlers of their levels.
pub proof fn lemma_dynamic_tick_global_exclusive(
    cfg: CompactionConfig,
    levels: Levels,
    hs: Seq<HandlerView>,
    task_id: u64,
)
    requires
        cfg.valid(),
        levels.wf(cfg.max_level as int),
        hs.len() == cfg.max_level + 1,
        global_exclusive(hs),
        reservations_in_place(levels, hs),
    ensures
        spec_dynamic_pick(cfg, levels, hs) matches Some(inp) ==> global_exclusive(
            reserve_input(hs, task_id, inp, inp.levels.len() as int),
        ) && input_held(inp, reserve_input(hs, task_id, inp, inp.levels.len() as int), task_id),
{
    lemma_candidates_ok(cfg, levels, hs);
    lemma_dynamic_choice_free(cfg, levels, hs, sort_by_score(candidates(cfg, levels, hs)), 0);
    if let Some(inp) = spec_dynamic_pick(cfg, levels, hs) {
        lemma_free_everywhere(inp, levels, hs);
        lemma_reserve_keeps_global_exclusive(hs, task_id, inp);
        lemma_reserve_holds_input(hs, task_id, inp);
    }
}

/// When every handler reserves only ids that no other level's files carry, a manual tick
/// never leaves a file id with two different tasks across all handlers, and the task's
/// files are then held under its id in the handlers of their levels.
pub proof fn lemma_manual_tick_global_exclusive(
    cfg: CompactionConfig,
    o: ManualCompactionOption,
    levels: Levels,
    hs: Seq<HandlerView>,
    task_id: u64,
)
    requires
        cfg.valid(),
        levels.wf(cfg.max_level as int),
        hs.len() == cfg.max_level + 1,
        global_exclusive(hs),
        reservations_in_place(levels, hs),
    ensures
        spec_manual_choice(cfg, o, levels, hs) matches Some(inp) ==> global_exclusive(
            reserve_input(hs, task_id, inp, inp.levels.len() as int),
        ) && input_held(inp, reserve_input(hs, task_id, inp, inp.levels.len() as int), task_id),
{
    lemma_base_level_in_range(cfg, levels);
    let base = spec_base_level(cfg, levels.levels@);
    let level = o.level as int;
    if !(level > cfg.max_level || (level > 0 && level < base)) {
        lemma_manual_pick_free(o, manual_target(cfg, base, level), levels, hs);
        lemma_manual_pick_in_place(o, manual_target(cfg, base, level), levels, hs);
    }
    if let Some(inp) = spec_manual_choice(cfg, o, levels, hs) {
        lemma_free_everywhere(inp, levels, hs);
        lemma_reserve_keeps_global_exclusive(hs, task_id, inp);
        lemma_reserve_holds_input(hs, task_id, inp);
    }
}

/// When every handler reserves only ids that no other level's files carry, a reclaim tick
/// never leaves a file id with two different tasks across all handlers, and the task's
/// files are then held under its id in the handlers of their levels.
pub proof fn lemma_reclaim_tick_global_exclusive(
    rule: ReclaimRule,
    live: Seq<u32>,
    budget: int,
    cfg: CompactionConfig,
    levels: Levels,
    hs: Seq<HandlerView>,
    task_id: u64,
)
    requires
        cfg.valid(),
        levels.wf(cfg.max_level as int),
        hs.len() == cfg.max_level + 1,
        global_exclusive(hs),
        reservations_in_place(levels, hs),
    ensures
        spec_reclaim_pick(rule, live, budget, levels, hs) matches Some(inp) ==> global_exclusive(
            reserve_input(hs, task_id, inp, inp.levels.len() as int),
        ) && input_held(inp, reserve_input(hs, task_id, inp, inp.levels.len() as int), task_id),
{
    lemma_reclaim_pick_free(rule, live, budget, levels, hs);
    lemma_reclaim_pick_in_place(rule, live, budget, levels, hs);
    if let Some(inp) = spec_reclaim_pick(rule, live, budget, levels, hs) {
        lemma_free_everywhere(inp, levels, hs);
        lemma_reserve_keeps_global_exclusive(hs, task_id, inp);
        lemma_reserve_holds_input(hs, task_id, inp);
    }
}

/// While the reservations of a dynamic tick's task stand, the next dynamic tick on the same
/// snapshot picks none of that task's files at the level it read them from.
pub proof fn lemma_pending_task_blocks_files(
    cfg: CompactionConfig,
    levels: Levels,
    hs: Seq<HandlerView>,
    first_id: u64,
)
    requires
        cfg.valid(),
        levels.wf(cfg.max_level as int),
        hs.len() == cfg.max_level + 1,
    ensures
        spec_dynamic_pick(cfg, levels, hs) matches Some(first) ==> {
            let after = reserve_input(hs, first_id, first, first.levels.len() as int);
            spec_dynamic_pick(cfg, levels, after) matches Some(second) ==> forall|
                k1: int,
                a: int,
                k2: int,
                b: int,
            |
                0 <= k1 < first.levels.len() && 0 <= a < first.levels[k1].files.len() && 0 <= k2
                    < second.levels.len() && 0 <= b < second.levels[k2].files.len()
                    && first.levels[k1].level_idx == second.levels[k2].level_idx
                    ==> #[trigger] first.levels[k1].files[a].id
                    != #[trigger] second.levels[k2].files[b].id
        },
{
    lemma_candidates_ok(cfg, levels, hs);
    lemma_dynamic_choice_free(cfg, levels, hs, sort_by_score(candidates(cfg, levels, hs)), 0);
    if let Some(first) = spec_dynamic_pick(cfg, levels, hs) {
        let after = reserve_input(hs, first_id, first, first.levels.len() as int);
        lemma_reserve_len(hs, first_id, first, first.levels.len() as int);
        lemma_reserve_holds_input(hs, first_id, first);
        lemma_candidates_ok(cfg, levels, after);
        lemma_dynamic_choice_free(
            cfg,
            levels,
            after,
            sort_by_score(candidates(cfg, levels, after)),
            0,
        );
        if let Some(second) = spec_dynamic_pick(cfg, levels, after) {
            assert forall|k1: int, a: int, k2: int, b: int|
                0 <= k1 < first.levels.len() && 0 <= a < first.levels[k1].files.len() && 0 <= k2
                    < second.levels.len() && 0 <= b < second.levels[k2].files.len()
                    && first.levels[k1].level_idx == second.levels[k2].level_idx implies
                #[trigger] first.levels[k1].files[a].id
                    != #[trigger] second.levels[k2].files[b].id by {
                let l = first.levels[k1].level_idx as int;
                assert(first.levels[k1].level_idx <= levels.levels@.len());
                let f = first.levels[k1].files[a];
                let (i, c) = choose|i: int, c: int|
                    0 <= i < after[l].tasks.len() && 0 <= c < after[l].tasks[i].ssts.len()
                        && after[l].tasks[i].task_id == first_id && after[l].tasks[i].ssts[c]
                        == f.id;
                assert(reserved(after[l].tasks, f.id));
                assert(!any_reserved(after[l], second.levels[k2].files));
                if f.id == second.levels[k2].files[b].id {
                    assert(reserved(after[l].tasks, second.levels[k2].files[b].id));
                }
            }
        }
    }
}

/// What ticks observed: the candidates whose picker selected nothing, with the reason,
/// and whether scoring ever had to clamp a pending figure at zero.
pub struct LocalSelectorStatistic {
    pub skip_picker: Vec<(usize, usize, SkipReason)>,
    pub pending_anomaly: bool,
}

impl LocalSelectorStatistic {
    pub fn new() -> (r: LocalSelectorStatistic)
        ensures
            r.skip_picker@.len() == 0,
            !r.pending_anomaly,
    {
        LocalSelectorStatistic { skip_picker: Vec::new(), pending_anomaly: false }
    }
}

/// Picks by level size: the scored candidates in turn.
pub struct DynamicLevelSelector {
    dynamic_level_core: DynamicLevelSelectorCore,
}

impl DynamicLevelSelector {
    pub fn new(config: CompactionConfig) -> (r: DynamicLevelSelector)
        ensures
            r.spec_config() == config,
    {
        DynamicLevelSelector { dynamic_level_core: DynamicLevelSelectorCore::new(config) }
    }

    pub closed spec fn spec_config(&self) -> CompactionConfig {
        self.dynamic_level_core.spec_config()
    }

    pub fn get_config(&self) -> (r: &CompactionConfig)
        ensures
            *r == self.spec_config(),
    {
        self.dynamic_level_core.get_config()
    }

    /// Scores the snapshot and tries the candidates from the highest score down; stops at
    /// a score of at most `SCORE_BASE`, or at the first picker that selects something,
    /// whose input is then reserved and returned as a task.
    pub fn pick_compaction(
        &mut self,
        task_id: u64,
        levels: &Levels,
        level_handlers: &mut Vec<LevelHandler>,
        selector_stats: &mut LocalSelectorStatistic,
    ) -> (r: Option<CompactionTask>)
        requires
            old(self).spec_config().valid(),
            levels.wf(old(self).spec_config().max_level as int),
            old(level_handlers)@.len() == old(self).spec_config().max_level + 1,
        ensures
            *final(self) == *old(self),
            tick_outcome(
                spec_dynamic_pick(
                    old(self).spec_config(),
                    *levels,
                    handler_views(old(level_handlers)@),
                ),
                old(self).spec_config(),
                spec_base_level(old(self).spec_config(), levels.levels@),
                TaskType::Dynamic,
                task_id,
                handler_views(old(level_handlers)@),
                r,
                handler_views(final(level_handlers)@),
            ),
            final(selector_stats).skip_picker@ == old(selector_stats).skip_picker@ + dynamic_skips(
                old(self).spec_config(),
                *levels,
                handler_views(old(level_handlers)@),
                sort_by_score(
                    candidates(old(self).spec_config(), *levels, handler_views(old(level_handlers)@)),
                ),
                0,
            ),
            r matches Some(t) ==> input_unreserved(t.input@, handler_views(old(level_handlers)@)),
            final(selector_stats).pending_anomaly == (old(selector_stats).pending_anomaly
                || pending_anomaly(
                old(self).spec_config(),
                *levels,
                handler_views(old(level_handlers)@),
            )),
    {
        let ghost cfg = self.spec_config();
        let ghost hs = handler_views(level_handlers@);
        proof {
            lemma_candidates_ok(cfg, *levels, hs);
            lemma_dynamic_choice_free(cfg, *levels, hs, sort_by_score(candidates(cfg, *levels, hs)), 0);
        }
        let ctx = self.dynamic_level_core.get_priority_levels(levels, level_handlers);
        if ctx.pending_anomaly {
            selector_stats.pending_anomaly = true;
        }
        let ghost anomaly = selector_stats.pending_anomaly;
        let ghost cands = ctx.score_levels@;
        let ghost stats0 = selector_stats.skip_picker@;
        proof {
            lemma_candidates_ok(cfg, *levels, hs);
        }
        let mut i: usize = 0;
        while i < ctx.score_levels.len()
            invariant
                cfg == self.spec_config(),
                *self == *old(self),
                cfg == old(self).spec_config(),
                hs == handler_views(old(level_handlers)@),
                stats0 == old(selector_stats).skip_picker@,
                anomaly == selector_stats.pending_anomaly,
                spec_dynamic_pick(cfg, *levels, hs) matches Some(inp) ==> input_unreserved(inp, hs),
                anomaly == (old(selector_stats).pending_anomaly || pending_anomaly(cfg, *levels, hs)),
                ctx.base_level == spec_base_level(cfg, levels.levels@),
                cfg.valid(),
                levels.wf(cfg.max_level as int),
                level_handlers@.len() == cfg.max_level + 1,
                hs == handler_views(level_handlers@),
                cands == ctx.score_levels@,
                cands == sort_by_score(candidates(cfg, *levels, hs)),
                forall|j: int| 0 <= j < cands.len() ==> candidate_ok(#[trigger] cands[j], cfg.max_level as int),
                i <= cands.len(),
                dynamic_choice(cfg, *levels, hs, cands, 0) == dynamic_choice(cfg, *levels, hs, cands, i as int),
                stats0 + dynamic_skips(cfg, *levels, hs, cands, 0) == selector_stats.skip_picker@
                    + dynamic_skips(cfg, *levels, hs, cands, i as int),
            decreases cands.len() - i,
        {
            let (score, select_level, target_level) = ctx.score_levels[i];
            if score <= SCORE_BASE {
                assert(selector_stats.skip_picker@ + Seq::<(usize, usize, SkipReason)>::empty()
                    =~= selector_stats.skip_picker@);
                return None;
            }
            assert(candidate_ok(cands[i as int], cfg.max_level as int));
            let picker = self.dynamic_level_core.create_compaction_picker(select_level, target_level);
            let picked = picker.pick_compaction(levels, level_handlers);
            match picked {
                Some(ret) => {
                    ret.add_pending_task(task_id, level_handlers);
                    assert(selector_stats.skip_picker@ + Seq::<(usize, usize, SkipReason)>::empty()
                        =~= selector_stats.skip_picker@);
                    return Some(
                        create_compaction_task(
                            self.dynamic_level_core.get_config(),
                            ret,
                            ctx.base_level,
                            TaskType::Dynamic,
                        ),
                    );
                },
                None => {
                    let reason = if select_level == 0 {
                        if target_level == 0 {
                            SkipReason::NoTierRun
                        } else if l0_prefix_end(
                            &levels.l0.sub_levels,
                            &level_handlers[0],
                            self.dynamic_level_core.get_config().max_compaction_bytes,
                        ) == 0 {
                            SkipReason::L0Unavailable
                        } else {
                            SkipReason::TargetPending
                        }
                    } else {
                        SkipReason::NoPickableFile
                    };
                    let ghost before = selector_stats.skip_picker@;
                    selector_stats.skip_picker.push((select_level, target_level, reason));
                    assert(before + dynamic_skips(cfg, *levels, hs, cands, i as int)
                        =~= selector_stats.skip_picker@ + dynamic_skips(cfg, *levels, hs, cands, i + 1));
                },
            }
            i += 1;
        }
        assert(selector_stats.skip_picker@ + Seq::<(usize, usize, SkipReason)>::empty()
            =~= selector_stats.skip_picker@);
        None
    }

    pub fn name(&self) -> (r: &'static str)
        ensures
            r@ == "DynamicLevelSelector"@,
    {
        "DynamicLevelSelector"
    }

    pub fn task_type(&self) -> (r: TaskType)
        ensures
            r == TaskType::Dynamic,
    {
        TaskType::Dynamic
    }
}

/// `after` is what `try_update` makes of `before` given the configuration `cfg`:
/// unchanged when `before` already holds the same values, else holding `cfg`'s values.
pub open spec fn dynamic_updated(
    before: DynamicLevelSelector,
    cfg: CompactionConfig,
    after: DynamicLevelSelector,
) -> bool {
    &&& before.spec_config().same(&cfg) ==> after == before
    &&& after.spec_config().same(&cfg)
}

impl Default for DynamicLevelSelector {
    /// A dynamic selector with the default configuration.
    fn default() -> (r: DynamicLevelSelector)
        ensures
            r.spec_config().has_default_values(),
    {
        DynamicLevelSelector::new(CompactionConfig::default())
    }
}

impl DynamicLevelSelector {
    /// Takes the configuration of `selector_option` if it holds other values than the
    /// current one.
    pub fn try_update(&mut self, selector_option: SelectorOption)
        requires
            selector_option is Dynamic,
        ensures
            dynamic_updated(*old(self), selector_option->Dynamic_0.compaction_config, *final(self)),
    {
        if let Some(o) = selector_option.as_dynamic() {
            if !self.get_config().same_as(&o.compaction_config) {
                self.dynamic_level_core = DynamicLevelSelectorCore::new(o.compaction_config);
            }
        }
    }
}

/// Updating a dynamic selector twice with the same configuration changes nothing the
/// second time.
pub proof fn lemma_dynamic_update_settles(
    s0: DynamicLevelSelector,
    s1: DynamicLevelSelector,
    s2: DynamicLevelSelector,
    cfg: CompactionConfig,
)
    requires
        dynamic_updated(s0, cfg, s1),
        dynamic_updated(s1, cfg, s2),
    ensures
        s2 == s1,
{
}

/// The level that a manual compaction of `level` writes to.
pub open spec fn manual_target(cfg: CompactionConfig, base: int, level: int) -> int {
    if level == 0 {
        base
    } else if level == cfg.max_level {
        level
    } else {
        level + 1
    }
}

/// What a manual tick settles on: nothing for a level that does not exist or lies
/// strictly between level 0 and the base level, else what the manual picker selects.
pub open spec fn spec_manual_choice(
    cfg: CompactionConfig,
    o: ManualCompactionOption,
    levels: Levels,
    hs: Seq<HandlerView>,
) -> Option<InputView> {
    let base = spec_base_level(cfg, levels.levels@);
    let level = o.level as int;
    if level > cfg.max_level || (level > 0 && level < base) {
        None
    } else {
        spec_manual_pick(o, manual_target(cfg, base, level), levels, hs)
    }
}

/// Compacts what an operator asked for.
pub struct ManualCompactionSelector {
    dynamic_level_core: DynamicLevelSelectorCore,
    option: ManualCompactionOption,
}

impl ManualCompactionSelector {
    pub fn new(config: CompactionConfig, option: ManualCompactionOption) -> (r:
        ManualCompactionSelector)
        ensures
            r.spec_config() == config,
            r.spec_option() == option,
    {
        ManualCompactionSelector { dynamic_level_core: DynamicLevelSelectorCore::new(config), option }
    }

    pub closed spec fn spec_config(&self) -> CompactionConfig {
        self.dynamic_level_core.spec_config()
    }

    pub closed spec fn spec_option(&self) -> ManualCompactionOption {
        self.option
    }

    /// Picks the contiguous run of the option's level that holds the requested files, if
    /// that level is not between level 0 and the base level; level 0 goes to the base
    /// level, the last level to itself, any other to the next one.
    pub fn pick_compaction(
        &mut self,
        task_id: u64,
        levels: &Levels,
        level_handlers: &mut Vec<LevelHandler>,
        _selector_stats: &mut LocalSelectorStatistic,
    ) -> (r: Option<CompactionTask>)
        requires
            old(self).spec_config().valid(),
            levels.wf(old(self).spec_config().max_level as int),
            old(level_handlers)@.len() == old(self).spec_config().max_level + 1,
        ensures
            *final(self) == *old(self),
            tick_outcome(
                spec_manual_choice(
                    old(self).spec_config(),
                    old(self).spec_option(),
                    *levels,
                    handler_views(old(level_handlers)@),
                ),
                old(self).spec_config(),
                spec_base_level(old(self).spec_config(), levels.levels@),
                TaskType::Manual,
                task_id,
                handler_views(old(level_handlers)@),
                r,
                handler_views(final(level_handlers)@),
            ),
    {
        let ghost cfg = self.spec_config();
        proof {
            lemma_base_level_in_range(cfg, *levels);
        }
        let ctx = self.dynamic_level_core.calculate_level_base_size(levels);
        let base_level = ctx.base_level;
        let max_level = self.get_config().max_level as usize;
        let level = self.option.level;
        if level > max_level || (level > 0 && level < base_level) {
            return None;
        }
        let target_level = if level == 0 {
            base_level
        } else if level == max_level {
            level
        } else {
            level + 1
        };
        let input = pick_manual(&self.option, target_level, levels, level_handlers);
        match input {
            Some(input) => {
                input.add_pending_task(task_id, level_handlers);
                Some(create_compaction_task(self.get_config(), input, base_level, TaskType::Manual))
            },
            None => None,
        }
    }

    pub fn get_config(&self) -> (r: &CompactionConfig)
        ensures
            *r == self.spec_config(),
    {
        self.dynamic_level_core.get_config()
    }

    pub fn name(&self) -> (r: &'static str)
        ensures
            r@ == "ManualCompactionSelector"@,
    {
        "ManualCompactionSelector"
    }

    pub fn task_type(&self) -> (r: TaskType)
        ensures
            r == TaskType::Manual,
    {
        TaskType::Manual
    }

    /// Takes the configuration and request of `selector_option` if either differs from
    /// the current one.
    pub fn try_update(&mut self, selector_option: SelectorOption)
        requires
            selector_option is Manual,
        ensures
            old(self).spec_config().same(&selector_option->Manual_0.compaction_config)
                && old(self).spec_option().same(&selector_option->Manual_0.option) ==> *final(self)
                == *old(self),
            final(self).spec_config().same(&selector_option->Manual_0.compaction_config),
            final(self).spec_option().same(&selector_option->Manual_0.option),
    {
        if let Some(o) = selector_option.as_manual() {
            if !self.get_config().same_as(&o.compaction_config) || !self.option.same_as(&o.option) {
                self.dynamic_level_core = DynamicLevelSelectorCore::new(o.compaction_config);
                self.option = o.option;
            }
        }
    }
}

/// Reclaims the space of files that hold only dropped tables.
pub struct SpaceReclaimCompactionSelector {
    dynamic_level_core: DynamicLevelSelectorCore,
    picker: SpaceReclaimCompactionPicker,
}

impl SpaceReclaimCompactionSelector {
    pub fn new(selector_option: SpaceReclaimCompactionSelectorOption) -> (r:
        SpaceReclaimCompactionSelector)
        ensures
            r.spec_config() == selector_option.compaction_config,
            r.wf(),
            r.spec_picker().all_table_ids@ == selector_option.all_table_ids@,
    {
        let picker = SpaceReclaimCompactionPicker::new(
            selector_option.compaction_config.max_space_reclaim_bytes,
            selector_option.all_table_ids,
        );
        SpaceReclaimCompactionSelector {
            dynamic_level_core: DynamicLevelSelectorCore::new(selector_option.compaction_config),
            picker,
        }
    }

    pub closed spec fn spec_config(&self) -> CompactionConfig {
        self.dynamic_level_core.spec_config()
    }

    pub closed spec fn spec_picker(&self) -> SpaceReclaimCompactionPicker {
        self.picker
    }

    /// The picker's byte budget is the configured one.
    pub open spec fn wf(&self) -> bool {
        self.spec_picker().max_space_reclaim_bytes == self.spec_config().max_space_reclaim_bytes
    }

    pub fn get_config(&self) -> (r: &CompactionConfig)
        ensures
            *r == self.spec_config(),
    {
        self.dynamic_level_core.get_config()
    }

    /// Picks dead files of the deepest level that has any, rewritten in place.
    pub fn pick_compaction(
        &mut self,
        task_id: u64,
        levels: &Levels,
        level_handlers: &mut Vec<LevelHandler>,
        _selector_stats: &mut LocalSelectorStatistic,
    ) -> (r: Option<CompactionTask>)
        requires
            old(self).wf(),
            old(self).spec_config().valid(),
            levels.wf(old(self).spec_config().max_level as int),
            old(level_handlers)@.len() == old(self).spec_config().max_level + 1,
        ensures
            *final(self) == *old(self),
            tick_outcome(
                old(self).spec_picker_choice(*levels, handler_views(old(level_handlers)@)),
                old(self).spec_config(),
                spec_base_level(old(self).spec_config(), levels.levels@),
                TaskType::SpaceReclaim,
                task_id,
                handler_views(old(level_handlers)@),
                r,
                handler_views(final(level_handlers)@),
            ),
    {
        let ctx = self.dynamic_level_core.calculate_level_base_size(levels);
        let input = self.picker.pick_compaction(levels, level_handlers);
        match input {
            Some(input) => {
                input.add_pending_task(task_id, level_handlers);
                Some(
                    create_compaction_task(
                        self.get_config(),
                        input,
                        ctx.base_level,
                        TaskType::SpaceReclaim,
                    ),
                )
            },
            None => None,
        }
    }

    /// What the picker selects from `levels`.
    pub open spec fn spec_picker_choice(&self, levels: Levels, hs: Seq<HandlerView>) -> Option<
        InputView,
    > {
        spec_reclaim_pick(
            ReclaimRule::DroppedTables,
            self.spec_picker().all_table_ids@,
            self.spec_config().max_space_reclaim_bytes as int,
            levels,
            hs,
        )
    }

    pub fn name(&self) -> (r: &'static str)
        ensures
            r@ == "SpaceReclaimCompaction"@,
    {
        "SpaceReclaimCompaction"
    }

    pub fn task_type(&self) -> (r: TaskType)
        ensures
            r == TaskType::SpaceReclaim,
    {
        TaskType::SpaceReclaim
    }

    /// Takes the configuration and live tables of `selector_option` if either differs
    /// from the current one.
    pub fn try_update(&mut self, selector_option: SelectorOption)
        requires
            old(self).wf(),
            selector_option is SpaceReclaim,
        ensures
            old(self).spec_config().same(&selector_option->SpaceReclaim_0.compaction_config)
                && same_id_set(
                old(self).spec_picker().all_table_ids@,
                selector_option->SpaceReclaim_0.all_table_ids@,
            ) ==> *final(self) == *old(self),
            final(self).spec_config().same(&selector_option->SpaceReclaim_0.compaction_config),
            same_id_set(
                final(self).spec_picker().all_table_ids@,
                selector_option->SpaceReclaim_0.all_table_ids@,
            ),
            final(self).wf(),
    {
        if let Some(o) = selector_option.as_space_reclaim() {
            if !self.get_config().same_as(&o.compaction_config) || !same_u32_sets(
                &self.picker.all_table_ids,
                &o.all_table_ids,
            ) {
                self.picker = SpaceReclaimCompactionPicker::new(
                    o.compaction_config.max_space_reclaim_bytes,
                    o.all_table_ids,
                );
                self.dynamic_level_core = DynamicLevelSelectorCore::new(o.compaction_config);
            }
        }
    }
}

/// Reclaims files whose every key has expired.
pub struct TtlCompactionSelector {
    dynamic_level_core: DynamicLevelSelectorCore,
    picker: TtlReclaimCompactionPicker,
}

impl TtlCompactionSelector {
    pub fn new(config: CompactionConfig) -> (r: TtlCompactionSelector)
        ensures
            r.spec_config() == config,
            r.wf(),
    {
        let picker = TtlReclaimCompactionPicker::new(config.max_space_reclaim_bytes);
        TtlCompactionSelector { dynamic_level_core: DynamicLevelSelectorCore::new(config), picker }
    }

    pub closed spec fn spec_config(&self) -> CompactionConfig {
        self.dynamic_level_core.spec_config()
    }

    pub closed spec fn spec_picker(&self) -> TtlReclaimCompactionPicker {
        self.picker
    }

    /// The picker's byte budget is the configured reclaim budget.
    pub open spec fn wf(&self) -> bool {
        self.spec_picker().max_ttl_reclaim_bytes == self.spec_config().max_space_reclaim_bytes
    }

    pub fn get_config(&self) -> (r: &CompactionConfig)
        ensures
            *r == self.spec_config(),
    {
        self.dynamic_level_core.get_config()
    }

    /// What the picker selects from `levels`.
    pub open spec fn spec_picker_choice(&self, levels: Levels, hs: Seq<HandlerView>) -> Option<
        InputView,
    > {
        spec_reclaim_pick(
            ReclaimRule::Expired,
            Seq::empty(),
            self.spec_config().max_space_reclaim_bytes as int,
            levels,
            hs,
        )
    }

    /// Picks expired files of the deepest level that has any, rewritten in place.
    pub fn pick_compaction(
        &mut self,
        task_id: u64,
        levels: &Levels,
        level_handlers: &mut Vec<LevelHandler>,
        _selector_stats: &mut LocalSelectorStatistic,
    ) -> (r: Option<CompactionTask>)
        requires
            old(self).wf(),
            old(self).spec_config().valid(),
            levels.wf(old(self).spec_config().max_level as int),
            old(level_handlers)@.len() == old(self).spec_config().max_level + 1,
        ensures
            *final(self) == *old(self),
            tick_outcome(
                old(self).spec_picker_choice(*levels, handler_views(old(level_handlers)@)),
                old(self).spec_config(),
                spec_base_level(old(self).spec_config(), levels.levels@),
                TaskType::Ttl,
                task_id,
                handler_views(old(level_handlers)@),
                r,
                handler_views(final(level_handlers)@),
            ),
    {
        let ctx = self.dynamic_level_core.calculate_level_base_size(levels);
        let input = self.picker.pick_compaction(levels, level_handlers);
        match input {
            Some(input) => {
                input.add_pending_task(task_id, level_handlers);
                Some(create_compaction_task(self.get_config(), input, ctx.base_level, TaskType::Ttl))
            },
            None => None,
        }
    }

    pub fn name(&self) -> (r: &'static str)
        ensures
            r@ == "TtlCompaction"@,
    {
        "TtlCompaction"
    }

    pub fn task_type(&self) -> (r: TaskType)
        ensures
            r == TaskType::Ttl,
    {
        TaskType::Ttl
    }

    /// Takes the configuration of `selector_option` if it holds other values than the
    /// current one.
    pub fn try_update(&mut self, selector_option: SelectorOption)
        requires
            old(self).wf(),
            selector_option is Ttl,
        ensures
            old(self).spec_config().same(&selector_option->Ttl_0.compaction_config) ==> *final(self) == *old(self),
            final(self).spec_config().same(&selector_option->Ttl_0.compaction_config),
            final(self).wf(),
    {
        if let Some(o) = selector_option.as_ttl() {
            if !self.get_config().same_as(&o.compaction_config) {
                self.picker = TtlReclaimCompactionPicker::new(
                    o.compaction_config.max_space_reclaim_bytes,
                );
                self.dynamic_level_core = DynamicLevelSelectorCore::new(o.compaction_config);
            }
        }
    }
}

} // verus!
