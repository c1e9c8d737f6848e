//! Merging runs of adjacent level-0 sub-levels into one.
use vstd::prelude::*;
use crate::level_handler::{handler_views, HandlerView, LevelHandler};
use crate::model::{files_view, Level, LevelType, Levels};
use crate::picker::{
    any_reserved, collect_sub_level_files, flatten, input_in_place, input_unreserved,
    lemma_flatten_free, lemma_flatten_in_level, level_files, opt_view, sub_levels_free,
    two_distinct_levels, two_level_input, CompactionInput, InputLevel, InputView,
};

verus! {

/// Some file of the sub-level is held by a pending task.
pub open spec fn sub_level_reserved(h: HandlerView, sub: Level) -> bool {
    any_reserved(h, files_view(sub.table_infos@))
}

/// The run of sub-levels from `j` on, none reserved, while the file count stays within
/// `max_files`: its end, and the files it holds plus `count`.
pub open spec fn tier_run(subs: Seq<Level>, h: HandlerView, max_files: int, j: int, count: int) -> (
    int,
    int,
)
    decreases subs.len() - j,
{
    if j < 0 || j >= subs.len() || sub_level_reserved(h, subs[j]) || count
        + subs[j].table_infos@.len() > max_files {
        (j, count)
    } else {
        tier_run(subs, h, max_files, j + 1, count + subs[j].table_infos@.len())
    }
}

/// The oldest run, starting at `start` or later, of at least two sub-levels and at least
/// `min_files` files: its first and past-the-last sub-level.
pub open spec fn tier_span(
    subs: Seq<Level>,
    h: HandlerView,
    min_files: int,
    max_files: int,
    start: int,
) -> Option<(int, int)>
    decreases subs.len() - start,
{
    if start < 0 || start >= subs.len() {
        None
    } else {
        let (end, count) = tier_run(subs, h, max_files, start, 0);
        if end - start >= 2 && count >= min_files {
            Some((start, end))
        } else {
            tier_span(subs, h, min_files, max_files, start + 1)
        }
    }
}

/// What the tier picker selects: the files of the chosen run as one level-0 input, merged
/// into a new level-0 sub-level.
pub open spec fn spec_tier_pick(
    min_files: int,
    max_files: int,
    levels: Levels,
    hs: Seq<HandlerView>,
) -> Option<InputView> {
    let subs = levels.l0.sub_levels@;
    match tier_span(subs, hs[0], min_files, max_files, 0) {
        None => None,
        Some((s, e)) => Some(
            two_level_input(
                0,
                LevelType::Overlapping,
                flatten(subs, s, e),
                0,
                Seq::empty(),
                subs[s].sub_level_id,
            ),
        ),
    }
}

proof fn lemma_tier_run(subs: Seq<Level>, h: HandlerView, max_files: int, j: int, count: int)
    requires
        0 <= j <= subs.len(),
        0 <= count <= max_files,
    ensures
        j <= tier_run(subs, h, max_files, j, count).0 <= subs.len(),
        0 <= tier_run(subs, h, max_files, j, count).1 <= max_files,
    decreases subs.len() - j,
{
    if !(j >= subs.len() || sub_level_reserved(h, subs[j]) || count + subs[j].table_infos@.len()
        > max_files) {
        lemma_tier_run(subs, h, max_files, j + 1, count + subs[j].table_infos@.len());
    }
}

proof fn lemma_tier_run_free(subs: Seq<Level>, h: HandlerView, max_files: int, j: int, count: int)
    requires
        0 <= j <= subs.len(),
    ensures
        sub_levels_free(subs, h, j, tier_run(subs, h, max_files, j, count).0),
    decreases subs.len() - j,
{
    if !(j >= subs.len() || sub_level_reserved(h, subs[j]) || count + subs[j].table_infos@.len()
        > max_files) {
        lemma_tier_run_free(subs, h, max_files, j + 1, count + subs[j].table_infos@.len());
    }
}

proof fn lemma_tier_span(subs: Seq<Level>, h: HandlerView, min_files: int, max_files: int, start: int)
    requires
        0 <= start,
        max_files >= 0,
    ensures
        tier_span(subs, h, min_files, max_files, start) matches Some((s, e)) ==> 0 <= s <= e
            <= subs.len() && sub_levels_free(subs, h, s, e),
    decreases subs.len() - start,
{
    if start < subs.len() {
        lemma_tier_run(subs, h, max_files, start, 0);
        lemma_tier_run_free(subs, h, max_files, start, 0);
        lemma_tier_span(subs, h, min_files, max_files, start + 1);
    }
}

/// The tier picker selects only free files, reading level 0 into level 0 and no file from
/// the target.
pub proof fn lemma_tier_pick_free(min_files: int, max_files: int, levels: Levels, hs: Seq<HandlerView>)
    requires
        hs.len() >= 1,
        max_files >= 0,
    ensures
        spec_tier_pick(min_files, max_files, levels, hs) matches Some(inp) ==> input_unreserved(
            inp,
            hs,
        ) && two_distinct_levels(inp),
{
    let subs = levels.l0.sub_levels@;
    lemma_tier_span(subs, hs[0], min_files, max_files, 0);
    if let Some((s, e)) = tier_span(subs, hs[0], min_files, max_files, 0) {
        lemma_flatten_free(subs, hs[0], s, e);
        let inp = spec_tier_pick(min_files, max_files, levels, hs)->0;
        assert(!any_reserved(hs[0], inp.levels[1].files));
    }
}

/// The tier picker reads only level-0 files.
pub proof fn lemma_tier_pick_in_place(min_files: int, max_files: int, levels: Levels, hs: Seq<HandlerView>)
    requires
        max_files >= 0,
    ensures
        spec_tier_pick(min_files, max_files, levels, hs) matches Some(inp) ==> input_in_place(
            inp,
            levels,
        ),
{
    let subs = levels.l0.sub_levels@;
    lemma_tier_span(subs, hs[0], min_files, max_files, 0);
    if let Some((s, e)) = tier_span(subs, hs[0], min_files, max_files, 0) {
        let inp = spec_tier_pick(min_files, max_files, levels, hs)->0;
        assert forall|k: int, a: int|
            0 <= k < inp.levels.len() && 0 <= a < inp.levels[k].files.len() implies level_files(
                levels,
                inp.levels[k].level_idx as int,
            ).contains(#[trigger] inp.levels[k].files[a]) by {
            let f = inp.levels[k].files[a];
            assert(flatten(subs, s, e)[a] == f);
            lemma_flatten_in_level(levels, s, e, f);
        }
    }
}

/// Picks runs of level-0 sub-levels to merge with each other.
pub struct TierCompactionPicker {
    pub level0_tier_compact_file_number: u64,
    pub level0_max_compact_file_number: u64,
}

impl TierCompactionPicker {
    pub fn new(level0_tier_compact_file_number: u64, level0_max_compact_file_number: u64) -> (r:
        TierCompactionPicker)
        ensures
            r.level0_tier_compact_file_number == level0_tier_compact_file_number,
            r.level0_max_compact_file_number == level0_max_compact_file_number,
    {
        TierCompactionPicker { level0_tier_compact_file_number, level0_max_compact_file_number }
    }

    /// Walks the sub-levels from the oldest; takes the first run of at least two unreserved
    /// sub-levels whose file count reaches the trigger without passing the bound.
    pub fn pick_compaction(&self, levels: &Levels, handlers: &Vec<LevelHandler>) -> (r: Option<
        CompactionInput,
    >)
        requires
            handlers@.len() >= 1,
        ensures
            opt_view(r) == spec_tier_pick(
                self.level0_tier_compact_file_number as int,
                self.level0_max_compact_file_number as int,
                *levels,
                handler_views(handlers@),
            ),
    {
        let ghost hs = handler_views(handlers@);
        let subs = &levels.l0.sub_levels;
        let min_files = self.level0_tier_compact_file_number;
        let max_files = self.level0_max_compact_file_number;
        let h0 = &handlers[0];
        assert(h0@ == hs[0]);
        let mut start: usize = 0;
        while start < subs.len()
            invariant
                h0@ == hs[0],
                hs == handler_views(handlers@),
                subs@ == levels.l0.sub_levels@,
                min_files == self.level0_tier_compact_file_number,
                max_files == self.level0_max_compact_file_number,
                start <= subs@.len(),
                tier_span(subs@, hs[0], min_files as int, max_files as int, 0) == tier_span(
                    subs@,
                    hs[0],
                    min_files as int,
                    max_files as int,
                    start as int,
                ),
            decreases subs@.len() - start,
        {
            let mut j: usize = start;
            let mut count: u64 = 0;
            let ghost run = tier_run(subs@, hs[0], max_files as int, start as int, 0);
            loop
                invariant
                    h0@ == hs[0],
                    start <= j <= subs@.len(),
                    count <= max_files,
                    tier_run(subs@, hs[0], max_files as int, j as int, count as int) == run,
                ensures
                    run == (j as int, count as int),
                decreases subs@.len() - j,
            {
                if j >= subs.len() {
                    break;
                }
                let files = &subs[j].table_infos;
                if h0.is_any_pending(files) {
                    proof {
                        let k = choose|k: int| 0 <= k < files@.len() && crate::level_handler::reserved(
                            h0@.tasks,
                            #[trigger] files@[k].id,
                        );
                        assert(files_view(files@)[k].id == files@[k].id);
                    }
                    break;
                }
                assert(!sub_level_reserved(hs[0], subs@[j as int])) by {
                    if sub_level_reserved(hs[0], subs@[j as int]) {
                        let k = choose|k: int|
                            0 <= k < files_view(files@).len() && crate::level_handler::reserved(
                                hs[0].tasks,
                                #[trigger] files_view(files@)[k].id,
                            );
                        assert(files@[k].id == files_view(files@)[k].id);
                    }
                }
                let n = files.len() as u64;
                if n > max_files - count {
                    break;
                }
                count = count + n;
                j += 1;
            }
            proof {
                lemma_tier_run(subs@, hs[0], max_files as int, start as int, 0);
            }
            if j - start >= 2 && count >= min_files {
                let l0_files = collect_sub_level_files(subs, start, j);
                let mut input_levels: Vec<InputLevel> = Vec::new();
                input_levels.push(
                    InputLevel { level_idx: 0, level_type: LevelType::Overlapping, table_infos: l0_files },
                );
                input_levels.push(
                    InputLevel {
                        level_idx: 0,
                        level_type: LevelType::Nonoverlapping,
                        table_infos: Vec::new(),
                    },
                );
                let r = CompactionInput {
                    input_levels,
                    target_level: 0,
                    target_sub_level_id: subs[start].sub_level_id,
                };
                assert(r.input_levels@[1]@.files =~= Seq::<crate::model::SstView>::empty());
                assert(r@.levels =~= two_level_input(
                    0,
                    LevelType::Overlapping,
                    flatten(subs@, start as int, j as int),
                    0,
                    Seq::empty(),
                    subs@[start as int].sub_level_id,
                ).levels);
                assert(tier_span(subs@, hs[0], min_files as int, max_files as int, start as int)
                    == Some((start as int, j as int)));
                assert(r@ == two_level_input(
                    0,
                    LevelType::Overlapping,
                    flatten(subs@, start as int, j as int),
                    0,
                    Seq::empty(),
                    subs@[start as int].sub_level_id,
                ));
                assert(tier_span(subs@, hs[0], min_files as int, max_files as int, 0)
                    == Some((start as int, j as int)));
                assert(levels.l0.sub_levels@ == subs@);
                assert(spec_tier_pick(min_files as int, max_files as int, *levels, hs) == Some(r@));
                return Some(r);
            }
            start += 1;
        }
        None
    }
}

} // verus!
