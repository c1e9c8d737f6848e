//! Draining the oldest level-0 sub-levels into the base level.
use vstd::prelude::*;
use crate::level_handler::{handler_views, HandlerView, LevelHandler};
use crate::model::{files_view, Level, LevelType, Levels, SstView};
use crate::picker::{
    any_reserved, collect_overlapping, collect_sub_level_files, files_pending, flatten,
    input_in_place, input_unreserved, lemma_flatten_free, lemma_flatten_in_level,
    lemma_overlapping_subset, level_files, opt_view, overlapping, sub_levels_free,
    two_distinct_levels, two_level_input, union_key_range, union_range, CompactionInput, InputLevel,
    InputView,
};
use crate::tier_picker::sub_level_reserved;

verus! {

/// End of the run of unreserved sub-levels from `j` on whose total size, added to `bytes`,
/// stays within `max_bytes`.
pub open spec fn l0_prefix(subs: Seq<Level>, h: HandlerView, max_bytes: int, j: int, bytes: int) -> int
    decreases subs.len() - j,
{
    if j < 0 || j >= subs.len() || sub_level_reserved(h, subs[j]) || bytes
        + subs[j].total_file_size > max_bytes {
        j
    } else {
        l0_prefix(subs, h, max_bytes, j + 1, bytes + subs[j].total_file_size)
    }
}

/// The files of `target_files` that meet the key span of `select_files` (none when
/// `select_files` is empty).
pub open spec fn target_overlap(select_files: Seq<SstView>, target_files: Seq<SstView>) -> Seq<
    SstView,
> {
    if select_files.len() == 0 {
        Seq::empty()
    } else {
        overlapping(target_files, union_range(select_files))
    }
}

/// What the level picker selects: the oldest fitting run of sub-levels, and every file of
/// `target` within their key span; nothing if that run is empty or a target file is reserved.
pub open spec fn spec_level_pick(
    target: int,
    max_bytes: int,
    levels: Levels,
    hs: Seq<HandlerView>,
) -> Option<InputView> {
    let subs = levels.l0.sub_levels@;
    let end = l0_prefix(subs, hs[0], max_bytes, 0, 0);
    if end == 0 {
        None
    } else {
        let l0_files = flatten(subs, 0, end);
        let tfiles = target_overlap(l0_files, files_view(levels.levels@[target - 1].table_infos@));
        if any_reserved(hs[target], tfiles) {
            None
        } else {
            Some(two_level_input(0, LevelType::Overlapping, l0_files, target, tfiles, 0))
        }
    }
}

proof fn lemma_l0_prefix(subs: Seq<Level>, h: HandlerView, max_bytes: int, j: int, bytes: int)
    requires
        0 <= j <= subs.len(),
    ensures
        j <= l0_prefix(subs, h, max_bytes, j, bytes) <= subs.len(),
    decreases subs.len() - j,
{
    if !(j >= subs.len() || sub_level_reserved(h, subs[j]) || bytes + subs[j].total_file_size
        > max_bytes) {
        lemma_l0_prefix(subs, h, max_bytes, j + 1, bytes + subs[j].total_file_size);
    }
}

proof fn lemma_l0_prefix_free(subs: Seq<Level>, h: HandlerView, max_bytes: int, j: int, bytes: int)
    requires
        0 <= j <= subs.len(),
    ensures
        sub_levels_free(subs, h, j, l0_prefix(subs, h, max_bytes, j, bytes)),
    decreases subs.len() - j,
{
    if !(j >= subs.len() || sub_level_reserved(h, subs[j]) || bytes + subs[j].total_file_size
        > max_bytes) {
        lemma_l0_prefix_free(subs, h, max_bytes, j + 1, bytes + subs[j].total_file_size);
    }
}

/// The level picker selects only free files, from level 0 and from another level.
pub proof fn lemma_level_pick_free(target: int, max_bytes: int, levels: Levels, hs: Seq<HandlerView>)
    requires
        1 <= target < hs.len(),
        target < u32::MAX,
    ensures
        spec_level_pick(target, max_bytes, levels, hs) matches Some(inp) ==> input_unreserved(
            inp,
            hs,
        ) && two_distinct_levels(inp),
{
    let subs = levels.l0.sub_levels@;
    lemma_l0_prefix(subs, hs[0], max_bytes, 0, 0);
    lemma_l0_prefix_free(subs, hs[0], max_bytes, 0, 0);
    let end = l0_prefix(subs, hs[0], max_bytes, 0, 0);
    lemma_flatten_free(subs, hs[0], 0, end);
}

/// The level picker reads each file from the level that holds it.
pub proof fn lemma_level_pick_in_place(target: int, max_bytes: int, levels: Levels, hs: Seq<HandlerView>)
    requires
        1 <= target < u32::MAX,
        target <= levels.levels@.len(),
    ensures
        spec_level_pick(target, max_bytes, levels, hs) matches Some(inp) ==> input_in_place(
            inp,
            levels,
        ),
{
    let subs = levels.l0.sub_levels@;
    lemma_l0_prefix(subs, hs[0], max_bytes, 0, 0);
    let end = l0_prefix(subs, hs[0], max_bytes, 0, 0);
    if let Some(inp) = spec_level_pick(target, max_bytes, levels, hs) {
        let l0_files = flatten(subs, 0, end);
        let tf = files_view(levels.levels@[target - 1].table_infos@);
        assert forall|k: int, a: int|
            0 <= k < inp.levels.len() && 0 <= a < inp.levels[k].files.len() implies level_files(
                levels,
                inp.levels[k].level_idx as int,
            ).contains(#[trigger] inp.levels[k].files[a]) by {
            let f = inp.levels[k].files[a];
            if k == 0 {
                assert(l0_files[a] == f);
                lemma_flatten_in_level(levels, 0, end, f);
            } else {
                let t = overlapping(tf, union_range(l0_files));
                assert(t[a] == f);
                lemma_overlapping_subset(tf, union_range(l0_files), f);
            }
        }
    }
}

/// Number of oldest sub-levels that are unreserved and together fit `max_bytes`.
pub fn l0_prefix_end(subs: &Vec<Level>, h0: &LevelHandler, max_bytes: u64) -> (j: usize)
    ensures
        j == l0_prefix(subs@, h0@, max_bytes as int, 0, 0),
        j <= subs@.len(),
{
    proof {
        lemma_l0_prefix(subs@, h0@, max_bytes as int, 0, 0);
    }
    let mut j: usize = 0;
    let mut bytes: u64 = 0;
    let ghost end = l0_prefix(subs@, h0@, max_bytes as int, 0, 0);
    loop
        invariant
            j <= subs@.len(),
            bytes <= max_bytes,
            l0_prefix(subs@, h0@, max_bytes as int, j as int, bytes as int) == end,
        ensures
            end == j,
        decreases subs@.len() - j,
    {
        if j >= subs.len() {
            break;
        }
        if files_pending(h0, &subs[j].table_infos) {
            break;
        }
        let size = subs[j].total_file_size;
        if size > max_bytes - bytes {
            break;
        }
        bytes = bytes + size;
        j += 1;
    }
    j
}

/// Picks level-0 sub-levels to merge into `target_level`.
pub struct LevelCompactionPicker {
    pub target_level: usize,
    pub max_compaction_bytes: u64,
}

impl LevelCompactionPicker {
    pub fn new(target_level: usize, max_compaction_bytes: u64) -> (r: LevelCompactionPicker)
        ensures
            r.target_level == target_level,
            r.max_compaction_bytes == max_compaction_bytes,
    {
        LevelCompactionPicker { target_level, max_compaction_bytes }
    }

    /// Takes the oldest unreserved sub-levels while their total size fits the byte bound,
    /// with every target-level file in their key span.
    pub fn pick_compaction(&self, levels: &Levels, handlers: &Vec<LevelHandler>) -> (r: Option<
        CompactionInput,
    >)
        requires
            1 <= self.target_level <= levels.levels@.len(),
            self.target_level < handlers@.len(),
        ensures
            opt_view(r) == spec_level_pick(
                self.target_level as int,
                self.max_compaction_bytes as int,
                *levels,
                handler_views(handlers@),
            ),
    {
        let ghost hs = handler_views(handlers@);
        let subs = &levels.l0.sub_levels;
        let max_bytes = self.max_compaction_bytes;
        let h0 = &handlers[0];
        assert(h0@ == hs[0]);
        let j = l0_prefix_end(subs, h0, max_bytes);
        if j == 0 {
            return None;
        }
        let l0_files = collect_sub_level_files(subs, 0, j);
        let target = self.target_level;
        let target_files = if l0_files.len() == 0 {
            let v: Vec<crate::model::SstableInfo> = Vec::new();
            assert(files_view(v@) =~= Seq::<SstView>::empty());
            v
        } else {
            let range = union_key_range(&l0_files);
            collect_overlapping(&levels.levels[target - 1].table_infos, &range)
        };
        assert(handlers@[target as int]@ == hs[target as int]);
        if files_pending(&handlers[target], &target_files) {
            return None;
        }
        let mut input_levels: Vec<InputLevel> = Vec::new();
        input_levels.push(
            InputLevel { level_idx: 0, level_type: LevelType::Overlapping, table_infos: l0_files },
        );
        input_levels.push(
            InputLevel {
                level_idx: target as u32,
                level_type: LevelType::Nonoverlapping,
                table_infos: target_files,
            },
        );
        let r = CompactionInput { input_levels, target_level: target, target_sub_level_id: 0 };
        assert(r@.levels =~= two_level_input(
            0,
            LevelType::Overlapping,
            flatten(subs@, 0, j as int),
            target as int,
            files_view(target_files@),
            0,
        ).levels);
        Some(r)
    }
}

} // verus!
