//! Moving the one file of a level that overlaps least with the level below.
use vstd::prelude::*;
use crate::level_handler::{handler_views, reserved, HandlerView, LevelHandler};
use crate::model::{files_size, files_view, total_size, LevelType, Levels, SstView};
use crate::picker::{
    any_reserved, collect_overlapping, files_pending, input_in_place, input_unreserved,
    lemma_overlapping_subset, level_files, opt_view, overlapping, two_distinct_levels,
    two_level_input, CompactionInput, InputLevel, InputView,
};

verus! {

/// A file may be picked: it is unreserved and so is every target file it overlaps.
pub open spec fn pickable(f: SstView, tfiles: Seq<SstView>, hsel: HandlerView, htgt: HandlerView) -> bool {
    !reserved(hsel.tasks, f.id) && !any_reserved(htgt, overlapping(tfiles, f.key_range))
}

/// Bytes of the target files that `f` overlaps.
pub open spec fn overlap_bytes(f: SstView, tfiles: Seq<SstView>) -> int {
    files_size(overlapping(tfiles, f.key_range))
}

/// `a` beats `b`: a lower ratio of overlapped bytes to own size (compared crosswise), then
/// fewer overlapped bytes, then a smaller id.
pub open spec fn better_pick(a: SstView, a_over: int, b: SstView, b_over: int) -> bool {
    let l = a_over * b.file_size;
    let r = b_over * a.file_size;
    l < r || (l == r && (a_over < b_over || (a_over == b_over && a.id < b.id)))
}

/// Index of the best pickable file among `sfiles[..n]`.
pub open spec fn best_file(
    sfiles: Seq<SstView>,
    tfiles: Seq<SstView>,
    hsel: HandlerView,
    htgt: HandlerView,
    n: int,
) -> Option<int>
    decreases n,
{
    if n <= 0 {
        None
    } else {
        let prev = best_file(sfiles, tfiles, hsel, htgt, n - 1);
        let f = sfiles[n - 1];
        if !pickable(f, tfiles, hsel, htgt) {
            prev
        } else {
            match prev {
                None => Some(n - 1),
                Some(p) => if better_pick(
                    f,
                    overlap_bytes(f, tfiles),
                    sfiles[p],
                    overlap_bytes(sfiles[p], tfiles),
                ) {
                    Some(n - 1)
                } else {
                    prev
                },
            }
        }
    }
}

/// What the min-overlapping picker selects: the best file of `select` and the files of
/// `target` it overlaps.
pub open spec fn spec_min_overlap_pick(
    select: int,
    target: int,
    levels: Levels,
    hs: Seq<HandlerView>,
) -> Option<InputView> {
    let sfiles = files_view(levels.levels@[select - 1].table_infos@);
    let tfiles = files_view(levels.levels@[target - 1].table_infos@);
    match best_file(sfiles, tfiles, hs[select], hs[target], sfiles.len() as int) {
        None => None,
        Some(i) => Some(
            two_level_input(
                select,
                LevelType::Nonoverlapping,
                seq![sfiles[i]],
                target,
                overlapping(tfiles, sfiles[i].key_range),
                0,
            ),
        ),
    }
}

proof fn lemma_best_file_range(
    sfiles: Seq<SstView>,
    tfiles: Seq<SstView>,
    hsel: HandlerView,
    htgt: HandlerView,
    n: int,
)
    ensures
        best_file(sfiles, tfiles, hsel, htgt, n) matches Some(i) ==> 0 <= i < n,
    decreases n,
{
    if n > 0 {
        lemma_best_file_range(sfiles, tfiles, hsel, htgt, n - 1);
    }
}

proof fn lemma_best_file_pickable(
    sfiles: Seq<SstView>,
    tfiles: Seq<SstView>,
    hsel: HandlerView,
    htgt: HandlerView,
    n: int,
)
    ensures
        best_file(sfiles, tfiles, hsel, htgt, n) matches Some(i) ==> pickable(
            sfiles[i],
            tfiles,
            hsel,
            htgt,
        ),
    decreases n,
{
    if n > 0 {
        lemma_best_file_pickable(sfiles, tfiles, hsel, htgt, n - 1);
    }
}

/// The min-overlapping picker selects only free files, from two different levels.
pub proof fn lemma_min_overlap_pick_free(select: int, target: int, levels: Levels, hs: Seq<HandlerView>)
    requires
        1 <= select,
        target == select + 1,
        target < hs.len(),
        target < u32::MAX,
    ensures
        spec_min_overlap_pick(select, target, levels, hs) matches Some(inp) ==> input_unreserved(
            inp,
            hs,
        ) && two_distinct_levels(inp),
{
    let sfiles = files_view(levels.levels@[select - 1].table_infos@);
    let tfiles = files_view(levels.levels@[target - 1].table_infos@);
    lemma_best_file_pickable(sfiles, tfiles, hs[select], hs[target], sfiles.len() as int);
    if let Some(i) = best_file(sfiles, tfiles, hs[select], hs[target], sfiles.len() as int) {
        let inp = spec_min_overlap_pick(select, target, levels, hs)->0;
        assert(!reserved(hs[select].tasks, sfiles[i].id));
        assert(!any_reserved(hs[select], inp.levels[0].files));
    }
}

/// The min-overlapping picker reads each file from the level that holds it.
pub proof fn lemma_min_overlap_pick_in_place(
    select: int,
    target: int,
    levels: Levels,
    hs: Seq<HandlerView>,
)
    requires
        1 <= select,
        target == select + 1,
        target < u32::MAX,
        target <= levels.levels@.len(),
    ensures
        spec_min_overlap_pick(select, target, levels, hs) matches Some(inp) ==> input_in_place(
            inp,
            levels,
        ),
{
    let sfiles = files_view(levels.levels@[select - 1].table_infos@);
    let tfiles = files_view(levels.levels@[target - 1].table_infos@);
    lemma_best_file_range(sfiles, tfiles, hs[select], hs[target], sfiles.len() as int);
    if let Some(i) = best_file(sfiles, tfiles, hs[select], hs[target], sfiles.len() as int) {
        let inp = spec_min_overlap_pick(select, target, levels, hs)->0;
        assert forall|k: int, a: int|
            0 <= k < inp.levels.len() && 0 <= a < inp.levels[k].files.len() implies level_files(
                levels,
                inp.levels[k].level_idx as int,
            ).contains(#[trigger] inp.levels[k].files[a]) by {
            let f = inp.levels[k].files[a];
            if k == 0 {
                assert(sfiles[i] == f);
            } else {
                assert(overlapping(tfiles, sfiles[i].key_range)[a] == f);
                lemma_overlapping_subset(tfiles, sfiles[i].key_range, f);
            }
        }
    }
}

/// `a * b` without loss.
fn mul_wide(a: u64, b: u64) -> (r: u128)
    ensures
        r == a * b,
{
    proof {
        assert(0 <= a * b <= u64::MAX * u64::MAX) by (nonlinear_arith)
            requires
                0 <= a <= u64::MAX,
                0 <= b <= u64::MAX,
        ;
    }
    (a as u128) * (b as u128)
}

/// Picks one file of `select_level` to move into `target_level`.
pub struct MinOverlappingPicker {
    pub select_level: usize,
    pub target_level: usize,
}

impl MinOverlappingPicker {
    pub fn new(select_level: usize, target_level: usize) -> (r: MinOverlappingPicker)
        ensures
            r.select_level == select_level,
            r.target_level == target_level,
    {
        MinOverlappingPicker { select_level, target_level }
    }

    /// Picks the pickable file whose overlap with the target level is smallest relative to
    /// its own size.
    pub fn pick_compaction(&self, levels: &Levels, handlers: &Vec<LevelHandler>) -> (r: Option<
        CompactionInput,
    >)
        requires
            1 <= self.select_level,
            self.target_level == self.select_level + 1,
            self.target_level <= levels.levels@.len(),
            self.target_level < handlers@.len(),
        ensures
            opt_view(r) == spec_min_overlap_pick(
                self.select_level as int,
                self.target_level as int,
                *levels,
                handler_views(handlers@),
            ),
    {
        let ghost hs = handler_views(handlers@);
        let select = self.select_level;
        let target = self.target_level;
        let sfiles = &levels.levels[select - 1].table_infos;
        let tfiles = &levels.levels[target - 1].table_infos;
        let ghost sv = files_view(sfiles@);
        let ghost tv = files_view(tfiles@);
        let hsel = &handlers[select];
        let htgt = &handlers[target];
        assert(hsel@ == hs[select as int]);
        assert(htgt@ == hs[target as int]);
        let mut found = false;
        let mut best: usize = 0;
        let mut best_over: u64 = 0;
        let mut i: usize = 0;
        while i < sfiles.len()
            invariant
                i <= sfiles@.len(),
                sv == files_view(sfiles@),
                tv == files_view(tfiles@),
                hsel@ == hs[select as int],
                htgt@ == hs[target as int],
                found ==> best < i && best_over == overlap_bytes(sv[best as int], tv),
                best_file(sv, tv, hsel@, htgt@, i as int) == if found {
                    Some(best as int)
                } else {
                    None
                },
            decreases sfiles@.len() - i,
        {
            let f = &sfiles[i];
            assert(sv[i as int] == f@);
            if !hsel.is_pending_compact(&f.id) {
                let over_files = collect_overlapping(tfiles, &f.key_range);
                if !files_pending(htgt, &over_files) {
                    let over = total_size(&over_files);
                    let take = if !found {
                        true
                    } else {
                        let b = &sfiles[best];
                        assert(sv[best as int] == b@);
                        let l = mul_wide(over, b.file_size);
                        let r = mul_wide(best_over, f.file_size);
                        l < r || (l == r && (over < best_over || (over == best_over && f.id
                            < b.id)))
                    };
                    if take {
                        found = true;
                        best = i;
                        best_over = over;
                    }
                }
            }
            i += 1;
        }
        proof {
            lemma_best_file_range(sv, tv, hsel@, htgt@, sv.len() as int);
        }
        if !found {
            return None;
        }
        let chosen = sfiles[best].duplicate();
        let over_files = collect_overlapping(tfiles, &chosen.key_range);
        let mut select_files: Vec<crate::model::SstableInfo> = Vec::new();
        select_files.push(chosen);
        let mut input_levels: Vec<InputLevel> = Vec::new();
        input_levels.push(
            InputLevel {
                level_idx: select as u32,
                level_type: LevelType::Nonoverlapping,
                table_infos: select_files,
            },
        );
        input_levels.push(
            InputLevel {
                level_idx: target as u32,
                level_type: LevelType::Nonoverlapping,
                table_infos: over_files,
            },
        );
        let r = CompactionInput { input_levels, target_level: target, target_sub_level_id: 0 };
        assert(r@.levels[0].files =~= seq![sv[best as int]]);
        assert(r@.levels =~= two_level_input(
            select as int,
            LevelType::Nonoverlapping,
            seq![sv[best as int]],
            target as int,
            overlapping(tv, sv[best as int].key_range),
            0,
        ).levels);
        Some(r)
    }
}

} // verus!
