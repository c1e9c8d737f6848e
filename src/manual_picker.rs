//! Operator-requested compaction of a key range at one level.
use vstd::prelude::*;
use crate::level_handler::{handler_views, HandlerView, LevelHandler};
use crate::level_picker::target_overlap;
use crate::model::{
    contains_u32, contains_u64, copy_u32s, copy_u64s, files_view, same_id_set, same_u32_sets,
    same_u64s, KeyRange, Level, LevelType, Levels, SstView, SstableInfo,
};
use crate::picker::{
    any_reserved, collect_overlapping, collect_sub_level_files, files_pending, flatten,
    input_in_place, input_unreserved, lemma_flatten_in_level, lemma_overlapping_subset, level_files,
    opt_view, overlapping, two_distinct_levels, two_level_input, union_key_range, union_range,
    CompactionInput, InputLevel, InputView,
};

verus! {

/// What an operator asks to compact.
#[derive(Clone, Debug)]
pub struct ManualCompactionOption {
    /// Only these files, when not empty.
    pub sst_ids: Vec<u64>,
    /// Only files that meet this range.
    pub key_range: KeyRange,
    /// Only files holding one of these tables, when not empty; a set: order and repeats
    /// do not matter.
    pub internal_table_id: Vec<u32>,
    /// The level to compact.
    pub level: usize,
}

/// The file is one that the option asks for.
pub open spec fn manual_matches(o: ManualCompactionOption, f: SstView) -> bool {
    &&& f.key_range.spec_overlaps(o.key_range)
    &&& (o.sst_ids@.len() == 0 || o.sst_ids@.contains(f.id))
    &&& (o.internal_table_id@.len() == 0 || exists|k: int|
        0 <= k < f.table_ids.len() && o.internal_table_id@.contains(#[trigger] f.table_ids[k]))
}

/// Index of the first file of `files[..n]` that the option asks for.
pub open spec fn first_match(o: ManualCompactionOption, files: Seq<SstView>, n: int) -> Option<int>
    decreases n,
{
    if n <= 0 {
        None
    } else {
        match first_match(o, files, n - 1) {
            Some(i) => Some(i),
            None => if manual_matches(o, files[n - 1]) {
                Some(n - 1)
            } else {
                None
            },
        }
    }
}

/// Index of the last file of `files[..n]` that the option asks for.
pub open spec fn last_match(o: ManualCompactionOption, files: Seq<SstView>, n: int) -> Option<int>
    decreases n,
{
    if n <= 0 {
        None
    } else if manual_matches(o, files[n - 1]) {
        Some(n - 1)
    } else {
        last_match(o, files, n - 1)
    }
}

/// The newest of the sub-levels `subs[..n]` that holds a file the option asks for.
pub open spec fn last_matching_sub_level(o: ManualCompactionOption, subs: Seq<Level>, n: int) -> Option<
    int,
>
    decreases n,
{
    if n <= 0 {
        None
    } else {
        let fv = files_view(subs[n - 1].table_infos@);
        if last_match(o, fv, fv.len() as int) is Some {
            Some(n - 1)
        } else {
            last_matching_sub_level(o, subs, n - 1)
        }
    }
}

/// The contiguous run that a manual compaction reads from the option's level: at level 0
/// every sub-level from the oldest through the newest one holding a requested file; at
/// another level every file from the first through the last requested one. Empty when no
/// file is requested.
pub open spec fn manual_run(o: ManualCompactionOption, levels: Levels) -> Seq<SstView> {
    if o.level == 0 {
        let subs = levels.l0.sub_levels@;
        match last_matching_sub_level(o, subs, subs.len() as int) {
            None => Seq::empty(),
            Some(e) => flatten(subs, 0, e + 1),
        }
    } else {
        let fv = files_view(levels.levels@[o.level - 1].table_infos@);
        match (first_match(o, fv, fv.len() as int), last_match(o, fv, fv.len() as int)) {
            (Some(f), Some(l)) => fv.subrange(f, l + 1),
            _ => Seq::empty(),
        }
    }
}

proof fn lemma_match_range(o: ManualCompactionOption, files: Seq<SstView>, n: int)
    requires
        0 <= n <= files.len(),
    ensures
        first_match(o, files, n) is Some <==> last_match(o, files, n) is Some,
        first_match(o, files, n) matches Some(f) ==> 0 <= f <= last_match(o, files, n)->0 < n,
    decreases n,
{
    if n > 0 {
        lemma_match_range(o, files, n - 1);
    }
}

proof fn lemma_last_sub_level_range(o: ManualCompactionOption, subs: Seq<Level>, n: int)
    requires
        0 <= n <= subs.len(),
    ensures
        last_matching_sub_level(o, subs, n) matches Some(e) ==> 0 <= e < n,
    decreases n,
{
    if n > 0 {
        lemma_last_sub_level_range(o, subs, n - 1);
    }
}

/// What the manual picker selects: the contiguous run of the option's level that holds the
/// requested files, and the files of `target` in its key span (none when `target` is that
/// level); nothing if no file is requested or any of these is reserved.
pub open spec fn spec_manual_pick(
    o: ManualCompactionOption,
    target: int,
    levels: Levels,
    hs: Seq<HandlerView>,
) -> Option<InputView> {
    let level = o.level as int;
    let sel = manual_run(o, levels);
    if sel.len() == 0 || any_reserved(hs[level], sel) {
        None
    } else {
        let tfiles = if target == level {
            Seq::empty()
        } else {
            target_overlap(sel, files_view(levels.levels@[target - 1].table_infos@))
        };
        if any_reserved(hs[target], tfiles) {
            None
        } else {
            Some(
                two_level_input(
                    level,
                    if level == 0 {
                        LevelType::Overlapping
                    } else {
                        LevelType::Nonoverlapping
                    },
                    sel,
                    target,
                    tfiles,
                    0,
                ),
            )
        }
    }
}

/// The manual picker selects only free files; its target level reads none when it is the
/// option's level.
pub proof fn lemma_manual_pick_free(
    o: ManualCompactionOption,
    target: int,
    levels: Levels,
    hs: Seq<HandlerView>,
)
    requires
        o.level < hs.len(),
        target < hs.len(),
        o.level < u32::MAX,
        0 <= target < u32::MAX,
    ensures
        spec_manual_pick(o, target, levels, hs) matches Some(inp) ==> input_unreserved(inp, hs)
            && two_distinct_levels(inp),
{
}

/// The manual picker reads each file from the level that holds it.
pub proof fn lemma_manual_pick_in_place(
    o: ManualCompactionOption,
    target: int,
    levels: Levels,
    hs: Seq<HandlerView>,
)
    requires
        o.level < u32::MAX,
        0 <= target < u32::MAX,
        target >= 1 || target == o.level,
        o.level <= levels.levels@.len(),
        target <= levels.levels@.len(),
    ensures
        spec_manual_pick(o, target, levels, hs) matches Some(inp) ==> input_in_place(inp, levels),
{
    if let Some(inp) = spec_manual_pick(o, target, levels, hs) {
        let level = o.level as int;
        let sel = manual_run(o, levels);
        let subs = levels.l0.sub_levels@;
        lemma_last_sub_level_range(o, subs, subs.len() as int);
        if level > 0 {
            let fv = files_view(levels.levels@[level - 1].table_infos@);
            lemma_match_range(o, fv, fv.len() as int);
        }
        assert forall|k: int, a: int|
            0 <= k < inp.levels.len() && 0 <= a < inp.levels[k].files.len() implies level_files(
                levels,
                inp.levels[k].level_idx as int,
            ).contains(#[trigger] inp.levels[k].files[a]) by {
            let f = inp.levels[k].files[a];
            if k == 0 {
                assert(sel[a] == f);
                if level == 0 {
                    let e = last_matching_sub_level(o, subs, subs.len() as int)->0;
                    lemma_flatten_in_level(levels, 0, e + 1, f);
                } else {
                    let fv = files_view(levels.levels@[level - 1].table_infos@);
                    let first = first_match(o, fv, fv.len() as int)->0;
                    assert(fv[first + a] == f);
                }
            } else {
                let tf = files_view(levels.levels@[target - 1].table_infos@);
                let t = overlapping(tf, union_range(sel));
                assert(t[a] == f);
                lemma_overlapping_subset(tf, union_range(sel), f);
            }
        }
    }
}

impl ManualCompactionOption {
    /// Both options ask for the same thing.
    pub open spec fn same(&self, o: &ManualCompactionOption) -> bool {
        &&& self.sst_ids@ == o.sst_ids@
        &&& self.key_range == o.key_range
        &&& same_id_set(self.internal_table_id@, o.internal_table_id@)
        &&& self.level == o.level
    }

    /// Whether both options ask for the same thing.
    pub fn same_as(&self, o: &ManualCompactionOption) -> (r: bool)
        ensures
            r == self.same(o),
    {
        same_u64s(&self.sst_ids, &o.sst_ids) && self.key_range == o.key_range && same_u32_sets(
            &self.internal_table_id,
            &o.internal_table_id,
        ) && self.level == o.level
    }

    /// A copy of the option.
    pub fn duplicate(&self) -> (r: ManualCompactionOption)
        ensures
            r.same(self),
    {
        ManualCompactionOption {
            sst_ids: copy_u64s(&self.sst_ids),
            key_range: self.key_range,
            internal_table_id: copy_u32s(&self.internal_table_id),
            level: self.level,
        }
    }

    /// Whether the option asks for file `f`.
    pub fn matches(&self, f: &SstableInfo) -> (r: bool)
        ensures
            r == manual_matches(*self, f@),
    {
        if !f.key_range.overlaps(&self.key_range) {
            return false;
        }
        if self.sst_ids.len() > 0 && !contains_u64(&self.sst_ids, f.id) {
            return false;
        }
        if self.internal_table_id.len() == 0 {
            return true;
        }
        let mut k: usize = 0;
        while k < f.table_ids.len()
            invariant
                k <= f.table_ids@.len(),
                f.key_range.spec_overlaps(self.key_range),
                self.sst_ids@.len() == 0 || self.sst_ids@.contains(f.id),
                self.internal_table_id@.len() > 0,
                forall|j: int| 0 <= j < k ==> !self.internal_table_id@.contains(#[trigger] f.table_ids@[j]),
            decreases f.table_ids@.len() - k,
        {
            if contains_u32(&self.internal_table_id, f.table_ids[k]) {
                assert(f@.table_ids[k as int] == f.table_ids@[k as int]);
                assert(self.internal_table_id@.contains(f@.table_ids[k as int]));
                return true;
            }
            k += 1;
        }
        false
    }
}

/// Index of the first file of `files` that `o` asks for, if any.
fn first_matching(o: &ManualCompactionOption, files: &Vec<SstableInfo>) -> (r: Option<usize>)
    ensures
        r is Some <==> first_match(*o, files_view(files@), files@.len() as int) is Some,
        r matches Some(i) ==> first_match(*o, files_view(files@), files@.len() as int) == Some(
            i as int,
        ),
{
    let ghost fv = files_view(files@);
    let mut r: Option<usize> = None;
    let mut k: usize = 0;
    while k < files.len()
        invariant
            k <= files@.len(),
            fv == files_view(files@),
            r is Some <==> first_match(*o, fv, k as int) is Some,
            r matches Some(i) ==> first_match(*o, fv, k as int) == Some(i as int),
        decreases files@.len() - k,
    {
        assert(fv[k as int] == files@[k as int]@);
        if r.is_none() && o.matches(&files[k]) {
            r = Some(k);
        }
        k += 1;
    }
    r
}

/// Index of the last file of `files` that `o` asks for, if any.
fn last_matching(o: &ManualCompactionOption, files: &Vec<SstableInfo>) -> (r: Option<usize>)
    ensures
        r is Some <==> last_match(*o, files_view(files@), files@.len() as int) is Some,
        r matches Some(i) ==> last_match(*o, files_view(files@), files@.len() as int) == Some(
            i as int,
        ),
{
    let ghost fv = files_view(files@);
    let mut r: Option<usize> = None;
    let mut k: usize = 0;
    while k < files.len()
        invariant
            k <= files@.len(),
            fv == files_view(files@),
            r is Some <==> last_match(*o, fv, k as int) is Some,
            r matches Some(i) ==> last_match(*o, fv, k as int) == Some(i as int),
        decreases files@.len() - k,
    {
        assert(fv[k as int] == files@[k as int]@);
        if o.matches(&files[k]) {
            r = Some(k);
        }
        k += 1;
    }
    r
}

/// Copies of the files of the run that a manual compaction reads from `o.level`.
fn manual_run_files(o: &ManualCompactionOption, levels: &Levels) -> (r: Vec<SstableInfo>)
    requires
        o.level <= levels.levels@.len(),
    ensures
        files_view(r@) == manual_run(*o, *levels),
{
    if o.level == 0 {
        let subs = &levels.l0.sub_levels;
        let mut newest: Option<usize> = None;
        let mut j: usize = 0;
        while j < subs.len()
            invariant
                j <= subs@.len(),
                subs@ == levels.l0.sub_levels@,
                newest is Some <==> last_matching_sub_level(*o, subs@, j as int) is Some,
                newest matches Some(e) ==> last_matching_sub_level(*o, subs@, j as int) == Some(
                    e as int,
                ) && e < j,
            decreases subs@.len() - j,
        {
            if last_matching(o, &subs[j].table_infos).is_some() {
                newest = Some(j);
            }
            j += 1;
        }
        match newest {
            Some(e) => collect_sub_level_files(subs, 0, e + 1),
            None => {
                let v: Vec<SstableInfo> = Vec::new();
                assert(files_view(v@) =~= Seq::<SstView>::empty());
                v
            },
        }
    } else {
        let files = &levels.levels[o.level - 1].table_infos;
        let ghost fv = files_view(files@);
        proof {
            lemma_match_range(*o, fv, fv.len() as int);
        }
        let first = first_matching(o, files);
        let last = last_matching(o, files);
        let mut v: Vec<SstableInfo> = Vec::new();
        if let (Some(f), Some(l)) = (first, last) {
            let n = files.len();
            let mut k: usize = f;
            while k <= l
                invariant
                    f <= k <= l + 1,
                    l < n,
                    n == files@.len(),
                    fv == files_view(files@),
                    files_view(v@) == fv.subrange(f as int, k as int),
                decreases l + 1 - k,
            {
                let ghost prev = v@;
                let c = files[k].duplicate();
                v.push(c);
                assert(files_view(v@) =~= files_view(prev).push(c@));
                assert(fv.subrange(f as int, k + 1) =~= fv.subrange(f as int, k as int).push(c@));
                k += 1;
            }
        } else {
            assert(files_view(v@) =~= Seq::<SstView>::empty());
        }
        v
    }
}

/// Picks what a manual compaction option asks for.
pub struct ManualCompactionPicker {
    pub option: ManualCompactionOption,
    pub target_level: usize,
}

impl ManualCompactionPicker {
    pub fn new(option: ManualCompactionOption, target_level: usize) -> (r: ManualCompactionPicker)
        ensures
            r.option == option,
            r.target_level == target_level,
    {
        ManualCompactionPicker { option, target_level }
    }

    /// Takes the run of the option's level that holds the requested files, and the target
    /// files in its span.
    pub fn pick_compaction(&self, levels: &Levels, handlers: &Vec<LevelHandler>) -> (r: Option<
        CompactionInput,
    >)
        requires
            self.option.level <= levels.levels@.len(),
            self.target_level <= levels.levels@.len(),
            self.option.level < handlers@.len(),
            self.target_level < handlers@.len(),
            self.target_level >= 1 || self.target_level == self.option.level,
        ensures
            opt_view(r) == spec_manual_pick(
                self.option,
                self.target_level as int,
                *levels,
                handler_views(handlers@),
            ),
    {
        pick_manual(&self.option, self.target_level, levels, handlers)
    }
}

/// Takes the run of `o.level` that holds the files `o` asks for, and the files of `target`
/// in its span.
pub fn pick_manual(
    o: &ManualCompactionOption,
    target: usize,
    levels: &Levels,
    handlers: &Vec<LevelHandler>,
) -> (r: Option<CompactionInput>)
    requires
        o.level <= levels.levels@.len(),
        target <= levels.levels@.len(),
        o.level < handlers@.len(),
        target < handlers@.len(),
        target >= 1 || target == o.level,
    ensures
        opt_view(r) == spec_manual_pick(*o, target as int, *levels, handler_views(handlers@)),
{
    let ghost hs = handler_views(handlers@);
    let level = o.level;
    let sel = manual_run_files(o, levels);
    assert(handlers@[level as int]@ == hs[level as int]);
    if sel.len() == 0 || files_pending(&handlers[level], &sel) {
        return None;
    }
    let tfiles = if target == level {
        let v: Vec<SstableInfo> = Vec::new();
        assert(files_view(v@) =~= Seq::<SstView>::empty());
        v
    } else {
        let range = union_key_range(&sel);
        collect_overlapping(&levels.levels[target - 1].table_infos, &range)
    };
    assert(handlers@[target as int]@ == hs[target as int]);
    if files_pending(&handlers[target], &tfiles) {
        return None;
    }
    let level_type = if level == 0 {
        LevelType::Overlapping
    } else {
        LevelType::Nonoverlapping
    };
    let mut input_levels: Vec<InputLevel> = Vec::new();
    input_levels.push(InputLevel { level_idx: level as u32, level_type, table_infos: sel });
    input_levels.push(
        InputLevel {
            level_idx: target as u32,
            level_type: LevelType::Nonoverlapping,
            table_infos: tfiles,
        },
    );
    let r = CompactionInput { input_levels, target_level: target, target_sub_level_id: 0 };
    assert(r@.levels =~= two_level_input(
        level as int,
        level_type,
        files_view(r.input_levels@[0].table_infos@),
        target as int,
        files_view(r.input_levels@[1].table_infos@),
        0,
    ).levels);
    Some(r)
}

} // verus!
