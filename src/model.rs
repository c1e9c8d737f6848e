//! The snapshot of an LSM tree that one scheduling tick reads.
use vstd::prelude::*;

verus! {

/// The largest value of a `u64`, as a mathematical integer.
pub open spec fn u64_max() -> int {
    0xffff_ffff_ffff_ffffint
}

/// `a + b`, clamped to the largest `u64`.
pub open spec fn sat_add(a: int, b: int) -> int {
    if a + b > u64_max() {
        u64_max()
    } else {
        a + b
    }
}

/// `a - b`, clamped at zero.
pub open spec fn sat_sub(a: int, b: int) -> int {
    if a >= b {
        a - b
    } else {
        0
    }
}

/// `a * b`, clamped to the largest `u64`.
pub open spec fn sat_mul(a: int, b: int) -> int {
    if a * b > u64_max() {
        u64_max()
    } else {
        a * b
    }
}

/// `a * b`, clamped to the largest `u64`.
pub fn mul_saturating(a: u64, b: u64) -> (r: u64)
    ensures
        r == sat_mul(a as int, b as int),
{
    match a.checked_mul(b) {
        Some(p) => p,
        None => u64::MAX,
    }
}

/// A copy of `v`.
pub fn copy_u32s(v: &Vec<u32>) -> (r: Vec<u32>)
    ensures
        r@ == v@,
{
    let mut r: Vec<u32> = Vec::new();
    let mut i: usize = 0;
    while i < v.len()
        invariant
            i <= v@.len(),
            r@ == v@.subrange(0, i as int),
        decreases v@.len() - i,
    {
        r.push(v[i]);
        i += 1;
        assert(r@ =~= v@.subrange(0, i as int));
    }
    assert(r@ =~= v@);
    r
}

/// A copy of `v`.
pub fn copy_u64s(v: &Vec<u64>) -> (r: Vec<u64>)
    ensures
        r@ == v@,
{
    let mut r: Vec<u64> = Vec::new();
    let mut i: usize = 0;
    while i < v.len()
        invariant
            i <= v@.len(),
            r@ == v@.subrange(0, i as int),
        decreases v@.len() - i,
    {
        r.push(v[i]);
        i += 1;
        assert(r@ =~= v@.subrange(0, i as int));
    }
    assert(r@ =~= v@);
    r
}

/// Whether `a` and `b` hold the same values in the same order.
pub fn same_u64s(a: &Vec<u64>, b: &Vec<u64>) -> (r: bool)
    ensures
        r == (a@ == b@),
{
    if a.len() != b.len() {
        return false;
    }
    let mut i: usize = 0;
    while i < a.len()
        invariant
            i <= a@.len(),
            a@.len() == b@.len(),
            a@.subrange(0, i as int) == b@.subrange(0, i as int),
        decreases a@.len() - i,
    {
        if a[i] != b[i] {
            assert(a@[i as int] != b@[i as int]);
            return false;
        }
        assert(a@.subrange(0, i + 1) =~= a@.subrange(0, i as int).push(a@[i as int]));
        assert(b@.subrange(0, i + 1) =~= b@.subrange(0, i as int).push(b@[i as int]));
        i += 1;
    }
    assert(a@ =~= a@.subrange(0, i as int));
    assert(b@ =~= b@.subrange(0, i as int));
    true
}

/// `a` and `b` hold the same values, in any order and any number of times.
pub open spec fn same_id_set(a: Seq<u32>, b: Seq<u32>) -> bool {
    forall|x: u32| a.contains(x) <==> b.contains(x)
}

/// Whether `a` and `b` hold the same values, in any order and any number of times.
pub fn same_u32_sets(a: &Vec<u32>, b: &Vec<u32>) -> (r: bool)
    ensures
        r == same_id_set(a@, b@),
{
    let mut i: usize = 0;
    while i < a.len()
        invariant
            i <= a@.len(),
            forall|k: int| 0 <= k < i ==> b@.contains(#[trigger] a@[k]),
        decreases a@.len() - i,
    {
        if !contains_u32(b, a[i]) {
            return false;
        }
        i += 1;
    }
    let mut j: usize = 0;
    while j < b.len()
        invariant
            j <= b@.len(),
            forall|k: int| 0 <= k < a@.len() ==> b@.contains(#[trigger] a@[k]),
            forall|k: int| 0 <= k < j ==> a@.contains(#[trigger] b@[k]),
        decreases b@.len() - j,
    {
        if !contains_u32(a, b[j]) {
            return false;
        }
        j += 1;
    }
    assert forall|x: u32| a@.contains(x) <==> b@.contains(x) by {
        if a@.contains(x) {
            let k = choose|k: int| 0 <= k < a@.len() && a@[k] == x;
            assert(b@.contains(a@[k]));
        }
        if b@.contains(x) {
            let k = choose|k: int| 0 <= k < b@.len() && b@[k] == x;
            assert(a@.contains(b@[k]));
        }
    }
    true
}

/// Whether `v` holds `x`.
pub fn contains_u32(v: &Vec<u32>, x: u32) -> (r: bool)
    ensures
        r == v@.contains(x),
{
    let mut i: usize = 0;
    while i < v.len()
        invariant
            i <= v@.len(),
            forall|k: int| 0 <= k < i ==> v@[k] != x,
        decreases v@.len() - i,
    {
        if v[i] == x {
            assert(v@[i as int] == x);
            return true;
        }
        i += 1;
    }
    false
}

/// Whether `v` holds `x`.
pub fn contains_u64(v: &Vec<u64>, x: u64) -> (r: bool)
    ensures
        r == v@.contains(x),
{
    let mut i: usize = 0;
    while i < v.len()
        invariant
            i <= v@.len(),
            forall|k: int| 0 <= k < i ==> v@[k] != x,
        decreases v@.len() - i,
    {
        if v[i] == x {
            assert(v@[i as int] == x);
            return true;
        }
        i += 1;
    }
    false
}

/// A closed key interval `[left, right]`, or `[left, right)` when
/// `right_exclusive` is set.
#[derive(Clone, Copy, Debug, PartialEq, Eq, Structural)]
pub struct KeyRange {
    pub left: u64,
    pub right: u64,
    pub right_exclusive: bool,
}

impl KeyRange {
    /// Every key of `self` lies before every key of `other`.
    pub open spec fn ends_before(self, other: KeyRange) -> bool {
        self.right < other.left || (self.right == other.left && self.right_exclusive)
    }

    /// The two ranges share at least one key.
    pub open spec fn spec_overlaps(self, other: KeyRange) -> bool {
        !self.ends_before(other) && !other.ends_before(self)
    }

    pub fn new(left: u64, right: u64, right_exclusive: bool) -> (r: KeyRange)
        ensures
            r == (KeyRange { left, right, right_exclusive }),
    {
        KeyRange { left, right, right_exclusive }
    }

    /// Whether the two ranges intersect.
    pub fn overlaps(&self, other: &KeyRange) -> (r: bool)
        ensures
            r == self.spec_overlaps(*other),
    {
        let a_first = self.right < other.left || (self.right == other.left
            && self.right_exclusive);
        let b_first = other.right < self.left || (other.right == self.left
            && other.right_exclusive);
        !a_first && !b_first
    }
}

/// One immutable sorted table file.
#[derive(Clone, Debug)]
pub struct SstableInfo {
    pub id: u64,
    pub key_range: KeyRange,
    pub file_size: u64,
    /// The logical tables whose rows the file holds.
    pub table_ids: Vec<u32>,
    pub stale_key_count: u64,
    pub total_key_count: u64,
}

/// The value of an `SstableInfo`.
pub struct SstView {
    pub id: u64,
    pub key_range: KeyRange,
    pub file_size: u64,
    pub table_ids: Seq<u32>,
    pub stale_key_count: u64,
    pub total_key_count: u64,
}

impl View for SstableInfo {
    type V = SstView;

    open spec fn view(&self) -> SstView {
        SstView {
            id: self.id,
            key_range: self.key_range,
            file_size: self.file_size,
            table_ids: self.table_ids@,
            stale_key_count: self.stale_key_count,
            total_key_count: self.total_key_count,
        }
    }
}

/// The values of a sequence of files.
pub open spec fn files_view(s: Seq<SstableInfo>) -> Seq<SstView> {
    s.map_values(|f: SstableInfo| f@)
}

/// Sum of the file sizes of `s`, clamped to the largest `u64` at every step.
pub open spec fn files_size(s: Seq<SstView>) -> int
    decreases s.len(),
{
    if s.len() == 0 {
        0
    } else {
        sat_add(files_size(s.drop_last()), s.last().file_size as int)
    }
}

impl SstableInfo {
    /// A copy of the file description.
    pub fn duplicate(&self) -> (r: SstableInfo)
        ensures
            r@ == self@,
    {
        let mut ids: Vec<u32> = Vec::new();
        let mut i: usize = 0;
        while i < self.table_ids.len()
            invariant
                i <= self.table_ids@.len(),
                ids@ == self.table_ids@.subrange(0, i as int),
            decreases self.table_ids@.len() - i,
        {
            ids.push(self.table_ids[i]);
            i += 1;
            assert(ids@ =~= self.table_ids@.subrange(0, i as int));
        }
        assert(ids@ =~= self.table_ids@);
        SstableInfo {
            id: self.id,
            key_range: self.key_range,
            file_size: self.file_size,
            table_ids: ids,
            stale_key_count: self.stale_key_count,
            total_key_count: self.total_key_count,
        }
    }
}

/// Sum of the sizes of `files`, clamped to the largest `u64`.
pub fn total_size(files: &Vec<SstableInfo>) -> (r: u64)
    ensures
        r == files_size(files_view(files@)),
{
    let mut sum: u64 = 0;
    let mut i: usize = 0;
    while i < files.len()
        invariant
            i <= files@.len(),
            sum == files_size(files_view(files@).subrange(0, i as int)),
        decreases files@.len() - i,
    {
        proof {
            let s = files_view(files@).subrange(0, i as int + 1);
            assert(s.drop_last() =~= files_view(files@).subrange(0, i as int));
        }
        sum = sum.saturating_add(files[i].file_size);
        i += 1;
    }
    assert(files_view(files@).subrange(0, i as int) =~= files_view(files@));
    sum
}

/// Whether the files of a level may share keys.
#[derive(Clone, Copy, Debug, PartialEq, Eq, Structural)]
pub enum LevelType {
    Overlapping,
    Nonoverlapping,
}

/// An ordered collection of files at one depth; at depth 0, one sub-level.
#[derive(Clone, Debug)]
pub struct Level {
    pub level_idx: u32,
    pub level_type: LevelType,
    pub table_infos: Vec<SstableInfo>,
    pub total_file_size: u64,
    pub sub_level_id: u64,
}

/// Level 0: its sub-levels, oldest first.
#[derive(Clone, Debug)]
pub struct OverlappingLevel {
    pub sub_levels: Vec<Level>,
    pub total_file_size: u64,
}

/// A snapshot of the whole tree: level 0 and levels `1..=max_level`.
#[derive(Clone, Debug)]
pub struct Levels {
    pub levels: Vec<Level>,
    pub l0: OverlappingLevel,
}

impl Levels {
    /// `levels[i]` is level `i + 1`, for every level up to `max_level`.
    pub open spec fn wf(&self, max_level: int) -> bool {
        &&& self.levels@.len() == max_level
        &&& forall|i: int| 0 <= i < max_level ==> #[trigger] self.levels@[i].level_idx == i + 1
    }
}

} // verus!
