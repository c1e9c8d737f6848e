//! Level sizing and candidate scoring: the dynamic-level core shared by every selector.
use vstd::prelude::*;
use crate::config::CompactionConfig;
use crate::level_handler::{
    handler_views, pending_output, reserved_count, sat_add_usize, HandlerView, LevelHandler,
};
use crate::model::{mul_saturating, sat_add, sat_mul, sat_sub, u64_max, Level, Levels};

verus! {

/// A score of this value means that a level is exactly at capacity.
pub const SCORE_BASE: u64 = 100;

/// What one tick derives from a snapshot before picking files.
pub struct SelectContext {
    /// Target size of each level, indexed by level.
    pub level_max_bytes: Vec<u64>,
    /// The level that level 0 drains into.
    pub base_level: usize,
    /// Candidates `(score, select_level, target_level)`, highest score first.
    pub score_levels: Vec<(u64, usize, usize)>,
    /// Some pending figure exceeded the size it was taken from, and was clamped.
    pub pending_anomaly: bool,
}

/// Level index of the first non-empty level among `levels[..n]`, or 0 if all are empty.
pub open spec fn first_non_empty(levels: Seq<Level>, n: int) -> int
    decreases n,
{
    if n <= 0 {
        0
    } else {
        let f = first_non_empty(levels, n - 1);
        if f == 0 && levels[n - 1].total_file_size > 0 {
            levels[n - 1].level_idx as int
        } else {
            f
        }
    }
}

/// Largest total size among `levels[..n]`.
pub open spec fn max_level_size(levels: Seq<Level>, n: int) -> int
    decreases n,
{
    if n <= 0 {
        0
    } else {
        let m = max_level_size(levels, n - 1);
        let s = levels[n - 1].total_file_size as int;
        if s > m {
            s
        } else {
            m
        }
    }
}

/// `x` divided by `m`, `k` times over, rounding down each time.
pub open spec fn div_repeat(x: int, m: int, k: int) -> int
    decreases k,
{
    if k <= 0 {
        x
    } else {
        div_repeat(x, m, k - 1) / m
    }
}

/// Moves the base level up while the size at it exceeds `bmax`; gives the level and its size.
pub open spec fn raise_base(base: int, cur: int, bmax: int, m: int) -> (int, int)
    decreases base,
{
    if base > 1 && cur > bmax {
        raise_base(base - 1, cur / m, bmax, m)
    } else {
        (base, cur)
    }
}

/// The base level and the target size of the base level.
pub open spec fn sizing(cfg: CompactionConfig, levels: Seq<Level>) -> (int, int) {
    let n = levels.len() as int;
    let first = first_non_empty(levels, n);
    let max_size = max_level_size(levels, n);
    let m = cfg.max_bytes_for_level_multiplier as int;
    let bmax = cfg.max_bytes_for_level_base as int;
    let bmin = bmax / m;
    if max_size == 0 {
        (cfg.max_level as int, 0)
    } else {
        let cur = div_repeat(max_size, m, cfg.max_level - first);
        if cur <= bmin {
            (first, bmin + 1)
        } else {
            let (b, c) = raise_base(first, cur, bmax, m);
            (b, if c < bmax { c } else { bmax })
        }
    }
}

/// The base level of a snapshot.
pub open spec fn spec_base_level(cfg: CompactionConfig, levels: Seq<Level>) -> int {
    sizing(cfg, levels).0
}

/// `size` multiplied by `m`, `k` times over, clamped to the largest `u64` each time.
pub open spec fn mul_repeat(size: int, m: int, k: int) -> int
    decreases k,
{
    if k <= 0 {
        size
    } else {
        sat_mul(mul_repeat(size, m, k - 1), m)
    }
}

/// The target size of level `i`: unbounded above the base level and for an empty tree,
/// else the base size grown by the multiplier per level, never below the base capacity.
pub open spec fn spec_level_max_bytes(cfg: CompactionConfig, levels: Seq<Level>, i: int) -> int {
    let (base, base_size) = sizing(cfg, levels);
    let bmax = cfg.max_bytes_for_level_base as int;
    if max_level_size(levels, levels.len() as int) == 0 || i < base {
        u64_max()
    } else {
        let s = mul_repeat(base_size, cfg.max_bytes_for_level_multiplier as int, i - base);
        if s > bmax {
            s
        } else {
            bmax
        }
    }
}

proof fn lemma_scan(levels: Seq<Level>, n: int)
    requires
        0 <= n <= levels.len(),
        forall|i: int| 0 <= i < levels.len() ==> #[trigger] levels[i].level_idx == i + 1,
    ensures
        0 <= first_non_empty(levels, n) <= n,
        first_non_empty(levels, n) == 0 <==> max_level_size(levels, n) == 0,
        max_level_size(levels, n) >= 0,
    decreases n,
{
    if n > 0 {
        lemma_scan(levels, n - 1);
        assert(levels[n - 1].level_idx == n);
    }
}

proof fn lemma_raise_base(base: int, cur: int, bmax: int, m: int)
    requires
        base >= 1,
        cur >= 0,
        m >= 1,
    ensures
        1 <= raise_base(base, cur, bmax, m).0 <= base,
        raise_base(base, cur, bmax, m).1 >= 0,
    decreases base,
{
    if base > 1 && cur > bmax {
        lemma_raise_base(base - 1, cur / m, bmax, m);
    }
}

proof fn lemma_div_repeat(x: int, m: int, k: int)
    requires
        x >= 0,
        m >= 1,
    ensures
        0 <= div_repeat(x, m, k) <= x,
    decreases k,
{
    if k > 0 {
        lemma_div_repeat(x, m, k - 1);
        assert(div_repeat(x, m, k - 1) / m <= div_repeat(x, m, k - 1)) by (nonlinear_arith)
            requires
                div_repeat(x, m, k - 1) >= 0,
                m >= 1,
        ;
    }
}

proof fn lemma_mul_repeat_step(size: int, m: int, k: int)
    requires
        0 <= size <= u64_max(),
        m >= 1,
        k >= 0,
    ensures
        0 <= mul_repeat(size, m, k) <= mul_repeat(size, m, k + 1) <= u64_max(),
    decreases k,
{
    if k > 0 {
        lemma_mul_repeat_step(size, m, k - 1);
    }
    let a = mul_repeat(size, m, k);
    assert(a <= a * m) by (nonlinear_arith)
        requires
            a >= 0,
            m >= 1,
    ;
}

/// The base level lies in `1..=max_level`, and is `max_level` when every level below 0
/// is empty.
pub proof fn lemma_base_level_in_range(cfg: CompactionConfig, levels: Levels)
    requires
        cfg.valid(),
        levels.wf(cfg.max_level as int),
    ensures
        1 <= spec_base_level(cfg, levels.levels@) <= cfg.max_level,
        max_level_size(levels.levels@, levels.levels@.len() as int) == 0 ==> spec_base_level(
            cfg,
            levels.levels@,
        ) == cfg.max_level,
{
    let ls = levels.levels@;
    let n = ls.len() as int;
    lemma_scan(ls, n);
    let first = first_non_empty(ls, n);
    let max_size = max_level_size(ls, n);
    let m = cfg.max_bytes_for_level_multiplier as int;
    if max_size != 0 {
        lemma_div_repeat(max_size, m, cfg.max_level - first);
        let cur = div_repeat(max_size, m, cfg.max_level - first);
        lemma_raise_base(first, cur, cfg.max_bytes_for_level_base as int, m);
    }
}

/// Level targets never shrink going down from the base level, and none is below the base
/// capacity.
pub proof fn lemma_capacity_shape(cfg: CompactionConfig, levels: Levels, i: int)
    requires
        cfg.valid(),
        levels.wf(cfg.max_level as int),
        0 <= i <= cfg.max_level,
    ensures
        spec_level_max_bytes(cfg, levels.levels@, i) >= cfg.max_bytes_for_level_base,
        spec_base_level(cfg, levels.levels@) <= i < cfg.max_level ==> spec_level_max_bytes(
            cfg,
            levels.levels@,
            i + 1,
        ) >= spec_level_max_bytes(cfg, levels.levels@, i),
{
    let ls = levels.levels@;
    let n = ls.len() as int;
    lemma_base_level_in_range(cfg, levels);
    lemma_scan(ls, n);
    let (base, base_size) = sizing(cfg, ls);
    let m = cfg.max_bytes_for_level_multiplier as int;
    let max_size = max_level_size(ls, n);
    if max_size != 0 && base <= i {
        let first = first_non_empty(ls, n);
        let bmax = cfg.max_bytes_for_level_base as int;
        let cur = div_repeat(max_size, m, cfg.max_level - first);
        lemma_div_repeat(max_size, m, cfg.max_level - first);
        lemma_raise_base(first, cur, bmax, m);
        assert(bmax / m <= bmax) by (nonlinear_arith)
            requires
                bmax > 0,
                m >= 1,
        ;
        assert(bmax / m + 1 <= bmax) by (nonlinear_arith)
            requires
                bmax > 0,
                m >= 2,
        ;
        assert(0 <= base_size <= u64_max());
        lemma_mul_repeat_step(base_size, m, i - base);
    }
}



/// Number of files in `subs[..n]`, clamped to the largest `usize` at every step.
pub open spec fn l0_file_count(subs: Seq<Level>, n: int) -> int
    decreases n,
{
    if n <= 0 {
        0
    } else {
        sat_add_usize(l0_file_count(subs, n - 1), subs[n - 1].table_infos@.len() as int)
    }
}

/// Bytes at level `idx` that scoring counts: its files, plus what the level above is
/// writing into it, minus what it is writing into the level below (clamped at each step).
pub open spec fn effective_size(
    levels: Seq<Level>,
    hs: Seq<HandlerView>,
    base: int,
    k: int,
) -> int {
    let idx = levels[k].level_idx as int;
    let upper = if idx == base {
        0
    } else {
        idx - 1
    };
    sat_sub(
        sat_add(levels[k].total_file_size as int, pending_output(hs[upper].tasks, idx)),
        pending_output(hs[idx].tasks, idx + 1),
    )
}

/// `size * SCORE_BASE / capacity`, the product clamped to the largest `u64`.
pub open spec fn score_of(size: int, capacity: int) -> int {
    sat_mul(size, SCORE_BASE as int) / capacity
}

/// Candidates for the levels `levels[..n]` that lie in `base..max_level` and hold data.
pub open spec fn level_candidates(
    cfg: CompactionConfig,
    levels: Seq<Level>,
    hs: Seq<HandlerView>,
    n: int,
) -> Seq<(u64, usize, usize)>
    decreases n,
{
    if n <= 0 {
        Seq::empty()
    } else {
        let rest = level_candidates(cfg, levels, hs, n - 1);
        let base = spec_base_level(cfg, levels);
        let idx = levels[n - 1].level_idx as int;
        if idx < base || idx >= cfg.max_level {
            rest
        } else {
            let total = effective_size(levels, hs, base, n - 1);
            if total == 0 {
                rest
            } else {
                rest.push(
                    (
                        score_of(total, spec_level_max_bytes(cfg, levels, idx)) as u64,
                        idx as usize,
                        (idx + 1) as usize,
                    ),
                )
            }
        }
    }
}

/// The intra-level-0 score: idle files against the tier trigger, capped.
pub open spec fn tier_score(cfg: CompactionConfig, l0_subs: Seq<Level>, idle: int) -> int {
    let tier = cfg.level0_tier_compact_file_number as int;
    let cap = sat_mul(l0_subs.len() as int, SCORE_BASE as int) / tier;
    let cap = if cap > 2 * SCORE_BASE {
        cap
    } else {
        2 * SCORE_BASE as int
    };
    let s = sat_mul(idle, SCORE_BASE as int) / tier;
    if s < cap {
        s
    } else {
        cap
    }
}

/// Level-0 files that no pending task holds.
pub open spec fn idle_files(levels: Levels, hs: Seq<HandlerView>) -> int {
    let subs = levels.l0.sub_levels@;
    sat_sub(l0_file_count(subs, subs.len() as int), reserved_count(hs[0].tasks))
}

/// Among `levels[..n]`, some scored level writes out more pending bytes than it holds
/// together with what it receives.
pub open spec fn level_underflow(cfg: CompactionConfig, levels: Seq<Level>, hs: Seq<HandlerView>, n: int) -> bool
    decreases n,
{
    if n <= 0 {
        false
    } else {
        let base = spec_base_level(cfg, levels);
        let idx = levels[n - 1].level_idx as int;
        let upper = if idx == base {
            0
        } else {
            idx - 1
        };
        level_underflow(cfg, levels, hs, n - 1) || (base <= idx < cfg.max_level && pending_output(
            hs[idx].tasks,
            idx + 1,
        ) > sat_add(
            levels[n - 1].total_file_size as int,
            pending_output(hs[upper].tasks, idx),
        ))
    }
}

/// Scoring had to clamp a subtraction at zero: more level-0 files reserved than exist,
/// more bytes pending out of level 0 than it holds, or the same at a scored level.
pub open spec fn pending_anomaly(cfg: CompactionConfig, levels: Levels, hs: Seq<HandlerView>) -> bool {
    let subs = levels.l0.sub_levels@;
    let base = spec_base_level(cfg, levels.levels@);
    ||| l0_file_count(subs, subs.len() as int) < reserved_count(hs[0].tasks)
    ||| levels.l0.total_file_size < pending_output(hs[0].tasks, base)
    ||| level_underflow(cfg, levels.levels@, hs, levels.levels@.len() as int)
}

/// Every candidate in the order it is produced: intra-level-0 (only with idle files),
/// level 0 to the base level, then each level from the base level down.
pub open spec fn candidates(cfg: CompactionConfig, levels: Levels, hs: Seq<HandlerView>) -> Seq<
    (u64, usize, usize),
> {
    let ls = levels.levels@;
    let base = spec_base_level(cfg, ls);
    let idle = idle_files(levels, hs);
    let intra = if idle > 0 {
        seq![(tier_score(cfg, levels.l0.sub_levels@, idle) as u64, 0usize, 0usize)]
    } else {
        Seq::empty()
    };
    let l0_total = sat_sub(levels.l0.total_file_size as int, pending_output(hs[0].tasks, base));
    let to_base = (
        score_of(l0_total, cfg.max_bytes_for_level_base as int) as u64,
        0usize,
        base as usize,
    );
    intra.push(to_base) + level_candidates(cfg, ls, hs, ls.len() as int)
}

/// Index of the first entry of `s[i..]` scoring below `key`, or `s.len()`.
pub open spec fn first_lower(s: Seq<(u64, usize, usize)>, key: u64, i: int) -> int
    decreases s.len() - i,
{
    if i >= s.len() || i < 0 {
        s.len() as int
    } else if s[i].0 < key {
        i
    } else {
        first_lower(s, key, i + 1)
    }
}

/// `s` sorted by score, highest first; equal scores keep their order.
pub open spec fn sort_by_score(s: Seq<(u64, usize, usize)>) -> Seq<(u64, usize, usize)>
    decreases s.len(),
{
    if s.len() == 0 {
        s
    } else {
        let sorted = sort_by_score(s.drop_last());
        sorted.insert(first_lower(sorted, s.last().0, 0), s.last())
    }
}

pub(crate) proof fn lemma_first_lower_range(s: Seq<(u64, usize, usize)>, key: u64, i: int)
    requires
        0 <= i <= s.len(),
    ensures
        i <= first_lower(s, key, i) <= s.len(),
    decreases s.len() - i,
{
    if i < s.len() && s[i].0 >= key {
        lemma_first_lower_range(s, key, i + 1);
    }
}

proof fn lemma_first_lower_props(s: Seq<(u64, usize, usize)>, key: u64, i: int)
    requires
        0 <= i <= s.len(),
        forall|k: int| 0 <= k < i ==> s[k].0 >= key,
    ensures
        forall|k: int| 0 <= k < first_lower(s, key, i) ==> s[k].0 >= key,
        first_lower(s, key, i) < s.len() ==> s[first_lower(s, key, i)].0 < key,
    decreases s.len() - i,
{
    if i < s.len() && s[i].0 >= key {
        lemma_first_lower_props(s, key, i + 1);
    }
}

/// Candidates come out with scores from highest to lowest.
pub proof fn lemma_sort_descending(s: Seq<(u64, usize, usize)>)
    ensures
        forall|i: int, j: int|
            0 <= i < j < sort_by_score(s).len() ==> #[trigger] sort_by_score(s)[i].0
                >= #[trigger] sort_by_score(s)[j].0,
    decreases s.len(),
{
    if s.len() > 0 {
        let rest = s.drop_last();
        lemma_sort_descending(rest);
        let old = sort_by_score(rest);
        let x = s.last();
        lemma_first_lower_range(old, x.0, 0);
        lemma_first_lower_props(old, x.0, 0);
        let p = first_lower(old, x.0, 0);
        let out = old.insert(p, x);
        assert forall|i: int, j: int| 0 <= i < j < out.len() implies #[trigger] out[i].0
            >= #[trigger] out[j].0 by {
            if j < p {
                assert(out[i] == old[i] && out[j] == old[j]);
            } else if j == p {
                assert(out[i] == old[i]);
            } else if i < p {
                assert(out[i] == old[i] && out[j] == old[j - 1]);
                assert(old[i].0 >= old[j - 1].0);
            } else if i == p {
                assert(out[j] == old[j - 1]);
                assert(old[p].0 >= old[j - 1].0 || p == j - 1);
            } else {
                assert(out[i] == old[i - 1] && out[j] == old[j - 1]);
            }
        }
    }
}

proof fn lemma_sort_len(s: Seq<(u64, usize, usize)>)
    ensures
        sort_by_score(s).len() == s.len(),
    decreases s.len(),
{
    if s.len() > 0 {
        lemma_sort_len(s.drop_last());
        lemma_first_lower_range(sort_by_score(s.drop_last()), s.last().0, 0);
    }
}

/// Sorts candidates by score, highest first, keeping the order of equal scores.
fn sort_candidates(v: Vec<(u64, usize, usize)>) -> (r: Vec<(u64, usize, usize)>)
    ensures
        r@ == sort_by_score(v@),
{
    let mut out: Vec<(u64, usize, usize)> = Vec::new();
    let mut i: usize = 0;
    while i < v.len()
        invariant
            i <= v@.len(),
            out@ == sort_by_score(v@.subrange(0, i as int)),
        decreases v@.len() - i,
    {
        let x = v[i];
        proof {
            lemma_sort_len(v@.subrange(0, i as int));
        }
        let mut p: usize = 0;
        while p < out.len() && out[p].0 >= x.0
            invariant
                p <= out@.len(),
                first_lower(out@, x.0, 0) == first_lower(out@, x.0, p as int),
            decreases out@.len() - p,
        {
            p += 1;
        }
        proof {
            let t = v@.subrange(0, i + 1);
            assert(t.drop_last() =~= v@.subrange(0, i as int));
            assert(t.last() == x);
        }
        out.insert(p, x);
        i += 1;
    }
    assert(v@.subrange(0, i as int) =~= v@);
    out
}

/// The score of level `levels[k]` as a candidate.
pub open spec fn level_score(cfg: CompactionConfig, levels: Seq<Level>, hs: Seq<HandlerView>, k: int) -> int {
    let base = spec_base_level(cfg, levels);
    score_of(
        effective_size(levels, hs, base, k),
        spec_level_max_bytes(cfg, levels, levels[k].level_idx as int),
    )
}

/// The score of draining level 0 into the base level.
pub open spec fn l0_score(cfg: CompactionConfig, levels: Levels, hs: Seq<HandlerView>) -> int {
    let base = spec_base_level(cfg, levels.levels@);
    score_of(
        sat_sub(levels.l0.total_file_size as int, pending_output(hs[0].tasks, base)),
        cfg.max_bytes_for_level_base as int,
    )
}

proof fn lemma_score_monotone(a: int, b: int, capacity: int)
    requires
        0 <= a <= b,
        capacity > 0,
    ensures
        score_of(a, capacity) <= score_of(b, capacity),
{
    let x = sat_mul(a, SCORE_BASE as int);
    let y = sat_mul(b, SCORE_BASE as int);
    assert(a * 100 <= b * 100);
    assert(x <= y);
    assert(x / capacity <= y / capacity) by (nonlinear_arith)
        requires
            0 <= x <= y,
            capacity > 0,
    ;
}

/// With the handlers fixed, more data at one level never lowers that level's score, as
/// long as the level targets stay as they were.
pub proof fn lemma_level_score_monotone(
    cfg: CompactionConfig,
    small: Levels,
    large: Levels,
    hs: Seq<HandlerView>,
    k: int,
)
    requires
        cfg.valid(),
        small.wf(cfg.max_level as int),
        large.wf(cfg.max_level as int),
        0 <= k < small.levels@.len(),
        forall|j: int| 0 <= j < small.levels@.len() && j != k ==> large.levels@[j] == small.levels@[j],
        large.levels@[k].total_file_size > small.levels@[k].total_file_size,
        spec_base_level(cfg, large.levels@) == spec_base_level(cfg, small.levels@),
        spec_level_max_bytes(cfg, large.levels@, k + 1) == spec_level_max_bytes(
            cfg,
            small.levels@,
            k + 1,
        ),
    ensures
        level_score(cfg, large.levels@, hs, k) >= level_score(cfg, small.levels@, hs, k),
{
    assert(small.levels@[k].level_idx == k + 1);
    assert(large.levels@[k].level_idx == k + 1);
    lemma_capacity_shape(cfg, small, k + 1);
    let base = spec_base_level(cfg, small.levels@);
    let a = effective_size(small.levels@, hs, base, k);
    let b = effective_size(large.levels@, hs, base, k);
    assert(a <= b);
    lemma_score_monotone(a, b, spec_level_max_bytes(cfg, small.levels@, k + 1));
}

/// With the handlers fixed, more data at level 0 never lowers the score of draining it.
pub proof fn lemma_l0_score_monotone(
    cfg: CompactionConfig,
    small: Levels,
    large: Levels,
    hs: Seq<HandlerView>,
)
    requires
        cfg.valid(),
        large.levels == small.levels,
        large.l0.total_file_size > small.l0.total_file_size,
    ensures
        l0_score(cfg, large, hs) >= l0_score(cfg, small, hs),
{
    let base = spec_base_level(cfg, small.levels@);
    let p = pending_output(hs[0].tasks, base);
    lemma_score_monotone(
        sat_sub(small.l0.total_file_size as int, p),
        sat_sub(large.l0.total_file_size as int, p),
        cfg.max_bytes_for_level_base as int,
    );
}

proof fn lemma_sort_contains(s: Seq<(u64, usize, usize)>, x: (u64, usize, usize))
    ensures
        sort_by_score(s).contains(x) <==> s.contains(x),
    decreases s.len(),
{
    if s.len() > 0 {
        let rest = s.drop_last();
        lemma_sort_contains(rest, x);
        let sorted = sort_by_score(rest);
        let last = s.last();
        lemma_first_lower_range(sorted, last.0, 0);
        let p = first_lower(sorted, last.0, 0);
        let out = sorted.insert(p, last);
        if out.contains(x) {
            let i = choose|i: int| 0 <= i < out.len() && out[i] == x;
            if i < p {
                assert(sorted[i] == x);
            } else if i > p {
                assert(sorted[i - 1] == x);
            } else {
                assert(s[s.len() - 1] == x);
            }
            if x != last {
                assert(sorted.contains(x));
                let j = choose|j: int| 0 <= j < rest.len() && rest[j] == x;
                assert(s[j] == x);
            }
        }
        if s.contains(x) {
            let j = choose|j: int| 0 <= j < s.len() && s[j] == x;
            if j == s.len() - 1 {
                assert(out[p] == x);
            } else {
                assert(rest[j] == x);
                let i = choose|i: int| 0 <= i < sorted.len() && sorted[i] == x;
                if i < p {
                    assert(out[i] == x);
                } else {
                    assert(out[i + 1] == x);
                }
            }
        }
    }
}

proof fn lemma_level_candidates_select(cfg: CompactionConfig, levels: Levels, hs: Seq<HandlerView>, n: int)
    requires
        cfg.valid(),
        levels.wf(cfg.max_level as int),
        0 <= n <= levels.levels@.len(),
    ensures
        forall|i: int|
            0 <= i < level_candidates(cfg, levels.levels@, hs, n).len() ==> (#[trigger] level_candidates(
                cfg,
                levels.levels@,
                hs,
                n,
            )[i]).1 >= 1,
    decreases n,
{
    if n > 0 {
        lemma_level_candidates_select(cfg, levels, hs, n - 1);
        lemma_base_level_in_range(cfg, levels);
        assert(levels.levels@[n - 1].level_idx == n);
        let rest = level_candidates(cfg, levels.levels@, hs, n - 1);
        let all = level_candidates(cfg, levels.levels@, hs, n);
        assert forall|i: int| 0 <= i < all.len() implies (#[trigger] all[i]).1 >= 1 by {
            if i < rest.len() {
                assert(all[i] == rest[i]);
            }
        }
    }
}

/// With the levels below 0 and the handlers fixed, adding data to level 0 never lowers
/// the score with which level 0 is drained into the base level among the ranked
/// candidates.
pub proof fn lemma_l0_candidate_monotone(
    cfg: CompactionConfig,
    small: Levels,
    large: Levels,
    hs: Seq<HandlerView>,
    s1: u64,
    b: usize,
)
    requires
        cfg.valid(),
        small.wf(cfg.max_level as int),
        large.levels == small.levels,
        large.l0.total_file_size > small.l0.total_file_size,
        b > 0,
        sort_by_score(candidates(cfg, small, hs)).contains((s1, 0usize, b)),
    ensures
        exists|s2: u64|
            s2 >= s1 && #[trigger] sort_by_score(candidates(cfg, large, hs)).contains((s2, 0usize, b)),
{
    let x = (s1, 0usize, b);
    lemma_sort_contains(candidates(cfg, small, hs), x);
    let c1 = candidates(cfg, small, hs);
    let ls = small.levels@;
    let lc = level_candidates(cfg, ls, hs, ls.len() as int);
    lemma_level_candidates_select(cfg, small, hs, ls.len() as int);
    lemma_base_level_in_range(cfg, small);
    let head = c1.len() - lc.len();
    let i = choose|i: int| 0 <= i < c1.len() && c1[i] == x;
    assert(i == head - 1) by {
        if i >= head {
            assert(c1[i] == lc[i - head]);
        }
    }
    let base = spec_base_level(cfg, ls);
    let big_p = pending_output(hs[0].tasks, base);
    let sc1 = score_of(sat_sub(small.l0.total_file_size as int, big_p), cfg.max_bytes_for_level_base as int);
    let sc2 = score_of(sat_sub(large.l0.total_file_size as int, big_p), cfg.max_bytes_for_level_base as int);
    assert(s1 == sc1 as u64 && b == base as usize);
    lemma_l0_score_monotone(cfg, small, large, hs);
    assert(0 <= sc1 <= sc2 <= u64_max()) by {
        let m1 = sat_mul(sat_sub(small.l0.total_file_size as int, big_p), SCORE_BASE as int);
        let m2 = sat_mul(sat_sub(large.l0.total_file_size as int, big_p), SCORE_BASE as int);
        let cap = cfg.max_bytes_for_level_base as int;
        assert(0 <= m1 <= u64_max() && 0 <= m2 <= u64_max());
        assert(m2 / cap <= m2) by (nonlinear_arith)
            requires
                m2 >= 0,
                cap >= 1,
        ;
        assert(m1 / cap >= 0) by (nonlinear_arith)
            requires
                m1 >= 0,
                cap >= 1,
        ;
    }
    let c2 = candidates(cfg, large, hs);
    let lc2 = level_candidates(cfg, large.levels@, hs, ls.len() as int);
    let y = (sc2 as u64, 0usize, b);
    assert(c2[c2.len() - lc2.len() - 1] == y);
    lemma_sort_contains(c2, y);
}

proof fn lemma_level_candidates_member(
    cfg: CompactionConfig,
    levels: Levels,
    hs: Seq<HandlerView>,
    n: int,
    x: (u64, usize, usize),
)
    requires
        cfg.valid(),
        levels.wf(cfg.max_level as int),
        0 <= n <= levels.levels@.len(),
    ensures
        level_candidates(cfg, levels.levels@, hs, n).contains(x) <==> (1 <= x.1 <= n && x.2 == x.1
            + 1 && spec_base_level(cfg, levels.levels@) <= x.1 < cfg.max_level && effective_size(
            levels.levels@,
            hs,
            spec_base_level(cfg, levels.levels@),
            x.1 - 1,
        ) > 0 && x.0 == level_score(cfg, levels.levels@, hs, x.1 - 1) as u64),
    decreases n,
{
    let ls = levels.levels@;
    if n > 0 {
        lemma_level_candidates_member(cfg, levels, hs, n - 1, x);
        assert(ls[n - 1].level_idx == n);
        let rest = level_candidates(cfg, ls, hs, n - 1);
        let all = level_candidates(cfg, ls, hs, n);
        if all.len() > rest.len() {
            assert(all == rest.push(all[rest.len() as int]));
            if all.contains(x) && !rest.contains(x) {
                let i = choose|i: int| 0 <= i < all.len() && all[i] == x;
                assert(i == rest.len());
            }
            if rest.contains(x) {
                let i = choose|i: int| 0 <= i < rest.len() && rest[i] == x;
                assert(all[i] == x);
            }
            if x == all[rest.len() as int] {
                assert(all.contains(x));
            }
        }
        if x.1 == n {
            assert(x.1 - 1 == n - 1);
        }
    } else {
        assert(level_candidates(cfg, ls, hs, n).len() == 0);
    }
}

/// With the handlers fixed and the level targets unchanged, adding data to one level never
/// lowers the score with which that level appears among the ranked candidates.
pub proof fn lemma_level_candidate_monotone(
    cfg: CompactionConfig,
    small: Levels,
    large: Levels,
    hs: Seq<HandlerView>,
    s1: u64,
    i: usize,
)
    requires
        cfg.valid(),
        small.wf(cfg.max_level as int),
        large.wf(cfg.max_level as int),
        1 <= i <= small.levels@.len(),
        large.l0 == small.l0,
        forall|j: int|
            0 <= j < small.levels@.len() && j != i - 1 ==> large.levels@[j] == small.levels@[j],
        large.levels@[i - 1].total_file_size > small.levels@[i - 1].total_file_size,
        spec_base_level(cfg, large.levels@) == spec_base_level(cfg, small.levels@),
        spec_level_max_bytes(cfg, large.levels@, i as int) == spec_level_max_bytes(
            cfg,
            small.levels@,
            i as int,
        ),
        sort_by_score(candidates(cfg, small, hs)).contains((s1, i, (i + 1) as usize)),
    ensures
        exists|s2: u64|
            s2 >= s1 && #[trigger] sort_by_score(candidates(cfg, large, hs)).contains(
                (s2, i, (i + 1) as usize),
            ),
{
    let x = (s1, i, (i + 1) as usize);
    let k = i - 1;
    let ls = small.levels@;
    let lg = large.levels@;
    let n = ls.len() as int;
    lemma_sort_contains(candidates(cfg, small, hs), x);
    let c1 = candidates(cfg, small, hs);
    let lc1 = level_candidates(cfg, ls, hs, n);
    let head1 = c1.len() - lc1.len();
    lemma_base_level_in_range(cfg, small);
    let j = choose|j: int| 0 <= j < c1.len() && c1[j] == x;
    assert(j >= head1);
    assert(lc1[j - head1] == x);
    assert(lc1.contains(x));
    lemma_level_candidates_member(cfg, small, hs, n, x);
    let base = spec_base_level(cfg, ls);
    assert(ls[k].level_idx == i && lg[k].level_idx == i);
    let e1 = effective_size(ls, hs, base, k);
    let e2 = effective_size(lg, hs, base, k);
    assert(e2 >= e1);
    lemma_level_score_monotone(cfg, small, large, hs, k);
    lemma_capacity_shape(cfg, large, i as int);
    let sc2 = level_score(cfg, lg, hs, k);
    assert(0 <= level_score(cfg, ls, hs, k) <= sc2 <= u64_max()) by {
        let m = sat_mul(e2, SCORE_BASE as int);
        let cap = spec_level_max_bytes(cfg, lg, i as int);
        assert(m / cap <= m) by (nonlinear_arith)
            requires
                m >= 0,
                cap >= 1,
        ;
        let m1 = sat_mul(e1, SCORE_BASE as int);
        assert(m1 / cap >= 0) by (nonlinear_arith)
            requires
                m1 >= 0,
                cap >= 1,
        ;
    }
    let y = (sc2 as u64, i, (i + 1) as usize);
    lemma_level_candidates_member(cfg, large, hs, n, y);
    let c2 = candidates(cfg, large, hs);
    let lc2 = level_candidates(cfg, lg, hs, n);
    assert(lc2.contains(y));
    let jj = choose|jj: int| 0 <= jj < lc2.len() && lc2[jj] == y;
    assert(c2[c2.len() - lc2.len() + jj] == y);
    lemma_sort_contains(c2, y);
}

pub struct DynamicLevelSelectorCore {
    config: CompactionConfig,
}

impl DynamicLevelSelectorCore {
    pub fn new(config: CompactionConfig) -> (r: DynamicLevelSelectorCore)
        ensures
            r.spec_config() == config,
    {
        DynamicLevelSelectorCore { config }
    }

    pub closed spec fn spec_config(&self) -> CompactionConfig {
        self.config
    }

    pub fn get_config(&self) -> (r: &CompactionConfig)
        ensures
            *r == self.spec_config(),
    {
        &self.config
    }

    /// Scores every candidate compaction of the snapshot, highest first.
    pub fn get_priority_levels(&self, levels: &Levels, handlers: &Vec<LevelHandler>) -> (ctx:
        SelectContext)
        requires
            self.spec_config().valid(),
            levels.wf(self.spec_config().max_level as int),
            handlers@.len() == self.spec_config().max_level + 1,
        ensures
            ctx.base_level == spec_base_level(self.spec_config(), levels.levels@),
            ctx.level_max_bytes@.len() == self.spec_config().max_level + 1,
            forall|i: int|
                0 <= i < ctx.level_max_bytes@.len() ==> #[trigger] ctx.level_max_bytes@[i]
                    == spec_level_max_bytes(self.spec_config(), levels.levels@, i),
            ctx.score_levels@ == sort_by_score(
                candidates(self.spec_config(), *levels, handler_views(handlers@)),
            ),
            ctx.pending_anomaly == pending_anomaly(self.spec_config(), *levels, handler_views(handlers@)),
    {
        let ghost cfg = self.config;
        let ghost ls = levels.levels@;
        let ghost hs = handler_views(handlers@);
        let ctx0 = self.calculate_level_base_size(levels);
        proof {
            lemma_base_level_in_range(cfg, *levels);
        }
        let base_level = ctx0.base_level;
        let level_max_bytes = ctx0.level_max_bytes;
        let subs = &levels.l0.sub_levels;
        let mut count: usize = 0;
        let mut k: usize = 0;
        while k < subs.len()
            invariant
                k <= subs@.len(),
                count == l0_file_count(subs@, k as int),
            decreases subs@.len() - k,
        {
            count = count.saturating_add(subs[k].table_infos.len());
            k += 1;
        }
        let pending_files = handlers[0].get_pending_file_count();
        let idle = count.saturating_sub(pending_files);
        let mut anomaly = count < pending_files;
        let tier = self.config.level0_tier_compact_file_number;
        let mut cands: Vec<(u64, usize, usize)> = Vec::new();
        if idle > 0 {
            let cap0 = mul_saturating(subs.len() as u64, SCORE_BASE) / tier;
            let cap = if cap0 > 2 * SCORE_BASE {
                cap0
            } else {
                2 * SCORE_BASE
            };
            let sc = mul_saturating(idle as u64, SCORE_BASE) / tier;
            let l0_score = if sc < cap {
                sc
            } else {
                cap
            };
            cands.push((l0_score, 0, 0));
        }
        let l0_pending = handlers[0].get_pending_output_file_size(base_level);
        let l0_total = levels.l0.total_file_size.saturating_sub(l0_pending);
        anomaly = anomaly || levels.l0.total_file_size < l0_pending;
        let ghost anomaly0 = anomaly;
        cands.push(
            (mul_saturating(l0_total, SCORE_BASE) / self.config.max_bytes_for_level_base, 0, base_level),
        );
        let ghost prefix = cands@;
        assert(prefix =~= prefix + level_candidates(cfg, ls, hs, 0));
        let max_level = self.config.max_level as usize;
        let mut k: usize = 0;
        while k < levels.levels.len()
            invariant
                cfg == self.config,
                cfg.valid(),
                ls == levels.levels@,
                levels.wf(cfg.max_level as int),
                hs == handler_views(handlers@),
                handlers@.len() == cfg.max_level + 1,
                max_level == cfg.max_level,
                base_level == spec_base_level(cfg, ls),
                1 <= base_level <= max_level,
                level_max_bytes@.len() == max_level + 1,
                forall|i: int|
                    0 <= i < level_max_bytes@.len() ==> #[trigger] level_max_bytes@[i]
                        == spec_level_max_bytes(cfg, ls, i),
                k <= ls.len(),
                cands@ == prefix + level_candidates(cfg, ls, hs, k as int),
                anomaly == (anomaly0 || level_underflow(cfg, ls, hs, k as int)),
            decreases ls.len() - k,
        {
            let level = &levels.levels[k];
            let idx = level.level_idx as usize;
            assert(idx == k + 1);
            if idx >= base_level && idx < max_level {
                let upper = if idx == base_level {
                    0
                } else {
                    idx - 1
                };
                let incoming = level.total_file_size.saturating_add(
                    handlers[upper].get_pending_output_file_size(idx),
                );
                let outgoing = handlers[idx].get_pending_output_file_size(idx + 1);
                anomaly = anomaly || incoming < outgoing;
                let total = incoming.saturating_sub(outgoing);
                if total > 0 {
                    proof {
                        lemma_capacity_shape(cfg, *levels, idx as int);
                    }
                    let cap = level_max_bytes[idx];
                    let ghost before = cands@;
                    cands.push((mul_saturating(total, SCORE_BASE) / cap, idx, idx + 1));
                    assert(cands@ =~= prefix + level_candidates(cfg, ls, hs, k + 1));
                } else {
                    assert(cands@ =~= prefix + level_candidates(cfg, ls, hs, k + 1));
                }
            } else {
                assert(cands@ =~= prefix + level_candidates(cfg, ls, hs, k + 1));
            }
            k += 1;
        }
        let score_levels = sort_candidates(cands);
        SelectContext { level_max_bytes, base_level, score_levels, pending_anomaly: anomaly }
    }

    /// Computes the base level and the target size of every level; leaves the candidate
    /// list empty.
    pub fn calculate_level_base_size(&self, levels: &Levels) -> (ctx: SelectContext)
        requires
            self.spec_config().valid(),
            levels.wf(self.spec_config().max_level as int),
        ensures
            ctx.base_level == spec_base_level(self.spec_config(), levels.levels@),
            ctx.level_max_bytes@.len() == self.spec_config().max_level + 1,
            forall|i: int|
                0 <= i < ctx.level_max_bytes@.len() ==> #[trigger] ctx.level_max_bytes@[i]
                    == spec_level_max_bytes(self.spec_config(), levels.levels@, i),
            ctx.score_levels@.len() == 0,
            !ctx.pending_anomaly,
    {
        let ghost cfg = self.config;
        let ghost ls = levels.levels@;
        let max_level = self.config.max_level as usize;
        let mut first_non_empty_level: usize = 0;
        let mut max_size: u64 = 0;
        let mut k: usize = 0;
        while k < levels.levels.len()
            invariant
                ls == levels.levels@,
                levels.wf(cfg.max_level as int),
                k <= ls.len(),
                first_non_empty_level == first_non_empty(ls, k as int),
                max_size == max_level_size(ls, k as int),
                first_non_empty_level <= k,
            decreases ls.len() - k,
        {
            proof {
                lemma_scan(ls, k as int);
            }
            let level = &levels.levels[k];
            if level.total_file_size > 0 && first_non_empty_level == 0 {
                first_non_empty_level = level.level_idx as usize;
            }
            if level.total_file_size > max_size {
                max_size = level.total_file_size;
            }
            k += 1;
        }
        proof {
            lemma_scan(ls, ls.len() as int);
        }
        let mut level_max_bytes: Vec<u64> = Vec::new();
        let n_levels = max_level + 1;
        while level_max_bytes.len() < n_levels
            invariant
                n_levels == max_level + 1,
                max_level == cfg.max_level,
                max_level == ls.len(),
                level_max_bytes@.len() <= max_level + 1,
                forall|i: int| 0 <= i < level_max_bytes@.len() ==> #[trigger] level_max_bytes@[i] == u64::MAX,
            decreases max_level + 1 - level_max_bytes@.len(),
        {
            level_max_bytes.push(u64::MAX);
        }
        if max_size == 0 {
            return SelectContext {
                level_max_bytes,
                base_level: max_level,
                score_levels: Vec::new(),
                pending_anomaly: false,
            };
        }
        let m = self.config.max_bytes_for_level_multiplier;
        let base_bytes_max = self.config.max_bytes_for_level_base;
        let base_bytes_min = base_bytes_max / m;
        assert(base_bytes_min + 1 <= base_bytes_max) by (nonlinear_arith)
            requires
                base_bytes_max > 0,
                m >= 2,
                base_bytes_min == base_bytes_max / m,
        ;
        let mut cur_level_size = max_size;
        let mut j: usize = first_non_empty_level;
        while j < max_level
            invariant
                cfg == self.config,
                m == cfg.max_bytes_for_level_multiplier,
                m >= 2,
                first_non_empty_level <= j <= max_level,
                cur_level_size == div_repeat(max_size as int, m as int, j - first_non_empty_level),
            decreases max_level - j,
        {
            cur_level_size = cur_level_size / m;
            j += 1;
        }
        let mut base_level: usize = first_non_empty_level;
        let base_level_size: u64;
        if cur_level_size <= base_bytes_min {
            base_level_size = base_bytes_min + 1;
        } else {
            let ghost target = raise_base(
                first_non_empty_level as int,
                cur_level_size as int,
                base_bytes_max as int,
                m as int,
            );
            while base_level > 1 && cur_level_size > base_bytes_max
                invariant
                    raise_base(base_level as int, cur_level_size as int, base_bytes_max as int, m as int)
                        == target,
                    m >= 2,
                decreases base_level,
            {
                base_level -= 1;
                cur_level_size = cur_level_size / m;
            }
            base_level_size = if cur_level_size < base_bytes_max {
                cur_level_size
            } else {
                base_bytes_max
            };
        }
        proof {
            lemma_base_level_in_range(cfg, *levels);
        }
        let mut level_size: u64 = base_level_size;
        let mut i: usize = base_level;
        while i <= max_level
            invariant
                cfg == self.config,
                m == cfg.max_bytes_for_level_multiplier,
                base_bytes_max == cfg.max_bytes_for_level_base,
                max_level == cfg.max_level,
                max_level < u32::MAX,
                max_size > 0,
                max_size == max_level_size(ls, ls.len() as int),
                base_level == spec_base_level(cfg, ls),
                base_level_size == sizing(cfg, ls).1,
                1 <= base_level <= i <= max_level + 1,
                level_max_bytes@.len() == max_level + 1,
                level_size == mul_repeat(base_level_size as int, m as int, i - base_level),
                forall|t: int|
                    0 <= t < level_max_bytes@.len() ==> #[trigger] level_max_bytes@[t] == if t < i {
                        spec_level_max_bytes(cfg, ls, t)
                    } else {
                        u64::MAX as int
                    },
            decreases max_level + 1 - i,
        {
            let v = if level_size > base_bytes_max {
                level_size
            } else {
                base_bytes_max
            };
            level_max_bytes.set(i, v);
            level_size = mul_saturating(level_size, m);
            i += 1;
        }
        SelectContext { level_max_bytes, base_level, score_levels: Vec::new(), pending_anomaly: false }
    }
}

} // verus!
