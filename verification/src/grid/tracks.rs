//! Sizing the columns of a grid once the relative and automatic columns are
//! measured: the remaining space goes to the fractional columns, or, when
//! there is too little of it, the automatic columns shrink to a fair share.

use vstd::prelude::*;

use crate::container::Sizing;
use crate::geom::{in_range, spec_scale, spec_share, Abs, Fr};

verus! {

/// The sizes after growing the fractional columns: each gets its share of
/// the remaining space, unless there are no fractions at all.
pub open spec fn spec_grown(cols: Seq<Sizing>, rcols: Seq<Abs>, remaining: Abs, fr: Fr) -> Seq<Abs> {
    Seq::new(
        rcols.len(),
        |i: int|
            if fr.0 != 0 && i < cols.len() {
                match cols[i] {
                    Sizing::Fr(v) => Abs(spec_share(v.0 as int, fr.0 as int, remaining.0 as int) as i64),
                    _ => rcols[i],
                }
            } else {
                rcols[i]
            },
    )
}

/// Whether the share of every fractional column is in the range of lengths.
pub open spec fn spec_grow_fits(cols: Seq<Sizing>, remaining: Abs, fr: Fr) -> bool {
    forall|i: int|
        0 <= i < cols.len() ==> (#[trigger] cols[i] matches Sizing::Fr(v) ==> in_range(
            spec_share(v.0 as int, fr.0 as int, remaining.0 as int),
        ))
}

/// Distribute remaining space to fractional columns.
pub fn grow_fractional_columns(cols: &Vec<Sizing>, rcols: &mut Vec<Abs>, remaining: Abs, fr: Fr)
    requires
        spec_grow_fits(cols@, remaining, fr),
    ensures
        final(rcols)@ == spec_grown(cols@, old(rcols)@, remaining, fr),
{
    if fr.0 == 0 {
        assert(rcols@ =~= spec_grown(cols@, old(rcols)@, remaining, fr));
        return;
    }
    let n = if cols.len() < rcols.len() {
        cols.len()
    } else {
        rcols.len()
    };
    let mut i: usize = 0;
    while i < n
        invariant
            n <= cols@.len(),
            n <= old(rcols)@.len(),
            n == cols@.len() || n == old(rcols)@.len(),
            i <= n,
            fr.0 != 0,
            spec_grow_fits(cols@, remaining, fr),
            rcols@.len() == old(rcols)@.len(),
            forall|j: int|
                0 <= j < rcols@.len() ==> #[trigger] rcols@[j] == if j < i {
                    spec_grown(cols@, old(rcols)@, remaining, fr)[j]
                } else {
                    old(rcols)@[j]
                },
        decreases n - i,
    {
        if let Sizing::Fr(v) = cols[i] {
            assert(cols@[i as int] matches Sizing::Fr(v));
            let share = v.share(fr, remaining);
            rcols.set(i, share);
        }
        i += 1;
    }
    assert(rcols@ =~= spec_grown(cols@, old(rcols)@, remaining, fr));
}

/// Whether the size `v` lies above the threshold `t`; no threshold stands
/// below every size.
pub open spec fn spec_above(t: Option<int>, v: int) -> bool {
    match t {
        None => true,
        Some(t) => v > t,
    }
}

/// Whether the column is automatic with a size above `t`.
pub open spec fn spec_auto_above(col: Sizing, size: Abs, t: Option<int>) -> bool {
    col is Auto && spec_above(t, size.0 as int)
}

/// Whether the column is automatic with a size above `lo` and at most `hi`.
pub open spec fn spec_auto_between(col: Sizing, size: Abs, lo: Option<int>, hi: int) -> bool {
    col is Auto && spec_above(lo, size.0 as int) && size.0 <= hi
}

/// The number of automatic columns among the first `n` whose size lies
/// above `t`.
pub open spec fn spec_count_above(cols: Seq<Sizing>, rcols: Seq<Abs>, t: Option<int>, n: int) -> nat
    decreases n,
{
    if n <= 0 {
        0
    } else {
        spec_count_above(cols, rcols, t, n - 1) + if spec_auto_above(cols[n - 1], rcols[n - 1], t) {
            1nat
        } else {
            0nat
        }
    }
}

/// The total size of the automatic columns among the first `n` whose size
/// is at most `t`.
pub open spec fn spec_sum_upto(cols: Seq<Sizing>, rcols: Seq<Abs>, t: Option<int>, n: int) -> int
    decreases n,
{
    if n <= 0 {
        0
    } else {
        spec_sum_upto(cols, rcols, t, n - 1) + if cols[n - 1] is Auto && !spec_above(
            t,
            rcols[n - 1].0 as int,
        ) {
            rcols[n - 1].0 as int
        } else {
            0
        }
    }
}

/// The number of automatic columns among the first `n` whose size lies
/// above `lo` and is at most `hi`.
pub open spec fn spec_count_between(
    cols: Seq<Sizing>,
    rcols: Seq<Abs>,
    lo: Option<int>,
    hi: int,
    n: int,
) -> nat
    decreases n,
{
    if n <= 0 {
        0
    } else {
        spec_count_between(cols, rcols, lo, hi, n - 1) + if spec_auto_between(
            cols[n - 1],
            rcols[n - 1],
            lo,
            hi,
        ) {
            1nat
        } else {
            0nat
        }
    }
}

/// The total size of the automatic columns among the first `n` whose size
/// lies above `lo` and is at most `hi`.
pub open spec fn spec_sum_between(
    cols: Seq<Sizing>,
    rcols: Seq<Abs>,
    lo: Option<int>,
    hi: int,
    n: int,
) -> int
    decreases n,
{
    if n <= 0 {
        0
    } else {
        spec_sum_between(cols, rcols, lo, hi, n - 1) + if spec_auto_between(
            cols[n - 1],
            rcols[n - 1],
            lo,
            hi,
        ) {
            rcols[n - 1].0 as int
        } else {
            0
        }
    }
}

/// The total size of the first `n` automatic columns.
pub open spec fn spec_auto_sum(cols: Seq<Sizing>, rcols: Seq<Abs>, n: int) -> int
    decreases n,
{
    if n <= 0 {
        0
    } else {
        spec_auto_sum(cols, rcols, n - 1) + if cols[n - 1] is Auto {
            rcols[n - 1].0 as int
        } else {
            0
        }
    }
}

/// Whether `lo` lies at or below `hi`.
pub open spec fn spec_not_above(lo: Option<int>, hi: int) -> bool {
    match lo {
        None => true,
        Some(l) => l <= hi,
    }
}

/// Raising the threshold from `lo` to `hi` moves the columns in between
/// from those above the threshold to those at most at it.
proof fn lemma_raise_threshold(cols: Seq<Sizing>, rcols: Seq<Abs>, lo: Option<int>, hi: int, n: int)
    requires
        spec_not_above(lo, hi),
        n <= cols.len(),
        n <= rcols.len(),
    ensures
        spec_count_above(cols, rcols, lo, n) == spec_count_above(cols, rcols, Some(hi), n)
            + spec_count_between(cols, rcols, lo, hi, n),
        spec_sum_upto(cols, rcols, Some(hi), n) == spec_sum_upto(cols, rcols, lo, n)
            + spec_sum_between(cols, rcols, lo, hi, n),
    decreases n,
{
    if n > 0 {
        lemma_raise_threshold(cols, rcols, lo, hi, n - 1);
    }
}

/// No automatic column is at most at no threshold.
proof fn lemma_sum_upto_none(cols: Seq<Sizing>, rcols: Seq<Abs>, n: int)
    ensures
        spec_sum_upto(cols, rcols, None, n) == 0,
    decreases n,
{
    if n > 0 {
        lemma_sum_upto_none(cols, rcols, n - 1);
    }
}

/// The columns in between are at most at `hi` each, and not negative when
/// no automatic column is.
proof fn lemma_sum_between_bounds(
    cols: Seq<Sizing>,
    rcols: Seq<Abs>,
    lo: Option<int>,
    hi: int,
    n: int,
)
    requires
        n <= cols.len(),
        n <= rcols.len(),
        spec_autos_nonneg(cols, rcols),
    ensures
        spec_sum_between(cols, rcols, lo, hi, n) <= hi * spec_count_between(cols, rcols, lo, hi, n),
        0 <= spec_sum_between(cols, rcols, lo, hi, n),
    decreases n,
{
    if n > 0 {
        lemma_sum_between_bounds(cols, rcols, lo, hi, n - 1);
        let c = spec_count_between(cols, rcols, lo, hi, n - 1) as int;
        if spec_auto_between(cols[n - 1], rcols[n - 1], lo, hi) {
            assert(rcols[n - 1].0 <= hi);
            assert(hi * (c + 1) == hi * c + hi) by (nonlinear_arith);
            assert(spec_count_between(cols, rcols, lo, hi, n) == c + 1);
        } else {
            assert(spec_count_between(cols, rcols, lo, hi, n) == c);
        }
    } else {
        assert(hi * 0 == 0);
    }
}

/// A sum of some of the automatic columns is at most the sum of all of
/// them, when none is negative.
proof fn lemma_sum_upto_bounds(cols: Seq<Sizing>, rcols: Seq<Abs>, t: Option<int>, n: int)
    requires
        n <= cols.len(),
        n <= rcols.len(),
        spec_autos_nonneg(cols, rcols),
    ensures
        0 <= spec_sum_upto(cols, rcols, t, n) <= spec_auto_sum(cols, rcols, n),
    decreases n,
{
    if n > 0 {
        lemma_sum_upto_bounds(cols, rcols, t, n - 1);
    }
}

/// A prefix of the sizes in between sums to at most all of them, when no
/// automatic column is negative.
proof fn lemma_sum_between_prefix(
    cols: Seq<Sizing>,
    rcols: Seq<Abs>,
    lo: Option<int>,
    hi: int,
    i: int,
    n: int,
)
    requires
        0 <= i <= n,
        n <= cols.len(),
        n <= rcols.len(),
        spec_autos_nonneg(cols, rcols),
    ensures
        spec_sum_between(cols, rcols, lo, hi, i) <= spec_sum_between(cols, rcols, lo, hi, n),
        spec_count_between(cols, rcols, lo, hi, i) <= spec_count_between(cols, rcols, lo, hi, n),
    decreases n - i,
{
    if i < n {
        lemma_sum_between_prefix(cols, rcols, lo, hi, i, n - 1);
    }
}

/// Whether no automatic column has a negative size.
pub open spec fn spec_autos_nonneg(cols: Seq<Sizing>, rcols: Seq<Abs>) -> bool {
    forall|i: int| 0 <= i < cols.len() && i < rcols.len() && #[trigger] cols[i] is Auto ==> rcols[i].0 >= 0
}

/// The sizes with every automatic column above `fair` cut down to it.
pub open spec fn spec_clamped(cols: Seq<Sizing>, rcols: Seq<Abs>, fair: int) -> Seq<Abs> {
    Seq::new(
        rcols.len(),
        |i: int|
            if i < cols.len() && cols[i] is Auto && rcols[i].0 > fair {
                Abs(fair as i64)
            } else {
                rcols[i]
            },
    )
}

/// Whether `fair` is a fair share of the available space for the automatic
/// columns. If they all fit into the available space, it is at least as
/// large as each of them. Otherwise some are larger, and it is the space
/// left by the others, split evenly among the larger ones and rounded down.
pub open spec fn spec_fair_share(cols: Seq<Sizing>, rcols: Seq<Abs>, available: Abs, fair: int) -> bool {
    let n = cols.len() as int;
    let over = spec_count_above(cols, rcols, Some(fair), n);
    if spec_auto_sum(cols, rcols, n) <= available.0 {
        over == 0
    } else {
        over > 0 && fair == (available.0 - spec_sum_upto(cols, rcols, Some(fair), n)) / (over as int)
    }
}

/// The total size of the automatic columns among the first `n` whose size
/// lies above `t`.
pub open spec fn spec_sum_above(cols: Seq<Sizing>, rcols: Seq<Abs>, t: Option<int>, n: int) -> int
    decreases n,
{
    if n <= 0 {
        0
    } else {
        spec_sum_above(cols, rcols, t, n - 1) + if spec_auto_above(cols[n - 1], rcols[n - 1], t) {
            rcols[n - 1].0 as int
        } else {
            0
        }
    }
}

/// Every automatic column is either at most at the threshold or above it.
proof fn lemma_split_sum(cols: Seq<Sizing>, rcols: Seq<Abs>, t: Option<int>, n: int)
    ensures
        spec_auto_sum(cols, rcols, n) == spec_sum_upto(cols, rcols, t, n) + spec_sum_above(
            cols,
            rcols,
            t,
            n,
        ),
    decreases n,
{
    if n > 0 {
        lemma_split_sum(cols, rcols, t, n - 1);
    }
}

/// The columns above `t` are each at least one unit larger than `t`; with
/// none of them, they sum to nothing.
proof fn lemma_sum_above_lower(cols: Seq<Sizing>, rcols: Seq<Abs>, t: int, n: int)
    ensures
        spec_sum_above(cols, rcols, Some(t), n) >= (t + 1) * spec_count_above(cols, rcols, Some(t), n),
        spec_count_above(cols, rcols, Some(t), n) == 0 ==> spec_sum_above(cols, rcols, Some(t), n)
            == 0,
    decreases n,
{
    if n > 0 {
        lemma_sum_above_lower(cols, rcols, t, n - 1);
        let c = spec_count_above(cols, rcols, Some(t), n - 1) as int;
        assert((t + 1) * (c + 1) == (t + 1) * c + (t + 1)) by (nonlinear_arith);
        if spec_auto_above(cols[n - 1], rcols[n - 1], Some(t)) {
            assert(spec_count_above(cols, rcols, Some(t), n) == c + 1);
        } else {
            assert(spec_count_above(cols, rcols, Some(t), n) == c);
        }
    } else {
        assert((t + 1) * 0 == 0);
    }
}

/// A rounded-down share leaves less than one unit more for each.
proof fn lemma_floor_div_upper(f: int, r: int, n: int)
    requires
        n > 0,
        f == r / n,
    ensures
        r < (f + 1) * n,
        f * n <= r,
{
    assert(r < (f + 1) * n && f * n <= r) by (nonlinear_arith)
        requires
            n > 0,
            f == r / n,
    ;
}

/// What the columns must satisfy before their automatic columns are shrunk:
/// as many sizes as columns, the number of automatic columns, no negative
/// size of one, and their total and the available space in the range of
/// lengths.
pub open spec fn spec_shrink_ok(cols: Seq<Sizing>, rcols: Seq<Abs>, available: Abs, count: usize) -> bool {
    &&& rcols.len() == cols.len()
    &&& count == spec_count_above(cols, rcols, None, cols.len() as int)
    &&& spec_autos_nonneg(cols, rcols)
    &&& available.0 >= 0
    &&& spec_auto_sum(cols, rcols, cols.len() as int) <= i64::MAX
}

/// Rounded-down division keeps a lower bound: if `t * n <= r` then
/// `t <= r / n`.
proof fn lemma_floor_div_lower(t: int, r: int, n: int)
    requires
        n > 0,
        t * n <= r,
    ensures
        t <= r / n,
{
    assert(t <= r / n) by (nonlinear_arith)
        requires
            n > 0,
            t * n <= r,
    ;
}

/// Taking away `k` columns of at most `f` each from `n` columns sharing `r`
/// with `f * n <= r` leaves at least `f` for each of the others.
proof fn lemma_fair_keeps(f: int, r: int, n: int, x: int, k: int)
    requires
        f * n <= r,
        x <= f * k,
        k <= n,
    ensures
        f * (n - k) <= r - x,
{
    assert(f * (n - k) == f * n - f * k) by (nonlinear_arith);
}

/// Redistribute space to auto columns so that each gets a fair share: the
/// automatic columns that are smaller than the share keep their size, the
/// others are cut down to it.
pub fn shrink_auto_columns(cols: &Vec<Sizing>, rcols: &mut Vec<Abs>, available: Abs, count: usize)
    requires
        spec_shrink_ok(cols@, old(rcols)@, available, count),
    ensures
        exists|fair: int|
            spec_fair_share(cols@, old(rcols)@, available, fair) && final(rcols)@ == spec_clamped(
                cols@,
                old(rcols)@,
                fair,
            ),
{
    let ghost cs = cols@;
    let ghost rs = rcols@;
    let ghost n = cols@.len() as int;
    let mut fair: Option<Abs> = None;
    let mut redistribute = available;
    let mut overlarge = count;
    let mut changed = true;
    let ghost mut prev: Option<int> = None;
    proof {
        lemma_sum_upto_none(cs, rs, n);
    }
    while changed && overlarge > 0
        invariant
            spec_shrink_ok(cs, rs, available, count),
            cols@ == cs,
            rcols@ == rs,
            n == cs.len(),
            changed ==> prev == match fair {
                None => None::<int>,
                Some(f) => Some(f.0 as int),
            },
            changed ==> overlarge == spec_count_above(cs, rs, prev, n),
            changed ==> redistribute.0 == available.0 - spec_sum_upto(cs, rs, prev, n),
            changed ==> redistribute.0 >= 0,
            changed && fair is Some ==> fair.unwrap().0 * overlarge <= redistribute.0,
            !changed ==> fair is Some,
            !changed ==> spec_fair_share(cs, rs, available, fair.unwrap().0 as int),
            !changed ==> overlarge > 0,
        decreases overlarge + if changed {
            1int
        } else {
            0int
        },
    {
        changed = false;
        let last = fair;
        let ghost lo: Option<int> = prev;
        let ghost r0 = redistribute.0 as int;
        let ghost n0 = overlarge as int;
        let q = (redistribute.0 as i128).checked_div_euclid(overlarge as i128);
        proof {
            assert(0 <= r0 <= available.0) by {
                lemma_sum_upto_bounds(cs, rs, lo, n);
            }
            assert(0 <= r0 / n0 <= r0) by (nonlinear_arith)
                requires
                    0 <= r0,
                    n0 >= 1,
            ;
            assert((r0 / n0) * n0 <= r0) by (nonlinear_arith)
                requires
                    n0 >= 1,
            ;
        }
        let f = Abs(q.unwrap() as i64);
        let ghost fi = f.0 as int;
        assert(fi == r0 / n0);
        proof {
            match lo {
                Some(l) => {
                    lemma_floor_div_lower(l, r0, n0);
                },
                None => {},
            }
            assert(spec_not_above(lo, fi));
            lemma_raise_threshold(cs, rs, lo, fi, n);
            lemma_sum_between_bounds(cs, rs, lo, fi, n);
            lemma_sum_upto_bounds(cs, rs, Some(fi), n);
        }
        fair = Some(f);
        let mut i: usize = 0;
        while i < rcols.len()
            invariant
                spec_shrink_ok(cs, rs, available, count),
                cols@ == cs,
                rcols@ == rs,
                n == cs.len(),
                i <= n,
                fair == Some(f),
                f.0 == fi,
                fi * n0 <= r0,
                0 <= fi,
                spec_not_above(lo, fi),
                last == match lo {
                    None => None::<Abs>,
                    Some(l) => Some(Abs(l as i64)),
                },
                lo matches Some(l) ==> in_range(l),
                n0 == spec_count_above(cs, rs, lo, n),
                r0 == available.0 - spec_sum_upto(cs, rs, lo, n),
                n0 == spec_count_above(cs, rs, Some(fi), n) + spec_count_between(cs, rs, lo, fi, n),
                spec_sum_upto(cs, rs, Some(fi), n) == spec_sum_upto(cs, rs, lo, n) + spec_sum_between(
                    cs,
                    rs,
                    lo,
                    fi,
                    n,
                ),
                spec_sum_upto(cs, rs, Some(fi), n) <= spec_auto_sum(cs, rs, n),
                overlarge == n0 - spec_count_between(cs, rs, lo, fi, i as int),
                redistribute.0 == r0 - spec_sum_between(cs, rs, lo, fi, i as int),
                changed == (spec_count_between(cs, rs, lo, fi, i as int) > 0),
            decreases n - i,
        {
            proof {
                lemma_sum_between_prefix(cs, rs, lo, fi, i + 1, n);
                lemma_sum_between_bounds(cs, rs, lo, fi, i + 1);
                lemma_sum_upto_bounds(cs, rs, lo, n);
            }
            let rcol = rcols[i];
            let above_last = match last {
                None => true,
                Some(l) => rcol.0 > l.0,
            };
            if cols[i].is_auto() && rcol.0 <= f.0 && above_last {
                assert(spec_auto_between(cs[i as int], rs[i as int], lo, fi));
                redistribute = redistribute.minus(rcol);
                overlarge -= 1;
                changed = true;
            } else {
                assert(!spec_auto_between(cs[i as int], rs[i as int], lo, fi));
            }
            i += 1;
        }
        proof {
            let k = spec_count_between(cs, rs, lo, fi, n) as int;
            let x = spec_sum_between(cs, rs, lo, fi, n);
            lemma_sum_between_bounds(cs, rs, lo, fi, n);
            if changed {
                prev = Some(fi);
                assert(x <= fi * k);
                lemma_fair_keeps(fi, r0, n0, x, k);
                assert(fi * (n0 - k) >= 0) by (nonlinear_arith)
                    requires
                        fi >= 0,
                        n0 - k >= 0,
                ;
            } else {
                assert(k == 0);
                assert(fi * k == 0) by (nonlinear_arith)
                    requires
                        k == 0,
                ;
                assert(x == 0);
                assert(spec_count_above(cs, rs, Some(fi), n) == n0);
                lemma_split_sum(cs, rs, Some(fi), n);
                lemma_sum_above_lower(cs, rs, fi, n);
                lemma_floor_div_upper(fi, r0, n0);
                assert(spec_auto_sum(cs, rs, n) > available.0);
                assert(spec_fair_share(cs, rs, available, fi));
            }
        }
    }
    let ghost level: int = match fair {
        Some(f) => f.0 as int,
        None => 0,
    };
    proof {
        if changed {
            assert(overlarge == 0);
            assert(spec_count_above(cs, rs, prev, n) == 0);
            lemma_none_above_clamp(cs, rs, prev, level, n);
            lemma_split_sum(cs, rs, Some(level), n);
            lemma_sum_above_lower(cs, rs, level, n);
            lemma_sum_upto_same(cs, rs, prev, level, n);
            assert(spec_auto_sum(cs, rs, n) <= available.0);
        }
    }
    let ghost goal = spec_clamped(cs, rs, level);
    if let Some(f) = fair {
        let mut i: usize = 0;
        while i < rcols.len()
            invariant
                cols@ == cs,
                rcols@.len() == rs.len(),
                rs.len() == cs.len(),
                level == f.0,
                goal == spec_clamped(cs, rs, level),
                i <= rs.len(),
                forall|j: int|
                    0 <= j < rs.len() ==> #[trigger] rcols@[j] == if j < i {
                        goal[j]
                    } else {
                        rs[j]
                    },
            decreases rs.len() - i,
        {
            if cols[i].is_auto() && rcols[i].0 > f.0 {
                rcols.set(i, f);
            }
            i += 1;
        }
    }
    proof {
        if changed {
            lemma_none_above_clamp(cs, rs, prev, level, n);
        }
        assert(rcols@ =~= goal);
        assert(spec_fair_share(cs, rs, available, level));
    }
}

/// When no automatic column lies above `t` and `t` is at most `level`, the
/// columns at most at `t` are those at most at `level`.
proof fn lemma_sum_upto_same(cols: Seq<Sizing>, rcols: Seq<Abs>, t: Option<int>, level: int, n: int)
    requires
        0 <= n <= cols.len(),
        n <= rcols.len(),
        spec_count_above(cols, rcols, t, n) == 0,
        spec_not_above(t, level),
    ensures
        spec_sum_upto(cols, rcols, t, n) == spec_sum_upto(cols, rcols, Some(level), n),
    decreases n,
{
    if n > 0 {
        lemma_sum_upto_same(cols, rcols, t, level, n - 1);
    }
}

/// When no automatic column lies above `t` and `t` is at most `level`,
/// cutting down to `level` changes nothing, and `level` is a fair share.
proof fn lemma_none_above_clamp(cols: Seq<Sizing>, rcols: Seq<Abs>, t: Option<int>, level: int, n: int)
    requires
        n == cols.len(),
        rcols.len() == cols.len(),
        spec_count_above(cols, rcols, t, n) == 0,
        spec_not_above(t, level),
    ensures
        spec_clamped(cols, rcols, level) =~= rcols,
        spec_count_above(cols, rcols, Some(level), n) == 0,
{
    lemma_no_auto_above(cols, rcols, t, level, n);
}

/// When no automatic column among the first `n` lies above `t`, none lies
/// above a `level` at least `t`.
proof fn lemma_no_auto_above(cols: Seq<Sizing>, rcols: Seq<Abs>, t: Option<int>, level: int, n: int)
    requires
        0 <= n <= cols.len(),
        n <= rcols.len(),
        spec_count_above(cols, rcols, t, n) == 0,
        spec_not_above(t, level),
    ensures
        forall|i: int| 0 <= i < n && #[trigger] cols[i] is Auto ==> rcols[i].0 <= level,
        spec_count_above(cols, rcols, Some(level), n) == 0,
    decreases n,
{
    if n > 0 {
        lemma_no_auto_above(cols, rcols, t, level, n - 1);
    }
}


/// The columns in between lie above `lo` each.
proof fn lemma_sum_between_lower(cols: Seq<Sizing>, rcols: Seq<Abs>, lo: int, hi: int, n: int)
    ensures
        spec_sum_between(cols, rcols, Some(lo), hi, n) >= (lo + 1) * spec_count_between(
            cols,
            rcols,
            Some(lo),
            hi,
            n,
        ),
    decreases n,
{
    if n > 0 {
        lemma_sum_between_lower(cols, rcols, lo, hi, n - 1);
        let c = spec_count_between(cols, rcols, Some(lo), hi, n - 1) as int;
        assert((lo + 1) * (c + 1) == (lo + 1) * c + (lo + 1)) by (nonlinear_arith);
        if spec_auto_between(cols[n - 1], rcols[n - 1], Some(lo), hi) {
            assert(spec_count_between(cols, rcols, Some(lo), hi, n) == c + 1);
        } else {
            assert(spec_count_between(cols, rcols, Some(lo), hi, n) == c);
        }
    } else {
        assert((lo + 1) * 0 == 0);
    }
}

/// Of two fair shares of columns that do not all fit, the larger one is not
/// larger than the smaller one.
proof fn lemma_fair_not_above(cols: Seq<Sizing>, rcols: Seq<Abs>, available: Abs, f1: int, f2: int)
    requires
        rcols.len() == cols.len(),
        spec_auto_sum(cols, rcols, cols.len() as int) > available.0,
        spec_fair_share(cols, rcols, available, f1),
        spec_fair_share(cols, rcols, available, f2),
        f1 <= f2,
    ensures
        f2 <= f1,
{
    let n = cols.len() as int;
    let a = available.0 as int;
    let n1 = spec_count_above(cols, rcols, Some(f1), n) as int;
    let n2 = spec_count_above(cols, rcols, Some(f2), n) as int;
    let s1 = spec_sum_upto(cols, rcols, Some(f1), n);
    let s2 = spec_sum_upto(cols, rcols, Some(f2), n);
    lemma_raise_threshold(cols, rcols, Some(f1), f2, n);
    lemma_sum_between_lower(cols, rcols, f1, f2, n);
    let cb = spec_count_between(cols, rcols, Some(f1), f2, n) as int;
    let sb = spec_sum_between(cols, rcols, Some(f1), f2, n);
    assert(n1 == n2 + cb);
    assert(s2 == s1 + sb);
    lemma_floor_div_upper(f1, a - s1, n1);
    lemma_floor_div_upper(f2, a - s2, n2);
    assert(f2 * n2 < (f1 + 1) * n2) by (nonlinear_arith)
        requires
            f2 * n2 <= a - s1 - sb,
            a - s1 < (f1 + 1) * n1,
            sb >= (f1 + 1) * cb,
            n1 == n2 + cb,
    ;
    assert(f2 < f1 + 1) by (nonlinear_arith)
        requires
            f2 * n2 < (f1 + 1) * n2,
            n2 > 0,
    ;
}

/// Shrinking is determined by the columns and the space alone: any two fair
/// shares cut the automatic columns down to the same sizes.
pub proof fn lemma_fair_share_determines(
    cols: Seq<Sizing>,
    rcols: Seq<Abs>,
    available: Abs,
    f1: int,
    f2: int,
)
    requires
        rcols.len() == cols.len(),
        spec_fair_share(cols, rcols, available, f1),
        spec_fair_share(cols, rcols, available, f2),
    ensures
        spec_clamped(cols, rcols, f1) == spec_clamped(cols, rcols, f2),
{
    let n = cols.len() as int;
    if spec_auto_sum(cols, rcols, n) <= available.0 {
        lemma_no_auto_above(cols, rcols, Some(f1), f1, n);
        lemma_no_auto_above(cols, rcols, Some(f2), f2, n);
        assert(spec_clamped(cols, rcols, f1) =~= rcols);
        assert(spec_clamped(cols, rcols, f2) =~= rcols);
    } else if f1 <= f2 {
        lemma_fair_not_above(cols, rcols, available, f1, f2);
    } else {
        lemma_fair_not_above(cols, rcols, available, f2, f1);
    }
}


/// The size a relative column resolves to.
pub open spec fn spec_rel_col(col: Sizing, font_size: Abs, base: Abs) -> int {
    match col {
        Sizing::Rel(v) => v.spec_resolve(font_size).spec_relative_to(base),
        _ => 0,
    }
}

/// The total size of the relative columns among the first `n`.
pub open spec fn spec_rel_sum(cols: Seq<Sizing>, font_size: Abs, base: Abs, n: int) -> int
    decreases n,
{
    if n <= 0 {
        0
    } else {
        spec_rel_sum(cols, font_size, base, n - 1) + spec_rel_col(cols[n - 1], font_size, base)
    }
}

/// The total of the fractions among the first `n` columns.
pub open spec fn spec_fr_sum(cols: Seq<Sizing>, n: int) -> int
    decreases n,
{
    if n <= 0 {
        0
    } else {
        spec_fr_sum(cols, n - 1) + match cols[n - 1] {
            Sizing::Fr(v) => v.0 as int,
            _ => 0,
        }
    }
}

/// Whether resolving the relative columns, and summing them and the
/// fractions, stays in the range of lengths.
pub open spec fn spec_resolve_fits(cols: Seq<Sizing>, font_size: Abs, base: Abs) -> bool {
    &&& forall|i: int|
        0 <= i < cols.len() ==> (#[trigger] cols[i] matches Sizing::Rel(v) ==> {
            &&& v.abs.spec_at_fits(font_size)
            &&& in_range(spec_scale(v.rel.0 as int, base.0 as int))
            &&& in_range(v.spec_resolve(font_size).spec_relative_to(base))
        })
    &&& forall|k: int|
        0 <= k <= cols.len() ==> in_range(#[trigger] spec_rel_sum(cols, font_size, base, k))
            && in_range(spec_fr_sum(cols, k))
}

/// The sizes with every relative column resolved.
pub open spec fn spec_rel_resolved(cols: Seq<Sizing>, rcols: Seq<Abs>, font_size: Abs, base: Abs) -> Seq<
    Abs,
> {
    Seq::new(
        rcols.len(),
        |i: int|
            if i < cols.len() && cols[i] is Rel {
                Abs(spec_rel_col(cols[i], font_size, base) as i64)
            } else {
                rcols[i]
            },
    )
}

/// Resolve the size of all relative columns, relative to the width of the
/// regions' base, and sum them up, and the fractions of the fractional
/// columns.
pub fn resolve_columns(cols: &Vec<Sizing>, rcols: &mut Vec<Abs>, font_size: Abs, base: Abs) -> (r: (
    Abs,
    Fr,
))
    requires
        old(rcols)@.len() == cols@.len(),
        spec_resolve_fits(cols@, font_size, base),
    ensures
        final(rcols)@ == spec_rel_resolved(cols@, old(rcols)@, font_size, base),
        r.0.0 == spec_rel_sum(cols@, font_size, base, cols@.len() as int),
        r.1.0 == spec_fr_sum(cols@, cols@.len() as int),
{
    let mut rel = Abs::zero();
    let mut fr = Fr::zero();
    let mut i: usize = 0;
    while i < cols.len()
        invariant
            rcols@.len() == old(rcols)@.len(),
            old(rcols)@.len() == cols@.len(),
            i <= cols@.len(),
            spec_resolve_fits(cols@, font_size, base),
            rel.0 == spec_rel_sum(cols@, font_size, base, i as int),
            fr.0 == spec_fr_sum(cols@, i as int),
            forall|j: int|
                0 <= j < rcols@.len() ==> #[trigger] rcols@[j] == if j < i {
                    spec_rel_resolved(cols@, old(rcols)@, font_size, base)[j]
                } else {
                    old(rcols)@[j]
                },
        decreases cols@.len() - i,
    {
        assert(in_range(spec_rel_sum(cols@, font_size, base, i + 1)));
        assert(in_range(spec_fr_sum(cols@, i + 1)));
        match cols[i] {
            Sizing::Auto => {},
            Sizing::Rel(v) => {
                assert(cols@[i as int] matches Sizing::Rel(v));
                let resolved = v.resolve(font_size).relative_to(base);
                rcols.set(i, resolved);
                rel = rel.plus(resolved);
            },
            Sizing::Fr(v) => {
                fr = fr.plus(v);
            },
        }
        i += 1;
    }
    assert(rcols@ =~= spec_rel_resolved(cols@, old(rcols)@, font_size, base));
    (rel, fr)
}

/// Size the fractional and automatic columns once the automatic ones are
/// measured to need `auto` in total: if there is space left, it goes to the
/// fractional columns, otherwise the automatic columns shrink.
pub fn distribute_columns(
    cols: &Vec<Sizing>,
    rcols: &mut Vec<Abs>,
    available: Abs,
    auto: Abs,
    count: usize,
    fr: Fr,
)
    requires
        in_range(available.0 - auto.0),
        available.0 - auto.0 >= 0 ==> spec_grow_fits(cols@, Abs((available.0 - auto.0) as i64), fr),
        available.0 - auto.0 < 0 ==> spec_shrink_ok(cols@, old(rcols)@, available, count),
    ensures
        available.0 - auto.0 >= 0 ==> final(rcols)@ == spec_grown(
            cols@,
            old(rcols)@,
            Abs((available.0 - auto.0) as i64),
            fr,
        ),
        available.0 - auto.0 < 0 ==> exists|fair: int|
            spec_fair_share(cols@, old(rcols)@, available, fair) && final(rcols)@ == spec_clamped(
                cols@,
                old(rcols)@,
                fair,
            ),
{
    let remaining = available.minus(auto);
    if remaining.0 >= 0 {
        grow_fractional_columns(cols, rcols, remaining, fr);
    } else {
        shrink_auto_columns(cols, rcols, available, count);
    }
}


/// The automatic columns cut down to `fair` sum to those at most at `fair`
/// and `fair` for each of the others.
proof fn lemma_clamped_sum(cols: Seq<Sizing>, rcols: Seq<Abs>, fair: int, n: int)
    requires
        0 <= n <= cols.len(),
        rcols.len() == cols.len(),
        in_range(fair),
    ensures
        spec_auto_sum(cols, spec_clamped(cols, rcols, fair), n) == spec_sum_upto(
            cols,
            rcols,
            Some(fair),
            n,
        ) + fair * spec_count_above(cols, rcols, Some(fair), n),
    decreases n,
{
    if n > 0 {
        lemma_clamped_sum(cols, rcols, fair, n - 1);
        let c = spec_count_above(cols, rcols, Some(fair), n - 1) as int;
        assert(fair * (c + 1) == fair * c + fair) by (nonlinear_arith);
        if spec_auto_above(cols[n - 1], rcols[n - 1], Some(fair)) {
            assert(spec_count_above(cols, rcols, Some(fair), n) == c + 1);
        } else {
            assert(spec_count_above(cols, rcols, Some(fair), n) == c);
        }
    } else {
        assert(fair * 0 == 0);
    }
}

/// Shrinking makes the automatic columns fit: when they do not all fit into
/// the available space, once cut down to a fair share they take up at most
/// that space.
pub proof fn lemma_shrunk_columns_fit(cols: Seq<Sizing>, rcols: Seq<Abs>, available: Abs, fair: int)
    requires
        rcols.len() == cols.len(),
        spec_autos_nonneg(cols, rcols),
        spec_fair_share(cols, rcols, available, fair),
        spec_auto_sum(cols, rcols, cols.len() as int) > available.0,
    ensures
        spec_auto_sum(cols, spec_clamped(cols, rcols, fair), cols.len() as int) <= available.0,
{
    let n = cols.len() as int;
    let a = available.0 as int;
    let over = spec_count_above(cols, rcols, Some(fair), n) as int;
    let s = spec_sum_upto(cols, rcols, Some(fair), n);
    lemma_sum_upto_bounds(cols, rcols, Some(fair), n);
    lemma_floor_div_upper(fair, a - s, over);
    if fair < 0 {
        lemma_sum_upto_zero_below(cols, rcols, fair, n);
        assert(fair >= a) by (nonlinear_arith)
            requires
                fair == a / over,
                over >= 1,
                fair < 0,
        ;
    } else {
        assert(fair <= a - s) by (nonlinear_arith)
            requires
                fair * over <= a - s,
                over >= 1,
                fair >= 0,
        ;
    }
    lemma_clamped_sum(cols, rcols, fair, n);
}

/// With no automatic column of a negative size, none is at most at a
/// negative threshold.
proof fn lemma_sum_upto_zero_below(cols: Seq<Sizing>, rcols: Seq<Abs>, t: int, n: int)
    requires
        0 <= n <= cols.len(),
        n <= rcols.len(),
        spec_autos_nonneg(cols, rcols),
        t < 0,
    ensures
        spec_sum_upto(cols, rcols, Some(t), n) == 0,
    decreases n,
{
    if n > 0 {
        lemma_sum_upto_zero_below(cols, rcols, t, n - 1);
    }
}


/// The total size of the fractional columns among the first `n`.
pub open spec fn spec_fr_cols_sum(cols: Seq<Sizing>, sizes: Seq<Abs>, n: int) -> int
    decreases n,
{
    if n <= 0 {
        0
    } else {
        spec_fr_cols_sum(cols, sizes, n - 1) + if cols[n - 1] is Fr {
            sizes[n - 1].0 as int
        } else {
            0
        }
    }
}

/// Whether no fraction of a fractional column is negative.
pub open spec fn spec_fractions_nonneg(cols: Seq<Sizing>) -> bool {
    forall|i: int| 0 <= i < cols.len() ==> (#[trigger] cols[i] matches Sizing::Fr(v) ==> v.0 >= 0)
}

/// Rounding down the parts of a sum gives at most the rounded-down sum.
proof fn lemma_floor_superadditive(a: int, b: int, t: int)
    requires
        t > 0,
    ensures
        a / t + b / t <= (a + b) / t,
{
    lemma_floor_div_upper(a / t, a, t);
    lemma_floor_div_upper(b / t, b, t);
    assert((a / t + b / t) * t <= a + b) by (nonlinear_arith)
        requires
            (a / t) * t <= a,
            (b / t) * t <= b,
    ;
    lemma_floor_div_lower(a / t + b / t, a + b, t);
}

/// The shares of the first `n` fractional columns sum to at most the share
/// of their fractions together.
proof fn lemma_grown_prefix(cols: Seq<Sizing>, rcols: Seq<Abs>, remaining: Abs, fr: Fr, n: int)
    requires
        rcols.len() == cols.len(),
        0 <= n <= cols.len(),
        fr.0 > 0,
        remaining.0 >= 0,
        spec_fractions_nonneg(cols),
        spec_grow_fits(cols, remaining, fr),
    ensures
        spec_fr_cols_sum(cols, spec_grown(cols, rcols, remaining, fr), n) <= (remaining.0
            * spec_fr_sum(cols, n)) / (fr.0 as int),
    decreases n,
{
    let r = remaining.0 as int;
    let t = fr.0 as int;
    if n > 0 {
        lemma_grown_prefix(cols, rcols, remaining, fr, n - 1);
        let p = spec_fr_sum(cols, n - 1);
        match cols[n - 1] {
            Sizing::Fr(v) => {
                let w = v.0 as int;
                assert(r * w >= 0) by (nonlinear_arith)
                    requires
                        r >= 0,
                        w >= 0,
                ;
                assert((r * w) / t >= 0) by (nonlinear_arith)
                    requires
                        r * w >= 0,
                        t > 0,
                ;
                assert(r * p + r * w == r * (p + w)) by (nonlinear_arith);
                lemma_floor_superadditive(r * p, r * w, t);
            },
            _ => {},
        }
    } else {
        assert(r * 0 == 0);
    }
}

/// Growing never takes more than the remaining space: when the fractions of
/// the fractional columns add up to the total, their shares fit into the
/// remaining space.
pub proof fn lemma_grown_columns_fit(cols: Seq<Sizing>, rcols: Seq<Abs>, remaining: Abs, fr: Fr)
    requires
        rcols.len() == cols.len(),
        spec_fractions_nonneg(cols),
        fr.0 == spec_fr_sum(cols, cols.len() as int),
        fr.0 > 0,
        remaining.0 >= 0,
        spec_grow_fits(cols, remaining, fr),
    ensures
        spec_fr_cols_sum(cols, spec_grown(cols, rcols, remaining, fr), cols.len() as int)
            <= remaining.0,
{
    let r = remaining.0 as int;
    let t = fr.0 as int;
    lemma_grown_prefix(cols, rcols, remaining, fr, cols.len() as int);
    lemma_floor_div_upper((r * t) / t, r * t, t);
    assert((r * t) / t <= r) by (nonlinear_arith)
        requires
            ((r * t) / t) * t <= r * t,
            t > 0,
    ;
}

} // verus!
