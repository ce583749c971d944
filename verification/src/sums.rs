//! Sums over ranges of an integer sequence, the vocabulary in which the
//! prefix-sum tree and the growth engine state their contracts.

use vstd::prelude::*;

verus! {

/// The sum of `w[a], ..., w[b - 1]`; zero when the range is empty.
pub open spec fn range_sum(w: Seq<int>, a: int, b: int) -> int
    decreases b - a,
{
    if b <= a {
        0
    } else {
        range_sum(w, a, b - 1) + w[b - 1]
    }
}

/// The sum of all entries of `w`.
pub open spec fn total_of(w: Seq<int>) -> int {
    range_sum(w, 0, w.len() as int)
}

/// The sum of the squares of `w[a], ..., w[b - 1]`.
pub open spec fn range_sum_squares(w: Seq<int>, a: int, b: int) -> int
    decreases b - a,
{
    if b <= a {
        0
    } else {
        range_sum_squares(w, a, b - 1) + w[b - 1] * w[b - 1]
    }
}

/// The sum of the squares of all entries of `w`.
pub open spec fn squares_of(w: Seq<int>) -> int {
    range_sum_squares(w, 0, w.len() as int)
}

/// A range splits at any point inside it.
pub proof fn lemma_range_sum_split(w: Seq<int>, a: int, b: int, c: int)
    requires
        a <= b <= c,
    ensures
        range_sum(w, a, c) == range_sum(w, a, b) + range_sum(w, b, c),
    decreases c - b,
{
    if b < c {
        lemma_range_sum_split(w, a, b, c - 1);
    }
}

/// Changing one entry changes the sum of a range by the same amount when the
/// entry lies in the range, and not at all otherwise.
pub proof fn lemma_range_sum_update(w: Seq<int>, i: int, x: int, a: int, b: int)
    requires
        0 <= i < w.len(),
        0 <= a <= b <= w.len(),
    ensures
        range_sum(w.update(i, x), a, b) == range_sum(w, a, b) + if a <= i < b {
            x - w[i]
        } else {
            0
        },
    decreases b - a,
{
    if a < b {
        lemma_range_sum_update(w, i, x, a, b - 1);
    }
}

/// A range of entries that are bounded in size has a bounded sum.
pub proof fn lemma_range_sum_bound(w: Seq<int>, a: int, b: int, bound: int)
    requires
        0 <= a <= b <= w.len(),
        forall|k: int| a <= k < b ==> -bound <= #[trigger] w[k] <= bound,
    ensures
        -(b - a) * bound <= range_sum(w, a, b) <= (b - a) * bound,
    decreases b - a,
{
    if a < b {
        lemma_range_sum_bound(w, a, b - 1, bound);
        assert((b - a) * bound == (b - 1 - a) * bound + bound) by (nonlinear_arith);
        assert(-(b - a) * bound == -(b - 1 - a) * bound - bound) by (nonlinear_arith);
    } else {
        assert((b - a) * bound == 0) by (nonlinear_arith)
            requires
                b - a == 0,
        ;
    }
}

/// A range of non-negative entries has a non-negative sum, and it grows with
/// the range.
pub proof fn lemma_range_sum_monotone(w: Seq<int>, a: int, b: int, c: int)
    requires
        0 <= a <= b <= c <= w.len(),
        forall|k: int| b <= k < c ==> 0 <= #[trigger] w[k],
    ensures
        range_sum(w, a, b) <= range_sum(w, a, c),
    decreases c - b,
{
    if b < c {
        lemma_range_sum_monotone(w, a, b, c - 1);
    }
}

/// A range of zeros sums to zero.
pub proof fn lemma_range_sum_zero(w: Seq<int>, a: int, b: int)
    requires
        forall|k: int| a <= k < b ==> #[trigger] w[k] == 0,
    ensures
        range_sum(w, a, b) == 0,
        range_sum_squares(w, a, b) == 0,
    decreases b - a,
{
    if a < b {
        lemma_range_sum_zero(w, a, b - 1);
    }
}

/// Changing one entry changes the sum of squares of a range by the difference
/// of the two squares when the entry lies in the range.
pub proof fn lemma_range_sum_squares_update(w: Seq<int>, i: int, x: int, a: int, b: int)
    requires
        0 <= i < w.len(),
        0 <= a <= b <= w.len(),
    ensures
        range_sum_squares(w.update(i, x), a, b) == range_sum_squares(w, a, b) + if a <= i < b {
            x * x - w[i] * w[i]
        } else {
            0
        },
    decreases b - a,
{
    if a < b {
        lemma_range_sum_squares_update(w, i, x, a, b - 1);
    }
}

/// Appending an entry adds it to the total and its square to the squares.
pub proof fn lemma_push_totals(w: Seq<int>, x: int)
    ensures
        total_of(w.push(x)) == total_of(w) + x,
        squares_of(w.push(x)) == squares_of(w) + x * x,
{
    lemma_prefix_push(w, x, w.len() as int);
}

/// Appending an entry leaves the sums over the old entries as they were.
pub proof fn lemma_prefix_push(w: Seq<int>, x: int, b: int)
    requires
        0 <= b <= w.len(),
    ensures
        range_sum(w.push(x), 0, b) == range_sum(w, 0, b),
        range_sum_squares(w.push(x), 0, b) == range_sum_squares(w, 0, b),
    decreases b,
{
    if 0 < b {
        lemma_prefix_push(w, x, b - 1);
    }
}

/// Over non-negative entries, the sum of the squares of a range is between
/// zero and the square of its sum.
pub proof fn lemma_squares_le_square(w: Seq<int>, a: int, b: int)
    requires
        0 <= a <= b <= w.len(),
        forall|k: int| a <= k < b ==> 0 <= #[trigger] w[k],
    ensures
        0 <= range_sum(w, a, b),
        0 <= range_sum_squares(w, a, b) <= range_sum(w, a, b) * range_sum(w, a, b),
    decreases b - a,
{
    if a < b {
        lemma_squares_le_square(w, a, b - 1);
        let s = range_sum(w, a, b - 1);
        let q = range_sum_squares(w, a, b - 1);
        let x = w[b - 1];
        assert(0 <= q + x * x <= (s + x) * (s + x)) by (nonlinear_arith)
            requires
                0 <= q <= s * s,
                0 <= s,
                0 <= x,
        ;
    }
}

/// No entry of a sequence of non-negative numbers exceeds their sum.
pub proof fn lemma_entry_le_total(w: Seq<int>, i: int)
    requires
        0 <= i < w.len(),
        forall|k: int| 0 <= k < w.len() ==> 0 <= #[trigger] w[k],
    ensures
        w[i] <= total_of(w),
{
    lemma_range_sum_split(w, 0, i, w.len() as int);
    lemma_range_sum_split(w, i, i + 1, w.len() as int);
    lemma_range_sum_monotone(w, 0, 0, i);
    lemma_range_sum_monotone(w, i + 1, i + 1, w.len() as int);
    assert(range_sum(w, i, i + 1) == w[i]) by {
        assert(range_sum(w, i, i) == 0);
    }
}

/// Where one sequence is below another entry by entry, so are their sums.
pub proof fn lemma_sum_le(w: Seq<int>, d: Seq<int>, n: int)
    requires
        0 <= n <= w.len(),
        n <= d.len(),
        forall|v: int| 0 <= v < n ==> #[trigger] w[v] <= d[v],
    ensures
        range_sum(w, 0, n) <= range_sum(d, 0, n),
    decreases n,
{
    if n > 0 {
        lemma_sum_le(w, d, n - 1);
    }
}

} // verus!
