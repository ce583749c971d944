//! A prefix-sum tree over a fixed number of integer weights, with point
//! update, range sum and weighted sampling.

use vstd::prelude::*;
use rand_pcg::Pcg64Mcg;
use crate::random::uniform;
use crate::bits::{
    block_start, lemma_block_start_le, lemma_between_parent, lemma_parent_covers, lemma_strip,
    lemma_strip_stays_in_block, lemma_tiled_end, lemma_tiled_start, lemma_tiled_step, parent,
    strip, tiled,
};
use crate::sums::{
    lemma_range_sum_bound, lemma_range_sum_monotone, lemma_range_sum_split,
    lemma_range_sum_update, lemma_range_sum_zero, range_sum, total_of,
};

verus! {

/// The largest number of weights a tree can hold.
pub const MAX_CAPACITY: usize = 4294967295;

/// The largest size of a single weight: two to the power 31, so that every
/// `i32` is a weight. With at most `MAX_CAPACITY` weights of at most this
/// size, every partial sum fits in an `i64`.
pub const MAX_WEIGHT: i64 = 2147483648;

/// A prefix-sum tree. Its view is the sequence of the weights it holds.
pub struct Fenwick {
    items: Vec<i64>,
    total: i64,
    weights: Ghost<Seq<int>>,
}

impl View for Fenwick {
    type V = Seq<int>;

    closed spec fn view(&self) -> Seq<int> {
        self.weights@
    }
}

impl Fenwick {
    /// The tree's nodes hold the sums of their blocks, and the stored total
    /// is the sum of all weights.
    pub closed spec fn built(&self) -> bool {
        &&& self.items@.len() == self.weights@.len()
        &&& forall|k: int|
            0 <= k < self.items@.len() ==> #[trigger] self.items@[k] == range_sum(
                self.weights@,
                block_start(k as usize) as int,
                k + 1,
            )
        &&& self.total == total_of(self.weights@)
    }

    /// The tree is built, holds at most `MAX_CAPACITY` weights, and each
    /// weight is at most `MAX_WEIGHT` in size.
    pub open spec fn wf(&self) -> bool {
        &&& self.built()
        &&& self@.len() <= MAX_CAPACITY
        &&& forall|k: int| 0 <= k < self@.len() ==> -MAX_WEIGHT <= #[trigger] self@[k] <= MAX_WEIGHT
    }

    /// The number of weights of the tree.
    pub open spec fn capacity(&self) -> nat {
        self@.len()
    }

    /// The sum of the weights over a range of a well-formed tree is at most
    /// `MAX_WEIGHT` times the length of the range in size, and so fits in an
    /// `i64`.
    pub proof fn lemma_sums_fit(&self, a: int, b: int)
        requires
            self.wf(),
            0 <= a <= b <= self@.len(),
        ensures
            -(b - a) * MAX_WEIGHT <= range_sum(self@, a, b) <= (b - a) * MAX_WEIGHT,
            -9223372034707292160 <= range_sum(self@, a, b) <= 9223372034707292160,
    {
        lemma_range_sum_bound(self@, a, b, MAX_WEIGHT as int);
        assert((b - a) * MAX_WEIGHT <= 4294967295 * 2147483648) by (nonlinear_arith)
            requires
                0 <= b - a <= 4294967295,
                MAX_WEIGHT == 2147483648,
        ;
    }

    /// Constructs a tree of `size` weights, all zero.
    pub fn of_size(size: usize) -> (tree: Self)
        requires
            size <= MAX_CAPACITY,
        ensures
            tree.wf(),
            tree@ == Seq::new(size as nat, |k: int| 0int),
    {
        let items: Vec<i64> = vec![0; size];
        let tree = Fenwick { items, total: 0, weights: Ghost(Seq::new(size as nat, |k: int| 0int)) };
        proof {
            assert forall|k: int| 0 <= k < tree.items@.len() implies #[trigger] tree.items@[k]
                == range_sum(tree.weights@, block_start(k as usize) as int, k + 1) by {
                lemma_range_sum_zero(tree.weights@, block_start(k as usize) as int, k + 1);
            }
            lemma_range_sum_zero(tree.weights@, 0, size as int);
        }
        tree
    }

    /// Constructs a tree of `size` weights, all zero.
    pub fn from_zeroes(size: usize) -> (tree: Self)
        requires
            size <= MAX_CAPACITY,
        ensures
            tree.wf(),
            tree@ == Seq::new(size as nat, |k: int| 0int),
    {
        Self::of_size(size)
    }

    /// Constructs a tree that holds the weights `items`, in time linear in
    /// their number.
    ///
    /// Every node starts out with its own weight and is then, in ascending
    /// order, handed to its parent, by which time it holds the sum of its
    /// block.
    pub fn from_vec(items: &Vec<i32>) -> (tree: Self)
        requires
            items@.len() <= MAX_CAPACITY,
        ensures
            tree.wf(),
            tree@ == Seq::new(items@.len(), |k: int| items@[k] as int),
    {
        let size = items.len();
        let mut accum: Vec<i64> = Vec::new();
        let mut copied: usize = 0;
        while copied < size
            invariant
                size == items@.len(),
                copied <= size,
                accum@.len() == copied,
                forall|k: int| 0 <= k < copied ==> #[trigger] accum@[k] == items@[k],
            decreases size - copied,
        {
            accum.push(items[copied] as i64);
            copied += 1;
        }
        let mut total: i64 = 0;
        let ghost w = Seq::new(items@.len(), |k: int| items@[k] as int);
        let ghost mut filled: Seq<usize> = Seq::new(items@.len(), |k: int| block_start(k as usize));
        proof {
            assert forall|k: int| 0 <= k < size implies tiled(k as usize, #[trigger] filled[k], 0)
                && accum@[k] == w[k] + range_sum(w, block_start(k as usize) as int, filled[k] as int) by {
                lemma_tiled_start(k as usize);
            }
        }
        let mut i: usize = 0;
        while i < size
            invariant
                size == items@.len(),
                size <= MAX_CAPACITY,
                accum@.len() == size,
                filled.len() == size,
                w == Seq::new(items@.len(), |k: int| items@[k] as int),
                forall|k: int| 0 <= k < size ==> -MAX_WEIGHT <= #[trigger] w[k] <= MAX_WEIGHT,
                i <= size,
                total == range_sum(w, 0, i as int),
                forall|k: int|
                    0 <= k < i ==> #[trigger] accum@[k] == range_sum(
                        w,
                        block_start(k as usize) as int,
                        k + 1,
                    ),
                forall|k: int|
                    i <= k < size ==> tiled(k as usize, #[trigger] filled[k], i) && accum@[k] == w[k]
                        + range_sum(w, block_start(k as usize) as int, filled[k] as int),
            decreases size - i,
        {
            let ghost held = accum@;
            let ghost reached = filled;
            proof {
                lemma_tiled_end(i, filled[i as int]);
                lemma_block_start_le(i);
                lemma_parent_covers(i);
                lemma_range_sum_bound(w, 0, i + 1, MAX_WEIGHT as int);
                assert((i + 1) * MAX_WEIGHT <= 4294967295 * 2147483648) by (nonlinear_arith)
                    requires
                        0 <= i + 1 <= 4294967295,
                        MAX_WEIGHT == 2147483648,
                ;
            }
            let j = i | (i + 1);
            if j < size {
                proof {
                    assert(j == parent(i));
                    lemma_tiled_step(j, filled[j as int], i);
                    lemma_range_sum_split(w, block_start(j) as int, block_start(i) as int, i + 1);
                    lemma_range_sum_bound(w, block_start(j) as int, i + 1, MAX_WEIGHT as int);
                    assert((i + 1 - block_start(j)) * MAX_WEIGHT + MAX_WEIGHT <= 4294967295
                        * 2147483648) by (nonlinear_arith)
                        requires
                            0 <= i + 1 - block_start(j) < 4294967295,
                            MAX_WEIGHT == 2147483648,
                    ;
                    filled = filled.update(j as int, (i + 1) as usize);
                }
                accum[j] = accum[j] + accum[i];
            }
            total += items[i] as i64;
            proof {
                assert forall|k: int| i + 1 <= k < size implies tiled(
                    k as usize,
                    #[trigger] filled[k],
                    (i + 1) as usize,
                ) && accum@[k] == w[k] + range_sum(
                    w,
                    block_start(k as usize) as int,
                    filled[k] as int,
                ) by {
                    lemma_tiled_step(k as usize, reached[k], i);
                    if k != j {
                        assert(accum@[k] == held[k]);
                    }
                }
            }
            i += 1;
        }
        let tree = Fenwick { items: accum, total, weights: Ghost(w) };
        tree
    }

    /// Computes the sum of the weights at the positions `i .. j`.
    ///
    /// The prefix of length `j` is taken apart block by block until it is no
    /// longer than `i`; what was taken too much is then given back the same
    /// way from the prefix of length `i`.
    pub fn sum(&self, i: usize, j: usize) -> (s: i64)
        requires
            self.wf(),
            i <= j <= self@.len(),
        ensures
            s == range_sum(self@, i as int, j as int),
    {
        let ghost i0 = i;
        let ghost j0 = j;
        let ghost mut upper: usize = 0;
        let mut i = i;
        let mut j = j;
        let mut sum: i64 = 0;

        while j > i
            invariant
                self.wf(),
                i == i0,
                i0 <= j0 <= self@.len(),
                j <= j0,
                sum == range_sum(self@, j as int, j0 as int),
                j == j0 || (0 < upper <= j0 && j == strip(upper) && i0 < upper),
            decreases j,
        {
            proof {
                lemma_strip(j);
                upper = j;
                lemma_range_sum_split(self@, strip(j) as int, j as int, j0 as int);
                self.lemma_sums_fit(strip(j) as int, j0 as int);
                assert(self.items@[j - 1] == range_sum(
                    self@,
                    block_start((j - 1) as usize) as int,
                    j as int,
                ));
            }
            sum += self.items[j - 1];
            j &= j - 1;
        }

        while i > j
            invariant
                self.wf(),
                i <= i0 <= j0 <= self@.len(),
                j <= i,
                sum == range_sum(self@, j as int, j0 as int) - range_sum(self@, i as int, i0 as int),
                i == j || (0 < upper <= j0 && j == strip(upper) && i < upper),
            decreases i,
        {
            proof {
                lemma_strip(i);
                lemma_strip_stays_in_block(upper, i);
                lemma_range_sum_split(self@, strip(i) as int, i as int, i0 as int);
                self.lemma_sums_fit(j as int, strip(i) as int);
                self.lemma_sums_fit(i0 as int, j0 as int);
                assert(self.items@[i - 1] == range_sum(
                    self@,
                    block_start((i - 1) as usize) as int,
                    i as int,
                ));
                // What remains is the part before `strip(i)` and the range asked for.
                lemma_range_sum_split(self@, j as int, i0 as int, j0 as int);
                lemma_range_sum_split(self@, j as int, strip(i) as int, i0 as int);
                assert(sum - self.items@[i - 1] == range_sum(self@, j as int, strip(i) as int)
                    + range_sum(self@, i0 as int, j0 as int));
                assert((strip(i) - j) * MAX_WEIGHT + (j0 - i0) * MAX_WEIGHT <= 4294967295
                    * 2147483648) by (nonlinear_arith)
                    requires
                        0 <= strip(i) - j,
                        0 <= j0 - i0,
                        (strip(i) - j) + (j0 - i0) <= 4294967295,
                        MAX_WEIGHT == 2147483648,
                ;
            }
            sum -= self.items[i - 1];
            i &= i - 1;
        }

        proof {
            lemma_range_sum_split(self@, j as int, i0 as int, j0 as int);
        }
        sum
    }

    /// Returns the weight at position `i`.
    pub fn get(&self, i: usize) -> (x: i64)
        requires
            self.wf(),
            i < self@.len(),
        ensures
            x == self@[i as int],
    {
        proof {
            assert(range_sum(self@, i as int, i + 1) == self@[i as int]) by {
                assert(range_sum(self@, i as int, i as int) == 0);
            }
        }
        self.sum(i, i + 1)
    }

    /// Sets the weight at position `i` to `x`.
    pub fn set(&mut self, i: usize, x: i32)
        requires
            old(self).wf(),
            i < old(self)@.len(),
        ensures
            final(self).wf(),
            final(self)@ == old(self)@.update(i as int, x as int),
    {
        let current = self.get(i);
        self.shift(i, x as i64 - current);
    }

    /// Adds `x` to the weight at position `i`.
    pub fn add(&mut self, i: usize, x: i32)
        requires
            old(self).wf(),
            i < old(self)@.len(),
            -MAX_WEIGHT <= old(self)@[i as int] + x <= MAX_WEIGHT,
        ensures
            final(self).wf(),
            final(self)@ == old(self)@.update(i as int, old(self)@[i as int] + x),
    {
        self.shift(i, x as i64);
    }

    /// Changes the weight at position `i` by `x`.
    ///
    /// The nodes that cover `i` are `i` itself and then, from each of them,
    /// the next node above it; every one of them takes `x`.
    fn shift(&mut self, i: usize, x: i64)
        requires
            old(self).wf(),
            i < old(self)@.len(),
            -MAX_WEIGHT <= old(self)@[i as int] + x <= MAX_WEIGHT,
        ensures
            final(self).wf(),
            final(self)@ == old(self)@.update(i as int, old(self)@[i as int] + x),
    {
        let n = self.items.len();
        let ghost before = self.weights@;
        let ghost after = before.update(i as int, before[i as int] + x);
        let mut k = i;

        proof {
            lemma_block_start_le(i);
            assert forall|m: int| 0 <= m < n && m < i implies #[trigger] self.items@[m]
                == range_sum(after, block_start(m as usize) as int, m + 1) by {
                lemma_block_start_le(m as usize);
                lemma_range_sum_update(
                    before,
                    i as int,
                    before[i as int] + x,
                    block_start(m as usize) as int,
                    m + 1,
                );
            }
        }

        while k < n
            invariant
                self.items@.len() == n,
                before.len() == n,
                n <= MAX_CAPACITY,
                self.weights@ == before,
                self.total == old(self).total,
                after == before.update(i as int, before[i as int] + x),
                forall|m: int| 0 <= m < n ==> -MAX_WEIGHT <= #[trigger] after[m] <= MAX_WEIGHT,
                i < n,
                i <= k <= MAX_CAPACITY,
                k < n ==> block_start(k) <= i,
                forall|m: int|
                    0 <= m < n && m < k ==> #[trigger] self.items@[m] == range_sum(
                        after,
                        block_start(m as usize) as int,
                        m + 1,
                    ),
                forall|m: int|
                    0 <= m < n && k <= m ==> #[trigger] self.items@[m] == range_sum(
                        before,
                        block_start(m as usize) as int,
                        m + 1,
                    ),
            decreases MAX_CAPACITY - k,
        {
            let ghost held = self.items@;
            proof {
                lemma_block_start_le(k);
                lemma_parent_covers(k);
                lemma_range_sum_update(
                    before,
                    i as int,
                    before[i as int] + x,
                    block_start(k) as int,
                    k + 1,
                );
                lemma_range_sum_bound(after, block_start(k) as int, k + 1, MAX_WEIGHT as int);
                assert((k + 1 - block_start(k)) * MAX_WEIGHT <= 4294967295 * 2147483648)
                    by (nonlinear_arith)
                    requires
                        0 <= k + 1 - block_start(k) <= 4294967295,
                        MAX_WEIGHT == 2147483648,
                ;
            }
            self.items[k] = self.items[k] + x;
            let next = k | (k + 1);
            proof {
                assert(next == parent(k));
                assert forall|m: int| 0 <= m < n && m < next implies #[trigger] self.items@[m]
                    == range_sum(after, block_start(m as usize) as int, m + 1) by {
                    if m < k {
                        } else if m > k {
                        assert(self.items@[m] == held[m]);
                        lemma_between_parent(k, m as usize);
                        lemma_block_start_le(m as usize);
                        lemma_range_sum_update(
                            before,
                            i as int,
                            before[i as int] + x,
                            block_start(m as usize) as int,
                            m + 1,
                        );
                    }
                }
                assert forall|m: int| 0 <= m < n && next <= m implies #[trigger] self.items@[m]
                    == range_sum(before, block_start(m as usize) as int, m + 1) by {
                    assert(self.items@[m] == held[m]);
                }
            }
            k = next;
        }

        proof {
            lemma_range_sum_update(before, i as int, before[i as int] + x, 0, n as int);
            lemma_range_sum_bound(after, 0, n as int, MAX_WEIGHT as int);
            assert(n * MAX_WEIGHT <= 4294967295 * 2147483648) by (nonlinear_arith)
                requires
                    0 <= n <= 4294967295,
                    MAX_WEIGHT == 2147483648,
            ;
        }
        self.total = self.total + x;
        self.weights = Ghost(after);
    }

    /// The draw `x` lands on position `r`: the weights before `r` sum to less
    /// than `x`, and those up to and including `r` reach it.
    pub open spec fn lands(&self, x: int, r: int) -> bool {
        &&& 0 <= r < self@.len()
        &&& range_sum(self@, 0, r) < x <= range_sum(self@, 0, r + 1)
    }

    /// Some draw from `1 ..= total` lands on position `r`.
    pub open spec fn reachable(&self, r: int) -> bool {
        exists|x: int| 1 <= x <= total_of(self@) && #[trigger] self.lands(x, r)
    }

    /// The sums of a tree after an update are the sums before it, changed by
    /// what was added where the range holds the position that was updated.
    /// So sums that are asked between updates answer as the weights summed
    /// from scratch.
    pub proof fn lemma_sums_after_update(&self, before: Self, i: int, x: int, a: int, b: int)
        requires
            0 <= i < before@.len(),
            self@ == before@.update(i, before@[i] + x),
            0 <= a <= b <= before@.len(),
        ensures
            self@[i] == before@[i] + x,
            forall|k: int| 0 <= k < before@.len() && k != i ==> self@[k] == before@[k],
            range_sum(self@, a, b) == range_sum(before@, a, b) + if a <= i < b {
                x
            } else {
                0
            },
            total_of(self@) == total_of(before@) + x,
    {
        lemma_range_sum_update(before@, i, before@[i] + x, a, b);
        lemma_range_sum_update(before@, i, before@[i] + x, 0, before@.len() as int);
    }

    /// Where no weight is negative, the position on which a draw lands is
    /// the smallest whose prefix sum reaches the draw, and the draw lands on
    /// no other position.
    pub proof fn lemma_lands_smallest(&self, x: int, r: int)
        requires
            forall|k: int| 0 <= k < self@.len() ==> 0 <= #[trigger] self@[k],
            self.lands(x, r),
        ensures
            forall|k: int| 0 <= k < r ==> #[trigger] range_sum(self@, 0, k + 1) < x,
            forall|k: int| #[trigger] self.lands(x, k) ==> k == r,
    {
        assert forall|k: int| 0 <= k < r implies #[trigger] range_sum(self@, 0, k + 1) < x by {
            lemma_range_sum_monotone(self@, 0, k + 1, r);
        }
        assert forall|k: int| #[trigger] self.lands(x, k) implies k == r by {
            if k < r {
                lemma_range_sum_monotone(self@, 0, k + 1, r);
            } else if r < k {
                lemma_range_sum_monotone(self@, 0, r + 1, k);
            }
        }
    }

    /// Where no weight is negative, the draws that land on a position are
    /// as many as its weight: those above the sum of the weights before it,
    /// up to that sum and the weight. All of them are draws from
    /// `1 ..= total`, so a uniform draw selects a position with probability
    /// proportional to its weight.
    pub proof fn lemma_lands_share(&self, x: int, r: int)
        requires
            forall|k: int| 0 <= k < self@.len() ==> 0 <= #[trigger] self@[k],
            0 <= r < self@.len(),
        ensures
            self.lands(x, r) <==> range_sum(self@, 0, r) < x <= range_sum(self@, 0, r) + self@[r],
            0 <= range_sum(self@, 0, r),
            range_sum(self@, 0, r) + self@[r] <= total_of(self@),
    {
        lemma_range_sum_monotone(self@, 0, 0, r);
        lemma_range_sum_monotone(self@, 0, r + 1, self@.len() as int);
    }

    /// Finds the position on which the draw `x` lands, by bisection over the
    /// prefix sums.
    ///
    /// Where no weight is negative the prefix sums never fall, so the result
    /// is the smallest position whose prefix sum reaches `x` (see
    /// `lemma_lands_smallest`).
    pub fn locate(&self, x: i64) -> (r: usize)
        requires
            self.wf(),
            1 <= x <= total_of(self@),
        ensures
            self.lands(x as int, r as int),
    {
        let mut a: i64 = 0;
        let mut i: usize = 0;
        let mut j: usize = self.items.len() - 1;

        while i < j
            invariant
                self.wf(),
                1 <= x,
                i <= j < self@.len(),
                a == range_sum(self@, 0, i as int),
                a < x <= range_sum(self@, 0, j + 1),
            decreases j - i,
        {
            let m = i + (j - i) / 2;
            let s = self.sum(i, m + 1);
            proof {
                lemma_range_sum_split(self@, 0, i as int, m + 1);
                self.lemma_sums_fit(0, m + 1);
            }
            if a + s < x {
                i = m + 1;
                a += s;
            } else {
                j = m;
            }
        }

        j
    }

    /// A weighted sampling of a single position: a draw from `1 ..= total`,
    /// located by `locate`.
    pub fn sample_one(&self, random: &mut Pcg64Mcg) -> (v: u32)
        requires
            self.wf(),
            total_of(self@) > 0,
        ensures
            self.reachable(v as int),
            v < self@.len(),
            self@[v as int] > 0,
    {
        let x = uniform(random, 1, self.total);
        let j = self.locate(x);
        assert(self.lands(x as int, j as int));
        j as u32
    }

    /// A weighted sampling of `m` positions with replacement, each by
    /// `sample_one`.
    pub fn sample_many(&self, m: usize, random: &mut Pcg64Mcg) -> (picks: Vec<u32>)
        requires
            self.wf(),
            m > 0 ==> total_of(self@) > 0,
        ensures
            picks@.len() == m,
            forall|k: int| 0 <= k < m ==> self.reachable(#[trigger] picks@[k] as int),
            forall|k: int| 0 <= k < m ==> #[trigger] picks@[k] < self@.len(),
            forall|k: int| 0 <= k < m ==> self@[#[trigger] picks@[k] as int] > 0,
            m == 0 ==> *final(random) == *old(random),
    {
        let mut picks: Vec<u32> = Vec::new();
        let mut n: usize = 0;
        while n < m
            invariant
                self.wf(),
                m > 0 ==> total_of(self@) > 0,
                n <= m,
                picks@.len() == n,
                forall|k: int| 0 <= k < n ==> self.reachable(#[trigger] picks@[k] as int),
                forall|k: int| 0 <= k < n ==> #[trigger] picks@[k] < self@.len(),
                forall|k: int| 0 <= k < n ==> self@[#[trigger] picks@[k] as int] > 0,
                m == 0 ==> *random == *old(random),
            decreases m - n,
        {
            let v = self.sample_one(random);
            picks.push(v);
            n += 1;
        }
        picks
    }

    /// The number of weights of the tree.
    pub fn len(&self) -> (n: usize)
        requires
            self.wf(),
        ensures
            n == self@.len(),
    {
        self.items.len()
    }

    /// The sum of all weights.
    pub fn total(&self) -> (t: i64)
        requires
            self.wf(),
        ensures
            t == total_of(self@),
    {
        self.total
    }
}

} // verus!
