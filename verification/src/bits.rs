//! Facts about the index arithmetic of a prefix-sum tree.
//!
//! Node `k` of the tree covers the positions `block_start(k) ..= k`. Clearing
//! the lowest set bit of a prefix length walks down the blocks that make up
//! the prefix; setting the lowest clear bit of a node walks up the nodes that
//! cover it. The facts are stated for indices below two to the power 32,
//! which is as far as a tree reaches.

use vstd::prelude::*;

verus! {

/// The first position covered by node `k`: `k` with its trailing ones cleared.
pub open spec fn block_start(k: usize) -> usize {
    k & ((k + 1) as usize)
}

/// The next node above `k` that covers everything `k` covers.
pub open spec fn parent(k: usize) -> usize {
    k | ((k + 1) as usize)
}

/// The prefix length `j` with its last block taken off.
pub open spec fn strip(j: usize) -> usize {
    j & ((j - 1) as usize)
}

/// A block starts at or before its node, and the blocks of a prefix are
/// found by stripping: the block that ends a prefix of length `j` is the one
/// of node `j - 1`, and it starts at `strip(j)`.
pub proof fn lemma_strip(j: usize)
    by (bit_vector)
    requires
        0 < j <= 4294967295,
    ensures
        j & ((j - 1) as usize) < j,
        ((j - 1) as usize) & ((((j - 1) as usize) + 1) as usize) == j & ((j - 1) as usize),
{
}

/// A node's block starts at or before the node.
pub proof fn lemma_block_start_le(k: usize)
    by (bit_vector)
    requires
        k < 4294967295,
    ensures
        k & ((k + 1) as usize) <= k,
{
}

/// The parent of a node lies above it, and no node between the two reaches
/// down to the node: their blocks start strictly above it.
pub proof fn lemma_between_parent(k: usize, other: usize)
    by (bit_vector)
    requires
        k < 4294967295,
        other < 4294967295,
        k < other,
        other < (k | ((k + 1) as usize)),
    ensures
        (other & ((other + 1) as usize)) > k,
{
}

/// The parent of a node lies above it and covers the node's whole block.
pub proof fn lemma_parent_covers(k: usize)
    by (bit_vector)
    requires
        k < 4294967295,
    ensures
        (k | ((k + 1) as usize)) > k,
        (k | ((k + 1) as usize)) <= 4294967295,
        (k | ((k + 1) as usize)) < 4294967295 ==> ((k | ((k + 1) as usize)) & (((k | ((k + 1) as
            usize)) + 1) as usize)) <= (k & ((k + 1) as usize)),
{
}

/// Stripping a prefix length that lies strictly inside the last block of a
/// longer prefix never falls below the start of that block.
pub proof fn lemma_strip_stays_in_block(upper: usize, i: usize)
    by (bit_vector)
    requires
        0 < upper <= 4294967295,
        (upper & ((upper - 1) as usize)) < i,
        i < upper,
    ensures
        (i & ((i - 1) as usize)) >= (upper & ((upper - 1) as usize)),
{
}

/// The block of node `k` is filled from its start up to `e`, the nodes
/// below `i` having been handed to their parents: `e` is a boundary between
/// two of the blocks that make up the block of `k`, the block that ends at
/// `e` belongs to a node below `i`, and the block that begins at `e` does
/// not.
pub open spec fn tiled(k: usize, e: usize, i: usize) -> bool {
    &&& (k & ((k + 1) as usize)) <= e <= k
    &&& ((k - e) as usize) & (((k - e) + 1) as usize) == 0
    &&& e & ((k - e) as usize) == 0
    &&& (e == k || i <= e + (((k - e) as usize) >> 1))
    &&& (e == (k & ((k + 1) as usize)) || e <= i)
}

/// Before any node has been handed to its parent, every block is filled up
/// to its start only.
pub proof fn lemma_tiled_start(k: usize)
    by (bit_vector)
    requires
        k < 4294967295,
    ensures
        tiled(k, k & ((k + 1) as usize), 0),
{
}

/// Handing node `i` to its parent fills the parent's block from where the
/// block of `i` starts up to `i`, and leaves every other block above `i` as
/// it is.
pub proof fn lemma_tiled_step(k: usize, e: usize, i: usize)
    by (bit_vector)
    requires
        k < 4294967295,
        i < k,
        tiled(k, e, i),
    ensures
        (i | ((i + 1) as usize)) == k ==> e == (i & ((i + 1) as usize)) && tiled(
            k,
            (i + 1) as usize,
            (i + 1) as usize,
        ),
        (i | ((i + 1) as usize)) != k ==> tiled(k, e, (i + 1) as usize),
{
}

/// When the nodes below `k` have all been handed to their parents, the
/// block of `k` is filled up to `k`.
pub proof fn lemma_tiled_end(k: usize, e: usize)
    by (bit_vector)
    requires
        k < 4294967295,
        tiled(k, e, k),
    ensures
        e == k,
{
}

} // verus!
