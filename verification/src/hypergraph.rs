//! A hypergraph as a list of hyperedges over numbered vertices, with the
//! degree of every vertex kept beside it.

use vstd::prelude::*;
use std::collections::HashMap;
use crate::sums::{lemma_entry_le_total, lemma_push_totals, lemma_range_sum_update, range_sum, total_of};

verus! {

/// How often `v` occurs in the hyperedge `e`.
pub open spec fn count_in(e: Seq<u32>, v: u32) -> nat
    decreases e.len(),
{
    if e.len() == 0 {
        0
    } else {
        count_in(e.drop_last(), v) + if e.last() == v {
            1nat
        } else {
            0nat
        }
    }
}

/// How often `v` occurs in all of `edges`.
pub open spec fn occurrences(edges: Seq<Seq<u32>>, v: u32) -> nat
    decreases edges.len(),
{
    if edges.len() == 0 {
        0
    } else {
        occurrences(edges.drop_last(), v) + count_in(edges.last(), v)
    }
}

/// The sum of the sizes of `edges`.
pub open spec fn size_total(edges: Seq<Seq<u32>>) -> nat
    decreases edges.len(),
{
    if edges.len() == 0 {
        0
    } else {
        size_total(edges.drop_last()) + edges.last().len()
    }
}

/// A value occurs in a sequence at most as often as the sequence is long.
pub proof fn lemma_count_le_len(e: Seq<u32>, v: u32)
    ensures
        count_in(e, v) <= e.len(),
    decreases e.len(),
{
    if e.len() > 0 {
        lemma_count_le_len(e.drop_last(), v);
    }
}

/// A vertex that does not occur in a hyperedge is counted zero times in it.
pub proof fn lemma_count_absent(e: Seq<u32>, v: u32)
    requires
        forall|p: int| 0 <= p < e.len() ==> e[p] != v,
    ensures
        count_in(e, v) == 0,
    decreases e.len(),
{
    if e.len() > 0 {
        lemma_count_absent(e.drop_last(), v);
    }
}

/// A vertex that occurs in no hyperedge has no occurrence.
pub proof fn lemma_occurrences_absent(edges: Seq<Seq<u32>>, v: u32)
    requires
        forall|k: int, p: int| 0 <= k < edges.len() && 0 <= p < edges[k].len() ==> edges[k][p] != v,
    ensures
        occurrences(edges, v) == 0,
    decreases edges.len(),
{
    if edges.len() > 0 {
        lemma_occurrences_absent(edges.drop_last(), v);
        lemma_count_absent(edges.last(), v);
    }
}

/// How often the vertices below `n` occur in the hyperedge `e`, all told.
pub open spec fn count_below(e: Seq<u32>, n: nat) -> nat
    decreases n,
{
    if n == 0 {
        0
    } else {
        count_below(e, (n - 1) as nat) + count_in(e, (n - 1) as u32)
    }
}

/// How often the vertices below `n` occur in all of `edges`, all told.
pub open spec fn occurrences_below(edges: Seq<Seq<u32>>, n: nat) -> nat
    decreases n,
{
    if n == 0 {
        0
    } else {
        occurrences_below(edges, (n - 1) as nat) + occurrences(edges, (n - 1) as u32)
    }
}

/// One more entry in a hyperedge is one more occurrence, of the vertex that
/// it names.
proof fn lemma_count_below_push(e: Seq<u32>, u: u32, n: nat)
    requires
        n <= u32::MAX + 1,
    ensures
        count_below(e.push(u), n) == count_below(e, n) + if u < n {
            1nat
        } else {
            0nat
        },
    decreases n,
{
    if n > 0 {
        lemma_count_below_push(e, u, (n - 1) as nat);
        assert(e.push(u).drop_last() =~= e);
    }
}

/// The vertices of a hyperedge occur in it as often as it is long.
proof fn lemma_count_below_len(e: Seq<u32>, n: nat)
    requires
        n <= u32::MAX + 1,
        forall|p: int| 0 <= p < e.len() ==> e[p] < n,
    ensures
        count_below(e, n) == e.len(),
    decreases e.len(),
{
    if e.len() == 0 {
        lemma_count_below_none(e, n);
    } else {
        lemma_count_below_len(e.drop_last(), n);
        lemma_count_below_push(e.drop_last(), e.last(), n);
        assert(e.drop_last().push(e.last()) =~= e);
    }
}

/// Nothing occurs in the empty hyperedge.
proof fn lemma_count_below_none(e: Seq<u32>, n: nat)
    requires
        e.len() == 0,
    ensures
        count_below(e, n) == 0,
    decreases n,
{
    if n > 0 {
        lemma_count_below_none(e, (n - 1) as nat);
    }
}

/// One more hyperedge adds the occurrences in it.
proof fn lemma_occurrences_below_push(edges: Seq<Seq<u32>>, e: Seq<u32>, n: nat)
    ensures
        occurrences_below(edges.push(e), n) == occurrences_below(edges, n) + count_below(e, n),
    decreases n,
{
    if n > 0 {
        lemma_occurrences_below_push(edges, e, (n - 1) as nat);
        assert(edges.push(e).drop_last() =~= edges);
    }
}

/// Nothing occurs where there is no hyperedge.
proof fn lemma_occurrences_below_none(edges: Seq<Seq<u32>>, n: nat)
    requires
        edges.len() == 0,
    ensures
        occurrences_below(edges, n) == 0,
    decreases n,
{
    if n > 0 {
        lemma_occurrences_below_none(edges, (n - 1) as nat);
    }
}

/// The occurrences of all vertices in the hyperedges are as many as the
/// hyperedges have entries: counting the entries by vertex or by hyperedge
/// gives the same number.
pub proof fn lemma_handshake(edges: Seq<Seq<u32>>, n: nat)
    requires
        n <= u32::MAX + 1,
        forall|k: int, p: int| 0 <= k < edges.len() && 0 <= p < edges[k].len() ==> edges[k][p] < n,
    ensures
        occurrences_below(edges, n) == size_total(edges),
    decreases edges.len(),
{
    if edges.len() == 0 {
        lemma_occurrences_below_none(edges, n);
    } else {
        lemma_handshake(edges.drop_last(), n);
        lemma_occurrences_below_push(edges.drop_last(), edges.last(), n);
        lemma_count_below_len(edges.last(), n);
        assert(edges.drop_last().push(edges.last()) =~= edges);
    }
}

/// A hypergraph whose vertices are numbered from zero.
#[derive(Debug)]
pub struct Hypergraph {
    /// The number of vertices in the hypergraph.
    pub vertices: u32,
    /// The hyperedges, in the order in which they were added. A hyperedge is
    /// a list of vertices and may hold the same vertex several times.
    pub edges: Vec<Vec<u32>>,
    /// The degree of every vertex.
    pub degree: Vec<u32>,
}

impl Hypergraph {
    /// The hyperedges as sequences of vertices.
    pub open spec fn edge_list(&self) -> Seq<Seq<u32>> {
        Seq::new(self.edges@.len(), |k: int| self.edges@[k]@)
    }

    /// The degrees as integers.
    pub open spec fn degrees(&self) -> Seq<int> {
        Seq::new(self.degree@.len(), |v: int| self.degree@[v] as int)
    }

    /// Every vertex has a degree, hyperedges hold vertices of the
    /// hypergraph only, the degree of a vertex is the number of its
    /// occurrences in the hyperedges, and the degrees sum to the sizes of the
    /// hyperedges.
    pub open spec fn wf(&self) -> bool {
        &&& self.degree@.len() == self.vertices
        &&& forall|k: int, p: int|
            0 <= k < self.edges@.len() && 0 <= p < self.edges@[k]@.len()
                ==> #[trigger] self.edges@[k]@[p] < self.vertices
        &&& forall|v: int|
            0 <= v < self.vertices ==> #[trigger] self.degree@[v] == occurrences(
                self.edge_list(),
                v as u32,
            )
        &&& total_of(self.degrees()) == size_total(self.edge_list())
    }

    /// Degree conservation: the degrees of a well-formed hypergraph sum to
    /// the sizes of its hyperedges, which is the number of occurrences of its
    /// vertices in them.
    pub proof fn lemma_degree_conservation(&self)
        requires
            self.wf(),
        ensures
            total_of(self.degrees()) == size_total(self.edge_list()),
            occurrences_below(self.edge_list(), self.vertices as nat) == size_total(self.edge_list()),
    {
        lemma_handshake(self.edge_list(), self.vertices as nat);
    }

    /// Constructs the initial hypergraph that contains a single vertex
    /// with a single hyperedge of size 1.
    pub fn initial() -> (graph: Box<Self>)
        ensures
            graph.wf(),
            graph.vertices == 1,
            graph.edge_list() == seq![seq![0u32]],
            graph.degree@ == seq![1u32],
            graph.edges@.len() == 1,
    {
        let mut edge: Vec<u32> = Vec::new();
        edge.push(0);
        let mut edges: Vec<Vec<u32>> = Vec::new();
        edges.push(edge);
        let mut degree: Vec<u32> = Vec::new();
        degree.push(1);
        let graph = Hypergraph { vertices: 1, edges, degree };
        proof {
            let edges = graph.edge_list();
            assert(graph.edges@[0]@ =~= seq![0u32]);
            assert(edges =~= seq![seq![0u32]]);
            assert(graph.degree@ =~= seq![1u32]);
            assert(edges.drop_last() =~= Seq::<Seq<u32>>::empty());
            assert(edges.last() == seq![0u32]);
            assert(seq![0u32].drop_last() =~= Seq::<u32>::empty());
            assert(count_in(seq![0u32], 0) == 1) by {
                reveal_with_fuel(count_in, 2);
            }
            assert(occurrences(edges, 0) == 1) by {
                reveal_with_fuel(occurrences, 2);
            }
            assert(size_total(edges) == 1) by {
                reveal_with_fuel(size_total, 2);
            }
            assert(total_of(graph.degrees()) == 1) by {
                reveal_with_fuel(range_sum, 2);
            }
        }
        Box::new(graph)
    }

    /// Adds a new vertex, which has no hyperedge yet, and returns its index.
    pub fn add_vertex(&mut self) -> (v: u32)
        requires
            old(self).wf(),
            old(self).vertices < u32::MAX,
        ensures
            final(self).wf(),
            v == old(self).vertices,
            final(self).vertices == old(self).vertices + 1,
            final(self).edges == old(self).edges,
            final(self).degree@ == old(self).degree@.push(0),
    {
        let v = self.vertices;
        self.vertices += 1;
        self.degree.push(0);
        proof {
            assert(self.degrees() =~= old(self).degrees().push(0));
            lemma_push_totals(old(self).degrees(), 0);
            lemma_occurrences_absent(self.edge_list(), v);
        }
        v
    }

    /// Adds the hyperedge `e`, and one to the degree of a vertex for each of
    /// its occurrences in `e`.
    pub fn add_edge(&mut self, e: Vec<u32>)
        requires
            old(self).wf(),
            forall|p: int| 0 <= p < e@.len() ==> #[trigger] e@[p] < old(self).vertices,
            size_total(old(self).edge_list()) + e@.len() <= u32::MAX,
        ensures
            final(self).wf(),
            final(self).vertices == old(self).vertices,
            final(self).edge_list() == old(self).edge_list().push(e@),
            forall|v: int|
                0 <= v < old(self).vertices ==> #[trigger] final(self).degree@[v] == old(
                    self,
                ).degree@[v] + count_in(e@, v as u32),
    {
        let mut k: usize = 0;
        while k < e.len()
            invariant
                k <= e@.len(),
                self.vertices == old(self).vertices,
                self.edges == old(self).edges,
                self.degree@.len() == self.vertices,
                forall|p: int| 0 <= p < e@.len() ==> #[trigger] e@[p] < self.vertices,
                size_total(old(self).edge_list()) + e@.len() <= u32::MAX,
                total_of(old(self).degrees()) == size_total(old(self).edge_list()),
                total_of(self.degrees()) == total_of(old(self).degrees()) + k,
                forall|v: int|
                    0 <= v < self.vertices ==> #[trigger] self.degree@[v] == old(self).degree@[v]
                        + count_in(e@.take(k as int), v as u32),
            decreases e@.len() - k,
        {
            let u = e[k] as usize;
            let ghost held = self.degrees();
            proof {
                lemma_entry_le_total(held, u as int);
                assert(e@.take(k + 1).drop_last() =~= e@.take(k as int));
            }
            self.degree[u] = self.degree[u] + 1;
            proof {
                assert(self.degrees() =~= held.update(u as int, held[u as int] + 1));
                lemma_range_sum_update(held, u as int, held[u as int] + 1, 0, held.len() as int);
            }
            k += 1;
        }
        proof {
            assert(e@.take(k as int) =~= e@);
        }
        let ghost before = self.edge_list();
        self.edges.push(e);
        proof {
            let edges = self.edge_list();
            assert(edges =~= before.push(e@));
            assert(edges.drop_last() =~= before);
            assert(before =~= old(self).edge_list());
        }
    }

    /// Computes the degree distribution of the hypergraph in whole numbers:
    /// for each degree that some vertex has, the number of vertices that
    /// have it. Divided by the number of vertices, it is the share of the
    /// vertices with that degree.
    pub fn degree_distribution(&self) -> (counts: HashMap<u32, u64>)
        ensures
            forall|d: u32| #[trigger] counts@.contains_key(d) <==> count_in(self.degree@, d) > 0,
            forall|d: u32| #[trigger] counts@.contains_key(d) ==> counts@[d] == count_in(self.degree@, d),
    {
        broadcast use vstd::std_specs::hash::group_hash_axioms;

        let mut counts: HashMap<u32, u64> = HashMap::new();
        let mut k: usize = 0;
        while k < self.degree.len()
            invariant
                k <= self.degree@.len(),
                forall|d: u32|
                    #[trigger] counts@.contains_key(d) <==> count_in(self.degree@.take(k as int), d)
                        > 0,
                forall|d: u32|
                    #[trigger] counts@.contains_key(d) ==> counts@[d] == count_in(
                        self.degree@.take(k as int),
                        d,
                    ),
            decreases self.degree@.len() - k,
        {
            let degree = self.degree[k];
            proof {
                assert(self.degree@.take(k + 1).drop_last() =~= self.degree@.take(k as int));
                lemma_count_le_len(self.degree@.take(k as int), degree);
            }
            let seen = match counts.get(&degree) {
                Some(count) => *count,
                None => 0,
            };
            counts.insert(degree, seen + 1);
            k += 1;
        }
        proof {
            assert(self.degree@.take(k as int) =~= self.degree@);
        }
        counts
    }
}

} // verus!
