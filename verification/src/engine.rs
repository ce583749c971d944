//! The growth engine: an evolving hypergraph, the sampling index over its
//! active vertices, and the running moments of their degrees.
//!
//! The weight of a vertex in the index is its degree while the vertex is
//! active, and zero once it has been deactivated. The engine keeps no other
//! mark of activity.

use vstd::prelude::*;
use rand_pcg::Pcg64Mcg;
use crate::fenwick::{Fenwick, MAX_CAPACITY, MAX_WEIGHT};
use crate::hypergraph::{count_in, size_total, Hypergraph};
use crate::model::{event_of, Event, Model, UNIT};
use crate::random::uniform;
use crate::failure::Failure;
use crate::sums::{
    lemma_entry_le_total, lemma_range_sum_split, lemma_range_sum_squares_update,
    lemma_range_sum_update, lemma_range_sum_zero, lemma_squares_le_square, lemma_sum_le,
    range_sum_squares, squares_of, total_of,
};

verus! {

/// The sum and the sum of squares of the degrees of the active vertices.
/// Their quotient, `square / total`, is the size-biased expected degree
/// among the active vertices.
#[derive(Clone, Copy, Debug, PartialEq, Eq, Structural)]
pub struct Moments {
    /// The sum of the degrees of the active vertices.
    pub total: u64,
    /// The sum of the squares of the degrees of the active vertices.
    pub square: u64,
}

/// The state of a run: the hypergraph grown so far, the index from which
/// vertices are drawn, and the moments of the active degrees.
pub struct GrowthEngine {
    hypergraph: Hypergraph,
    index: Fenwick,
    active_degree_total: u64,
    active_degree_square: u64,
}

/// The number of vertices that are drawn for an event, where hyperedges have
/// `m` vertices: one fewer than `m` for a vertex arrival, `m` for an edge
/// arrival, one for a vertex deactivation.
pub open spec fn draws_of(event: Event, m: int) -> int {
    match event {
        Event::VertexArrival => m - 1,
        Event::EdgeArrival => m,
        Event::VertexDeactivation => 1,
    }
}

/// The hyperedge that an arrival adds: the picks, followed by the new vertex
/// where a vertex arrives.
pub open spec fn edge_of(event: Event, picks: Seq<u32>, vertices: u32) -> Seq<u32> {
    if event == Event::VertexArrival {
        picks.push(vertices)
    } else {
        picks
    }
}

impl GrowthEngine {
    /// The hypergraph grown so far.
    pub closed spec fn graph(&self) -> Hypergraph {
        self.hypergraph
    }

    /// The sampling index.
    pub closed spec fn index(&self) -> Fenwick {
        self.index
    }

    /// The moments that the engine holds.
    pub closed spec fn held(&self) -> Moments {
        Moments { total: self.active_degree_total, square: self.active_degree_square }
    }

    /// The weights of the vertices in the index.
    pub open spec fn weights(&self) -> Seq<int> {
        self.index()@
    }

    /// The number of vertices that the index has room for.
    pub open spec fn capacity(&self) -> nat {
        self.weights().len()
    }

    /// The sum of the sizes of the hyperedges, which is the sum of all
    /// degrees.
    pub open spec fn load(&self) -> nat {
        size_total(self.graph().edge_list())
    }

    /// The vertex `v` has not been deactivated: its weight is its degree.
    pub open spec fn is_live(&self, v: int) -> bool {
        0 <= v < self.graph().vertices && self.weights()[v] == self.graph().degree@[v]
    }

    /// The degree of `v`, or zero where `v` is not a vertex yet.
    pub open spec fn degree_or_zero(&self, v: int) -> int {
        if 0 <= v < self.graph().vertices {
            self.graph().degree@[v] as int
        } else {
            0
        }
    }

    /// This engine is `before` with the hyperedge `e` added: `e` is its last
    /// hyperedge; every vertex has gained one in degree for each of its
    /// occurrences in `e`, a vertex that `before` did not have counting from
    /// zero; every vertex weighs its degree, except those that `before` had
    /// deactivated, which weigh nothing; and the total has grown by the size
    /// of `e`.
    pub open spec fn grown_by(&self, before: Self, e: Seq<u32>) -> bool {
        &&& self.graph().edge_list() == before.graph().edge_list().push(e)
        &&& self.load() == before.load() + e.len()
        &&& forall|v: int|
            0 <= v < self.graph().vertices ==> #[trigger] self.graph().degree@[v]
                == before.degree_or_zero(v) + count_in(e, v as u32)
        &&& forall|v: int|
            0 <= v < self.capacity() ==> #[trigger] self.weights()[v] == if before.is_live(v) || (
            before.graph().vertices <= v < self.graph().vertices) {
                self.graph().degree@[v] as int
            } else {
                0
            }
        &&& self.held().total == before.held().total + e.len()
    }

    /// This engine is what `before` becomes when `event` is applied with
    /// the vertices `picks`. An arrival adds the hyperedge of the event and,
    /// where a vertex arrives, that vertex. A deactivation leaves the
    /// hypergraph as it is, sets the weight of its pick to zero, and takes
    /// the degree of the pick and its square out of the moments.
    pub open spec fn follows(&self, before: Self, event: Event, picks: Seq<u32>) -> bool {
        &&& self.capacity() == before.capacity()
        &&& self.graph().vertices == before.graph().vertices + if event == Event::VertexArrival {
            1int
        } else {
            0int
        }
        &&& event != Event::VertexDeactivation ==> self.grown_by(
            before,
            edge_of(event, picks, before.graph().vertices),
        )
        &&& event == Event::VertexDeactivation ==> {
            let degree = before.graph().degree@[picks[0] as int];
            &&& self.graph() == before.graph()
            &&& self.weights() == before.weights().update(picks[0] as int, 0)
            &&& self.held().total == before.held().total - degree
            &&& self.held().square == before.held().square - degree * degree
        }
    }

    /// This engine is what `before` becomes when `event` is applied with
    /// the vertices on which the draws `draws` land in `before`, one vertex
    /// for each draw.
    pub open spec fn advanced(&self, before: Self, event: Event, draws: Seq<i64>) -> bool {
        exists|picks: Seq<u32>| #[trigger] self.located(before, event, draws, picks)
    }

    /// The picks `picks` are the vertices on which the draws `draws` land in
    /// `before`, and this engine follows `before` by `event` with them.
    pub open spec fn located(
        &self,
        before: Self,
        event: Event,
        draws: Seq<i64>,
        picks: Seq<u32>,
    ) -> bool {
        &&& picks.len() == draws.len()
        &&& forall|k: int|
            0 <= k < picks.len() ==> before.index().lands(draws[k] as int, #[trigger] picks[k] as int)
        &&& self.follows(before, event, picks)
    }

    /// This engine is what `before` becomes by a step of `model` on which
    /// `event` occurs: some chance selects the event, and the engine follows
    /// `before` by the event with as many picks as the event draws, all of
    /// them active in `before`.
    #[verifier::opaque]
    pub open spec fn reached_by(&self, before: Self, model: Model, event: Event) -> bool {
        exists|chance: int, picks: Seq<u32>| #[trigger]
            self.admits(before, model, event, chance, picks)
    }

    /// The chance `chance` selects `event`, the picks `picks` can be drawn
    /// for it from `before`, and this engine follows `before` by them.
    pub open spec fn admits(
        &self,
        before: Self,
        model: Model,
        event: Event,
        chance: int,
        picks: Seq<u32>,
    ) -> bool {
        &&& 0 <= chance < UNIT
        &&& event == event_of(model.pv as int, model.pe as int, chance)
        &&& picks.len() == draws_of(event, model.m as int)
        &&& forall|p: int| 0 <= p < picks.len() ==> before.is_active(#[trigger] picks[p] as int)
        &&& self.follows(before, event, picks)
    }

    /// This engine holds the initial hypergraph, a single vertex with a
    /// single hyperedge of size 1, and has room for `capacity` vertices.
    pub open spec fn starts(&self, capacity: nat) -> bool {
        &&& self.capacity() == capacity
        &&& self.graph().vertices == 1
        &&& self.graph().edge_list() == seq![seq![0u32]]
        &&& self.graph().degree@ == seq![1u32]
        &&& self.weights() == Seq::new(capacity, |k: int| 0int).update(0, 1)
        &&& self.held() == (Moments { total: 1, square: 1 })
    }

    /// The vertex `v` can be drawn: its weight is positive.
    pub open spec fn is_active(&self, v: int) -> bool {
        0 <= v < self.graph().vertices && self.weights()[v] > 0
    }

    /// The hypergraph and the index are well formed, every vertex weighs its
    /// degree or nothing, what is not a vertex weighs nothing, and the
    /// moments are those of the weights.
    pub open spec fn wf(&self) -> bool {
        &&& self.graph().wf()
        &&& self.index().wf()
        &&& self.graph().vertices <= self.capacity()
        &&& forall|v: int|
            0 <= v < self.graph().vertices ==> #[trigger] self.weights()[v]
                == self.graph().degree@[v] || self.weights()[v] == 0
        &&& forall|v: int|
            self.graph().vertices <= v < self.capacity() ==> #[trigger] self.weights()[v] == 0
        &&& self.held().total == total_of(self.weights())
        &&& self.held().square == squares_of(self.weights())
        &&& self.load() <= MAX_WEIGHT
    }

    /// In a well-formed engine no weight is negative, no weight exceeds the
    /// load, and neither do the moments exceed the load and its square.
    pub proof fn lemma_bounds(&self)
        requires
            self.wf(),
        ensures
            forall|v: int| 0 <= v < self.capacity() ==> 0 <= #[trigger] self.weights()[v],
            forall|v: int| 0 <= v < self.capacity() ==> #[trigger] self.weights()[v] <= self.load(),
            0 <= total_of(self.weights()) <= self.load(),
            0 <= squares_of(self.weights()) <= self.load() * self.load(),
    {
        let w = self.weights();
        let d = self.graph().degrees();
        let n = self.graph().vertices as int;
        assert forall|v: int| 0 <= v < self.capacity() implies 0 <= #[trigger] w[v] by {
            if v < n {
                assert(d[v] == self.graph().degree@[v]);
            }
        }
        lemma_squares_le_square(w, 0, w.len() as int);
        // The weights of the vertices are at most their degrees.
        lemma_range_sum_split(w, 0, n, w.len() as int);
        lemma_range_sum_zero(w, n, w.len() as int);
        lemma_sum_le(w, d, n);
        assert forall|v: int| 0 <= v < self.capacity() implies #[trigger] w[v] <= self.load() by {
            if v < n {
                lemma_entry_le_total(d, v);
                assert(d[v] == self.graph().degree@[v]);
            }
        }
        let t = total_of(w);
        let l = self.load() as int;
        assert(t * t <= l * l) by (nonlinear_arith)
            requires
                0 <= t <= l,
        ;
    }

    /// Constructs the engine on the initial hypergraph, a single vertex with
    /// a single hyperedge of size 1, with room for `capacity` vertices.
    pub fn initial(capacity: usize) -> (engine: Self)
        requires
            1 <= capacity <= MAX_CAPACITY,
        ensures
            engine.wf(),
            engine.starts(capacity as nat),
            engine.load() == 1,
    {
        let graph = Hypergraph::initial();
        let mut index = Fenwick::of_size(capacity);
        index.add(0, 1);
        let engine = GrowthEngine {
            hypergraph: *graph,
            index,
            active_degree_total: 1,
            active_degree_square: 1,
        };
        proof {
            let zeros = Seq::new(capacity as nat, |k: int| 0int);
            let w = engine.weights();
            lemma_range_sum_zero(zeros, 0, capacity as int);
            lemma_range_sum_update(zeros, 0, 1, 0, capacity as int);
            lemma_range_sum_squares_update(zeros, 0, 1, 0, capacity as int);
            assert(w =~= zeros.update(0, 1));
            assert(1int * 1int - zeros[0] * zeros[0] == 1) by (nonlinear_arith)
                requires
                    zeros[0] == 0,
            ;
            assert(size_total(engine.graph().edge_list()) == 1) by {
                assert(engine.graph().edge_list().drop_last() =~= Seq::<Seq<u32>>::empty());
                reveal_with_fuel(size_total, 2);
            }
        }
        engine
    }

    /// Adds a new vertex and returns its index. The vertex has degree zero
    /// and weighs nothing until a hyperedge holds it.
    pub fn add_vertex(&mut self) -> (v: u32)
        requires
            old(self).wf(),
            old(self).graph().vertices < old(self).capacity(),
        ensures
            final(self).wf(),
            v == old(self).graph().vertices,
            final(self).graph().vertices == old(self).graph().vertices + 1,
            final(self).graph().edges == old(self).graph().edges,
            final(self).graph().degree@ == old(self).graph().degree@.push(0),
            final(self).index() == old(self).index(),
            final(self).held() == old(self).held(),
            final(self).is_live(v as int),
    {
        self.hypergraph.add_vertex()
    }

    /// Adds the hyperedge `e` of vertices that are not deactivated. For each
    /// entry of `e` in turn, the degree and the weight of the vertex grow by
    /// one, the total by one, and the sum of squares by twice the degree the
    /// vertex had, plus one.
    pub fn add_edge(&mut self, e: Vec<u32>)
        requires
            old(self).wf(),
            forall|p: int| 0 <= p < e@.len() ==> old(self).is_live(#[trigger] e@[p] as int),
            old(self).load() + e@.len() <= MAX_WEIGHT,
        ensures
            final(self).wf(),
            final(self).graph().vertices == old(self).graph().vertices,
            final(self).capacity() == old(self).capacity(),
            final(self).grown_by(*old(self), e@),
    {
        let ghost n = self.hypergraph.vertices as int;
        let ghost cap = self.index@.len() as int;
        let ghost degree0 = self.hypergraph.degree@;
        let ghost weights0 = self.index@;
        let ghost load0 = self.load() as int;
        proof {
            self.lemma_bounds();
        }
        let mut k: usize = 0;
        while k < e.len()
            invariant
                k <= e@.len(),
                n == old(self).graph().vertices,
                cap == old(self).capacity(),
                degree0 == old(self).graph().degree@,
                weights0 == old(self).weights(),
                load0 == old(self).load(),
                load0 + e@.len() <= MAX_WEIGHT,
                old(self).wf(),
                forall|p: int| 0 <= p < e@.len() ==> old(self).is_live(#[trigger] e@[p] as int),
                self.hypergraph.vertices == n,
                self.hypergraph.edges == old(self).hypergraph.edges,
                self.hypergraph.degree@.len() == n,
                self.index.wf(),
                self.index@.len() == cap,
                n <= cap,
                total_of(self.hypergraph.degrees()) == load0 + k,
                forall|v: int|
                    0 <= v < n ==> #[trigger] self.hypergraph.degree@[v] == degree0[v] + count_in(
                        e@.take(k as int),
                        v as u32,
                    ),
                forall|v: int|
                    0 <= v < cap ==> #[trigger] self.index@[v] == if old(self).is_live(v) {
                        self.hypergraph.degree@[v] as int
                    } else {
                        0
                    },
                self.active_degree_total == total_of(self.index@),
                self.active_degree_square == squares_of(self.index@),
                self.active_degree_total == old(self).active_degree_total + k,
                0 <= total_of(self.index@) <= load0 + k,
            decreases e@.len() - k,
        {
            let u = e[k] as usize;
            let d = self.hypergraph.degree[u];
            let ghost degrees = self.hypergraph.degrees();
            let ghost weights = self.index@;
            proof {
                assert(weights[u as int] == d);
                assert forall|v: int| 0 <= v < cap implies 0 <= #[trigger] weights[v] by {}
                lemma_entry_le_total(degrees, u as int);
                lemma_squares_le_square(weights, 0, cap);
                let t = total_of(weights);
                assert(t * t <= 2147483648 * 2147483648) by (nonlinear_arith)
                    requires
                        0 <= t <= 2147483648,
                ;
                assert(e@.take(k + 1).drop_last() =~= e@.take(k as int));
            }
            self.hypergraph.degree[u] = d + 1;
            self.active_degree_total = self.active_degree_total + 1;
            self.active_degree_square = self.active_degree_square + (2 * (d as u64) + 1);
            self.index.add(u, 1);
            proof {
                assert(self.hypergraph.degrees() =~= degrees.update(u as int, d + 1));
                lemma_range_sum_update(degrees, u as int, d + 1, 0, n);
                lemma_range_sum_update(weights, u as int, d + 1, 0, cap);
                lemma_range_sum_squares_update(weights, u as int, d + 1, 0, cap);
                assert((d + 1) * (d + 1) - d * d == 2 * d + 1) by (nonlinear_arith);
            }
            k += 1;
        }
        proof {
            assert(e@.take(k as int) =~= e@);
        }
        let ghost before = self.hypergraph.edge_list();
        self.hypergraph.edges.push(e);
        proof {
            let edges = self.hypergraph.edge_list();
            assert(edges =~= before.push(e@));
            assert(edges.drop_last() =~= before);
        }
    }

    /// Deactivates the active vertex `v`: its degree leaves the total, the
    /// square of its degree leaves the sum of squares, and its weight
    /// becomes zero. The hypergraph keeps the vertex and its degree.
    pub fn deactivate_vertex(&mut self, v: u32)
        requires
            old(self).wf(),
            old(self).is_active(v as int),
        ensures
            final(self).wf(),
            final(self).graph() == old(self).graph(),
            final(self).weights() == old(self).weights().update(v as int, 0),
            final(self).held().total == old(self).held().total - old(self).graph().degree@[v as int],
            final(self).held().square == old(self).held().square - old(self).graph().degree@[v as int]
                * old(self).graph().degree@[v as int],
            !final(self).is_active(v as int),
    {
        let d = self.hypergraph.degree[v as usize] as u64;
        let ghost weights = self.index@;
        let ghost after = weights.update(v as int, 0);
        proof {
            self.lemma_bounds();
            let cap = weights.len() as int;
            assert(weights[v as int] == d);
            lemma_range_sum_update(weights, v as int, 0, 0, cap);
            lemma_range_sum_squares_update(weights, v as int, 0, 0, cap);
            assert forall|u: int| 0 <= u < cap implies 0 <= #[trigger] after[u] by {}
            lemma_squares_le_square(after, 0, cap);
            assert(d * d <= 2147483648 * 2147483648) by (nonlinear_arith)
                requires
                    0 <= d <= 2147483648,
            ;
        }
        self.active_degree_total = self.active_degree_total - d;
        self.active_degree_square = self.active_degree_square - d * d;
        self.index.set(v as usize, 0);
    }

    /// Applies one event to the engine, with the vertices `picks` that were
    /// drawn for it.
    ///
    /// A vertex arrival creates a vertex and adds the hyperedge of the
    /// picks followed by the new vertex. An edge arrival adds the hyperedge
    /// of the picks. A vertex deactivation deactivates its one pick.
    pub fn apply(&mut self, event: Event, picks: Vec<u32>)
        requires
            old(self).wf(),
            forall|p: int| 0 <= p < picks@.len() ==> old(self).is_active(#[trigger] picks@[p] as int),
            event == Event::VertexArrival ==> old(self).graph().vertices < old(self).capacity()
                && old(self).load() + picks@.len() + 1 <= MAX_WEIGHT,
            event == Event::EdgeArrival ==> old(self).load() + picks@.len() <= MAX_WEIGHT,
            event == Event::VertexDeactivation ==> picks@.len() == 1,
        ensures
            final(self).wf(),
            final(self).follows(*old(self), event, picks@),
    {
        proof {
            self.lemma_bounds();
        }
        match event {
            Event::VertexArrival => {
                let v = self.add_vertex();
                let ghost grown = *self;
                let mut e = picks;
                e.push(v);
                proof {
                    assert forall|p: int| 0 <= p < e@.len() implies self.is_live(
                        #[trigger] e@[p] as int,
                    ) by {
                        if p < picks@.len() {
                            assert(old(self).is_active(picks@[p] as int));
                        }
                    }
                }
                self.add_edge(e);
                proof {
                    assert forall|u: int| 0 <= u < self.graph().vertices implies
                        #[trigger] self.graph().degree@[u] == old(self).degree_or_zero(u) + count_in(
                        e@,
                        u as u32,
                    ) by {
                        assert(self.graph().degree@[u] == grown.graph().degree@[u] + count_in(
                            e@,
                            u as u32,
                        ));
                    }
                    assert forall|u: int| 0 <= u < self.capacity() implies
                        #[trigger] self.weights()[u] == if old(self).is_live(u) || u == old(
                        self,
                    ).graph().vertices {
                        self.graph().degree@[u] as int
                    } else {
                        0
                    } by {
                        if u < old(self).graph().vertices {
                            assert(grown.is_live(u) == old(self).is_live(u));
                        }
                    }
                }
            },
            Event::EdgeArrival => {
                proof {
                    assert forall|p: int| 0 <= p < picks@.len() implies self.is_live(
                        #[trigger] picks@[p] as int,
                    ) by {
                        assert(self.is_active(picks@[p] as int));
                    }
                }
                self.add_edge(picks);
            },
            Event::VertexDeactivation => {
                self.deactivate_vertex(picks[0]);
            },
        }
    }

    /// Advances the engine by step `t` on the values drawn for it: the
    /// chance that selects the event, and for each vertex of the event the
    /// draw that is located in the index.
    ///
    /// The step fails, and leaves the engine as it is, if and only if no
    /// vertex is active. Otherwise the event is the one that the chance
    /// selects, each draw is located on the weights as they are before the
    /// event, and the event is applied with the vertices found.
    pub fn advance(&mut self, model: &Model, t: u64, chance: i64, draws: Vec<i64>) -> (res: Result<
        Event,
        Failure,
    >)
        requires
            old(self).wf(),
            model.wf(),
            0 <= chance < UNIT,
            old(self).graph().vertices < old(self).capacity(),
            old(self).load() + model.m <= MAX_WEIGHT,
            old(self).held().total > 0 ==> draws@.len() == draws_of(
                event_of(model.pv as int, model.pe as int, chance as int),
                model.m as int,
            ),
            forall|k: int|
                0 <= k < draws@.len() ==> 1 <= #[trigger] draws@[k] <= old(self).held().total,
        ensures
            final(self).wf(),
            res is Err <==> old(self).held().total == 0,
            res matches Err(failure) ==> failure == (Failure::Exhausted { step: t }) && *final(self)
                == *old(self),
            res matches Ok(event) ==> event == event_of(
                model.pv as int,
                model.pe as int,
                chance as int,
            ) && final(self).advanced(*old(self), event, draws@),
    {
        if self.active_degree_total == 0 {
            return Err(Failure::Exhausted { step: t });
        }
        let event = model.event(chance);
        let mut picks: Vec<u32> = Vec::new();
        let mut k: usize = 0;
        while k < draws.len()
            invariant
                self.wf(),
                *self == *old(self),
                k <= draws@.len(),
                picks@.len() == k,
                forall|j: int|
                    0 <= j < draws@.len() ==> 1 <= #[trigger] draws@[j] <= self.held().total,
                forall|j: int|
                    0 <= j < k ==> self.index().lands(draws@[j] as int, #[trigger] picks@[j] as int),
            decreases draws@.len() - k,
        {
            let found = self.index.locate(draws[k]);
            picks.push(found as u32);
            k += 1;
        }
        proof {
            assert forall|j: int| 0 <= j < picks@.len() implies self.is_active(
                #[trigger] picks@[j] as int,
            ) by {
                assert(self.index().lands(draws@[j] as int, picks@[j] as int));
            }
        }
        self.apply(event, picks);
        proof {
            assert(self.located(*old(self), event, draws@, picks@));
        }
        Ok(event)
    }

    /// Performs step `t`: draws the chance that selects the event and a
    /// draw for each vertex of the event, and advances by them. Where no
    /// vertex is active, nothing is drawn and the step fails.
    ///
    /// A vertex arrival draws one vertex fewer than the size of a hyperedge,
    /// an edge arrival as many as the size, a vertex deactivation one.
    pub fn step(&mut self, model: &Model, t: u64, random: &mut Pcg64Mcg) -> (res: Result<
        Event,
        Failure,
    >)
        requires
            old(self).wf(),
            model.wf(),
            old(self).graph().vertices < old(self).capacity(),
            old(self).load() + model.m <= MAX_WEIGHT,
        ensures
            final(self).wf(),
            res is Err <==> old(self).held().total == 0,
            res matches Err(failure) ==> failure == (Failure::Exhausted { step: t }) && *final(self)
                == *old(self) && *final(random) == *old(random),
            res matches Ok(event) ==> {
                &&& final(self).reached_by(*old(self), *model, event)
                &&& final(self).capacity() == old(self).capacity()
                &&& final(self).graph().vertices == old(self).graph().vertices + if event
                    == Event::VertexArrival {
                    1int
                } else {
                    0int
                }
                &&& event == Event::VertexDeactivation ==> final(self).graph() == old(self).graph()
                &&& event != Event::VertexDeactivation ==> {
                    &&& final(self).graph().edge_list().drop_last() == old(self).graph().edge_list()
                    &&& final(self).graph().edge_list().last().len() == model.m
                    &&& final(self).load() == old(self).load() + model.m
                    &&& final(self).held().total == old(self).held().total + model.m
                }
                &&& event == Event::VertexArrival ==> final(self).graph().edge_list().last().last()
                    == old(self).graph().vertices
                &&& model.pv + model.pe >= UNIT ==> event != Event::VertexDeactivation
            },
    {
        if self.active_degree_total == 0 {
            return self.advance(model, t, 0, Vec::new());
        }
        let chance = uniform(random, 0, UNIT - 1);
        let count = match model.event(chance) {
            Event::VertexArrival => model.size(t) - 1,
            Event::EdgeArrival => model.size(t),
            Event::VertexDeactivation => 1,
        };
        let mut draws: Vec<i64> = Vec::new();
        while draws.len() < count
            invariant
                self.wf(),
                *self == *old(self),
                self.held().total > 0,
                draws@.len() <= count,
                forall|k: int|
                    0 <= k < draws@.len() ==> 1 <= #[trigger] draws@[k] <= self.held().total,
            decreases count - draws@.len(),
        {
            let draw = uniform(random, 1, self.index.total());
            draws.push(draw);
        }
        let res = self.advance(model, t, chance, draws);
        proof {
            let event = res->Ok_0;
            let picks = choose|picks: Seq<u32>| #[trigger]
                self.located(*old(self), event, draws@, picks);
            assert forall|p: int| 0 <= p < picks.len() implies old(self).is_active(
                #[trigger] picks[p] as int,
            ) by {
                assert(old(self).index().lands(draws@[p] as int, picks[p] as int));
            }
            let edges = old(self).graph().edge_list();
            assert(edges.push(picks).drop_last() =~= edges);
            assert(edges.push(picks.push(old(self).graph().vertices)).drop_last() =~= edges);
            reveal(GrowthEngine::reached_by);
            assert(self.admits(*old(self), *model, event, chance as int, picks));
        }
        res
    }

    /// The hypergraph grown so far.
    pub fn hypergraph(&self) -> (graph: &Hypergraph)
        ensures
            *graph == self.graph(),
    {
        &self.hypergraph
    }

    /// Gives up the engine for the hypergraph it has grown.
    pub fn into_hypergraph(self) -> (graph: Hypergraph)
        ensures
            graph == self.graph(),
    {
        self.hypergraph
    }

    /// The moments of the degrees of the active vertices.
    pub fn moments(&self) -> (moments: Moments)
        ensures
            moments == self.held(),
    {
        Moments { total: self.active_degree_total, square: self.active_degree_square }
    }
}

} // verus!
