//! A run of the growth process for a fixed number of steps, and its result.

use vstd::prelude::*;
use rand_pcg::Pcg64Mcg;
use crate::engine::{GrowthEngine, Moments};
use crate::failure::{Failure, GenerateError};
use crate::fenwick::MAX_WEIGHT;
use crate::hypergraph::{occurrences, size_total, Hypergraph};
use crate::model::{violation, Event, Model, UNIT};
use crate::sums::total_of;

verus! {

/// The result of a run.
#[derive(Debug)]
pub struct Simulation {
    /// The model used in the simulation.
    pub model: Model,
    /// The hypergraph generated according to the model.
    pub hypergraph: Box<Hypergraph>,
    /// The number of steps performed.
    pub steps: u64,
    /// The moments of the active degrees, whose quotient is theta: first
    /// those of the initial hypergraph, then those after each step.
    pub theta: Vec<Moments>,
}

/// The engines `states` are the states of a run with room for `capacity`
/// vertices, on which the events `events` occur in turn, each under the
/// model of its step in `models`: the first state holds the initial
/// hypergraph, and each other state is reached from the one before it by a
/// step that found an active vertex.
pub open spec fn is_run(
    models: Seq<Model>,
    capacity: nat,
    states: Seq<GrowthEngine>,
    events: Seq<Event>,
) -> bool {
    &&& states.len() == events.len() + 1
    &&& models.len() == events.len()
    &&& states[0].starts(capacity)
    &&& forall|t: int| 0 <= t < states.len() ==> (#[trigger] states[t]).wf()
    &&& forall|t: int|
        0 <= t < events.len() ==> (#[trigger] states[t]).held().total > 0 && states[t
            + 1].reached_by(states[t], models[t], events[t])
}

/// The models of `steps` steps that all go by `model`.
pub open spec fn always(model: Model, steps: nat) -> Seq<Model> {
    Seq::new(steps, |t: int| model)
}

/// The models `models` have the probabilities `pv`, `pe`, `pd`, and the
/// model of step `k` has hyperedges of a size that `y` gives for `k`.
pub open spec fn sized_by<F: Fn(u64) -> usize>(
    pv: i64,
    pe: i64,
    pd: i64,
    y: F,
    models: Seq<Model>,
) -> bool {
    forall|k: int|
        0 <= k < models.len() ==> {
            let model = #[trigger] models[k];
            model.pv == pv && model.pe == pe && model.pd == pd && call_ensures(
                y,
                ((k + 1) as u64,),
                model.m,
            )
        }
}

/// The hypergraph `graph` and the moments `theta` are what the run of `t`
/// steps with the states `states` leaves: the hypergraph of the last state,
/// and the moments of every state in turn.
pub open spec fn recorded(
    graph: Hypergraph,
    theta: Seq<Moments>,
    t: u64,
    states: Seq<GrowthEngine>,
) -> bool {
    &&& states.len() == t + 1
    &&& graph == states.last().graph()
    &&& theta.len() == t + 1
    &&& forall|k: int| 0 <= k <= t ==> #[trigger] theta[k] == states[k].held()
}

/// A run of `model` for `steps` steps can be exhausted at step `step`: the
/// step is not the first one, and some run of the model has lost its last
/// active vertex when the step is to begin.
pub open spec fn exhausted_at(model: Model, steps: u64, step: u64) -> bool {
    &&& 2 <= step <= steps
    &&& exists|states: Seq<GrowthEngine>, events: Seq<Event>| #[trigger]
        is_run(always(model, events.len()), (steps + 1) as nat, states, events) && states.len()
            == step && states.last().held().total == 0
}

/// The number of vertex arrivals among `events`.
pub open spec fn arrivals(events: Seq<Event>) -> nat
    decreases events.len(),
{
    if events.len() == 0 {
        0
    } else {
        arrivals(events.drop_last()) + if events.last() == Event::VertexArrival {
            1nat
        } else {
            0nat
        }
    }
}

/// A run goes on by a step from its last state, if that state has an active
/// vertex.
pub proof fn lemma_run_goes_on(
    models: Seq<Model>,
    capacity: nat,
    states: Seq<GrowthEngine>,
    events: Seq<Event>,
    next: GrowthEngine,
    model: Model,
    event: Event,
)
    requires
        is_run(models, capacity, states, events),
        states.last().held().total > 0,
        next.wf(),
        next.reached_by(states.last(), model, event),
    ensures
        is_run(models.push(model), capacity, states.push(next), events.push(event)),
{
    let longer = states.push(next);
    let more = events.push(event);
    let n = states.len() as int;
    assert(longer[0] == states[0]);
    assert forall|t: int| 0 <= t < longer.len() implies (#[trigger] longer[t]).wf() by {
        if t < n {
            assert(longer[t] == states[t]);
        }
    }
    assert forall|t: int| 0 <= t < more.len() implies (#[trigger] longer[t]).held().total > 0
        && longer[t + 1].reached_by(longer[t], models.push(model)[t], more[t]) by {
        assert(longer[t] == states[t]);
        if t < n - 1 {
            assert(longer[t + 1] == states[t + 1]);
            assert(more[t] == events[t]);
            assert(models.push(model)[t] == models[t]);
        }
    }
}

/// A step on which a vertex arrives adds one vertex, and a step with another
/// event adds none.
pub proof fn lemma_step_counts_vertices(
    before: GrowthEngine,
    after: GrowthEngine,
    model: Model,
    event: Event,
)
    requires
        after.reached_by(before, model, event),
    ensures
        after.graph().vertices == before.graph().vertices + if event == Event::VertexArrival {
            1int
        } else {
            0int
        },
{
    reveal(GrowthEngine::reached_by);
}

/// Monotonicity: after any number of steps of a run, the hypergraph has one
/// vertex and one more for each vertex arrival so far. So the number of
/// vertices grows by exactly one on each vertex arrival, stays as it is on
/// any other event, and never falls.
pub proof fn lemma_run_counts_arrivals(
    models: Seq<Model>,
    capacity: nat,
    states: Seq<GrowthEngine>,
    events: Seq<Event>,
    t: int,
)
    requires
        is_run(models, capacity, states, events),
        0 <= t <= events.len(),
    ensures
        states[t].graph().vertices == 1 + arrivals(events.take(t)),
        t > 0 ==> states[t].graph().vertices >= states[t - 1].graph().vertices,
    decreases t,
{
    if t > 0 {
        lemma_run_counts_arrivals(models, capacity, states, events, t - 1);
        assert(states[t - 1].held().total > 0);
        assert(states[t - 1 + 1].reached_by(states[t - 1], models[t - 1], events[t - 1]));
        lemma_step_counts_vertices(states[t - 1], states[t], models[t - 1], events[t - 1]);
        assert(events.take(t).drop_last() =~= events.take(t - 1));
    }
}

/// Degree conservation: in every state of a run, the degrees sum to the
/// sizes of the hyperedges.
pub proof fn lemma_run_conserves_degree(
    models: Seq<Model>,
    capacity: nat,
    states: Seq<GrowthEngine>,
    events: Seq<Event>,
    t: int,
)
    requires
        is_run(models, capacity, states, events),
        0 <= t < states.len(),
    ensures
        total_of(states[t].graph().degrees()) == size_total(states[t].graph().edge_list()),
{
    states[t].graph().lemma_degree_conservation();
}

/// Exhaustion: a run whose first event is a vertex deactivation ends with
/// it. The event deactivates the one vertex there is, and no step begins
/// without an active vertex.
pub proof fn lemma_deactivation_first_exhausts(
    models: Seq<Model>,
    capacity: nat,
    states: Seq<GrowthEngine>,
    events: Seq<Event>,
)
    requires
        is_run(models, capacity, states, events),
        events.len() >= 1,
        events[0] == Event::VertexDeactivation,
    ensures
        events.len() == 1,
        states[1].held() == (Moments { total: 0, square: 0 }),
        states[1].graph() == states[0].graph(),
{
    assert(states[0].held().total > 0);
    assert(states[0int + 1].reached_by(states[0], models[0], events[0]));
    reveal(GrowthEngine::reached_by);
    let (chance, picks) = choose|chance: int, picks: Seq<u32>| #[trigger]
        states[1].admits(states[0], models[0], events[0], chance, picks);
    assert(states[0].is_active(picks[0] as int));
    assert(picks[0] == 0);
    assert(states[0].graph().degree@[0] == 1);
    assert(1int * 1int == 1);
    if events.len() > 1 {
        assert(states[1].held().total > 0);
    }
}

impl Simulation {
    /// The simulation holds what the run with the states `states` leaves:
    /// the hypergraph of the last state, and as theta the moments of every
    /// state in turn.
    pub open spec fn records(&self, states: Seq<GrowthEngine>) -> bool {
        recorded(*self.hypergraph, self.theta@, self.steps, states)
    }

    /// What holds of the result of every run: the hypergraph has grown in
    /// as many steps as the simulation counts, and there is one entry of
    /// theta for the initial hypergraph, which is one, and one for each
    /// step. No entry but the last has a total of zero: a step that
    /// deactivates the last active vertex can only be the last one.
    pub open spec fn wf(&self) -> bool {
        &&& self.model.wf()
        &&& self.hypergraph.grown(self.model.m, self.steps)
        &&& self.theta@.len() == self.steps + 1
        &&& self.theta@[0] == (Moments { total: 1, square: 1 })
        &&& forall|t: int| 0 <= t < self.steps ==> (#[trigger] self.theta@[t]).total > 0
    }

    /// The simulation is the result of a run of `steps` steps of `model`:
    /// it names the two, is well formed, and records the states of some run
    /// of the model.
    pub open spec fn produced_by(&self, model: Model, steps: u64) -> bool {
        &&& self.model == model
        &&& self.steps == steps
        &&& self.wf()
        &&& exists|states: Seq<GrowthEngine>, events: Seq<Event>| #[trigger]
            is_run(always(model, steps as nat), (steps + 1) as nat, states, events)
                && self.records(states)
    }

    /// Runs a simulation and generates a hypergraph according to the
    /// specified model.
    ///
    /// Before each step the run fails if no vertex is active any more;
    /// otherwise it performs the step and records the moments. The first
    /// step always finds the initial vertex active, and a model that never
    /// deactivates cannot fail. Where the last step deactivates the last
    /// active vertex the run succeeds, and the last entry of theta has a
    /// total of zero.
    pub fn run(model: &Model, steps: u64, random: &mut Pcg64Mcg) -> (res: Result<
        Simulation,
        Failure,
    >)
        requires
            model.wf(),
            steps * model.m + 1 <= MAX_WEIGHT,
        ensures
            res matches Ok(simulation) ==> simulation.produced_by(*model, steps),
            res matches Err(failure) ==> failure matches Failure::Exhausted { step } && exhausted_at(
                *model,
                steps,
                step,
            ),
            steps <= 1 || model.pv + model.pe >= UNIT ==> res is Ok,
            steps == 0 ==> *final(random) == *old(random),
    {
        proof {
            assert(steps <= steps * model.m) by (nonlinear_arith)
                requires
                    model.m >= 1,
                    steps >= 0,
            ;
        }
        let mut engine = GrowthEngine::initial((steps + 1) as usize);
        let mut theta: Vec<Moments> = Vec::new();
        theta.push(engine.moments());
        let mut t: u64 = 1;
        let ghost mut states: Seq<GrowthEngine> = seq![engine];
        let ghost mut events: Seq<Event> = Seq::empty();

        while t <= steps
            invariant
                model.wf(),
                steps * model.m + 1 <= MAX_WEIGHT,
                steps < MAX_WEIGHT,
                1 <= t <= steps + 1,
                states.len() == t,
                states.last() == engine,
                is_run(always(*model, events.len()), (steps + 1) as nat, states, events),
                theta@.len() == t,
                forall|k: int| 0 <= k < t ==> #[trigger] theta@[k] == states[k].held(),
                theta@[0] == (Moments { total: 1, square: 1 }),
                forall|k: int| 0 <= k < t - 1 ==> (#[trigger] theta@[k]).total > 0,
                engine.wf(),
                engine.capacity() == steps + 1,
                1 <= engine.graph().vertices <= t,
                1 <= engine.graph().edge_list().len() <= t,
                engine.graph().edge_list()[0] == seq![0u32],
                forall|k: int|
                    1 <= k < engine.graph().edge_list().len() ==> (
                    #[trigger] engine.graph().edge_list()[k]).len() == model.m,
                engine.load() == 1 + (engine.graph().edge_list().len() - 1) * model.m,
                forall|v: int|
                    0 <= v < engine.graph().vertices ==> #[trigger] engine.graph().degree@[v] >= 1,
                t == 1 || model.pv + model.pe >= UNIT ==> engine.held().total > 0,
                steps == 0 ==> *random == *old(random),
            decreases steps + 1 - t,
        {
            let ghost before = states;
            let ghost edges = engine.graph().edge_list();
            let ghost vertices = engine.graph().vertices;
            let ghost degree = engine.graph().degree@;
            proof {
                let n = edges.len() as int;
                let m = model.m as int;
                assert((n - 1) * m + m <= steps * m) by (nonlinear_arith)
                    requires
                        1 <= n <= t,
                        t <= steps,
                        m >= 1,
                ;
                assert(n * m == (n - 1) * m + m) by (nonlinear_arith);
                assert(theta@[t - 1] == states[t - 1].held());
            }
            let event = match engine.step(model, t, random) {
                Ok(event) => event,
                Err(failure) => {
                    return Err(failure);
                },
            };
            theta.push(engine.moments());
            proof {
                lemma_run_goes_on(
                    always(*model, events.len()),
                    (steps + 1) as nat,
                    before,
                    events,
                    engine,
                    *model,
                    event,
                );
                assert(always(*model, events.len()).push(*model) =~= always(
                    *model,
                    events.len() + 1,
                ));
                states = before.push(engine);
                events = events.push(event);
                assert forall|k: int| 0 <= k < t + 1 implies #[trigger] theta@[k]
                    == states[k].held() by {
                    if k < t {
                        assert(states[k] == before[k]);
                    }
                }
                let after = engine.graph().edge_list();
                if after != edges {
                    assert(after.drop_last() == edges);
                    assert forall|k: int| 1 <= k < after.len() implies (#[trigger] after[k]).len()
                        == model.m by {
                        if k < after.len() - 1 {
                            assert(after[k] == edges[k]);
                        }
                    }
                    assert(after[0] == edges[0]);
                    assert forall|v: int| 0 <= v < engine.graph().vertices implies
                        #[trigger] engine.graph().degree@[v] >= 1 by {
                        if v < vertices {
                            assert(degree[v] == occurrences(edges, v as u32));
                        } else {
                            let last = after.last();
                            assert(last.last() == v);
                        }
                    }
                }
            }
            t += 1;
        }

        let simulation = Simulation {
            model: *model,
            hypergraph: Box::new(engine.into_hypergraph()),
            steps,
            theta,
        };
        proof {
            assert(simulation.records(states));
        }
        Ok(simulation)
    }
}

impl Hypergraph {
    /// The hypergraph can have grown from the initial one in `steps` steps
    /// with hyperedges of `m` vertices: it is well formed, so its degrees
    /// sum to the sizes of its hyperedges; its first hyperedge is `[0]`; it
    /// has at most one vertex and one hyperedge of `m` vertices for each
    /// step besides; and every vertex is in some hyperedge.
    pub open spec fn grown(&self, m: usize, steps: u64) -> bool {
        let edges = self.edge_list();
        &&& self.wf()
        &&& 1 <= self.vertices <= steps + 1
        &&& 1 <= edges.len() <= steps + 1
        &&& edges[0] == seq![0u32]
        &&& forall|k: int| 1 <= k < edges.len() ==> (#[trigger] edges[k]).len() == m
        &&& size_total(edges) == 1 + (edges.len() - 1) * m
        &&& forall|v: int| 0 <= v < self.vertices ==> #[trigger] self.degree@[v] >= 1
    }

    /// Generates a hypergraph after `t` steps of the model with the
    /// probabilities `pv`, `pe`, `pd`, in parts of `UNIT`, and with
    /// hyperedges of the sizes that `y` gives for the steps. Returns the
    /// hypergraph with the moments of the active degrees, those of the
    /// initial hypergraph and those after each step.
    ///
    /// The probabilities are checked before anything is drawn: where they
    /// break a rule, the error names the first rule that they break and the
    /// generator is left as it was. Otherwise the steps are those of
    /// `Simulation::run`, step `k` with hyperedges of `y(k)` vertices.
    pub fn generate<F: Fn(u64) -> usize>(
        pv: i64,
        pe: i64,
        pd: i64,
        y: F,
        t: u64,
        random: &mut Pcg64Mcg,
    ) -> (res: Result<(Box<Self>, Vec<Moments>), GenerateError>)
        requires
            violation(pv as int, pe as int, pd as int, 1) is None ==> {
                &&& t < MAX_WEIGHT
                &&& forall|k: u64| 1 <= k <= t ==> call_requires(y, (k,))
                &&& forall|k: u64, size: usize|
                    1 <= k <= t && call_ensures(y, (k,), size) ==> 1 <= size && t * size + 1
                        <= MAX_WEIGHT
            },
        ensures
            violation(pv as int, pe as int, pd as int, 1) matches Some(e) ==> res matches Err(error)
                && error == GenerateError::Invalid(e) && *final(random) == *old(random),
            violation(pv as int, pe as int, pd as int, 1) is None ==> {
                &&& res matches Ok(grown) ==> grown.0.wf() && 1 <= grown.0.vertices <= t + 1 && 1
                    <= grown.0.edge_list().len() <= t + 1 && grown.0.edge_list()[0] == seq![0u32]
                    && exists|
                    models: Seq<Model>,
                    states: Seq<GrowthEngine>,
                    events: Seq<Event>,
                | #[trigger]
                    is_run(models, (t + 1) as nat, states, events) && sized_by(pv, pe, pd, y, models)
                        && recorded(*grown.0, grown.1@, t, states)
                &&& res matches Err(error) ==> error matches GenerateError::Failed(
                    Failure::Exhausted { step },
                ) && 2 <= step <= t && exists|
                    models: Seq<Model>,
                    states: Seq<GrowthEngine>,
                    events: Seq<Event>,
                | #[trigger]
                    is_run(models, (t + 1) as nat, states, events) && sized_by(pv, pe, pd, y, models)
                        && states.len() == step && states.last().held().total == 0
                &&& t <= 1 || pv + pe >= UNIT ==> res is Ok
                &&& t == 0 ==> *final(random) == *old(random)
            },
    {
        match Model::new(pv, pe, pd, 1) {
            Err(e) => {
                return Err(GenerateError::Invalid(e));
            },
            Ok(_) => {},
        }
        let mut engine = GrowthEngine::initial((t + 1) as usize);
        let mut theta: Vec<Moments> = Vec::new();
        theta.push(engine.moments());
        let mut k: u64 = 1;
        let ghost mut models: Seq<Model> = Seq::empty();
        let ghost mut states: Seq<GrowthEngine> = seq![engine];
        let ghost mut events: Seq<Event> = Seq::empty();

        while k <= t
            invariant
                violation(pv as int, pe as int, pd as int, 1) is None,
                t < MAX_WEIGHT,
                forall|k: u64| 1 <= k <= t ==> call_requires(y, (k,)),
                forall|k: u64, size: usize|
                    1 <= k <= t && call_ensures(y, (k,), size) ==> 1 <= size && t * size + 1
                        <= MAX_WEIGHT,
                1 <= k <= t + 1,
                states.len() == k,
                states.last() == engine,
                is_run(models, (t + 1) as nat, states, events),
                sized_by(pv, pe, pd, y, models),
                theta@.len() == k,
                forall|j: int| 0 <= j < k ==> #[trigger] theta@[j] == states[j].held(),
                engine.wf(),
                engine.capacity() == t + 1,
                1 <= engine.graph().vertices <= k,
                1 <= engine.graph().edge_list().len() <= k,
                engine.graph().edge_list()[0] == seq![0u32],
                t * (engine.load() - 1) <= (k - 1) * (MAX_WEIGHT - 1),
                k == 1 || pv + pe >= UNIT ==> engine.held().total > 0,
                t == 0 ==> *random == *old(random),
            decreases t + 1 - k,
        {
            let size = y(k);
            let model = Model { pv, pe, pd, m: size };
            let ghost before = states;
            let ghost load = engine.load() as int;
            let ghost edges = engine.graph().edge_list();
            proof {
                assert(load + size <= MAX_WEIGHT) by (nonlinear_arith)
                    requires
                        t * (load - 1) <= (k - 1) * (MAX_WEIGHT - 1),
                        t * size + 1 <= MAX_WEIGHT,
                        1 <= k <= t,
                        size >= 1,
                        load >= 0,
                ;
            }
            let event = match engine.step(&model, k, random) {
                Ok(event) => event,
                Err(failure) => {
                    return Err(GenerateError::Failed(failure));
                },
            };
            theta.push(engine.moments());
            proof {
                lemma_run_goes_on(models, (t + 1) as nat, before, events, engine, model, event);
                if engine.graph().edge_list() != edges {
                    assert(engine.graph().edge_list().drop_last() == edges);
                    assert(engine.graph().edge_list()[0] == edges[0]);
                }
                let sized = models.push(model);
                assert forall|j: int| 0 <= j < sized.len() implies {
                    let one = #[trigger] sized[j];
                    one.pv == pv && one.pe == pe && one.pd == pd && call_ensures(
                        y,
                        ((j + 1) as u64,),
                        one.m,
                    )
                } by {
                    if j < models.len() {
                        assert(sized[j] == models[j]);
                    }
                }
                models = sized;
                states = before.push(engine);
                events = events.push(event);
                assert forall|j: int| 0 <= j < k + 1 implies #[trigger] theta@[j]
                    == states[j].held() by {
                    if j < k {
                        assert(states[j] == before[j]);
                    }
                }
                assert(t * (engine.load() - 1) <= k * (MAX_WEIGHT - 1)) by (nonlinear_arith)
                    requires
                        t * (load - 1) <= (k - 1) * (MAX_WEIGHT - 1),
                        t * size + 1 <= MAX_WEIGHT,
                        engine.load() <= load + size,
                        t >= 1,
                ;
            }
            k += 1;
        }

        let graph = Box::new(engine.into_hypergraph());
        proof {
            assert(recorded(*graph, theta@, t, states));
        }
        Ok((graph, theta))
    }
}

} // verus!
