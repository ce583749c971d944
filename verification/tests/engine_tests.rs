use hypergraphs::engine::{GrowthEngine, Moments};
use hypergraphs::model::{Event, Model, UNIT};
use hypergraphs::failure::Failure;
use rand::SeedableRng;
use rand_pcg::Pcg64Mcg;

#[test]
fn initial_engine_holds_the_initial_hypergraph() {
    let engine = GrowthEngine::initial(4);
    assert_eq!(engine.moments(), Moments { total: 1, square: 1 });
    assert_eq!(engine.hypergraph().vertices, 1);
    assert_eq!(engine.hypergraph().edges, vec![vec![0]]);
    assert_eq!(engine.hypergraph().degree, vec![1]);
}

#[test]
fn vertex_arrival_adds_one_vertex_and_its_edge() {
    let mut engine = GrowthEngine::initial(4);
    engine.apply(Event::VertexArrival, vec![0, 0]);
    assert_eq!(engine.hypergraph().vertices, 2);
    assert_eq!(engine.hypergraph().edges, vec![vec![0], vec![0, 0, 1]]);
    assert_eq!(engine.hypergraph().degree, vec![3, 1]);
    // Degrees 3 and 1: total 4, squares 9 + 1.
    assert_eq!(engine.moments(), Moments { total: 4, square: 10 });
}

#[test]
fn edge_arrival_adds_no_vertex() {
    let mut engine = GrowthEngine::initial(4);
    engine.apply(Event::EdgeArrival, vec![0, 0, 0]);
    assert_eq!(engine.hypergraph().vertices, 1);
    assert_eq!(engine.hypergraph().edges, vec![vec![0], vec![0, 0, 0]]);
    assert_eq!(engine.hypergraph().degree, vec![4]);
    // The square grows by 2 * 1 + 1, 2 * 2 + 1 and 2 * 3 + 1.
    assert_eq!(engine.moments(), Moments { total: 4, square: 16 });
}

#[test]
fn vertex_deactivation_keeps_the_degree() {
    let mut engine = GrowthEngine::initial(4);
    engine.apply(Event::VertexArrival, vec![0]);
    engine.apply(Event::VertexArrival, vec![1, 0]);
    assert_eq!(engine.hypergraph().degree, vec![3, 2, 1]);
    assert_eq!(engine.moments(), Moments { total: 6, square: 14 });
    engine.apply(Event::VertexDeactivation, vec![0]);
    assert_eq!(engine.hypergraph().vertices, 3);
    assert_eq!(engine.hypergraph().degree, vec![3, 2, 1]);
    assert_eq!(engine.hypergraph().edges.len(), 3);
    assert_eq!(engine.moments(), Moments { total: 3, square: 5 });
}

#[test]
fn events_change_the_vertex_count_by_one_or_nothing() {
    let mut engine = GrowthEngine::initial(8);
    let events = [
        (Event::VertexArrival, vec![0, 0], 2),
        (Event::EdgeArrival, vec![1, 0, 1], 2),
        (Event::VertexDeactivation, vec![0], 2),
        (Event::VertexArrival, vec![1, 1], 3),
        (Event::VertexArrival, vec![2, 1], 4),
        (Event::VertexDeactivation, vec![2], 4),
        (Event::EdgeArrival, vec![3, 3, 1], 4),
    ];
    for (event, picks, vertices) in events {
        engine.apply(event, picks);
        assert_eq!(engine.hypergraph().vertices, vertices);
        let graph = engine.hypergraph();
        let sizes: usize = graph.edges.iter().map(|e| e.len()).sum();
        let degrees: usize = graph.degree.iter().map(|d| *d as usize).sum();
        assert_eq!(degrees, sizes);
        assert_eq!(graph.degree.len(), graph.vertices as usize);
    }
    // Vertices 0 and 2 are deactivated; 1 has degree 7 and 3 has degree 3.
    assert_eq!(engine.hypergraph().degree, vec![4, 7, 2, 3]);
    assert_eq!(engine.moments(), Moments { total: 10, square: 58 });
}

#[test]
fn deactivating_every_vertex_exhausts_the_engine() {
    let mut engine = GrowthEngine::initial(3);
    engine.apply(Event::VertexDeactivation, vec![0]);
    assert_eq!(engine.moments(), Moments { total: 0, square: 0 });
    assert_eq!(engine.hypergraph().degree, vec![1]);
}

#[test]
fn add_vertex_then_add_edge_is_an_arrival() {
    let mut engine = GrowthEngine::initial(3);
    let v = engine.add_vertex();
    assert_eq!(v, 1);
    assert_eq!(engine.moments(), Moments { total: 1, square: 1 });
    engine.add_edge(vec![0, v]);
    assert_eq!(engine.hypergraph().degree, vec![2, 1]);
    assert_eq!(engine.moments(), Moments { total: 3, square: 5 });
    engine.deactivate_vertex(1);
    assert_eq!(engine.moments(), Moments { total: 2, square: 4 });
    let graph = engine.into_hypergraph();
    assert_eq!(graph.edges, vec![vec![0], vec![0, 1]]);
}

#[test]
fn step_applies_the_event_it_returns() {
    let model = Model::new(UNIT / 2, UNIT / 4, UNIT / 4, 3).unwrap();
    let mut seen = [false; 3];
    for seed in 0..16u64 {
        let mut random = Pcg64Mcg::seed_from_u64(seed);
        let mut engine = GrowthEngine::initial(41);
        for t in 1..=40u64 {
            if engine.moments().total == 0 {
                break;
            }
            check_step(&mut engine, &model, t, &mut random, &mut seen);
        }
    }
    assert_eq!(seen, [true, true, true]);
}

fn check_step(
    engine: &mut GrowthEngine,
    model: &Model,
    t: u64,
    random: &mut Pcg64Mcg,
    seen: &mut [bool; 3],
) {
    {
        let vertices = engine.hypergraph().vertices;
        let edges = engine.hypergraph().edges.len();
        let total = engine.moments().total;
        let event = engine.step(model, t, random).unwrap();
        match event {
            Event::VertexArrival => {
                seen[0] = true;
                assert_eq!(engine.hypergraph().vertices, vertices + 1);
                assert_eq!(engine.hypergraph().edges.len(), edges + 1);
                assert_eq!(engine.hypergraph().edges[edges].len(), 3);
                assert_eq!(engine.hypergraph().edges[edges][2], vertices);
                assert_eq!(engine.moments().total, total + 3);
            }
            Event::EdgeArrival => {
                seen[1] = true;
                assert_eq!(engine.hypergraph().vertices, vertices);
                assert_eq!(engine.hypergraph().edges.len(), edges + 1);
                assert_eq!(engine.hypergraph().edges[edges].len(), 3);
                assert_eq!(engine.moments().total, total + 3);
            }
            Event::VertexDeactivation => {
                seen[2] = true;
                assert_eq!(engine.hypergraph().vertices, vertices);
                assert_eq!(engine.hypergraph().edges.len(), edges);
                assert!(engine.moments().total < total);
            }
        }
    }
}

#[test]
fn step_without_deactivation_never_deactivates() {
    let model = Model::new(UNIT / 4, UNIT / 4 * 3, 0, 2).unwrap();
    let mut random = Pcg64Mcg::seed_from_u64(3);
    let mut engine = GrowthEngine::initial(201);
    for t in 1..=200u64 {
        assert_ne!(engine.step(&model, t, &mut random), Ok(Event::VertexDeactivation));
    }
    assert_eq!(engine.moments().total, 401);
    assert_eq!(engine.hypergraph().edges.len(), 201);
}

#[test]
fn advance_follows_the_chance_and_the_draws() {
    let model = Model::new(UNIT / 2, UNIT / 4, UNIT / 4, 3).unwrap();
    let mut engine = GrowthEngine::initial(5);
    // A chance below pv: a vertex arrives with two picks.
    assert_eq!(engine.advance(&model, 1, 0, vec![1, 1]), Ok(Event::VertexArrival));
    assert_eq!(engine.hypergraph().edges, vec![vec![0], vec![0, 0, 1]]);
    assert_eq!(engine.moments(), Moments { total: 4, square: 10 });
    // A chance from pv on and below pv + pe: an edge arrives with three
    // picks. The weights are 3 and 1, so the draws 3 and 4 land on 0 and 1.
    assert_eq!(engine.advance(&model, 2, UNIT / 2, vec![3, 4, 1]), Ok(Event::EdgeArrival));
    assert_eq!(engine.hypergraph().edges[2], vec![0, 1, 0]);
    assert_eq!(engine.hypergraph().degree, vec![5, 2]);
    assert_eq!(engine.moments(), Moments { total: 7, square: 29 });
    // A chance from pv + pe on: the vertex on which the draw lands is
    // deactivated. The weights are 5 and 2, so the draw 6 lands on 1.
    assert_eq!(engine.advance(&model, 3, UNIT / 4 * 3, vec![6]), Ok(Event::VertexDeactivation));
    assert_eq!(engine.hypergraph().degree, vec![5, 2]);
    assert_eq!(engine.moments(), Moments { total: 5, square: 25 });
    // The deactivated vertex is drawn no more: every draw lands on 0.
    assert_eq!(engine.advance(&model, 4, UNIT / 2 - 1, vec![5, 1]), Ok(Event::VertexArrival));
    assert_eq!(engine.hypergraph().edges[3], vec![0, 0, 2]);
    assert_eq!(engine.hypergraph().vertices, 3);
}

#[test]
fn advance_fails_when_every_vertex_is_deactivated() {
    // Every chance selects a deactivation: the first step deactivates the
    // one vertex, and the second finds none.
    let model = Model::new(UNIT / 2 + 1, 0, UNIT / 2 - 1, 1).unwrap();
    let mut engine = GrowthEngine::initial(11);
    assert_eq!(engine.advance(&model, 1, UNIT - 1, vec![1]), Ok(Event::VertexDeactivation));
    assert_eq!(engine.moments(), Moments { total: 0, square: 0 });
    for t in 2..=10 {
        assert_eq!(
            engine.advance(&model, t, UNIT - 1, vec![]),
            Err(Failure::Exhausted { step: t })
        );
        assert_eq!(engine.moments(), Moments { total: 0, square: 0 });
        assert_eq!(engine.hypergraph().vertices, 1);
        assert_eq!(engine.hypergraph().edges, vec![vec![0]]);
        assert_eq!(engine.hypergraph().degree, vec![1]);
    }
}

#[test]
fn advance_fails_whatever_the_chance() {
    let model = Model::new(UNIT / 2, UNIT / 4, UNIT / 4, 2).unwrap();
    let mut engine = GrowthEngine::initial(4);
    engine.apply(Event::VertexDeactivation, vec![0]);
    assert_eq!(engine.advance(&model, 7, 0, vec![]), Err(Failure::Exhausted { step: 7 }));
    assert_eq!(engine.advance(&model, 8, UNIT / 2, vec![]), Err(Failure::Exhausted { step: 8 }));
}

#[test]
fn step_of_an_exhausted_engine_draws_nothing() {
    let model = Model::new(UNIT / 2, UNIT / 4, UNIT / 4, 2).unwrap();
    let mut engine = GrowthEngine::initial(4);
    engine.apply(Event::VertexDeactivation, vec![0]);
    let mut random = Pcg64Mcg::seed_from_u64(1);
    let untouched = random.clone();
    assert_eq!(engine.step(&model, 2, &mut random), Err(Failure::Exhausted { step: 2 }));
    assert!(random == untouched);
    assert_eq!(engine.hypergraph().degree, vec![1]);
}
