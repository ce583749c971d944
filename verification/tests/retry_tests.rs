use hypergraphs::model::{Model, UNIT};
use hypergraphs::retry::{RetryDriver, Verdict};
use hypergraphs::failure::Failure;
use hypergraphs::simulation::Simulation;
use rand::SeedableRng;
use rand_pcg::Pcg64Mcg;

fn success() -> Simulation {
    let model = Model::new(UNIT / 2, UNIT / 2, 0, 2).unwrap();
    let mut random = Pcg64Mcg::seed_from_u64(0);
    Simulation::run(&model, 3, &mut random).unwrap()
}

/// Drives an engine that fails its first `failures` attempts and then
/// succeeds; returns the result and the number of attempts made.
fn drive(failures: u32, retries: u32) -> (Result<Simulation, Failure>, u32) {
    let mut driver = RetryDriver::new(retries);
    let mut attempts = 0;
    loop {
        attempts += 1;
        let outcome =
            if attempts <= failures { Err(Failure::Exhausted { step: 2 }) } else { Ok(success()) };
        match driver.settle(outcome) {
            Verdict::Done(simulation) => return (Ok(simulation), attempts),
            Verdict::GiveUp(failure) => return (Err(failure), attempts),
            Verdict::Again => {}
        }
    }
}

#[test]
fn first_success_ends_the_run() {
    let (result, attempts) = drive(0, 5);
    assert!(result.is_ok());
    assert_eq!(attempts, 1);
}

#[test]
fn success_after_some_failures() {
    for retries in 1..6 {
        for failures in 0..retries {
            let (result, attempts) = drive(failures, retries);
            assert_eq!(result.unwrap().steps, 3);
            assert_eq!(attempts, failures + 1);
            assert!(attempts <= retries);
        }
    }
}

#[test]
fn success_on_the_last_retry() {
    let (result, attempts) = drive(4, 4);
    assert!(result.is_ok());
    assert_eq!(attempts, 5);
}

#[test]
fn too_many_failures_exhaust_the_retries() {
    for retries in 0..5 {
        for failures in (retries + 1)..(retries + 4) {
            let (result, attempts) = drive(failures, retries);
            assert_eq!(result.err(), Some(Failure::RetriesExhausted { attempts: retries as u64 + 1 }));
            assert_eq!(attempts, retries + 1);
        }
    }
}

#[test]
fn no_retries_means_one_attempt() {
    let (result, attempts) = drive(1, 0);
    assert_eq!(result.err(), Some(Failure::RetriesExhausted { attempts: 1 }));
    assert_eq!(attempts, 1);
}

#[test]
fn generate_returns_a_simulation() {
    let pv = (0.30 * UNIT as f64).ceil() as i64;
    let cut = (0.79 * UNIT as f64).ceil() as i64;
    let model = Model::new(pv, cut - pv, UNIT - cut, 3).unwrap();
    let mut random = Pcg64Mcg::seed_from_u64(12);
    let simulation = model.generate(1000, 100, &mut random).unwrap();
    assert_eq!(simulation.steps, 1000);
    assert_eq!(simulation.theta.len(), 1001);
    assert_eq!(simulation.hypergraph.edges[0], vec![0]);
    assert_eq!(simulation.model.m, 3);
}

#[test]
fn generate_gives_up_after_the_retries() {
    // With hyperedges of one vertex and deactivation almost as likely as
    // arrival, a long run is all but sure to lose its last active vertex.
    let model = Model::new(UNIT / 2 + 1, 0, UNIT / 2 - 1, 1).unwrap();
    let mut random = Pcg64Mcg::seed_from_u64(21);
    let failure = model.generate(2_000_000, 2, &mut random).err();
    assert_eq!(failure, Some(Failure::RetriesExhausted { attempts: 3 }));
    assert_eq!(
        failure.unwrap().message(),
        "All vertices have been deactivated in every attempt"
    );
}

#[test]
fn generate_without_deactivation_needs_no_retry() {
    let model = Model::new(UNIT / 2, UNIT / 2, 0, 2).unwrap();
    let mut random = Pcg64Mcg::seed_from_u64(30);
    let simulation = model.generate(50, 0, &mut random).unwrap();
    assert_eq!(simulation.hypergraph.edges.len(), 51);
}
