use hypergraphs::model::{Event, Model, ModelError, TOLERANCE, UNIT};

fn parts(share: f64) -> i64 {
    (share * UNIT as f64).ceil() as i64
}

#[test]
fn new_accepts_valid_parameters() {
    let pv = parts(0.30);
    let cut = parts(0.30 + 0.49);
    let model = Model::new(pv, cut - pv, UNIT - cut, 3).unwrap();
    assert_eq!(model.pv, pv);
    assert_eq!(model.pe, cut - pv);
    assert_eq!(model.pd, UNIT - cut);
    assert_eq!(model.m, 3);
    assert_eq!(model.pv + model.pe + model.pd, UNIT);
}

#[test]
fn new_accepts_the_smallest_edge_and_no_deactivation() {
    let model = Model::new(1, UNIT - 1, 0, 1).unwrap();
    assert_eq!((model.pv, model.pe, model.pd, model.m), (1, UNIT - 1, 0, 1));
}

#[test]
fn new_refuses_a_negative_probability() {
    assert_eq!(Model::new(-1, UNIT, 1, 3).err(), Some(ModelError::NegativeProbability));
    assert_eq!(Model::new(UNIT, -1, 1, 3).err(), Some(ModelError::NegativeProbability));
    assert_eq!(Model::new(UNIT + 1, 0, -1, 3).err(), Some(ModelError::NegativeProbability));
}

#[test]
fn new_refuses_a_sum_that_is_not_one() {
    assert_eq!(Model::new(UNIT / 2, UNIT / 4, UNIT / 8, 3).err(), Some(ModelError::NotNormalized));
    assert_eq!(Model::new(UNIT, UNIT, 0, 3).err(), Some(ModelError::NotNormalized));
    assert_eq!(Model::new(i64::MAX, i64::MAX, i64::MAX, 3).err(), Some(ModelError::NotNormalized));
}

#[test]
fn new_allows_a_sum_within_the_tolerance_only() {
    assert_eq!(TOLERANCE, 2);
    assert!(Model::new(UNIT / 2 + 1, UNIT / 4, UNIT / 4, 3).is_ok());
    assert!(Model::new(UNIT / 2 - 1, UNIT / 4, UNIT / 4, 3).is_ok());
    assert_eq!(Model::new(UNIT / 2 + 2, UNIT / 4, UNIT / 4, 3).err(), Some(ModelError::NotNormalized));
    assert_eq!(Model::new(UNIT / 2 - 2, UNIT / 4, UNIT / 4, 3).err(), Some(ModelError::NotNormalized));
}

#[test]
fn new_refuses_arrival_that_is_not_above_deactivation() {
    assert_eq!(
        Model::new(UNIT / 4, UNIT / 2, UNIT / 4, 3).err(),
        Some(ModelError::ArrivalNotAboveDeactivation)
    );
    assert_eq!(
        Model::new(UNIT / 8, UNIT / 8, UNIT / 4 * 3, 3).err(),
        Some(ModelError::ArrivalNotAboveDeactivation)
    );
    assert_eq!(Model::new(0, UNIT, 0, 3).err(), Some(ModelError::ArrivalNotAboveDeactivation));
}

#[test]
fn new_refuses_an_empty_edge() {
    assert_eq!(Model::new(UNIT / 2, UNIT / 4, UNIT / 4, 0).err(), Some(ModelError::EmptyEdge));
}

#[test]
fn new_reports_the_first_broken_rule() {
    assert_eq!(Model::new(-1, 0, 0, 0).err(), Some(ModelError::NegativeProbability));
    assert_eq!(Model::new(0, 0, 0, 0).err(), Some(ModelError::NotNormalized));
    assert_eq!(Model::new(0, 0, UNIT, 0).err(), Some(ModelError::ArrivalNotAboveDeactivation));
}

#[test]
fn size_is_the_same_at_every_step() {
    let model = Model::new(UNIT / 2, UNIT / 4, UNIT / 4, 5).unwrap();
    assert_eq!(model.size(1), 5);
    assert_eq!(model.size(1000), 5);
    assert_eq!(model.size(u64::MAX), 5);
}

#[test]
fn event_cuts_the_unit_in_three() {
    let model = Model::new(UNIT / 2, UNIT / 4, UNIT / 4, 3).unwrap();
    assert_eq!(model.event(0), Event::VertexArrival);
    assert_eq!(model.event(UNIT / 2 - 1), Event::VertexArrival);
    assert_eq!(model.event(UNIT / 2), Event::EdgeArrival);
    assert_eq!(model.event(UNIT / 4 * 3 - 1), Event::EdgeArrival);
    assert_eq!(model.event(UNIT / 4 * 3), Event::VertexDeactivation);
    assert_eq!(model.event(UNIT - 1), Event::VertexDeactivation);
}

#[test]
fn event_without_deactivation() {
    let model = Model::new(UNIT / 2, UNIT / 2, 0, 3).unwrap();
    assert_eq!(model.event(UNIT - 1), Event::EdgeArrival);
}

#[test]
fn messages_name_the_rule() {
    assert_eq!(
        ModelError::NegativeProbability.message(),
        "Expected `pv`, `pe` and `pd` to be positive"
    );
    assert_eq!(ModelError::NotNormalized.message(), "Expected `pv`, `pe` and `pd` to sum up to 1");
    assert_eq!(ModelError::ArrivalNotAboveDeactivation.message(), "Expected `pv > pd` to hold");
    assert_eq!(ModelError::EmptyEdge.message(), "Expected `m` to be a positive integer");
}
