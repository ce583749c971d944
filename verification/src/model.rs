//! The parameters of the growth process, in fixed point.
//!
//! A probability is a whole number of parts out of `UNIT`, the number of
//! equally likely values of one draw of chance. A step draws its chance from
//! `0 .. UNIT` and compares it with the parameters, so an event with
//! probability `p` is chosen by exactly `p` of the `UNIT` values.

use vstd::prelude::*;

verus! {

/// The number of parts that make up probability one: two to the power 53.
pub const UNIT: i64 = 9007199254740992;

/// How far the three probabilities may miss `UNIT` in sum, exclusive.
pub const TOLERANCE: i64 = 2;

/// The three kinds of event of a step.
#[derive(Clone, Copy, Debug, PartialEq, Eq, Structural)]
pub enum Event {
    /// A vertex arrives, with a hyperedge that holds it.
    VertexArrival,
    /// A hyperedge arrives among the vertices that are there.
    EdgeArrival,
    /// A vertex is deactivated.
    VertexDeactivation,
}

/// Why a set of parameters is not a model.
#[derive(Clone, Copy, Debug, PartialEq, Eq, Structural)]
pub enum ModelError {
    /// One of the probabilities is negative.
    NegativeProbability,
    /// The probabilities do not sum to one.
    NotNormalized,
    /// A vertex is not more likely to arrive than to be deactivated.
    ArrivalNotAboveDeactivation,
    /// Hyperedges would have no vertex.
    EmptyEdge,
}

impl ModelError {
    /// The sentence that describes the error.
    pub open spec fn spec_message(&self) -> Seq<char> {
        match *self {
            ModelError::NegativeProbability => "Expected `pv`, `pe` and `pd` to be positive"@,
            ModelError::NotNormalized => "Expected `pv`, `pe` and `pd` to sum up to 1"@,
            ModelError::ArrivalNotAboveDeactivation => "Expected `pv > pd` to hold"@,
            ModelError::EmptyEdge => "Expected `m` to be a positive integer"@,
        }
    }

    /// A sentence that describes the error.
    pub fn message(&self) -> (text: &'static str)
        ensures
            text@ == self.spec_message(),
    {
        match self {
            ModelError::NegativeProbability => "Expected `pv`, `pe` and `pd` to be positive",
            ModelError::NotNormalized => "Expected `pv`, `pe` and `pd` to sum up to 1",
            ModelError::ArrivalNotAboveDeactivation => "Expected `pv > pd` to hold",
            ModelError::EmptyEdge => "Expected `m` to be a positive integer",
        }
    }
}

/// The random preferential attachment hypergraph model with vertex
/// deactivation. At each step,
/// - with probability `pv`, a vertex arrives with a preferentially selected
///   hyperedge of size `m`,
/// - with probability `pe`, a preferentially selected hyperedge of size `m`
///   arrives,
/// - with probability `pd`, a preferentially selected vertex is deactivated.
///
/// Preferential selection picks a vertex with probability proportional to its
/// degree, among the vertices that are still active.
#[derive(Clone, Copy, Debug)]
pub struct Model {
    /// Probability of the vertex arrival event, in parts of `UNIT`.
    pub pv: i64,
    /// Probability of the edge arrival event, in parts of `UNIT`.
    pub pe: i64,
    /// Probability of the vertex deactivation event, in parts of `UNIT`.
    pub pd: i64,
    /// Size of hyperedges.
    pub m: usize,
}

/// The parameters form a model: no probability is negative, the three sum
/// to `UNIT` within the tolerance, arrival is more likely than deactivation,
/// and hyperedges have at least one vertex.
pub open spec fn valid(pv: int, pe: int, pd: int, m: int) -> bool {
    &&& pv >= 0 && pe >= 0 && pd >= 0
    &&& -TOLERANCE < pv + pe + pd - UNIT < TOLERANCE
    &&& pv > pd
    &&& m >= 1
}

/// The first rule that the parameters break, in the order in which the rules
/// are checked; `None` where they break none.
pub open spec fn violation(pv: int, pe: int, pd: int, m: int) -> Option<ModelError> {
    if pv < 0 || pe < 0 || pd < 0 {
        Some(ModelError::NegativeProbability)
    } else if !(-TOLERANCE < pv + pe + pd - UNIT < TOLERANCE) {
        Some(ModelError::NotNormalized)
    } else if pv <= pd {
        Some(ModelError::ArrivalNotAboveDeactivation)
    } else if m < 1 {
        Some(ModelError::EmptyEdge)
    } else {
        None
    }
}

/// The event that the chance `chance` selects: `0 .. UNIT` is cut into
/// `0 .. pv`, `pv .. pv + pe` and the rest.
pub open spec fn event_of(pv: int, pe: int, chance: int) -> Event {
    if chance < pv {
        Event::VertexArrival
    } else if chance < pv + pe {
        Event::EdgeArrival
    } else {
        Event::VertexDeactivation
    }
}

impl Model {
    /// The parameters of this model are valid.
    pub open spec fn wf(&self) -> bool {
        valid(self.pv as int, self.pe as int, self.pd as int, self.m as int)
    }

    /// Creates a model with the specified parameters, or says which rule
    /// they break.
    pub fn new(pv: i64, pe: i64, pd: i64, m: usize) -> (res: Result<Model, ModelError>)
        ensures
            res is Ok <==> valid(pv as int, pe as int, pd as int, m as int),
            res matches Ok(model) ==> model == (Model { pv, pe, pd, m }) && model.wf(),
            res matches Err(e) ==> violation(pv as int, pe as int, pd as int, m as int) == Some(e),
    {
        if pv < 0 || pe < 0 || pd < 0 {
            return Err(ModelError::NegativeProbability);
        }
        let sum: i128 = pv as i128 + pe as i128 + pd as i128;
        if sum - (UNIT as i128) <= -(TOLERANCE as i128) || sum - (UNIT as i128) >= TOLERANCE as i128 {
            return Err(ModelError::NotNormalized);
        }
        if pv <= pd {
            return Err(ModelError::ArrivalNotAboveDeactivation);
        }
        if m < 1 {
            return Err(ModelError::EmptyEdge);
        }
        Ok(Model { pv, pe, pd, m })
    }

    /// The size of a hyperedge at step `t`.
    pub fn size(&self, t: u64) -> (m: usize)
        ensures
            m == self.m,
    {
        self.m
    }

    /// The event that the chance `chance` selects.
    pub fn event(&self, chance: i64) -> (event: Event)
        requires
            self.wf(),
        ensures
            event == event_of(self.pv as int, self.pe as int, chance as int),
    {
        if chance < self.pv {
            Event::VertexArrival
        } else if chance < self.pv + self.pe {
            Event::EdgeArrival
        } else {
            Event::VertexDeactivation
        }
    }
}

/// A set of parameters is valid if and only if it breaks no rule, and a set
/// that breaks exactly one rule is refused with the error of that rule.
pub proof fn lemma_violation_names_the_rule(pv: int, pe: int, pd: int, m: int)
    ensures
        valid(pv, pe, pd, m) <==> violation(pv, pe, pd, m) is None,
        (pv < 0 || pe < 0 || pd < 0) ==> violation(pv, pe, pd, m) == Some(
            ModelError::NegativeProbability,
        ),
        pv >= 0 && pe >= 0 && pd >= 0 && !(-TOLERANCE < pv + pe + pd - UNIT < TOLERANCE) && pv > pd
            && m >= 1 ==> violation(pv, pe, pd, m) == Some(ModelError::NotNormalized),
        pv >= 0 && pe >= 0 && pd >= 0 && -TOLERANCE < pv + pe + pd - UNIT < TOLERANCE && pv <= pd
            && m >= 1 ==> violation(pv, pe, pd, m) == Some(ModelError::ArrivalNotAboveDeactivation),
        pv >= 0 && pe >= 0 && pd >= 0 && -TOLERANCE < pv + pe + pd - UNIT < TOLERANCE && pv > pd
            && m < 1 ==> violation(pv, pe, pd, m) == Some(ModelError::EmptyEdge),
{
}

} // verus!
