//! Running a simulation again when it is exhausted, up to a bound.

use vstd::prelude::*;
use rand_pcg::Pcg64Mcg;
use crate::fenwick::MAX_WEIGHT;
use crate::model::{Model, UNIT};
use crate::failure::Failure;
use crate::simulation::{exhausted_at, Simulation};

verus! {

/// What follows an attempt.
pub enum Verdict {
    /// The attempt succeeded: its simulation is the result.
    Done(Simulation),
    /// The attempt failed and another one is due.
    Again,
    /// The attempt failed and was the last one.
    GiveUp(Failure),
}

/// The three ways in which the driver takes an outcome.
pub enum Turn {
    /// The run ends with a success.
    Done,
    /// Another attempt is due.
    Again,
    /// The run ends with a failure.
    GiveUp,
}

impl Verdict {
    /// The way in which the driver took the outcome.
    pub open spec fn turn(&self) -> Turn {
        match *self {
            Verdict::Done(_) => Turn::Done,
            Verdict::Again => Turn::Again,
            Verdict::GiveUp(_) => Turn::GiveUp,
        }
    }
}

/// Counts the failed attempts of a run that may be retried `retries` times
/// after its first attempt.
pub struct RetryDriver {
    retries: u32,
    failed: u32,
}

/// How the driver takes the outcome of an attempt when `failed` attempts
/// have failed before it, and the number of failures that it counts
/// afterwards. A success ends the run. A failure is followed by another
/// attempt while fewer than `retries` attempts have failed before it, and
/// ends the run otherwise.
pub open spec fn turn_of(failed: nat, retries: nat, success: bool) -> (Turn, nat) {
    if success {
        (Turn::Done, failed)
    } else if failed < retries {
        (Turn::Again, failed + 1)
    } else {
        (Turn::GiveUp, failed)
    }
}

/// What the driver makes of an engine that fails its first `failures`
/// attempts and succeeds from then on, when `failed` attempts have been made
/// and have failed already: whether the run ends with a success, and the
/// number of attempts made.
pub open spec fn outcome_of(failed: nat, failures: nat, retries: nat) -> (bool, nat)
    decreases retries - failed,
{
    match turn_of(failed, retries, failed >= failures) {
        (Turn::Done, _) => (true, failed + 1),
        (Turn::Again, counted) => outcome_of(counted, failures, retries),
        (Turn::GiveUp, _) => (false, failed + 1),
    }
}

impl RetryDriver {
    /// The number of retries allowed.
    pub closed spec fn retries(&self) -> nat {
        self.retries as nat
    }

    /// The number of attempts that have failed and were followed by another.
    pub closed spec fn failed(&self) -> nat {
        self.failed as nat
    }

    /// No more attempts have been followed by another than there are
    /// retries.
    pub open spec fn wf(&self) -> bool {
        self.failed() <= self.retries()
    }

    /// A driver before the first attempt.
    pub fn new(retries: u32) -> (driver: Self)
        ensures
            driver.wf(),
            driver.retries() == retries,
            driver.failed() == 0,
    {
        RetryDriver { retries, failed: 0 }
    }

    /// Takes the outcome of an attempt and says what follows, as `turn_of`
    /// has it. A success ends the run with its simulation. A failure that
    /// ends the run does so with the number of attempts made, the first
    /// and the retries.
    pub fn settle(&mut self, outcome: Result<Simulation, Failure>) -> (verdict: Verdict)
        requires
            old(self).wf(),
        ensures
            final(self).wf(),
            final(self).retries() == old(self).retries(),
            (verdict.turn(), final(self).failed()) == turn_of(
                old(self).failed(),
                old(self).retries(),
                outcome is Ok,
            ),
            outcome matches Ok(simulation) ==> verdict == Verdict::Done(simulation),
            verdict matches Verdict::GiveUp(failure) ==> failure == (Failure::RetriesExhausted {
                attempts: (old(self).retries() + 1) as u64,
            }),
    {
        match outcome {
            Ok(simulation) => Verdict::Done(simulation),
            Err(_) => {
                if self.failed < self.retries {
                    self.failed = self.failed + 1;
                    Verdict::Again
                } else {
                    Verdict::GiveUp(Failure::RetriesExhausted { attempts: self.retries as u64 + 1 })
                }
            },
        }
    }
}

/// The retry contract: on an engine that fails its first `failures`
/// attempts and then succeeds, the driver ends with the success of attempt
/// `failures + 1` if that attempt is the first one or one of the `retries`
/// that follow it, and gives up after `retries + 1` attempts otherwise. It
/// never makes more than `retries + 1` attempts.
pub proof fn lemma_retry_contract(failures: nat, retries: nat)
    ensures
        failures <= retries ==> outcome_of(0, failures, retries) == (true, failures + 1),
        failures > retries ==> outcome_of(0, failures, retries) == (false, retries + 1),
        outcome_of(0, failures, retries).1 <= retries + 1,
{
    lemma_outcome_from(0, failures, retries);
}

/// The outcome of the attempts that remain after `failed` failures.
pub proof fn lemma_outcome_from(failed: nat, failures: nat, retries: nat)
    requires
        failed <= failures,
        failed <= retries,
    ensures
        failures <= retries ==> outcome_of(failed, failures, retries) == (true, failures + 1),
        failures > retries ==> outcome_of(failed, failures, retries) == (false, retries + 1),
    decreases retries - failed,
{
    if failed < failures && failed < retries {
        lemma_outcome_from(failed + 1, failures, retries);
    }
}

impl Model {
    /// Generates a hypergraph according to the model, running the
    /// simulation and, while it is exhausted, running it again from the
    /// initial hypergraph with the same generator, `retries` times at most.
    ///
    /// Returns the first simulation that succeeds. Where none does, the
    /// failure holds the number of attempts, `retries + 1`, the last of
    /// which was exhausted as the others were.
    pub fn generate(&self, steps: u64, retries: u32, random: &mut Pcg64Mcg) -> (res: Result<
        Simulation,
        Failure,
    >)
        requires
            self.wf(),
            steps * self.m + 1 <= MAX_WEIGHT,
        ensures
            res matches Ok(simulation) ==> simulation.produced_by(*self, steps),
            res matches Err(failure) ==> failure == (Failure::RetriesExhausted {
                attempts: (retries + 1) as u64,
            }) && exists|step: u64| exhausted_at(*self, steps, step),
            steps <= 1 || self.pv + self.pe >= UNIT ==> res is Ok,
            steps == 0 ==> *final(random) == *old(random),
    {
        let mut driver = RetryDriver::new(retries);
        loop
            invariant
                self.wf(),
                steps * self.m + 1 <= MAX_WEIGHT,
                driver.wf(),
                driver.retries() == retries,
                steps == 0 ==> *random == *old(random),
            decreases retries - driver.failed(),
        {
            let outcome = Simulation::run(self, steps, random);
            proof {
                if let Err(Failure::Exhausted { step }) = outcome {
                    assert(exhausted_at(*self, steps, step));
                }
            }
            match driver.settle(outcome) {
                Verdict::Done(simulation) => {
                    return Ok(simulation);
                },
                Verdict::GiveUp(failure) => {
                    return Err(failure);
                },
                Verdict::Again => {},
            }
        }
    }
}

} // verus!
