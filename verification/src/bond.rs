//! Bond equations: what a participant deposits with a submission.

use vstd::prelude::*;
pub use crate::challenge::ConfigValidate;
use crate::decimal::{parse_spec, saturate, saturated, Decimal};
use crate::error::Error;
use crate::text::str_eq;

verus! {

/// A rule that gives the bond of a round.
pub trait Equation {
    /// The bond of the round, in millionths.
    spec fn bond(&self, submit_times: nat) -> int;

    /// The bond of the round.
    fn calculate(&self, submit_times: usize) -> (bond: Decimal)
        ensures
            bond@ == self.bond(submit_times as nat),
    ;
}

impl Equation for Decimal {
    open spec fn bond(&self, submit_times: nat) -> int {
        self@
    }

    fn calculate(&self, submit_times: usize) -> (bond: Decimal) {
        *self
    }
}

/// The parameters of the linear bond `min(W * B, M) + C`.
#[allow(non_snake_case)]
#[derive(Clone, Copy, Debug, Default, PartialEq, Eq, Structural)]
pub struct LinearConfig {
    /// The weight of the round.
    pub W: Decimal,
    /// The constant part.
    pub C: Decimal,
    /// The most that the rounds can add.
    pub M: Decimal,
}

impl Equation for LinearConfig {
    open spec fn bond(&self, submit_times: nat) -> int {
        let grown = self.W@ * submit_times;
        if grown > self.M@ {
            saturate(self.M@ + self.C@)
        } else {
            saturate(grown + self.C@)
        }
    }

    fn calculate(&self, submit_times: usize) -> (bond: Decimal) {
        let grown: i128 = self.W.wide_times(submit_times);
        if grown > self.M.raw as i128 {
            self.M.plus(self.C)
        } else {
            saturated(grown + self.C.raw as i128)
        }
    }
}

impl ConfigValidate for LinearConfig {
    open spec fn rejection(&self) -> Option<&'static str> {
        if self.W@ < 0 {
            Some("W should not be negative")
        } else {
            None
        }
    }

    open spec fn known_key(k: Seq<char>) -> bool {
        k == "C"@ || k == "W"@ || k == "M"@
    }

    open spec fn patched(&self, k: Seq<char>, v: Seq<char>) -> Option<Self> {
        match parse_spec(v) {
            Some(raw) => if k == "C"@ {
                Some(LinearConfig { C: Decimal { raw: raw as i64 }, ..*self })
            } else if k == "W"@ {
                Some(LinearConfig { W: Decimal { raw: raw as i64 }, ..*self })
            } else if k == "M"@ {
                Some(LinearConfig { M: Decimal { raw: raw as i64 }, ..*self })
            } else {
                None
            },
            None => None,
        }
    }

    fn validate(&self) -> (r: Result<(), Error>) {
        if self.W.raw < 0 {
            return Err(Error::ParameterError("W should not be negative"));
        }
        Ok(())
    }

    fn apply_patch(&mut self, k: &str, v: &str) -> (r: Result<(), Error>) {
        let is_c: bool = str_eq(k, "C");
        let is_w: bool = str_eq(k, "W");
        let is_m: bool = str_eq(k, "M");
        if !is_c && !is_w && !is_m {
            return Err(Error::unknown_parameter());
        }
        match Decimal::parse(v) {
            None => Err(Error::not_a_number()),
            Some(d) => {
                if is_c {
                    self.C = d;
                } else if is_w {
                    self.W = d;
                } else {
                    self.M = d;
                }
                Ok(())
            },
        }
    }
}

/// The bond rule that a scenario selects.
#[derive(Clone, Copy, Debug, PartialEq, Eq, Structural)]
pub enum BondEquation {
    /// The same bond in every round.
    Constant(Decimal),
    /// A bond that grows with the round.
    Linear(LinearConfig),
}

impl Equation for BondEquation {
    open spec fn bond(&self, submit_times: nat) -> int {
        match self {
            BondEquation::Constant(c) => c.bond(submit_times),
            BondEquation::Linear(l) => l.bond(submit_times),
        }
    }

    fn calculate(&self, submit_times: usize) -> (bond: Decimal) {
        match self {
            BondEquation::Constant(c) => c.calculate(submit_times),
            BondEquation::Linear(l) => l.calculate(submit_times),
        }
    }
}

/// With a weight that is not negative, the linear bond does not shrink from
/// one round to a later one, never exceeds `M + C`, and is `M + C` from the
/// round on in which the weighted round exceeds `M`.
pub proof fn lemma_linear_bond_monotone(config: LinearConfig, early: nat, late: nat)
    requires
        config.rejection() is None,
        early <= late,
    ensures
        config.bond(early) <= config.bond(late),
        config.W@ * early > config.M@ ==> config.bond(early) == saturate(config.M@ + config.C@)
            && config.bond(late) == config.bond(early),
        config.bond(early) <= saturate(config.M@ + config.C@),
{
    assert(config.W@ * early <= config.W@ * late) by (nonlinear_arith)
        requires
            config.W@ >= 0,
            early <= late,
    ;
}

} // verus!
