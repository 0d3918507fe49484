//! Challenge equations: how many local blocks a submission waits before it
//! is final.

use vstd::prelude::*;
use crate::decimal::{floor_div, parse_spec, Decimal, SCALE};
use crate::error::{not_a_number, unknown_parameter, Error, ErrorView};
use crate::text::{parse_usize, parse_usize_spec, str_eq};

verus! {

/// A rule that gives the waiting time from the blocks elapsed on each chain.
pub trait Equation {
    /// The waiting time that the rule gives.
    spec fn wait(&self, darwinia_distance: nat, ethereum_distance: nat) -> nat;

    /// The waiting time in local blocks.
    fn calculate(&self, darwinia_distance: usize, ethereum_distance: usize) -> (blocks: usize)
        requires
            self.wait(darwinia_distance as nat, ethereum_distance as nat) <= usize::MAX,
        ensures
            blocks as nat == self.wait(darwinia_distance as nat, ethereum_distance as nat),
    ;
}

/// A set of parameters that can be checked and patched before a run.
pub trait ConfigValidate: Sized {
    /// Why the parameters are refused, if they are.
    spec fn rejection(&self) -> Option<&'static str>;

    /// Whether `k` names one of the parameters.
    spec fn known_key(k: Seq<char>) -> bool;

    /// The parameters with the one named `k` set to what `v` reads as, if `k`
    /// names one and `v` reads as a value for it.
    spec fn patched(&self, k: Seq<char>, v: Seq<char>) -> Option<Self>;

    /// Accepts the parameters or says what is wrong with them.
    fn validate(&self) -> (r: Result<(), Error>)
        ensures
            match self.rejection() {
                Some(m) => r is Err && r->Err_0@ == ErrorView::ParameterError(m@),
                None => r is Ok,
            },
    ;

    /// Sets the parameter named `k` to the value that `v` reads as. On an
    /// error nothing is changed.
    fn apply_patch(&mut self, k: &str, v: &str) -> (r: Result<(), Error>)
        ensures
            match r {
                Ok(_) => old(self).patched(k@, v@) == Some(*final(self)),
                Err(e) => {
                    &&& old(self).patched(k@, v@) is None
                    &&& *final(self) == *old(self)
                    &&& Self::known_key(k@) ==> e@ == not_a_number()
                    &&& !Self::known_key(k@) ==> e@ == unknown_parameter()
                },
            },
    ;
}

impl Equation for usize {
    open spec fn wait(&self, darwinia_distance: nat, ethereum_distance: nat) -> nat {
        *self as nat
    }

    fn calculate(&self, darwinia_distance: usize, ethereum_distance: usize) -> (blocks: usize) {
        *self
    }
}

/// The part of a waiting time that grows with one distance: the distance
/// times the weight, rounded down to whole blocks, at least zero and at most
/// `cap`.
pub open spec fn weighted(weight: int, distance: nat, cap: nat) -> nat {
    let grown = (weight * distance) / (SCALE as int);
    if grown <= 0 {
        0
    } else if grown >= cap {
        cap
    } else {
        grown as nat
    }
}

/// The parameters of the linear waiting time
/// `min(Wd * D, Md) + min(We * E, Me) + C`.
#[allow(non_snake_case)]
#[derive(Clone, Copy, Debug, Default, PartialEq, Eq, Structural)]
pub struct LinearConfig {
    /// The weight of the distance on the local chain.
    pub Wd: Decimal,
    /// The weight of the distance on the remote chain.
    pub We: Decimal,
    /// The constant part.
    pub C: usize,
    /// The most that the local distance can add.
    pub Md: usize,
    /// The most that the remote distance can add.
    pub Me: usize,
}

/// `weighted`, computed.
fn weighted_part(weight: Decimal, distance: usize, cap: usize) -> (part: usize)
    ensures
        part as nat == weighted(weight@, distance as nat, cap as nat),
{
    let grown: i128 = floor_div(weight.wide_times(distance), SCALE as i128);
    if grown <= 0 {
        0
    } else if grown >= cap as i128 {
        cap
    } else {
        grown as usize
    }
}

impl LinearConfig {
    /// The waiting time, or nothing if it does not fit the machine word.
    pub fn checked_calculate(&self, darwinia_distance: usize, ethereum_distance: usize) -> (r:
        Option<usize>)
        ensures
            r is Some <==> self.wait(darwinia_distance as nat, ethereum_distance as nat)
                <= usize::MAX,
            r is Some ==> r->0 as nat == self.wait(
                darwinia_distance as nat,
                ethereum_distance as nat,
            ),
    {
        let local: usize = weighted_part(self.Wd, darwinia_distance, self.Md);
        let remote: usize = weighted_part(self.We, ethereum_distance, self.Me);
        match local.checked_add(remote) {
            None => None,
            Some(both) => both.checked_add(self.C),
        }
    }
}

impl Equation for LinearConfig {
    open spec fn wait(&self, darwinia_distance: nat, ethereum_distance: nat) -> nat {
        weighted(self.Wd@, darwinia_distance, self.Md as nat) + weighted(
            self.We@,
            ethereum_distance,
            self.Me as nat,
        ) + self.C as nat
    }

    fn calculate(&self, darwinia_distance: usize, ethereum_distance: usize) -> (blocks: usize) {
        let local: usize = weighted_part(self.Wd, darwinia_distance, self.Md);
        let remote: usize = weighted_part(self.We, ethereum_distance, self.Me);
        local + remote + self.C
    }
}

impl ConfigValidate for LinearConfig {
    open spec fn rejection(&self) -> Option<&'static str> {
        if self.Wd@ < 0 {
            Some("Wd should not be negative")
        } else if self.We@ < 0 {
            Some("We should not be negative")
        } else {
            None
        }
    }

    open spec fn known_key(k: Seq<char>) -> bool {
        k == "Wd"@ || k == "We"@ || k == "Md"@ || k == "Me"@ || k == "C"@
    }

    open spec fn patched(&self, k: Seq<char>, v: Seq<char>) -> Option<Self> {
        if k == "Wd"@ {
            match parse_spec(v) {
                Some(raw) => Some(LinearConfig { Wd: Decimal { raw: raw as i64 }, ..*self }),
                None => None,
            }
        } else if k == "We"@ {
            match parse_spec(v) {
                Some(raw) => Some(LinearConfig { We: Decimal { raw: raw as i64 }, ..*self }),
                None => None,
            }
        } else if k == "Md"@ {
            match parse_usize_spec(v) {
                Some(n) => Some(LinearConfig { Md: n as usize, ..*self }),
                None => None,
            }
        } else if k == "Me"@ {
            match parse_usize_spec(v) {
                Some(n) => Some(LinearConfig { Me: n as usize, ..*self }),
                None => None,
            }
        } else if k == "C"@ {
            match parse_usize_spec(v) {
                Some(n) => Some(LinearConfig { C: n as usize, ..*self }),
                None => None,
            }
        } else {
            None
        }
    }

    fn validate(&self) -> (r: Result<(), Error>) {
        if self.Wd.raw < 0 {
            return Err(Error::ParameterError("Wd should not be negative"));
        }
        if self.We.raw < 0 {
            return Err(Error::ParameterError("We should not be negative"));
        }
        Ok(())
    }

    fn apply_patch(&mut self, k: &str, v: &str) -> (r: Result<(), Error>) {
        if str_eq(k, "Wd") {
            match Decimal::parse(v) {
                Some(d) => {
                    self.Wd = d;
                },
                None => {
                    return Err(Error::not_a_number());
                },
            }
        } else if str_eq(k, "We") {
            match Decimal::parse(v) {
                Some(d) => {
                    self.We = d;
                },
                None => {
                    return Err(Error::not_a_number());
                },
            }
        } else if str_eq(k, "Md") {
            match parse_usize(v) {
                Some(n) => {
                    self.Md = n;
                },
                None => {
                    return Err(Error::not_a_number());
                },
            }
        } else if str_eq(k, "Me") {
            match parse_usize(v) {
                Some(n) => {
                    self.Me = n;
                },
                None => {
                    return Err(Error::not_a_number());
                },
            }
        } else if str_eq(k, "C") {
            match parse_usize(v) {
                Some(n) => {
                    self.C = n;
                },
                None => {
                    return Err(Error::not_a_number());
                },
            }
        } else {
            return Err(Error::unknown_parameter());
        }
        Ok(())
    }
}

/// The waiting rule that a scenario selects.
#[derive(Clone, Copy, Debug, PartialEq, Eq, Structural)]
pub enum ChallengeEquation {
    /// The same waiting time after every submission.
    Constant(usize),
    /// A waiting time that grows with the distances.
    Linear(LinearConfig),
}

impl ChallengeEquation {
    /// The waiting time, or nothing if it does not fit the machine word.
    pub fn checked_calculate(&self, darwinia_distance: usize, ethereum_distance: usize) -> (r:
        Option<usize>)
        ensures
            r is Some <==> self.wait(darwinia_distance as nat, ethereum_distance as nat)
                <= usize::MAX,
            r is Some ==> r->0 as nat == self.wait(
                darwinia_distance as nat,
                ethereum_distance as nat,
            ),
    {
        match self {
            ChallengeEquation::Constant(c) => Some(*c),
            ChallengeEquation::Linear(l) => l.checked_calculate(
                darwinia_distance,
                ethereum_distance,
            ),
        }
    }
}

impl Equation for ChallengeEquation {
    open spec fn wait(&self, darwinia_distance: nat, ethereum_distance: nat) -> nat {
        match self {
            ChallengeEquation::Constant(c) => c.wait(darwinia_distance, ethereum_distance),
            ChallengeEquation::Linear(l) => l.wait(darwinia_distance, ethereum_distance),
        }
    }

    fn calculate(&self, darwinia_distance: usize, ethereum_distance: usize) -> (blocks: usize) {
        match self {
            ChallengeEquation::Constant(c) => c.calculate(darwinia_distance, ethereum_distance),
            ChallengeEquation::Linear(l) => l.calculate(darwinia_distance, ethereum_distance),
        }
    }
}

/// The growing part of a waiting time never exceeds its cap, equals the cap
/// once the weighted distance has reached it, and, for a weight that is not
/// negative, does not shrink when the distance grows.
pub proof fn lemma_weighted_monotone(weight: int, near: nat, far: nat, cap: nat)
    requires
        near <= far,
    ensures
        weighted(weight, near, cap) <= cap,
        (weight * near) / (SCALE as int) >= cap ==> weighted(weight, near, cap) == cap,
        weight >= 0 ==> weighted(weight, near, cap) <= weighted(weight, far, cap),
{
    if weight >= 0 {
        assert(weight * near <= weight * far) by (nonlinear_arith)
            requires
                weight >= 0,
                near <= far,
        ;
        assert((weight * near) / 1_000_000 <= (weight * far) / 1_000_000) by (nonlinear_arith)
            requires
                weight * near <= weight * far,
        ;
    }
}

/// With weights that are not negative, the linear waiting time does not
/// shrink when the local distance grows, nor when the remote distance does,
/// and it never exceeds `Md + Me + C`.
pub proof fn lemma_linear_wait_monotone(
    config: LinearConfig,
    near: nat,
    far: nat,
    other: nat,
)
    requires
        config.rejection() is None,
        near <= far,
    ensures
        config.wait(near, other) <= config.wait(far, other),
        config.wait(other, near) <= config.wait(other, far),
        config.wait(near, other) <= config.Md + config.Me + config.C,
{
    lemma_weighted_monotone(config.Wd@, near, far, config.Md as nat);
    lemma_weighted_monotone(config.We@, near, far, config.Me as nat);
    lemma_weighted_monotone(config.We@, other, other, config.Me as nat);
}

} // verus!
