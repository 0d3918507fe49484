//! Target equations: where the next disputed remote block is sampled.

use vstd::prelude::*;
use crate::error::{Error, ErrorView};

verus! {

/// The midpoint of `a` and `b`, rounded down.
pub open spec fn midpoint(a: nat, b: nat) -> nat {
    (a + b) / 2
}

/// A rule that picks the next block to submit from two known blocks.
pub trait Equation {
    /// The block that the rule picks.
    spec fn target(&self, relayed_header: nat, submit_header: nat) -> nat;

    /// Picks the next block.
    fn calculate(&self, relayed_header: usize, submit_header: usize) -> (target: usize)
        ensures
            target as nat == self.target(relayed_header as nat, submit_header as nat),
    ;
}

/// A set of parameters that can be checked before a run.
pub trait ConfigValidate {
    /// Why the parameters are refused, if they are.
    spec fn rejection(&self) -> Option<&'static str>;

    /// Accepts the parameters or says what is wrong with them.
    fn validate(&self) -> (r: Result<(), Error>)
        ensures
            match self.rejection() {
                Some(m) => r is Err && r->Err_0@ == ErrorView::ParameterError(m@),
                None => r is Ok,
            },
    ;
}

/// The bisection rule. It has no parameters.
#[derive(Clone, Copy, Debug, Default, PartialEq, Eq, Structural)]
pub struct HalfConfig {}

impl Equation for HalfConfig {
    open spec fn target(&self, relayed_header: nat, submit_header: nat) -> nat {
        midpoint(relayed_header, submit_header)
    }

    /// The block halfway between the two given blocks. The sum of the two is
    /// never formed, so the largest heights are handled too.
    fn calculate(&self, relayed_header: usize, submit_header: usize) -> (target: usize) {
        let low: usize = relayed_header / 2;
        let high: usize = submit_header / 2;
        let carry: usize = (relayed_header % 2 + submit_header % 2) / 2;
        low + high + carry
    }
}

impl ConfigValidate for HalfConfig {
    open spec fn rejection(&self) -> Option<&'static str> {
        None
    }

    fn validate(&self) -> (r: Result<(), Error>) {
        Ok(())
    }
}

/// The bisection rule is symmetric, returns a block between its two
/// arguments, and of a block and itself returns that block.
pub proof fn lemma_half_properties(a: nat, b: nat)
    ensures
        midpoint(a, b) == midpoint(b, a),
        a <= b ==> a <= midpoint(a, b) <= b,
        midpoint(a, a) == a,
{
}

} // verus!
