//! Reward equations: how the bonds that liars lose are paid to the honest.

use vstd::prelude::*;
use crate::chain::{Reward, RewardFrom, RewardView};
pub use crate::challenge::ConfigValidate;
use crate::decimal::{parse_spec, saturate, Decimal, SCALE};
use crate::error::Error;
use crate::text::str_eq;

verus! {

/// One share of `amount` divided among `count`, rounded down; zero where
/// nobody shares.
pub open spec fn share(amount: int, count: nat) -> int {
    if count == 0 {
        0
    } else {
        amount / (count as int)
    }
}

/// One reward of `value` out of `from` for each of `names`, in their order.
pub open spec fn paid_to(from: RewardFrom, value: int, names: Seq<Seq<char>>) -> Seq<
    RewardView,
> {
    Seq::new(names.len(), |i: int| RewardView { from, to: names[i], value })
}

/// A rule that turns the slash of a round into rewards.
pub trait Equation {
    /// The part of the slash that is kept for the next round.
    spec fn carry(&self, previous_slash: int, current_slash: int) -> int;

    /// Where the rewards of the round come from.
    spec fn source(&self, current_slash: int) -> RewardFrom;

    /// What each honest relayer is paid, the bond included.
    spec fn value(
        &self,
        previous_slash: int,
        current_slash: int,
        current_bond: int,
        honest: nat,
    ) -> int;

    /// The slash kept for the next round, and one reward for each honest
    /// relayer.
    fn calculate(
        &self,
        previous_slash: Decimal,
        current_slash: Decimal,
        current_bond: Decimal,
        honest_relayers: Vec<String>,
    ) -> (r: (Decimal, Vec<Reward>))
        ensures
            r.0@ == self.carry(previous_slash@, current_slash@),
            r.1.deep_view() == paid_to(
                self.source(current_slash@),
                self.value(
                    previous_slash@,
                    current_slash@,
                    current_bond@,
                    honest_relayers@.len(),
                ),
                honest_relayers.deep_view(),
            ),
    ;
}

/// Pays `value` out of `from` to each of `names`.
fn pay_each(from: RewardFrom, value: Decimal, names: Vec<String>) -> (rewards: Vec<Reward>)
    ensures
        rewards.deep_view() == paid_to(from, value@, names.deep_view()),
{
    let mut rewards: Vec<Reward> = Vec::new();
    let mut i: usize = 0;
    while i < names.len()
        invariant
            i <= names@.len(),
            rewards@.len() == i,
            forall|k: int|
                0 <= k < i ==> (#[trigger] rewards@[k])@ == (RewardView {
                    from,
                    to: names@[k]@,
                    value: value@,
                }),
        decreases names@.len() - i,
    {
        rewards.push(Reward { from, to: names[i].clone(), value });
        i += 1;
    }
    assert(rewards.deep_view() =~= paid_to(from, value@, names.deep_view()));
    rewards
}

/// The share of one among `count`, computed; zero where nobody shares.
fn share_of(amount: Decimal, count: usize) -> (part: Decimal)
    ensures
        part@ == share(amount@, count as nat),
{
    if count == 0 {
        Decimal::zero()
    } else {
        amount.shared(count)
    }
}

/// The parameter of the split rule: of the slash of a round the part `P` is
/// paid out in that round, and the rest in the next.
#[allow(non_snake_case)]
#[derive(Clone, Copy, Debug, Default, PartialEq, Eq, Structural)]
pub struct SplitConfig {
    /// The part paid in the round of the slash.
    pub P: Decimal,
}

impl SplitConfig {
    /// The slash that the round pays out: what was kept from the round
    /// before, and the slash of this round less what is kept of it.
    pub open spec fn consumed(&self, previous_slash: int, current_slash: int) -> int {
        saturate(saturate(previous_slash + current_slash) - self.carry(
            previous_slash,
            current_slash,
        ))
    }
}

impl Equation for SplitConfig {
    open spec fn carry(&self, previous_slash: int, current_slash: int) -> int {
        saturate((saturate(SCALE - self.P@) * current_slash) / (SCALE as int))
    }

    open spec fn source(&self, current_slash: int) -> RewardFrom {
        RewardFrom::Slash
    }

    open spec fn value(
        &self,
        previous_slash: int,
        current_slash: int,
        current_bond: int,
        honest: nat,
    ) -> int {
        saturate(share(self.consumed(previous_slash, current_slash), honest) + current_bond)
    }

    fn calculate(
        &self,
        previous_slash: Decimal,
        current_slash: Decimal,
        current_bond: Decimal,
        honest_relayers: Vec<String>,
    ) -> (r: (Decimal, Vec<Reward>)) {
        let kept: Decimal = Decimal::from_raw(SCALE).minus(self.P).scaled(current_slash);
        let consumed: Decimal = previous_slash.plus(current_slash).minus(kept);
        let each: Decimal = share_of(consumed, honest_relayers.len()).plus(current_bond);
        (kept, pay_each(RewardFrom::Slash, each, honest_relayers))
    }
}

impl ConfigValidate for SplitConfig {
    open spec fn rejection(&self) -> Option<&'static str> {
        if self.P@ > SCALE {
            Some("P should not be greater than 1")
        } else {
            None
        }
    }

    open spec fn known_key(k: Seq<char>) -> bool {
        k == "P"@
    }

    open spec fn patched(&self, k: Seq<char>, v: Seq<char>) -> Option<Self> {
        match parse_spec(v) {
            Some(raw) => if k == "P"@ {
                Some(SplitConfig { P: Decimal { raw: raw as i64 } })
            } else {
                None
            },
            None => None,
        }
    }

    fn validate(&self) -> (r: Result<(), Error>) {
        if self.P.raw > SCALE {
            return Err(Error::ParameterError("P should not be greater than 1"));
        }
        Ok(())
    }

    fn apply_patch(&mut self, k: &str, v: &str) -> (r: Result<(), Error>) {
        if !str_eq(k, "P") {
            return Err(Error::unknown_parameter());
        }
        match Decimal::parse(v) {
            None => Err(Error::not_a_number()),
            Some(d) => {
                self.P = d;
                Ok(())
            },
        }
    }
}

/// The parameter of the rule that pays the slash of a round in that round and
/// lets the treasury pay the rounds without a slash.
#[allow(non_snake_case)]
#[derive(Clone, Copy, Debug, Default, PartialEq, Eq, Structural)]
pub struct TreasureLastConfig {
    /// What the treasury pays, in all, in a round without a slash.
    pub C: Decimal,
}

impl Equation for TreasureLastConfig {
    open spec fn carry(&self, previous_slash: int, current_slash: int) -> int {
        0
    }

    open spec fn source(&self, current_slash: int) -> RewardFrom {
        if current_slash == 0 {
            RewardFrom::Treasure
        } else {
            RewardFrom::Slash
        }
    }

    open spec fn value(
        &self,
        previous_slash: int,
        current_slash: int,
        current_bond: int,
        honest: nat,
    ) -> int {
        let pot = if current_slash == 0 {
            self.C@
        } else {
            current_slash
        };
        saturate(share(pot, honest) + current_bond)
    }

    fn calculate(
        &self,
        previous_slash: Decimal,
        current_slash: Decimal,
        current_bond: Decimal,
        honest_relayers: Vec<String>,
    ) -> (r: (Decimal, Vec<Reward>)) {
        let rewards: Vec<Reward> = if current_slash.raw == 0 {
            let each: Decimal = share_of(self.C, honest_relayers.len()).plus(current_bond);
            pay_each(RewardFrom::Treasure, each, honest_relayers)
        } else {
            let each: Decimal = share_of(current_slash, honest_relayers.len()).plus(
                current_bond,
            );
            pay_each(RewardFrom::Slash, each, honest_relayers)
        };
        (Decimal::zero(), rewards)
    }
}

impl ConfigValidate for TreasureLastConfig {
    open spec fn rejection(&self) -> Option<&'static str> {
        if self.C@ < 0 {
            Some("C should be greater than 0")
        } else {
            None
        }
    }

    open spec fn known_key(k: Seq<char>) -> bool {
        k == "C"@
    }

    open spec fn patched(&self, k: Seq<char>, v: Seq<char>) -> Option<Self> {
        match parse_spec(v) {
            Some(raw) => if k == "C"@ {
                Some(TreasureLastConfig { C: Decimal { raw: raw as i64 } })
            } else {
                None
            },
            None => None,
        }
    }

    fn validate(&self) -> (r: Result<(), Error>) {
        if self.C.raw < 0 {
            return Err(Error::ParameterError("C should be greater than 0"));
        }
        Ok(())
    }

    fn apply_patch(&mut self, k: &str, v: &str) -> (r: Result<(), Error>) {
        if !str_eq(k, "C") {
            return Err(Error::unknown_parameter());
        }
        match Decimal::parse(v) {
            None => Err(Error::not_a_number()),
            Some(d) => {
                self.C = d;
                Ok(())
            },
        }
    }
}

/// The reward rule that a scenario selects.
#[derive(Clone, Copy, Debug, PartialEq, Eq, Structural)]
pub enum RewardEquation {
    /// Part of a slash now, the rest in the next round.
    Split(SplitConfig),
    /// The slash now, the treasury where there is none.
    TreasuryLast(TreasureLastConfig),
}

impl Equation for RewardEquation {
    open spec fn carry(&self, previous_slash: int, current_slash: int) -> int {
        match self {
            RewardEquation::Split(s) => s.carry(previous_slash, current_slash),
            RewardEquation::TreasuryLast(t) => t.carry(previous_slash, current_slash),
        }
    }

    open spec fn source(&self, current_slash: int) -> RewardFrom {
        match self {
            RewardEquation::Split(s) => s.source(current_slash),
            RewardEquation::TreasuryLast(t) => t.source(current_slash),
        }
    }

    open spec fn value(
        &self,
        previous_slash: int,
        current_slash: int,
        current_bond: int,
        honest: nat,
    ) -> int {
        match self {
            RewardEquation::Split(s) => s.value(
                previous_slash,
                current_slash,
                current_bond,
                honest,
            ),
            RewardEquation::TreasuryLast(t) => t.value(
                previous_slash,
                current_slash,
                current_bond,
                honest,
            ),
        }
    }

    fn calculate(
        &self,
        previous_slash: Decimal,
        current_slash: Decimal,
        current_bond: Decimal,
        honest_relayers: Vec<String>,
    ) -> (r: (Decimal, Vec<Reward>)) {
        match self {
            RewardEquation::Split(s) => s.calculate(
                previous_slash,
                current_slash,
                current_bond,
                honest_relayers,
            ),
            RewardEquation::TreasuryLast(t) => t.calculate(
                previous_slash,
                current_slash,
                current_bond,
                honest_relayers,
            ),
        }
    }
}

/// Under the split rule a round without a slash keeps nothing for the next
/// round and takes nothing from the treasury: each honest relayer is paid out
/// of the slash pool, and is paid its bond and its share of what the round
/// before had kept. With nothing kept, that is the bond and no more.
pub proof fn lemma_split_without_slash(
    config: SplitConfig,
    previous_slash: int,
    current_bond: int,
    honest: nat,
)
    requires
        crate::decimal::in_range(previous_slash),
        crate::decimal::in_range(current_bond),
    ensures
        config.carry(previous_slash, 0) == 0,
        config.source(0) == RewardFrom::Slash,
        config.value(previous_slash, 0, current_bond, honest) == saturate(
            share(previous_slash, honest) + current_bond,
        ),
        config.value(0, 0, current_bond, honest) == current_bond,
        previous_slash >= 0 && crate::decimal::in_range(
            share(previous_slash, honest) + current_bond,
        ) ==> config.value(previous_slash, 0, current_bond, honest) >= current_bond,
{
    assert((saturate(SCALE - config.P@) * 0) / (SCALE as int) == 0);
    if honest > 0 {
        assert(0int / (honest as int) == 0);
        assert(previous_slash >= 0 ==> previous_slash / (honest as int) >= 0) by (nonlinear_arith)
            requires
                honest > 0,
        ;
    }
}

} // verus!
