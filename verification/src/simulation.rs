//! The driver of a run: round by round it asks the equations, books the
//! round in the ledger and collects the rewards, which are paid at the end.

use vstd::prelude::*;
use crate::bond::{BondEquation, Equation as BondRule};
use crate::chain::{
    keys_of, lemma_update_keeps_keys, position_of, ChainView, ChainsStatus, EntryView, Reward,
    RewardFrom, RewardView,
};
use crate::challenge::{ChallengeEquation, Equation as ChallengeRule};
use crate::decimal::{saturate, Decimal};
use crate::error::{Error, ErrorView};
use crate::reward::{paid_to, Equation as RewardRule, RewardEquation};
use crate::chain::{
    challengers_of, has_key, initial_chain, lemma_challenge_keeps_balance,
    lemma_enrolled_has_keys, lemma_has_key, lemma_initial_chain_balances,
    lemma_submit_all_keeps_keys, lemma_submit_keeps_balance,
};
use crate::scenario::{responds, round_actions, RelayerView};
use crate::scenario::{
    all_named, has_round, lemma_loaded_is_valid, reserved_flags, IteratorView, RelayPositions,
    ScenarioConfig, ScenarioConfigIntoIterator, ScenarioView,
};
use crate::target::{midpoint, Equation as TargetRule, HalfConfig};

verus! {

/// How many of `actions` are lies.
pub open spec fn lies(actions: Seq<(Seq<char>, bool)>) -> nat
    decreases actions.len(),
{
    if actions.len() == 0 {
        0
    } else if actions.last().1 {
        lies(actions.drop_last()) + 1
    } else {
        lies(actions.drop_last())
    }
}

/// The names of those of `actions` that are no lies, in their order.
pub open spec fn honest(actions: Seq<(Seq<char>, bool)>) -> Seq<Seq<char>>
    decreases actions.len(),
{
    if actions.len() == 0 {
        Seq::empty()
    } else if actions.last().1 {
        honest(actions.drop_last())
    } else {
        honest(actions.drop_last()).push(actions.last().0)
    }
}

/// The local height and the remote block of the last round, or zeros before
/// the first.
pub open spec fn last_relayed(chain: ChainView) -> (nat, nat) {
    if chain.submitions.len() > 0 {
        chain.submitions.last()
    } else {
        (0, 0)
    }
}

/// How far apart `a` and `b` are.
pub open spec fn distance(a: nat, b: nat) -> nat {
    if a > b {
        (a - b) as nat
    } else {
        (b - a) as nat
    }
}

/// The block that a further challenger of the same submission is answered
/// with: with no lie in the round, the target mirrored at itself away from
/// the midpoint of target and last block; with a lie, that midpoint.
pub open spec fn alternate_target(chain: ChainView, total_lie: nat) -> int {
    let middle = midpoint(chain.submit_target_ethereum_block, last_relayed(chain).1);
    if total_lie == 0 {
        chain.submit_target_ethereum_block * 2 - middle
    } else {
        middle as int
    }
}

/// What the challengers of a round leave behind: the ledger after their
/// deposits, the rewards they are owed, and how many of them challenged.
pub struct Settlement {
    pub chain: ChainView,
    pub rewards: Seq<RewardView>,
    pub matched: nat,
}

/// No challenger: nothing happens.
pub open spec fn settle_none(chain: ChainView) -> Settlement {
    Settlement { chain, rewards: Seq::empty(), matched: 0 }
}

/// One challenger: it deposits the bond in every round and is owed twice the
/// bond out of the slash.
pub open spec fn settle_single(chain: ChainView, bond: int) -> Settlement {
    let key = chain.challengers[0].key;
    Settlement {
        chain: chain.challenge_by(key, bond),
        rewards: seq![RewardView { from: RewardFrom::Slash, to: key, value: saturate(bond * 2) }],
        matched: 0,
    }
}

/// Several challengers, of which `snapshot` are looked at: each of those set
/// to challenge the submission `round` deposits the bond; one whose own
/// record holds a lie is owed its bond back, the others twice the bond.
pub open spec fn settle_many(chain: ChainView, snapshot: Seq<EntryView>, bond: int, round: nat)
    -> Settlement
    decreases snapshot.len(),
{
    if snapshot.len() == 0 {
        settle_none(chain)
    } else {
        let before = settle_many(chain, snapshot.drop_last(), bond, round);
        let e = snapshot.last();
        if e.status.submit_round == round {
            Settlement {
                chain: before.chain.challenge_by(e.key, bond),
                rewards: before.rewards.push(
                    RewardView {
                        from: RewardFrom::Slash,
                        to: e.key,
                        value: if e.status.lie {
                            bond
                        } else {
                            saturate(bond * 2)
                        },
                    },
                ),
                matched: before.matched + 1,
            }
        } else {
            before
        }
    }
}

/// What the challengers of the round leave behind. A single challenger
/// challenges every round. Of several, those challenge that are set to the
/// submission that is next; a ledger made from a scenario sets none of its
/// challengers to any submission, so there the several leave nothing behind
/// unless they were entered with the round that each of them challenges.
pub open spec fn settle(chain: ChainView, bond: int) -> Settlement {
    if chain.challengers.len() == 1 {
        settle_single(chain, bond)
    } else if chain.challengers.len() > 1 {
        settle_many(chain, chain.challengers, bond, chain.submitions.len() + 1)
    } else {
        settle_none(chain)
    }
}

/// A run in progress.
pub struct Simulation {
    /// The ledger.
    pub chain: ChainsStatus,
    /// The rounds still to come.
    pub iterator: ScenarioConfigIntoIterator,
    /// The waiting rule.
    pub challenge: ChallengeEquation,
    /// The target rule.
    pub target: HalfConfig,
    /// The bond rule.
    pub bond: BondEquation,
    /// The reward rule.
    pub reward: RewardEquation,
    /// The slash that the last round kept for the next.
    pub reward_from_previous_round: Decimal,
    /// The last target that nobody lied about.
    pub latest_confirm_ethereum_block: usize,
    /// The rewards owed so far; they are paid when the run ends.
    pub reward_actions: Vec<Reward>,
    /// The waiting time of each round.
    pub challenge_times: Vec<usize>,
    /// The bond of each round.
    pub bonds: Vec<Decimal>,
    /// The first target and, round by round, the blocks that were answered
    /// with.
    pub relay_blocks: Vec<usize>,
    /// The local height at which the run began.
    pub darwinia_start_block: usize,
}

/// A `Simulation` in numbers without bounds.
pub struct SimulationView {
    pub chain: ChainView,
    pub iterator: IteratorView,
    pub challenge: ChallengeEquation,
    pub target: HalfConfig,
    pub bond: BondEquation,
    pub reward: RewardEquation,
    pub reward_from_previous_round: int,
    pub latest_confirm_ethereum_block: nat,
    pub reward_actions: Seq<RewardView>,
    pub challenge_times: Seq<nat>,
    pub bonds: Seq<int>,
    pub relay_blocks: Seq<nat>,
    pub darwinia_start_block: nat,
}

impl View for Simulation {
    type V = SimulationView;

    open spec fn view(&self) -> SimulationView {
        SimulationView {
            chain: self.chain@,
            iterator: self.iterator@,
            challenge: self.challenge,
            target: self.target,
            bond: self.bond,
            reward: self.reward,
            reward_from_previous_round: self.reward_from_previous_round@,
            latest_confirm_ethereum_block: self.latest_confirm_ethereum_block as nat,
            reward_actions: self.reward_actions.deep_view(),
            challenge_times: Seq::new(
                self.challenge_times@.len(),
                |i: int| self.challenge_times@[i] as nat,
            ),
            bonds: Seq::new(self.bonds@.len(), |i: int| self.bonds@[i]@),
            relay_blocks: Seq::new(self.relay_blocks@.len(), |i: int| self.relay_blocks@[i] as nat),
            darwinia_start_block: self.darwinia_start_block as nat,
        }
    }
}

impl SimulationView {
    /// The submissions of the round that is next.
    pub open spec fn actions(self) -> Seq<(Seq<char>, bool)> {
        self.iterator.output()->0
    }

    /// The bond of the round that is next: the bond rule applied to the
    /// number of the round, counted from one.
    pub open spec fn round_bond(self) -> int {
        self.bond.bond(self.iterator.advanced().submit_round)
    }

    /// The waiting time of the round that is next: the waiting rule applied
    /// to the local blocks since the last round and to the distance between
    /// the target and the block of the last round.
    pub open spec fn round_wait(self) -> nat {
        let last = last_relayed(self.chain);
        self.challenge.wait(
            (self.chain.darwinia_block_hight - last.0) as nat,
            distance(last.1, self.chain.submit_target_ethereum_block),
        )
    }

    /// The slash of the round that is next: one bond for each lie.
    pub open spec fn round_slash(self) -> int {
        saturate(self.round_bond() * lies(self.actions()))
    }

    /// The rewards that the reward rule gives for the round that is next.
    pub open spec fn round_rewards(self) -> Seq<RewardView> {
        paid_to(
            self.reward.source(self.round_slash()),
            self.reward.value(
                self.reward_from_previous_round,
                self.round_slash(),
                self.round_bond(),
                honest(self.actions()).len(),
            ),
            honest(self.actions()),
        )
    }

    /// The target after the round that is next. Without a lie the present
    /// target is confirmed, and the rule is applied to it and the block of
    /// the last round; with a lie, to the last confirmed target and the
    /// present one.
    pub open spec fn round_target(self) -> nat {
        if lies(self.actions()) == 0 {
            self.target.target(
                self.chain.submit_target_ethereum_block,
                last_relayed(self.chain).1,
            )
        } else {
            self.target.target(
                self.latest_confirm_ethereum_block,
                self.chain.submit_target_ethereum_block,
            )
        }
    }

    /// How many submissions the first relayer of the round makes beyond its
    /// own: one for each challenger after the first that challenges the
    /// round, in a game of several challengers.
    pub open spec fn extra_submissions(self) -> nat {
        let matched = settle(self.chain, self.round_bond()).matched;
        if matched > 1 {
            (matched - 1) as nat
        } else {
            0
        }
    }

    /// Why the round that is next cannot be played, if it cannot.
    pub open spec fn round_failure(self) -> Option<Seq<char>> {
        if self.round_wait() > usize::MAX {
            Some("challenge time does not fit"@)
        } else if self.chain.challengers.len() > 1 && self.actions().len() == 0 {
            Some("nobody submits in a round with challengers"@)
        } else if self.extra_submissions() > 0 && !(0 <= alternate_target(
            self.chain,
            lies(self.actions()),
        ) <= usize::MAX) {
            Some("target block does not fit"@)
        } else if !self.chain.can_advance(self.round_wait()) {
            Some("block height does not fit"@)
        } else {
            None
        }
    }

    /// The run after the round that is next, if it can be played and leaves
    /// the ledger in balance.
    pub open spec fn played(self) -> SimulationView {
        let actions = self.actions();
        let extra = self.extra_submissions();
        let settlement = settle(self.chain, self.round_bond());
        let alternate = alternate_target(self.chain, lies(actions)) as nat;
        SimulationView {
            chain: settlement.chain.submit(
                actions + Seq::new(extra, |i: int| (actions[0].0, false)),
                self.round_bond(),
                self.round_wait(),
                self.round_target(),
            ),
            iterator: self.iterator.advanced(),
            reward_from_previous_round: self.reward.carry(
                self.reward_from_previous_round,
                self.round_slash(),
            ),
            latest_confirm_ethereum_block: if lies(actions) == 0 {
                self.chain.submit_target_ethereum_block
            } else {
                self.latest_confirm_ethereum_block
            },
            reward_actions: self.reward_actions + self.round_rewards() + settlement.rewards,
            challenge_times: self.challenge_times.push(self.round_wait()),
            bonds: self.bonds.push(self.round_bond()),
            relay_blocks: self.relay_blocks + Seq::new(extra, |i: int| alternate).push(
                self.round_target(),
            ),
            ..self
        }
    }

    /// The run after the round that is next, or why the run is given up.
    pub open spec fn stepped(self) -> Result<SimulationView, ErrorView> {
        if self.round_failure() is Some {
            Err(ErrorView::UnknownError(self.round_failure()->0))
        } else if self.played().chain.imbalance() != 0 {
            Err(ErrorView::UnknownError("System unbalance"@))
        } else {
            Ok(self.played())
        }
    }
}

/// How many of `actions` are lies.
pub fn count_lies(actions: &Vec<(String, bool)>) -> (n: usize)
    ensures
        n as nat == lies(actions.deep_view()),
{
    let ghost all = actions.deep_view();
    let mut n: usize = 0;
    let mut i: usize = 0;
    assert(all.take(0) =~= Seq::<(Seq<char>, bool)>::empty());
    while i < actions.len()
        invariant
            i <= actions@.len(),
            all == actions.deep_view(),
            n as nat == lies(all.take(i as int)),
            n <= i,
        decreases actions@.len() - i,
    {
        proof {
            assert(all.take(i + 1).drop_last() =~= all.take(i as int));
            assert(all.take(i + 1).last() == (actions@[i as int].0@, actions@[i as int].1));
        }
        if actions[i].1 {
            n = n + 1;
        }
        i += 1;
    }
    assert(all.take(i as int) =~= all);
    n
}

/// The names of those of `actions` that are no lies, in their order.
pub fn honest_names(actions: &Vec<(String, bool)>) -> (names: Vec<String>)
    ensures
        names.deep_view() == honest(actions.deep_view()),
{
    let ghost all = actions.deep_view();
    let mut names: Vec<String> = Vec::new();
    let mut i: usize = 0;
    assert(all.take(0) =~= Seq::<(Seq<char>, bool)>::empty());
    assert(names.deep_view() =~= honest(all.take(0)));
    while i < actions.len()
        invariant
            i <= actions@.len(),
            all == actions.deep_view(),
            names.deep_view() == honest(all.take(i as int)),
        decreases actions@.len() - i,
    {
        proof {
            assert(all.take(i + 1).drop_last() =~= all.take(i as int));
            assert(all.take(i + 1).last() == (actions@[i as int].0@, actions@[i as int].1));
        }
        if !actions[i].1 {
            let ghost before = names.deep_view();
            names.push(actions[i].0.clone());
            assert(names.deep_view() =~= before.push(actions@[i as int].0@));
        }
        i += 1;
    }
    assert(all.take(i as int) =~= all);
    names
}

/// A deposit for a challenge leaves everything but the pool and what the
/// challenger has paid as it is.
pub proof fn lemma_challenge_by_keeps(chain: ChainView, challenger: Seq<char>, bond: int)
    ensures
        same_but_deposits(chain, chain.challenge_by(challenger, bond)),
{
    let at = position_of(chain.challengers, challenger);
    crate::text::lemma_first_index_of(keys_of(chain.challengers), challenger);
    if at < chain.challengers.len() {
        lemma_update_keeps_keys(
            chain.challengers,
            at,
            chain.challengers[at].status.charged(bond),
        );
    }
}

/// Whether `after` is `before` but for the pool and for what the challengers
/// have paid.
pub open spec fn same_but_deposits(before: ChainView, after: ChainView) -> bool {
    &&& after.darwinia_block_hight == before.darwinia_block_hight
    &&& after.ethereum_block_hight == before.ethereum_block_hight
    &&& after.relayers == before.relayers
    &&& after.submit_target_ethereum_block == before.submit_target_ethereum_block
    &&& after.submitions == before.submitions
    &&& after.block_speed_factor == before.block_speed_factor
    &&& after.treasury_debt == before.treasury_debt
    &&& after.challengers.len() == before.challengers.len()
    &&& forall|i: int|
        0 <= i < before.challengers.len() ==> {
            &&& (#[trigger] after.challengers[i]).key == before.challengers[i].key
            &&& after.challengers[i].status.lie == before.challengers[i].status.lie
            &&& after.challengers[i].status.submit_round
                == before.challengers[i].status.submit_round
        }
}

/// The deposits of the challengers leave everything but the pool and what
/// the challengers have paid as it is.
pub proof fn lemma_settle_many_keeps(
    chain: ChainView,
    snapshot: Seq<EntryView>,
    bond: int,
    round: nat,
)
    ensures
        same_but_deposits(chain, settle_many(chain, snapshot, bond, round).chain),
        settle_many(chain, snapshot, bond, round).matched <= snapshot.len(),
    decreases snapshot.len(),
{
    if snapshot.len() > 0 {
        lemma_settle_many_keeps(chain, snapshot.drop_last(), bond, round);
        let before = settle_many(chain, snapshot.drop_last(), bond, round);
        lemma_challenge_by_keeps(before.chain, snapshot.last().key, bond);
    }
}

/// Books the deposits of the challengers of the round and adds what they
/// are owed to `rewards`. Returns how many of several challengers
/// challenged.
pub fn settle_challengers(chain: &mut ChainsStatus, bond: Decimal, rewards: &mut Vec<Reward>) -> (matched:
    usize)
    requires
        old(chain).wf(),
    ensures
        final(chain)@ == settle(old(chain)@, bond@).chain,
        final(rewards).deep_view() == old(rewards).deep_view() + settle(
            old(chain)@,
            bond@,
        ).rewards,
        matched as nat == settle(old(chain)@, bond@).matched,
        final(chain).wf(),
        same_but_deposits(old(chain)@, final(chain)@),
{
    let ghost start = chain@;
    let ghost owed = rewards.deep_view();
    let count: usize = chain.challengers.len();
    if count == 0 {
        assert(rewards.deep_view() =~= owed + settle_none(start).rewards);
        return 0;
    }
    if count == 1 {
        let key: String = chain.challengers.key_at(0).clone();
        proof {
            lemma_challenge_by_keeps(start, key@, bond@);
        }
        rewards.push(Reward { from: RewardFrom::Slash, to: key.clone(), value: bond.times(2) });
        chain.challenge_by(key, bond);
        assert(rewards.deep_view() =~= owed + settle_single(start, bond@).rewards);
        return 0;
    }
    let submissions: usize = chain.submitions.len();
    let ghost round: nat = (submissions + 1) as nat;
    let ghost snapshot = start.challengers;
    let mut matched: usize = 0;
    let mut j: usize = 0;
    assert(snapshot.take(0) =~= Seq::<EntryView>::empty());
    assert(rewards.deep_view() =~= owed + settle_many(start, snapshot.take(0), bond@, round).rewards);
    while j < count
        invariant
            j <= count,
            count == snapshot.len(),
            snapshot == start.challengers,
            start == old(chain)@,
            owed == old(rewards).deep_view(),
            round == submissions + 1,
            submissions == start.submitions.len(),
            chain.wf(),
            same_but_deposits(start, chain@),
            chain@ == settle_many(start, snapshot.take(j as int), bond@, round).chain,
            rewards.deep_view() == owed + settle_many(
                start,
                snapshot.take(j as int),
                bond@,
                round,
            ).rewards,
            matched as nat == settle_many(start, snapshot.take(j as int), bond@, round).matched,
            matched <= j,
        decreases count - j,
    {
        proof {
            assert(snapshot.take(j + 1).drop_last() =~= snapshot.take(j as int));
            assert(snapshot.take(j + 1).last() == snapshot[j as int]);
            assert(chain@.challengers[j as int].key == snapshot[j as int].key);
        }
        let set_to: usize = chain.challengers.status_at(j).submit_round;
        if set_to >= 1 && set_to - 1 == submissions {
            let lie: bool = chain.challengers.status_at(j).lie;
            let key: String = chain.challengers.key_at(j).clone();
            let value: Decimal = if lie {
                bond
            } else {
                bond.times(2)
            };
            let ghost before = rewards.deep_view();
            proof {
                lemma_challenge_by_keeps(chain@, key@, bond@);
            }
            rewards.push(Reward { from: RewardFrom::Slash, to: key.clone(), value });
            assert(rewards.deep_view() =~= before.push(
                RewardView { from: RewardFrom::Slash, to: key@, value: value@ },
            ));
            chain.challenge_by(key, bond);
            matched = matched + 1;
        }
        j += 1;
    }
    assert(snapshot.take(j as int) =~= snapshot);
    matched
}

impl Simulation {
    /// Whether the ledger is well formed, every relayer has a name, and the
    /// local chain is no lower than it was when the run began.
    pub open spec fn wf(&self) -> bool {
        &&& self.chain.wf()
        &&& all_named(self@.iterator.relayers)
        &&& self.darwinia_start_block <= self.chain.darwinia_block_hight
    }

    /// The local height and the remote block of the last round.
    fn last_relayed(&self) -> (last: (usize, usize))
        requires
            self.chain.wf(),
        ensures
            (last.0 as nat, last.1 as nat) == last_relayed(self.chain@),
            last.0 <= self.chain.darwinia_block_hight,
    {
        let n: usize = self.chain.submitions.len();
        if n > 0 {
            assert(self.chain@.submitions[n - 1] == (
                self.chain.submitions@[n - 1].0 as nat,
                self.chain.submitions@[n - 1].1 as nat,
            ));
            self.chain.submitions[n - 1]
        } else {
            (0, 0)
        }
    }

    /// The block that a further challenger of the same submission is
    /// answered with, if the machine word holds it.
    fn alternate_target(&self, total_lie: usize) -> (r: Option<usize>)
        requires
            self.chain.wf(),
        ensures
            r is Some <==> 0 <= alternate_target(self.chain@, total_lie as nat) <= usize::MAX,
            r is Some ==> r->0 as int == alternate_target(self.chain@, total_lie as nat),
    {
        let last: (usize, usize) = self.last_relayed();
        let target: usize = self.chain.submit_target_ethereum_block;
        let middle: usize = self.target.calculate(target, last.1);
        if total_lie == 0 {
            let twice: u128 = target as u128 * 2;
            if twice >= middle as u128 && twice - middle as u128 <= usize::MAX as u128 {
                Some((twice - middle as u128) as usize)
            } else {
                None
            }
        } else {
            Some(middle)
        }
    }

    /// Plays the next round, if there is one: asks the equations for the
    /// bond, the waiting time, the rewards and the next target, lets the
    /// challengers deposit, books the round, and makes sure that the ledger
    /// still balances. Returns whether a round was played. After an error
    /// the run is to be given up.
    pub fn step(&mut self) -> (r: Result<bool, Error>)
        requires
            old(self).wf(),
        ensures
            match old(self)@.iterator.output() {
                None => r is Ok && r->Ok_0 == false && final(self)@ == old(self)@
                    && final(self).wf(),
                Some(_) => match old(self)@.stepped() {
                    Ok(next) => r is Ok && r->Ok_0 == true && final(self)@ == next
                        && final(self).wf(),
                    Err(e) => r is Err && r->Err_0@ == e,
                },
            },
    {
        let ghost start = self@;
        let mut actions: Vec<(String, bool)> = match self.iterator.next() {
            None => {
                return Ok(false);
            },
            Some(a) => a,
        };
        let ghost round_actions = actions.deep_view();
        assert(round_actions == start.actions());
        let bond: Decimal = self.bond.calculate(self.iterator.round());
        assert(bond@ == start.round_bond());
        let last: (usize, usize) = self.last_relayed();
        let target: usize = self.chain.submit_target_ethereum_block;
        let remote_distance: usize = if last.1 > target {
            last.1 - target
        } else {
            target - last.1
        };
        let wait: usize = match self.challenge.checked_calculate(
            self.chain.darwinia_block_hight - last.0,
            remote_distance,
        ) {
            None => {
                return Err(Error::UnknownError("challenge time does not fit"));
            },
            Some(w) => w,
        };
        assert(wait as nat == start.round_wait());
        let total_lie: usize = count_lies(&actions);
        let slash: Decimal = bond.times(total_lie);
        assert(slash@ == start.round_slash());
        let names: Vec<String> = honest_names(&actions);
        let (carry, mut round_rewards) = self.reward.calculate(
            self.reward_from_previous_round,
            slash,
            bond,
            names,
        );
        assert(round_rewards.deep_view() == start.round_rewards());
        let target_block: usize = if total_lie == 0 {
            self.target.calculate(target, last.1)
        } else {
            self.target.calculate(self.latest_confirm_ethereum_block, target)
        };
        assert(target_block as nat == start.round_target());
        if self.chain.challengers.len() > 1 && actions.len() == 0 {
            return Err(Error::UnknownError("nobody submits in a round with challengers"));
        }
        let alternate: Option<usize> = self.alternate_target(total_lie);
        let can_advance: bool = self.chain.can_advance(wait);
        let ghost owed = self.reward_actions.deep_view();
        self.reward_actions.append(&mut round_rewards);
        assert(self.reward_actions.deep_view() =~= owed + start.round_rewards());
        let matched: usize = settle_challengers(&mut self.chain, bond, &mut self.reward_actions);
        let ghost settlement = settle(start.chain, bond@);
        let extra: usize = if matched > 1 {
            matched - 1
        } else {
            0
        };
        assert(extra as nat == start.extra_submissions());
        let mut blocks: Vec<usize> = Vec::new();
        if extra > 0 {
            let block: usize = match alternate {
                None => {
                    return Err(Error::UnknownError("target block does not fit"));
                },
                Some(b) => b,
            };
            let mut k: usize = 0;
            assert(actions.deep_view() =~= round_actions + Seq::new(
                0,
                |i: int| (round_actions[0].0, false),
            ));
            while k < extra
                invariant
                    k <= extra,
                    actions@.len() > 0,
                    round_actions.len() > 0,
                    actions.deep_view() == round_actions + Seq::new(
                        k as nat,
                        |i: int| (round_actions[0].0, false),
                    ),
                    blocks@ == Seq::new(k as nat, |i: int| block),
                decreases extra - k,
            {
                let ghost before = actions.deep_view();
                let first: String = actions[0].0.clone();
                assert(first@ == before[0].0);
                actions.push((first, false));
                blocks.push(block);
                assert(actions.deep_view() =~= before.push((round_actions[0].0, false)));
                assert(actions.deep_view() =~= round_actions + Seq::new(
                    (k + 1) as nat,
                    |i: int| (round_actions[0].0, false),
                ));
                assert(blocks@ =~= Seq::new((k + 1) as nat, |i: int| block));
                k += 1;
            }
        } else {
            assert(actions.deep_view() =~= round_actions + Seq::new(
                0,
                |i: int| (round_actions[0].0, false),
            ));
        }
        if !can_advance {
            return Err(Error::UnknownError("block height does not fit"));
        }
        assert(start.round_failure() is None);
        let ghost submitted = actions.deep_view();
        self.chain.submit(actions, bond, wait, target_block);
        assert(self.chain@ == start.played().chain);
        self.reward_from_previous_round = carry;
        if total_lie == 0 {
            self.latest_confirm_ethereum_block = target;
        }
        let ghost times = self@.challenge_times;
        self.challenge_times.push(wait);
        assert(self@.challenge_times =~= times.push(wait as nat));
        let ghost bonds = self@.bonds;
        self.bonds.push(bond);
        assert(self@.bonds =~= bonds.push(bond@));
        let ghost relayed = self@.relay_blocks;
        let ghost added = blocks@;
        self.relay_blocks.append(&mut blocks);
        self.relay_blocks.push(target_block);
        assert(self@.relay_blocks =~= start.played().relay_blocks);
        assert(self@ == start.played());
        if let Err(e) = self.chain.should_balance() {
            return Err(e);
        }
        Ok(true)
    }
}

/// The run of the scenario `c` before its first round, the participants
/// numbered from `first_id` on; or the error of the first rule that the
/// scenario does not name properly, the waiting rule being looked at first,
/// then the target rule, the reward rule and the bond rule.
pub open spec fn started(c: ScenarioView, first_id: nat) -> Result<SimulationView, ErrorView> {
    if c.challenge_equation() is Err {
        Err(c.challenge_equation()->Err_0)
    } else if c.target_equation() is Err {
        Err(c.target_equation()->Err_0)
    } else if c.reward_equation() is Err {
        Err(c.reward_equation()->Err_0)
    } else if c.bond_equation() is Err {
        Err(c.bond_equation()->Err_0)
    } else if first_id + c.relayers.len() + challengers_of(c).len() > usize::MAX {
        Err(ErrorView::UnknownError("too many participants"@))
    } else {
        let chain = initial_chain(c, first_id);
        Ok(
            SimulationView {
                chain,
                iterator: IteratorView { relayers: c.relayers, submit_round: 0 },
                challenge: c.challenge_equation()->Ok_0,
                target: c.target_equation()->Ok_0,
                bond: c.bond_equation()->Ok_0,
                reward: c.reward_equation()->Ok_0,
                reward_from_previous_round: 0,
                latest_confirm_ethereum_block: 0,
                reward_actions: Seq::empty(),
                challenge_times: Seq::empty(),
                bonds: Seq::empty(),
                relay_blocks: seq![chain.submit_target_ethereum_block],
                darwinia_start_block: chain.darwinia_block_hight,
            },
        )
    }
}

impl SimulationView {
    /// How many rounds are still to come.
    pub open spec fn remaining(self) -> nat {
        if has_round(self.iterator.relayers, self.iterator.submit_round) {
            (self.iterator.relayers[0].choice.len() - self.iterator.submit_round) as nat
        } else {
            0
        }
    }

    /// The run after its last round, or why it is given up on the way.
    pub open spec fn finished(self) -> Result<SimulationView, ErrorView>
        decreases self.remaining(),
    {
        if self.iterator.output() is None {
            Ok(self)
        } else {
            match self.stepped() {
                Err(e) => Err(e),
                Ok(next) => next.finished(),
            }
        }
    }

    /// The ledger at the end: the ledger of the run with all the rewards
    /// that were owed paid.
    pub open spec fn settled(self) -> ChainView {
        self.chain.reward_all(self.reward_actions)
    }
}

/// What a run leaves behind.
pub struct Report {
    /// The ledger, with all rewards paid.
    pub chain: ChainsStatus,
    /// What the pool held before the rewards were paid.
    pub max_bond_value: Decimal,
    /// How many local blocks the run took.
    pub duration: usize,
    /// The waiting time of each round.
    pub challenge_times: Vec<usize>,
    /// The bond of each round.
    pub bonds: Vec<Decimal>,
    /// The blocks that were submitted.
    pub positions: RelayPositions,
}

impl Simulation {
    /// The run of the scenario `config` before its first round. The
    /// challengers of the scenario are entered in the ledger as they are
    /// named; the round that each of several challengers challenges is no
    /// part of a scenario, and is to be entered in the ledger of the run
    /// with `RelayerStatus::challenger`.
    pub fn new(config: &ScenarioConfig, first_id: usize) -> (r: Result<Simulation, Error>)
        requires
            all_named(config@.relayers),
        ensures
            match started(config@, first_id as nat) {
                Ok(v) => r is Ok && r->Ok_0@ == v && r->Ok_0.wf(),
                Err(e) => r is Err && r->Err_0@ == e,
            },
    {
        let iterator: ScenarioConfigIntoIterator = config.get_iter();
        let challenge: ChallengeEquation = match config.get_challenge_equation() {
            Ok(e) => e,
            Err(e) => {
                return Err(e);
            },
        };
        let target: HalfConfig = match config.get_target_equation() {
            Ok(e) => e,
            Err(e) => {
                return Err(e);
            },
        };
        let reward: RewardEquation = match config.get_reward_equation() {
            Ok(e) => e,
            Err(e) => {
                return Err(e);
            },
        };
        let bond: BondEquation = match config.get_bond_equation() {
            Ok(e) => e,
            Err(e) => {
                return Err(e);
            },
        };
        let challengers: usize = match &config.challengers {
            Some(cs) => cs.len(),
            None => 0,
        };
        let fits: bool = match first_id.checked_add(config.relayers.len()) {
            None => false,
            Some(n) => n.checked_add(challengers).is_some(),
        };
        if !fits {
            return Err(Error::UnknownError("too many participants"));
        }
        let chain: ChainsStatus = match ChainsStatus::from_scenario(config, first_id) {
            Ok(c) => c,
            Err(e) => {
                return Err(e);
            },
        };
        let mut relay_blocks: Vec<usize> = Vec::new();
        relay_blocks.push(chain.submit_target_ethereum_block);
        let start: usize = chain.darwinia_block_hight;
        let run = Simulation {
            chain,
            iterator,
            challenge,
            target,
            bond,
            reward,
            reward_from_previous_round: Decimal::zero(),
            latest_confirm_ethereum_block: 0,
            reward_actions: Vec::new(),
            challenge_times: Vec::new(),
            bonds: Vec::new(),
            relay_blocks,
            darwinia_start_block: start,
        };
        proof {
            let v = started(config@, first_id as nat)->Ok_0;
            assert(run@.reward_actions =~= v.reward_actions);
            assert(run@.challenge_times =~= v.challenge_times);
            assert(run@.bonds =~= v.bonds);
            assert(run@.relay_blocks =~= v.relay_blocks);
        }
        Ok(run)
    }

    /// Plays the rounds that are left, one after the other, and stops at
    /// the first that cannot be played or that leaves the ledger out of
    /// balance.
    pub fn run(&mut self) -> (r: Result<(), Error>)
        requires
            old(self).wf(),
        ensures
            match old(self)@.finished() {
                Ok(v) => r is Ok && final(self)@ == v && final(self).wf(),
                Err(e) => r is Err && r->Err_0@ == e,
            },
    {
        loop
            invariant
                self.wf(),
                self@.finished() == old(self)@.finished(),
            decreases self@.remaining(),
        {
            match self.step() {
                Err(e) => {
                    return Err(e);
                },
                Ok(played) => {
                    if !played {
                        return Ok(());
                    }
                },
            }
        }
    }

    /// Ends the run: pays all the rewards that are owed and hands out the
    /// ledger with what was recorded on the way.
    pub fn finish(self) -> (report: Report)
        requires
            self.wf(),
        ensures
            report.chain@ == self@.settled(),
            report.chain.wf(),
            report.max_bond_value@ == self@.chain.submit_bond_pool,
            report.duration == self@.chain.darwinia_block_hight - self@.darwinia_start_block,
            report.challenge_times == self.challenge_times,
            report.bonds == self.bonds,
            report.positions.relay_blocks == self.relay_blocks,
            report.positions.geneisis == 0,
    {
        let mut chain: ChainsStatus = self.chain;
        let max_bond_value: Decimal = chain.submit_bond_pool;
        let duration: usize = chain.darwinia_block_hight - self.darwinia_start_block;
        chain.reward(self.reward_actions);
        Report {
            chain,
            max_bond_value,
            duration,
            challenge_times: self.challenge_times,
            bonds: self.bonds,
            positions: RelayPositions { geneisis: 0, relay_blocks: self.relay_blocks },
        }
    }
}

/// Patches leave the relayers as they are.
pub proof fn lemma_patched_keeps_relayers(c: ScenarioView, patches: Seq<Seq<char>>)
    ensures
        c.patched_all(patches).0.relayers == c.relayers,
        c.patched_all(patches).0.challengers == c.challengers,
    decreases patches.len(),
{
    if patches.len() > 0 {
        lemma_patched_keeps_relayers(c, patches.drop_last());
    }
}

/// What `simulate_from_scenario` does with the scenario `c` and the patches
/// `patches`: the scenario is loaded, then patched, then run from its first
/// round to its last, the participants numbered from zero on.
pub open spec fn simulated(c: ScenarioView, patches: Seq<Seq<char>>) -> Result<
    SimulationView,
    ErrorView,
> {
    match c.loaded(reserved_flags(c.relayers)) {
        Err(e) => Err(e),
        Ok(loaded) => {
            let (patched, failure) = loaded.patched_all(patches);
            if failure is Some {
                Err(failure->0)
            } else {
                match started(patched, 0) {
                    Err(e) => Err(e),
                    Ok(run) => run.finished(),
                }
            }
        },
    }
}

/// Runs the scenario `config`, as it was read from its file, with the
/// patches `patches`: loads it, applies the patches, plays every round and
/// pays the rewards.
pub fn simulate_from_scenario(config: ScenarioConfig, patches: Vec<&str>) -> (r: Result<
    Report,
    Error,
>)
    ensures
        match simulated(config@, patches.deep_view()) {
            Ok(v) => {
                &&& r is Ok
                &&& r->Ok_0.chain@ == v.settled()
                &&& r->Ok_0.max_bond_value@ == v.chain.submit_bond_pool
                &&& r->Ok_0.duration == v.chain.darwinia_block_hight - v.darwinia_start_block
                &&& r->Ok_0.positions.relay_blocks@.map_values(|b: usize| b as nat)
                    == v.relay_blocks
                &&& r->Ok_0.challenge_times@.map_values(|t: usize| t as nat)
                    == v.challenge_times
                &&& r->Ok_0.bonds@.map_values(|b: Decimal| b@) == v.bonds
            },
            Err(e) => r is Err && r->Err_0@ == e,
        },
{
    let ghost raw = config@;
    let mut config: ScenarioConfig = match config.load() {
        Ok(c) => c,
        Err(e) => {
            return Err(e);
        },
    };
    proof {
        lemma_loaded_is_valid(raw, reserved_flags(raw.relayers));
        lemma_patched_keeps_relayers(config@, patches.deep_view());
    }
    if let Err(e) = config.apply_patch(patches) {
        return Err(e);
    }
    let mut run: Simulation = match Simulation::new(&config, 0) {
        Ok(s) => s,
        Err(e) => {
            return Err(e);
        },
    };
    if let Err(e) = run.run() {
        return Err(e);
    }
    let ghost v = run@;
    let report: Report = run.finish();
    assert(report.positions.relay_blocks@.map_values(|b: usize| b as nat) =~= v.relay_blocks);
    assert(report.challenge_times@.map_values(|t: usize| t as nat) =~= v.challenge_times);
    assert(report.bonds@.map_values(|b: Decimal| b@) =~= v.bonds);
    Ok(report)
}

/// Whether the deposits of several challengers add up without reaching an
/// end of the range.
pub open spec fn settle_many_exact(
    chain: ChainView,
    snapshot: Seq<EntryView>,
    bond: int,
    round: nat,
) -> bool
    decreases snapshot.len(),
{
    if snapshot.len() == 0 {
        true
    } else {
        &&& settle_many_exact(chain, snapshot.drop_last(), bond, round)
        &&& snapshot.last().status.submit_round == round ==> settle_many(
            chain,
            snapshot.drop_last(),
            bond,
            round,
        ).chain.challenge_by_exact(snapshot.last().key, bond)
    }
}

/// Whether the deposits of the challengers of a round add up without
/// reaching an end of the range.
pub open spec fn settle_exact(chain: ChainView, bond: int) -> bool {
    if chain.challengers.len() == 1 {
        chain.challenge_by_exact(chain.challengers[0].key, bond)
    } else if chain.challengers.len() > 1 {
        settle_many_exact(chain, chain.challengers, bond, chain.submitions.len() + 1)
    } else {
        true
    }
}

/// Deposits of several challengers that add up exactly leave the ledger as
/// far out of balance as it was.
pub proof fn lemma_settle_many_keeps_balance(
    chain: ChainView,
    snapshot: Seq<EntryView>,
    bond: int,
    round: nat,
)
    requires
        settle_many_exact(chain, snapshot, bond, round),
    ensures
        settle_many(chain, snapshot, bond, round).chain.imbalance() == chain.imbalance(),
    decreases snapshot.len(),
{
    if snapshot.len() > 0 {
        lemma_settle_many_keeps_balance(chain, snapshot.drop_last(), bond, round);
        if snapshot.last().status.submit_round == round {
            lemma_challenge_keeps_balance(
                settle_many(chain, snapshot.drop_last(), bond, round).chain,
                snapshot.last().key,
                bond,
            );
        }
    }
}

/// A round in which every sum stays within the range of the numbers leaves
/// the ledger as far out of balance as it was. So a ledger that balances is
/// never found out of balance after such a round.
pub proof fn lemma_played_keeps_balance(v: SimulationView)
    requires
        settle_exact(v.chain, v.round_bond()),
        settle(v.chain, v.round_bond()).chain.submit_all_exact(
            v.actions() + Seq::new(v.extra_submissions(), |i: int| (v.actions()[0].0, false)),
            v.round_bond(),
        ),
    ensures
        v.played().chain.imbalance() == v.chain.imbalance(),
{
    let bond = v.round_bond();
    if v.chain.challengers.len() == 1 {
        lemma_challenge_keeps_balance(v.chain, v.chain.challengers[0].key, bond);
    } else if v.chain.challengers.len() > 1 {
        lemma_settle_many_keeps_balance(
            v.chain,
            v.chain.challengers,
            bond,
            v.chain.submitions.len() + 1,
        );
    }
    lemma_submit_keeps_balance(
        settle(v.chain, bond).chain,
        v.actions() + Seq::new(v.extra_submissions(), |i: int| (v.actions()[0].0, false)),
        bond,
        v.round_wait(),
        v.round_target(),
    );
}

/// A run whose ledger balances and which is played to its end has a ledger
/// that balances at its end.
pub proof fn lemma_finished_balances(v: SimulationView)
    requires
        v.chain.imbalance() == 0,
        v.finished() is Ok,
    ensures
        v.finished()->Ok_0.chain.imbalance() == 0,
    decreases v.remaining(),
{
    if v.iterator.output() is Some {
        lemma_finished_balances(v.stepped()->Ok_0);
    }
}

/// The ledger of a run that has only just begun balances.
pub proof fn lemma_started_balances(c: ScenarioView, first_id: nat)
    requires
        started(c, first_id) is Ok,
    ensures
        started(c, first_id)->Ok_0.chain.imbalance() == 0,
{
    lemma_initial_chain_balances(c, first_id);
}

/// Whoever submits in a round is one of the relayers.
pub proof fn lemma_round_actions_named(relayers: Seq<RelayerView>, round: nat, k: int)
    requires
        0 <= k < round_actions(relayers, round).len(),
    ensures
        exists|j: int|
            0 <= j < relayers.len() && responds(#[trigger] relayers[j], round) && round_actions(
                relayers,
                round,
            )[k] == (relayers[j].name->0, relayers[j].choice[round as int] == 'L'),
    decreases relayers.len(),
{
    let earlier = round_actions(relayers.drop_last(), round);
    if k < earlier.len() {
        lemma_round_actions_named(relayers.drop_last(), round, k);
        let j = choose|j: int|
            0 <= j < relayers.drop_last().len() && responds(
                #[trigger] relayers.drop_last()[j],
                round,
            ) && earlier[k] == (
                relayers.drop_last()[j].name->0,
                relayers.drop_last()[j].choice[round as int] == 'L',
            );
        assert(relayers[j] == relayers.drop_last()[j]);
    } else {
        assert(responds(relayers[relayers.len() - 1], round));
    }
}

impl SimulationView {
    /// Whether the ledger knows every relayer of the run.
    pub open spec fn covers(self) -> bool {
        forall|i: int|
            0 <= i < self.iterator.relayers.len() ==> has_key(
                self.chain.relayers,
                (#[trigger] self.iterator.relayers[i]).name->0,
            )
    }
}

/// At its start the ledger of a run knows every relayer of the run.
pub proof fn lemma_started_covers(c: ScenarioView, first_id: nat)
    requires
        started(c, first_id) is Ok,
        all_named(c.relayers),
    ensures
        started(c, first_id)->Ok_0.covers(),
{
    let v = started(c, first_id)->Ok_0;
    assert forall|i: int| 0 <= i < v.iterator.relayers.len() implies has_key(
        v.chain.relayers,
        (#[trigger] v.iterator.relayers[i]).name->0,
    ) by {
        lemma_enrolled_has_keys(c.relayers, first_id, i);
    }
}

/// A ledger that knows every relayer of the run knows whoever submits in
/// the next round, and still knows every relayer after it. So no round of a
/// run ever names a relayer in vain.
pub proof fn lemma_played_covers(v: SimulationView)
    requires
        v.covers(),
        v.iterator.output() is Some,
    ensures
        forall|k: int| 0 <= k < v.actions().len() ==> has_key(
            v.chain.relayers,
            (#[trigger] v.actions()[k]).0,
        ),
        v.played().covers(),
{
    assert forall|k: int| 0 <= k < v.actions().len() implies has_key(
        v.chain.relayers,
        (#[trigger] v.actions()[k]).0,
    ) by {
        lemma_round_actions_named(v.iterator.relayers, v.iterator.submit_round, k);
    }
    let bond = v.round_bond();
    let settled = settle(v.chain, bond).chain;
    if v.chain.challengers.len() == 1 {
        lemma_challenge_by_keeps(v.chain, v.chain.challengers[0].key, bond);
    } else if v.chain.challengers.len() > 1 {
        lemma_settle_many_keeps(v.chain, v.chain.challengers, bond, v.chain.submitions.len() + 1);
    }
    lemma_submit_all_keeps_keys(
        settled,
        v.actions() + Seq::new(v.extra_submissions(), |i: int| (v.actions()[0].0, false)),
        bond,
    );
    assert(keys_of(v.played().chain.relayers) == keys_of(v.chain.relayers));
    assert(v.played().chain.relayers.len() == keys_of(v.played().chain.relayers).len());
    assert(v.chain.relayers.len() == keys_of(v.chain.relayers).len());
}

/// Whoever is named as honest has submitted.
pub proof fn lemma_honest_named(actions: Seq<(Seq<char>, bool)>, k: int)
    requires
        0 <= k < honest(actions).len(),
    ensures
        exists|j: int| 0 <= j < actions.len() && (#[trigger] actions[j]).0 == honest(actions)[k],
    decreases actions.len(),
{
    let earlier = honest(actions.drop_last());
    if k < earlier.len() {
        lemma_honest_named(actions.drop_last(), k);
        let j = choose|j: int|
            0 <= j < actions.drop_last().len() && (#[trigger] actions.drop_last()[j]).0
                == earlier[k];
        assert(actions[j] == actions.drop_last()[j]);
    } else {
        assert(actions[actions.len() - 1].0 == honest(actions)[k]);
    }
}

/// What several challengers are owed is owed to challengers of the ledger.
pub proof fn lemma_settle_many_owes_challengers(
    chain: ChainView,
    snapshot: Seq<EntryView>,
    bond: int,
    round: nat,
    k: int,
)
    requires
        snapshot.len() <= chain.challengers.len(),
        forall|i: int| 0 <= i < snapshot.len() ==> snapshot[i] == chain.challengers[i],
        0 <= k < settle_many(chain, snapshot, bond, round).rewards.len(),
    ensures
        has_key(chain.challengers, settle_many(chain, snapshot, bond, round).rewards[k].to),
    decreases snapshot.len(),
{
    let before = settle_many(chain, snapshot.drop_last(), bond, round);
    if k < before.rewards.len() {
        lemma_settle_many_owes_challengers(chain, snapshot.drop_last(), bond, round, k);
    } else {
        lemma_has_key(chain.challengers, snapshot.last().key);
        assert(chain.challengers[snapshot.len() - 1].key == snapshot.last().key);
    }
}

impl SimulationView {
    /// Whether every reward that is owed is owed to somebody of the ledger.
    pub open spec fn owes_known(self) -> bool {
        forall|i: int|
            0 <= i < self.reward_actions.len() ==> self.chain.has_account(
                (#[trigger] self.reward_actions[i]).to,
            )
    }
}

/// A round adds to the rewards that are owed only rewards for relayers and
/// challengers of the ledger. So when the run ends, no reward is paid to
/// nobody.
pub proof fn lemma_played_owes_known(v: SimulationView)
    requires
        v.covers(),
        v.owes_known(),
        v.iterator.output() is Some,
    ensures
        v.played().owes_known(),
{
    let bond = v.round_bond();
    let settlement = settle(v.chain, bond);
    let next = v.played();
    lemma_played_covers(v);
    if v.chain.challengers.len() == 1 {
        lemma_challenge_by_keeps(v.chain, v.chain.challengers[0].key, bond);
    } else if v.chain.challengers.len() > 1 {
        lemma_settle_many_keeps(v.chain, v.chain.challengers, bond, v.chain.submitions.len() + 1);
    }
    lemma_submit_all_keeps_keys(
        settlement.chain,
        v.actions() + Seq::new(v.extra_submissions(), |i: int| (v.actions()[0].0, false)),
        bond,
    );
    assert(keys_of(next.chain.relayers) == keys_of(v.chain.relayers));
    assert(next.chain.relayers.len() == keys_of(next.chain.relayers).len());
    assert(v.chain.relayers.len() == keys_of(v.chain.relayers).len());
    assert(keys_of(next.chain.challengers) =~= keys_of(v.chain.challengers));
    assert forall|name: Seq<char>| v.chain.has_account(name) implies next.chain.has_account(
        name,
    ) by {}
    assert forall|i: int| 0 <= i < next.reward_actions.len() implies next.chain.has_account(
        (#[trigger] next.reward_actions[i]).to,
    ) by {
        let owed = v.reward_actions.len();
        let paid = v.round_rewards().len();
        if i < owed {
            assert(next.reward_actions[i] == v.reward_actions[i]);
        } else if i < owed + paid {
            assert(next.reward_actions[i] == v.round_rewards()[i - owed]);
            lemma_honest_named(v.actions(), i - owed);
        } else {
            let k = i - owed - paid;
            assert(next.reward_actions[i] == settlement.rewards[k]);
            if v.chain.challengers.len() == 1 {
                lemma_has_key(v.chain.challengers, v.chain.challengers[0].key);
            } else if v.chain.challengers.len() > 1 {
                lemma_settle_many_owes_challengers(
                    v.chain,
                    v.chain.challengers,
                    bond,
                    v.chain.submitions.len() + 1,
                    k,
                );
            }
        }
    }
}

} // verus!
