//! The simulated ledger of both chains.

use vstd::prelude::*;
use vstd::string::StringExecFns;
use crate::decimal::{in_range, saturate, Decimal, SCALE};
use crate::error::{Error, ErrorView};
use crate::scenario::{RelayerConfig, RelayerView, ScenarioConfig, ScenarioView};
use crate::target::{midpoint, Equation, HalfConfig};
use crate::decimal::decimal_text;
use crate::text::{
    decimal_digits, first_index_of, number_to_string, repeat_str, repeated, str_eq,
};

verus! {

/// Where the money of a reward comes from: the bonds that liars lost, or the
/// treasury.
#[derive(Debug, Clone, Copy, PartialEq, Eq, Structural)]
pub enum RewardFrom {
    Treasure,
    Slash,
}

/// An order to pay somebody.
#[derive(Debug, PartialEq, Eq)]
pub struct Reward {
    /// The source of the money.
    pub from: RewardFrom,
    /// The relayer or challenger who is paid.
    pub to: String,
    /// How much is paid.
    pub value: Decimal,
}

/// What a `Reward` says.
pub struct RewardView {
    pub from: RewardFrom,
    pub to: Seq<char>,
    pub value: int,
}

impl View for Reward {
    type V = RewardView;

    open spec fn view(&self) -> RewardView {
        RewardView { from: self.from, to: self.to@, value: self.value@ }
    }
}

impl DeepView for Reward {
    type V = RewardView;

    open spec fn deep_view(&self) -> RewardView {
        self@
    }
}

/// What the ledger knows of one relayer or challenger.
#[derive(Debug, Default, PartialEq, Eq)]
pub struct RelayerStatus {
    /// A number that no other participant of the run has.
    pub id: usize,
    /// The name, if the scenario gives one.
    pub name: Option<String>,
    /// All bonds and fees deposited so far.
    pub pay: Decimal,
    /// The rewards received: first those out of slashed bonds, then those
    /// out of the treasury.
    pub reward: (Decimal, Decimal),
    /// How often it has submitted. The count stops at the largest number
    /// that the machine word holds.
    pub submit_times: usize,
    /// Whether it has ever lied.
    pub lie: bool,
    /// For a challenger in a game of several: the submission that it
    /// challenges, counted from one.
    pub submit_round: usize,
}

/// A `RelayerStatus` in numbers without bounds.
pub struct StatusView {
    pub id: nat,
    pub name: Option<Seq<char>>,
    pub pay: int,
    pub reward_slash: int,
    pub reward_treasury: int,
    pub submit_times: nat,
    pub lie: bool,
    pub submit_round: nat,
}

impl StatusView {
    /// The status of a participant that has only just been entered.
    pub open spec fn fresh(id: nat, name: Option<Seq<char>>) -> StatusView {
        StatusView {
            id,
            name,
            pay: 0,
            reward_slash: 0,
            reward_treasury: 0,
            submit_times: 0,
            lie: false,
            submit_round: 0,
        }
    }

    /// The status after one more submission with the bond `bond`.
    pub open spec fn submitted(self, bond: int, lie: bool) -> StatusView {
        StatusView {
            pay: saturate(self.pay + bond),
            lie: self.lie || lie,
            submit_times: if self.submit_times < usize::MAX {
                self.submit_times + 1
            } else {
                self.submit_times
            },
            ..self
        }
    }

    /// The status after the deposit of `bond` for a challenge.
    pub open spec fn charged(self, bond: int) -> StatusView {
        StatusView { pay: saturate(self.pay + bond), ..self }
    }

    /// The status after `value` was paid to it out of `from`. One who has
    /// lied is paid nothing.
    pub open spec fn rewarded(self, from: RewardFrom, value: int) -> StatusView {
        if self.lie {
            self
        } else {
            match from {
                RewardFrom::Slash => StatusView {
                    reward_slash: saturate(self.reward_slash + value),
                    ..self
                },
                RewardFrom::Treasure => StatusView {
                    reward_treasury: saturate(self.reward_treasury + value),
                    ..self
                },
            }
        }
    }

    /// All rewards received.
    pub open spec fn reward(self) -> int {
        self.reward_slash + self.reward_treasury
    }

    /// The name under which the ledger files the participant: its own, or a
    /// blank and its number.
    pub open spec fn key(self) -> Seq<char> {
        match self.name {
            Some(n) => n,
            None => seq![' '] + decimal_digits(self.id),
        }
    }
}

impl View for RelayerStatus {
    type V = StatusView;

    open spec fn view(&self) -> StatusView {
        StatusView {
            id: self.id as nat,
            name: match self.name {
                Some(n) => Some(n@),
                None => None,
            },
            pay: self.pay@,
            reward_slash: self.reward.0@,
            reward_treasury: self.reward.1@,
            submit_times: self.submit_times as nat,
            lie: self.lie,
            submit_round: self.submit_round as nat,
        }
    }
}

impl Clone for RelayerStatus {
    fn clone(&self) -> (r: RelayerStatus)
        ensures
            r@ == self@,
    {
        RelayerStatus {
            id: self.id,
            name: self.name.clone(),
            pay: self.pay,
            reward: (self.reward.0, self.reward.1),
            submit_times: self.submit_times,
            lie: self.lie,
            submit_round: self.submit_round,
        }
    }
}

impl RelayerStatus {
    /// The status of the participant `c`, newly entered under the number
    /// `id`: it has paid and received nothing, has never lied, and is set to
    /// challenge no submission.
    pub fn from_config(c: &RelayerConfig, id: usize) -> (r: RelayerStatus)
        ensures
            r@ == StatusView::fresh(id as nat, c@.name),
    {
        RelayerStatus {
            id,
            name: c.name.clone(),
            pay: Decimal::zero(),
            reward: (Decimal::zero(), Decimal::zero()),
            submit_times: 0,
            lie: false,
            submit_round: 0,
        }
    }

    /// The status of the challenger `c` in a game of several challengers,
    /// newly entered under the number `id`: it is set to challenge the
    /// submission `submit_round`, counted from one, and `lie` says whether
    /// its own record holds a lie.
    pub fn challenger(c: &RelayerConfig, id: usize, submit_round: usize, lie: bool) -> (r:
        RelayerStatus)
        ensures
            r@ == (StatusView {
                submit_round: submit_round as nat,
                lie,
                ..StatusView::fresh(id as nat, c@.name)
            }),
    {
        RelayerStatus {
            id,
            name: c.name.clone(),
            pay: Decimal::zero(),
            reward: (Decimal::zero(), Decimal::zero()),
            submit_times: 0,
            lie,
            submit_round,
        }
    }

    /// The name under which the ledger files the participant.
    pub fn key(&self) -> (k: String)
        ensures
            k@ == self@.key(),
    {
        match &self.name {
            Some(n) => n.clone(),
            None => {
                let mut k: String = String::from_str(" ");
                let digits: String = number_to_string(self.id as u64);
                k.append(digits.as_str());
                proof {
                    reveal_strlit(" ");
                    assert(k@ =~= seq![' '] + decimal_digits(self.id as nat));
                }
                k
            },
        }
    }

    /// All rewards received, from both sources.
    pub fn reward(&self) -> (r: Decimal)
        ensures
            r@ == saturate(self@.reward()),
    {
        self.reward.0.plus(self.reward.1)
    }

    /// Books one submission: the bond is paid, the count goes up, and a lie
    /// is never forgotten.
    pub fn submit(&mut self, bond: Decimal, lie: bool)
        ensures
            final(self)@ == old(self)@.submitted(bond@, lie),
    {
        self.pay = self.pay.plus(bond);
        self.lie = self.lie || lie;
        if self.submit_times < usize::MAX {
            self.submit_times = self.submit_times + 1;
        }
    }

    /// How often it has submitted, if it has never lied; zero if it has.
    pub fn get_honest_submit_times(&self) -> (n: usize)
        ensures
            n == if self.lie {
                0
            } else {
                self.submit_times
            },
    {
        if self.lie {
            0
        } else {
            self.submit_times
        }
    }
}

/// One line of the ledger: a participant under its key.
pub struct EntryView {
    pub key: Seq<char>,
    pub status: StatusView,
}

/// The keys of `entries`, in their order.
pub open spec fn keys_of(entries: Seq<EntryView>) -> Seq<Seq<char>> {
    Seq::new(entries.len(), |i: int| entries[i].key)
}

/// Where `key` is filed in `entries`, or their number if it is not.
pub open spec fn position_of(entries: Seq<EntryView>, key: Seq<char>) -> int {
    first_index_of(keys_of(entries), key)
}

/// Whether `key` is filed in `entries`.
pub open spec fn has_key(entries: Seq<EntryView>, key: Seq<char>) -> bool {
    position_of(entries, key) < entries.len()
}

/// Whether no key is filed twice in `entries`.
pub open spec fn distinct_keys(entries: Seq<EntryView>) -> bool {
    forall|i: int, j: int|
        0 <= i < j < entries.len() ==> (#[trigger] entries[i]).key != (#[trigger] entries[j]).key
}

/// `entries` with `status` filed under `key`, in place of what was filed
/// there or, if nothing was, at the end.
pub open spec fn filed(entries: Seq<EntryView>, key: Seq<char>, status: StatusView) -> Seq<
    EntryView,
> {
    let at = position_of(entries, key);
    if at < entries.len() {
        entries.update(at, EntryView { key, status })
    } else {
        entries.push(EntryView { key, status })
    }
}

/// The sum of what the participants of `entries` have paid.
pub open spec fn total_pay(entries: Seq<EntryView>) -> int
    decreases entries.len(),
{
    if entries.len() == 0 {
        0
    } else {
        total_pay(entries.drop_last()) + entries.last().status.pay
    }
}

/// The sum of what the participants of `entries` have received.
pub open spec fn total_reward(entries: Seq<EntryView>) -> int
    decreases entries.len(),
{
    if entries.len() == 0 {
        0
    } else {
        total_reward(entries.drop_last()) + entries.last().status.reward()
    }
}

/// Replacing one line changes the sums by what that line changes.
pub proof fn lemma_totals_update(entries: Seq<EntryView>, at: int, line: EntryView)
    requires
        0 <= at < entries.len(),
    ensures
        total_pay(entries.update(at, line)) == total_pay(entries) - entries[at].status.pay
            + line.status.pay,
        total_reward(entries.update(at, line)) == total_reward(entries)
            - entries[at].status.reward() + line.status.reward(),
    decreases entries.len(),
{
    let after = entries.update(at, line);
    if at == entries.len() - 1 {
        assert(after.drop_last() =~= entries.drop_last());
    } else {
        lemma_totals_update(entries.drop_last(), at, line);
        assert(after.drop_last() =~= entries.drop_last().update(at, line));
    }
}

/// The participants of one side, each filed under its key.
#[derive(Debug)]
pub struct Participants {
    entries: Vec<(String, RelayerStatus)>,
}

impl View for Participants {
    type V = Seq<EntryView>;

    closed spec fn view(&self) -> Seq<EntryView> {
        Seq::new(
            self.entries@.len(),
            |i: int| EntryView { key: self.entries@[i].0@, status: self.entries@[i].1@ },
        )
    }
}

impl Participants {
    /// Whether no key is filed twice.
    pub open spec fn wf(&self) -> bool {
        distinct_keys(self@)
    }

    /// Nobody.
    pub fn new() -> (p: Participants)
        ensures
            p@ == Seq::<EntryView>::empty(),
            p.wf(),
    {
        let p = Participants { entries: Vec::new() };
        assert(p@ =~= Seq::<EntryView>::empty());
        p
    }

    /// How many participants there are.
    pub fn len(&self) -> (n: usize)
        ensures
            n == self@.len(),
    {
        self.entries.len()
    }

    /// Where `key` is filed, or the number of participants if it is not.
    pub fn position(&self, key: &str) -> (at: usize)
        ensures
            at as int == position_of(self@, key@),
            at <= self@.len(),
    {
        let ghost keys = keys_of(self@);
        let mut i: usize = 0;
        while i < self.entries.len()
            invariant
                i <= self.entries@.len(),
                keys == keys_of(self@),
                forall|k: int| 0 <= k < i ==> keys[k] != key@,
            decreases self.entries@.len() - i,
        {
            if str_eq(self.entries[i].0.as_str(), key) {
                proof {
                    crate::text::lemma_first_index_of_unique(keys, key@, i as int);
                }
                return i;
            }
            i += 1;
        }
        proof {
            crate::text::lemma_first_index_of_unique(keys, key@, i as int);
        }
        i
    }

    /// Whether `key` is filed.
    pub fn contains_key(&self, key: &str) -> (yes: bool)
        ensures
            yes == has_key(self@, key@),
    {
        self.position(key) < self.len()
    }

    /// The participant filed under `key`.
    pub fn get(&self, key: &str) -> (r: Option<&RelayerStatus>)
        ensures
            r is Some <==> has_key(self@, key@),
            r is Some ==> r->0@ == self@[position_of(self@, key@)].status,
    {
        let at: usize = self.position(key);
        if at < self.entries.len() {
            Some(&self.entries[at].1)
        } else {
            None
        }
    }

    /// The key of the participant at `at`.
    pub fn key_at(&self, at: usize) -> (k: &String)
        requires
            at < self@.len(),
        ensures
            k@ == self@[at as int].key,
    {
        &self.entries[at].0
    }

    /// The participant at `at`.
    pub fn status_at(&self, at: usize) -> (s: &RelayerStatus)
        requires
            at < self@.len(),
        ensures
            s@ == self@[at as int].status,
    {
        &self.entries[at].1
    }

    /// Files `status` under `key`, in place of what was filed there.
    pub fn insert(&mut self, key: String, status: RelayerStatus)
        ensures
            final(self)@ == filed(old(self)@, key@, status@),
            old(self).wf() ==> final(self).wf(),
    {
        let at: usize = self.position(key.as_str());
        proof {
            crate::text::lemma_first_index_of(keys_of(self@), key@);
        }
        let ghost before = self@;
        let ghost line = EntryView { key: key@, status: status@ };
        if at < self.entries.len() {
            self.entries[at].1 = status;
            assert(keys_of(before)[at as int] == key@);
            assert(self@ =~= before.update(at as int, line));
        } else {
            self.entries.push((key, status));
            assert(self@ =~= before.push(line));
            proof {
                if distinct_keys(before) {
                    assert forall|i: int, j: int| 0 <= i < j < self@.len() implies (
                    #[trigger] self@[i]).key != (#[trigger] self@[j]).key by {
                        if j == self@.len() - 1 {
                            assert(keys_of(before)[i] == before[i].key);
                        }
                    }
                }
            }
        }
    }

    /// Books one submission of the participant at `at`.
    pub fn submit_at(&mut self, at: usize, bond: Decimal, lie: bool)
        requires
            at < old(self)@.len(),
        ensures
            final(self)@ == old(self)@.update(
                at as int,
                EntryView {
                    key: old(self)@[at as int].key,
                    status: old(self)@[at as int].status.submitted(bond@, lie),
                },
            ),
            old(self).wf() ==> final(self).wf(),
    {
        let ghost before = self@;
        self.entries[at].1.submit(bond, lie);
        assert(self@ =~= before.update(
            at as int,
            EntryView {
                key: before[at as int].key,
                status: before[at as int].status.submitted(bond@, lie),
            },
        ));
    }

    /// Books the deposit of `bond` by the participant at `at`.
    pub fn charge_at(&mut self, at: usize, bond: Decimal)
        requires
            at < old(self)@.len(),
        ensures
            final(self)@ == old(self)@.update(
                at as int,
                EntryView {
                    key: old(self)@[at as int].key,
                    status: old(self)@[at as int].status.charged(bond@),
                },
            ),
            old(self).wf() ==> final(self).wf(),
    {
        let ghost before = self@;
        let paid: Decimal = self.entries[at].1.pay.plus(bond);
        self.entries[at].1.pay = paid;
        assert(self@ =~= before.update(
            at as int,
            EntryView {
                key: before[at as int].key,
                status: before[at as int].status.charged(bond@),
            },
        ));
    }

    /// Pays `value` out of `from` to the participant at `at`, unless it has
    /// lied.
    pub fn reward_at(&mut self, at: usize, from: RewardFrom, value: Decimal)
        requires
            at < old(self)@.len(),
        ensures
            final(self)@ == old(self)@.update(
                at as int,
                EntryView {
                    key: old(self)@[at as int].key,
                    status: old(self)@[at as int].status.rewarded(from, value@),
                },
            ),
            old(self).wf() ==> final(self).wf(),
    {
        let ghost before = self@;
        if !self.entries[at].1.lie {
            match from {
                RewardFrom::Slash => {
                    let sum: Decimal = self.entries[at].1.reward.0.plus(value);
                    self.entries[at].1.reward.0 = sum;
                },
                RewardFrom::Treasure => {
                    let sum: Decimal = self.entries[at].1.reward.1.plus(value);
                    self.entries[at].1.reward.1 = sum;
                },
            }
        }
        assert(self@ =~= before.update(
            at as int,
            EntryView {
                key: before[at as int].key,
                status: before[at as int].status.rewarded(from, value@),
            },
        ));
    }
}

/// Replacing the status of a line keeps the keys, and with them where each
/// key is filed.
pub proof fn lemma_update_keeps_keys(entries: Seq<EntryView>, at: int, status: StatusView)
    requires
        0 <= at < entries.len(),
    ensures
        keys_of(entries.update(at, EntryView { key: entries[at].key, status })) == keys_of(
            entries,
        ),
{
    assert(keys_of(entries.update(at, EntryView { key: entries[at].key, status })) =~= keys_of(
        entries,
    ));
}

/// How far the remote chain moves while the local chain produces `wait`
/// blocks, `factor` millionths of a local block being produced for each
/// remote block: the quotient, rounded down. A factor below zero moves
/// nothing.
pub open spec fn remote_advance(wait: nat, factor: int) -> nat {
    if factor > 0 {
        ((wait * SCALE) / factor) as nat
    } else {
        0
    }
}

/// The state of both chains and of everybody's account.
#[derive(Debug)]
pub struct ChainsStatus {
    /// The height of the local chain.
    pub darwinia_block_hight: usize,
    /// The height of the remote chain.
    pub ethereum_block_hight: usize,
    /// The relayers.
    pub relayers: Participants,
    /// The challengers.
    pub challengers: Participants,
    /// The remote block that the next submission has to be about.
    pub submit_target_ethereum_block: usize,
    /// For each round so far, the local height at which it was submitted and
    /// the remote block it was about.
    pub submitions: Vec<(usize, usize)>,
    /// How many local blocks are produced for one remote block.
    pub block_speed_factor: Decimal,
    /// The bonds and fees that were deposited and not yet paid out again.
    pub submit_bond_pool: Decimal,
    /// What the treasury has paid out.
    pub treasury_debt: Decimal,
}

/// A `ChainsStatus` in numbers without bounds.
pub struct ChainView {
    pub darwinia_block_hight: nat,
    pub ethereum_block_hight: nat,
    pub relayers: Seq<EntryView>,
    pub challengers: Seq<EntryView>,
    pub submit_target_ethereum_block: nat,
    pub submitions: Seq<(nat, nat)>,
    pub block_speed_factor: int,
    pub submit_bond_pool: int,
    pub treasury_debt: int,
}

impl View for ChainsStatus {
    type V = ChainView;

    open spec fn view(&self) -> ChainView {
        ChainView {
            darwinia_block_hight: self.darwinia_block_hight as nat,
            ethereum_block_hight: self.ethereum_block_hight as nat,
            relayers: self.relayers@,
            challengers: self.challengers@,
            submit_target_ethereum_block: self.submit_target_ethereum_block as nat,
            submitions: Seq::new(
                self.submitions@.len(),
                |i: int| (self.submitions@[i].0 as nat, self.submitions@[i].1 as nat),
            ),
            block_speed_factor: self.block_speed_factor@,
            submit_bond_pool: self.submit_bond_pool@,
            treasury_debt: self.treasury_debt@,
        }
    }
}

/// `entries` with the status of the line at `at` replaced by `status`.
pub open spec fn with_status(entries: Seq<EntryView>, at: int, status: StatusView) -> Seq<
    EntryView,
> {
    entries.update(at, EntryView { key: entries[at].key, status })
}

impl ChainView {
    /// Whether no round was submitted at a height above the present one.
    pub open spec fn ordered(self) -> bool {
        forall|i: int|
            0 <= i < self.submitions.len() ==> (#[trigger] self.submitions[i]).0
                <= self.darwinia_block_hight
    }

    /// What the ledger is out by: the pool, less the debt of the treasury,
    /// less all that was paid in, plus all that was paid out. Zero in a
    /// ledger that balances.
    pub open spec fn imbalance(self) -> int {
        self.submit_bond_pool - self.treasury_debt - total_pay(self.relayers) - total_pay(
            self.challengers,
        ) + total_reward(self.relayers) + total_reward(self.challengers)
    }

    /// The ledger after the relayer `relayer` has submitted with the bond
    /// `bond`. A name that the ledger does not know changes nothing.
    pub open spec fn submit_by(self, relayer: Seq<char>, bond: int, lie: bool) -> ChainView {
        let at = position_of(self.relayers, relayer);
        if at < self.relayers.len() {
            ChainView {
                relayers: with_status(
                    self.relayers,
                    at,
                    self.relayers[at].status.submitted(bond, lie),
                ),
                submit_bond_pool: saturate(self.submit_bond_pool + bond),
                ..self
            }
        } else {
            self
        }
    }

    /// Whether `submit_by` adds up without reaching an end of the range.
    pub open spec fn submit_by_exact(self, relayer: Seq<char>, bond: int) -> bool {
        let at = position_of(self.relayers, relayer);
        at < self.relayers.len() ==> in_range(self.relayers[at].status.pay + bond) && in_range(
            self.submit_bond_pool + bond,
        )
    }

    /// The ledger after each of `actions` has submitted with the bond `bond`,
    /// one after the other.
    pub open spec fn submit_all(self, actions: Seq<(Seq<char>, bool)>, bond: int) -> ChainView
        decreases actions.len(),
    {
        if actions.len() == 0 {
            self
        } else {
            self.submit_all(actions.drop_last(), bond).submit_by(
                actions.last().0,
                bond,
                actions.last().1,
            )
        }
    }

    /// Whether `submit_all` adds up without reaching an end of the range.
    pub open spec fn submit_all_exact(self, actions: Seq<(Seq<char>, bool)>, bond: int) -> bool
        decreases actions.len(),
    {
        if actions.len() == 0 {
            true
        } else {
            self.submit_all_exact(actions.drop_last(), bond) && self.submit_all(
                actions.drop_last(),
                bond,
            ).submit_by_exact(actions.last().0, bond)
        }
    }

    /// The ledger after a round: each of `actions` has submitted with the
    /// bond `bond`, the round is entered in the history with the height and
    /// the target that held before it, the local chain has moved on by
    /// `wait_blocks`, the remote chain by as much as the speed factor gives,
    /// and the next target is `next_target`.
    pub open spec fn submit(
        self,
        actions: Seq<(Seq<char>, bool)>,
        bond: int,
        wait_blocks: nat,
        next_target: nat,
    ) -> ChainView {
        let paid = self.submit_all(actions, bond);
        ChainView {
            submitions: self.submitions.push(
                (self.darwinia_block_hight, self.submit_target_ethereum_block),
            ),
            ethereum_block_hight: self.ethereum_block_hight + remote_advance(
                wait_blocks,
                self.block_speed_factor,
            ),
            darwinia_block_hight: self.darwinia_block_hight + wait_blocks,
            submit_target_ethereum_block: next_target,
            ..paid
        }
    }

    /// Whether the heights after a round of `wait_blocks` fit the machine
    /// word, and the speed factor can be divided by.
    pub open spec fn can_advance(self, wait_blocks: nat) -> bool {
        &&& self.block_speed_factor != 0 || wait_blocks == 0
        &&& self.darwinia_block_hight + wait_blocks <= usize::MAX
        &&& self.ethereum_block_hight + remote_advance(wait_blocks, self.block_speed_factor)
            <= usize::MAX
    }

    /// The ledger after the challenger `challenger` has deposited `bond`. A
    /// name that the ledger does not know changes nothing.
    pub open spec fn challenge_by(self, challenger: Seq<char>, bond: int) -> ChainView {
        let at = position_of(self.challengers, challenger);
        if at < self.challengers.len() {
            ChainView {
                challengers: with_status(
                    self.challengers,
                    at,
                    self.challengers[at].status.charged(bond),
                ),
                submit_bond_pool: saturate(self.submit_bond_pool + bond),
                ..self
            }
        } else {
            self
        }
    }

    /// Whether `challenge_by` adds up without reaching an end of the range.
    pub open spec fn challenge_by_exact(self, challenger: Seq<char>, bond: int) -> bool {
        let at = position_of(self.challengers, challenger);
        at < self.challengers.len() ==> in_range(self.challengers[at].status.pay + bond)
            && in_range(self.submit_bond_pool + bond)
    }

    /// Whether `name` is a relayer or a challenger of the ledger.
    pub open spec fn has_account(self, name: Seq<char>) -> bool {
        has_key(self.relayers, name) || has_key(self.challengers, name)
    }

    /// The status of `name`, looked up among the relayers first and then
    /// among the challengers.
    pub open spec fn account(self, name: Seq<char>) -> StatusView {
        if has_key(self.relayers, name) {
            self.relayers[position_of(self.relayers, name)].status
        } else {
            self.challengers[position_of(self.challengers, name)].status
        }
    }

    /// The pool and the debt of the treasury after `value` was paid out of
    /// `from`.
    pub open spec fn paid_out(self, from: RewardFrom, value: int) -> ChainView {
        match from {
            RewardFrom::Slash => ChainView {
                submit_bond_pool: saturate(self.submit_bond_pool - value),
                ..self
            },
            RewardFrom::Treasure => ChainView {
                treasury_debt: saturate(self.treasury_debt + value),
                ..self
            },
        }
    }

    /// The ledger after the reward `reward` was paid. One who has lied is
    /// paid nothing, and a name that the ledger does not know changes
    /// nothing.
    pub open spec fn reward_one(self, reward: RewardView) -> ChainView {
        if !self.has_account(reward.to) || self.account(reward.to).lie {
            self
        } else if has_key(self.relayers, reward.to) {
            let at = position_of(self.relayers, reward.to);
            ChainView {
                relayers: with_status(
                    self.relayers,
                    at,
                    self.relayers[at].status.rewarded(reward.from, reward.value),
                ),
                ..self
            }.paid_out(reward.from, reward.value)
        } else {
            let at = position_of(self.challengers, reward.to);
            ChainView {
                challengers: with_status(
                    self.challengers,
                    at,
                    self.challengers[at].status.rewarded(reward.from, reward.value),
                ),
                ..self
            }.paid_out(reward.from, reward.value)
        }
    }

    /// Whether `reward_one` adds up without reaching an end of the range.
    pub open spec fn reward_one_exact(self, reward: RewardView) -> bool {
        self.has_account(reward.to) && !self.account(reward.to).lie ==> match reward.from {
            RewardFrom::Slash => in_range(self.account(reward.to).reward_slash + reward.value)
                && in_range(self.submit_bond_pool - reward.value),
            RewardFrom::Treasure => in_range(
                self.account(reward.to).reward_treasury + reward.value,
            ) && in_range(self.treasury_debt + reward.value),
        }
    }

    /// The ledger after each of `rewards` was paid, one after the other.
    pub open spec fn reward_all(self, rewards: Seq<RewardView>) -> ChainView
        decreases rewards.len(),
    {
        if rewards.len() == 0 {
            self
        } else {
            self.reward_all(rewards.drop_last()).reward_one(rewards.last())
        }
    }

    /// Whether `reward_all` adds up without reaching an end of the range.
    pub open spec fn reward_all_exact(self, rewards: Seq<RewardView>) -> bool
        decreases rewards.len(),
    {
        if rewards.len() == 0 {
            true
        } else {
            self.reward_all_exact(rewards.drop_last()) && self.reward_all(
                rewards.drop_last(),
            ).reward_one_exact(rewards.last())
        }
    }
}

/// A submission leaves the keys where they are, whoever submits.
pub proof fn lemma_submit_by_keeps_keys(v: ChainView, relayer: Seq<char>, bond: int, lie: bool)
    ensures
        keys_of(v.submit_by(relayer, bond, lie).relayers) == keys_of(v.relayers),
        v.submit_by(relayer, bond, lie).challengers == v.challengers,
        v.submit_by(relayer, bond, lie).darwinia_block_hight == v.darwinia_block_hight,
        v.submit_by(relayer, bond, lie).ethereum_block_hight == v.ethereum_block_hight,
        v.submit_by(relayer, bond, lie).submitions == v.submitions,
        v.submit_by(relayer, bond, lie).submit_target_ethereum_block
            == v.submit_target_ethereum_block,
        v.submit_by(relayer, bond, lie).block_speed_factor == v.block_speed_factor,
        v.submit_by(relayer, bond, lie).treasury_debt == v.treasury_debt,
        distinct_keys(v.relayers) ==> distinct_keys(v.submit_by(relayer, bond, lie).relayers),
{
    let at = position_of(v.relayers, relayer);
    crate::text::lemma_first_index_of(keys_of(v.relayers), relayer);
    if at < v.relayers.len() {
        lemma_update_keeps_keys(v.relayers, at, v.relayers[at].status.submitted(bond, lie));
    }
}

/// A round of submissions leaves the keys where they are, and touches
/// nothing but the relayers and the pool.
pub proof fn lemma_submit_all_keeps_keys(v: ChainView, actions: Seq<(Seq<char>, bool)>, bond: int)
    ensures
        keys_of(v.submit_all(actions, bond).relayers) == keys_of(v.relayers),
        v.submit_all(actions, bond).challengers == v.challengers,
        v.submit_all(actions, bond).darwinia_block_hight == v.darwinia_block_hight,
        v.submit_all(actions, bond).ethereum_block_hight == v.ethereum_block_hight,
        v.submit_all(actions, bond).submitions == v.submitions,
        v.submit_all(actions, bond).submit_target_ethereum_block
            == v.submit_target_ethereum_block,
        v.submit_all(actions, bond).block_speed_factor == v.block_speed_factor,
        v.submit_all(actions, bond).treasury_debt == v.treasury_debt,
        distinct_keys(v.relayers) ==> distinct_keys(v.submit_all(actions, bond).relayers),
    decreases actions.len(),
{
    if actions.len() > 0 {
        lemma_submit_all_keeps_keys(v, actions.drop_last(), bond);
        lemma_submit_by_keeps_keys(
            v.submit_all(actions.drop_last(), bond),
            actions.last().0,
            bond,
            actions.last().1,
        );
    }
}

/// A submission that adds up exactly leaves the ledger as far out of balance
/// as it was: what the relayer pays, the pool receives.
pub proof fn lemma_submit_by_keeps_balance(v: ChainView, relayer: Seq<char>, bond: int, lie: bool)
    requires
        v.submit_by_exact(relayer, bond),
    ensures
        v.submit_by(relayer, bond, lie).imbalance() == v.imbalance(),
{
    let at = position_of(v.relayers, relayer);
    crate::text::lemma_first_index_of(keys_of(v.relayers), relayer);
    if at < v.relayers.len() {
        lemma_totals_update(
            v.relayers,
            at,
            EntryView {
                key: v.relayers[at].key,
                status: v.relayers[at].status.submitted(bond, lie),
            },
        );
    }
}

/// A round that adds up exactly leaves the ledger as far out of balance as
/// it was.
pub proof fn lemma_submit_keeps_balance(
    v: ChainView,
    actions: Seq<(Seq<char>, bool)>,
    bond: int,
    wait_blocks: nat,
    next_target: nat,
)
    requires
        v.submit_all_exact(actions, bond),
    ensures
        v.submit_all(actions, bond).imbalance() == v.imbalance(),
        v.submit(actions, bond, wait_blocks, next_target).imbalance() == v.imbalance(),
    decreases actions.len(),
{
    if actions.len() > 0 {
        lemma_submit_keeps_balance(v, actions.drop_last(), bond, wait_blocks, next_target);
        lemma_submit_by_keeps_balance(
            v.submit_all(actions.drop_last(), bond),
            actions.last().0,
            bond,
            actions.last().1,
        );
    }
}

/// A deposit for a challenge that adds up exactly leaves the ledger as far
/// out of balance as it was.
pub proof fn lemma_challenge_keeps_balance(v: ChainView, challenger: Seq<char>, bond: int)
    requires
        v.challenge_by_exact(challenger, bond),
    ensures
        v.challenge_by(challenger, bond).imbalance() == v.imbalance(),
{
    let at = position_of(v.challengers, challenger);
    crate::text::lemma_first_index_of(keys_of(v.challengers), challenger);
    if at < v.challengers.len() {
        lemma_totals_update(
            v.challengers,
            at,
            EntryView {
                key: v.challengers[at].key,
                status: v.challengers[at].status.charged(bond),
            },
        );
    }
}

/// A reward that adds up exactly leaves the ledger as far out of balance as
/// it was: what the recipient receives, the pool or the treasury gives.
pub proof fn lemma_reward_one_keeps_balance(v: ChainView, reward: RewardView)
    requires
        v.reward_one_exact(reward),
    ensures
        v.reward_one(reward).imbalance() == v.imbalance(),
{
    crate::text::lemma_first_index_of(keys_of(v.relayers), reward.to);
    crate::text::lemma_first_index_of(keys_of(v.challengers), reward.to);
    if v.has_account(reward.to) && !v.account(reward.to).lie {
        if has_key(v.relayers, reward.to) {
            let at = position_of(v.relayers, reward.to);
            lemma_totals_update(
                v.relayers,
                at,
                EntryView {
                    key: v.relayers[at].key,
                    status: v.relayers[at].status.rewarded(reward.from, reward.value),
                },
            );
        } else {
            let at = position_of(v.challengers, reward.to);
            lemma_totals_update(
                v.challengers,
                at,
                EntryView {
                    key: v.challengers[at].key,
                    status: v.challengers[at].status.rewarded(reward.from, reward.value),
                },
            );
        }
    }
}

/// Rewards that add up exactly leave the ledger as far out of balance as it
/// was.
pub proof fn lemma_reward_all_keeps_balance(v: ChainView, rewards: Seq<RewardView>)
    requires
        v.reward_all_exact(rewards),
    ensures
        v.reward_all(rewards).imbalance() == v.imbalance(),
    decreases rewards.len(),
{
    if rewards.len() > 0 {
        lemma_reward_all_keeps_balance(v, rewards.drop_last());
        lemma_reward_one_keeps_balance(v.reward_all(rewards.drop_last()), rewards.last());
    }
}

/// A ledger that balances still balances after a round and the payment of
/// rewards, as long as every sum stays within the range of the numbers.
pub proof fn lemma_round_keeps_balance(
    v: ChainView,
    actions: Seq<(Seq<char>, bool)>,
    bond: int,
    wait_blocks: nat,
    next_target: nat,
    rewards: Seq<RewardView>,
)
    requires
        v.imbalance() == 0,
        v.submit_all_exact(actions, bond),
        v.submit(actions, bond, wait_blocks, next_target).reward_all_exact(rewards),
    ensures
        v.submit(actions, bond, wait_blocks, next_target).imbalance() == 0,
        v.submit(actions, bond, wait_blocks, next_target).reward_all(rewards).imbalance() == 0,
{
    lemma_submit_keeps_balance(v, actions, bond, wait_blocks, next_target);
    lemma_reward_all_keeps_balance(v.submit(actions, bond, wait_blocks, next_target), rewards);
}

impl ChainsStatus {
    /// Whether no key is filed twice and no round was submitted at a height
    /// above the present one.
    pub open spec fn wf(&self) -> bool {
        &&& self.relayers.wf()
        &&& self.challengers.wf()
        &&& self@.ordered()
    }

    /// Books one submission of the relayer `relayer`.
    fn submit_by_name(&mut self, relayer: &str, bond: Decimal, lie: bool)
        ensures
            final(self)@ == old(self)@.submit_by(relayer@, bond@, lie),
            old(self).wf() ==> final(self).wf(),
    {
        let at: usize = self.relayers.position(relayer);
        if at < self.relayers.len() {
            self.relayers.submit_at(at, bond, lie);
            self.submit_bond_pool = self.submit_bond_pool.plus(bond);
        }
    }

    /// Books one submission of the relayer `relayer`: it pays the bond, and
    /// the pool receives it. A name that the ledger does not know changes
    /// nothing.
    pub fn submit_by(&mut self, relayer: String, bond: Decimal, lie: bool)
        ensures
            final(self)@ == old(self)@.submit_by(relayer@, bond@, lie),
            old(self).wf() ==> final(self).wf(),
    {
        self.submit_by_name(relayer.as_str(), bond, lie)
    }

    /// Whether a round of `wait_blocks` can be booked: the speed factor is
    /// not zero, unless nothing is waited for, and both heights stay within
    /// the machine word.
    pub fn can_advance(&self, wait_blocks: usize) -> (yes: bool)
        ensures
            yes == self@.can_advance(wait_blocks as nat),
    {
        if self.block_speed_factor.raw == 0 && wait_blocks > 0 {
            return false;
        }
        if wait_blocks > usize::MAX - self.darwinia_block_hight {
            return false;
        }
        let advance: u128 = Self::advance_of(wait_blocks, self.block_speed_factor);
        advance <= (usize::MAX - self.ethereum_block_hight) as u128
    }

    /// How far the remote chain moves in `wait_blocks` local blocks.
    fn advance_of(wait_blocks: usize, factor: Decimal) -> (advance: u128)
        ensures
            advance as nat == remote_advance(wait_blocks as nat, factor@),
    {
        if factor.raw > 0 {
            assert(wait_blocks * 1_000_000 <= 0xFFFF_FFFF_FFFF_FFFF * 1_000_000);
            (wait_blocks as u128 * 1_000_000) / (factor.raw as u128)
        } else {
            0
        }
    }

    /// Books a round: every one of `relayers` submits with the bond `bond`,
    /// the round enters the history, both chains move on and the next target
    /// is set.
    pub fn submit(
        &mut self,
        relayers: Vec<(String, bool)>,
        bond: Decimal,
        wait_blocks: usize,
        next_target_ethereum_block: usize,
    )
        requires
            old(self)@.can_advance(wait_blocks as nat),
        ensures
            final(self)@ == old(self)@.submit(
                relayers.deep_view(),
                bond@,
                wait_blocks as nat,
                next_target_ethereum_block as nat,
            ),
            old(self).wf() ==> final(self).wf(),
    {
        let ghost start = self@;
        let ghost actions = relayers.deep_view();
        let mut i: usize = 0;
        assert(actions.take(0) =~= Seq::<(Seq<char>, bool)>::empty());
        while i < relayers.len()
            invariant
                i <= relayers@.len(),
                actions == relayers.deep_view(),
                start == old(self)@,
                self@ == start.submit_all(actions.take(i as int), bond@),
                old(self).wf() ==> self.wf(),
            decreases relayers@.len() - i,
        {
            proof {
                lemma_submit_all_keeps_keys(start, actions.take(i as int), bond@);
                assert(actions.take(i + 1).drop_last() =~= actions.take(i as int));
                assert(actions[i as int] == (relayers@[i as int].0@, relayers@[i as int].1));
            }
            self.submit_by_name(relayers[i].0.as_str(), bond, relayers[i].1);
            i += 1;
        }
        assert(actions.take(i as int) =~= actions);
        let ghost paid = self@;
        proof {
            lemma_submit_all_keeps_keys(start, actions, bond@);
        }
        self.submitions.push((self.darwinia_block_hight, self.submit_target_ethereum_block));
        let advance: u128 = Self::advance_of(wait_blocks, self.block_speed_factor);
        self.ethereum_block_hight = self.ethereum_block_hight + advance as usize;
        self.darwinia_block_hight = self.darwinia_block_hight + wait_blocks;
        self.submit_target_ethereum_block = next_target_ethereum_block;
        assert(self@.submitions =~= start.submitions.push(
            (start.darwinia_block_hight, start.submit_target_ethereum_block),
        ));
        assert(self@ == start.submit(
            actions,
            bond@,
            wait_blocks as nat,
            next_target_ethereum_block as nat,
        ));
    }

    /// Books the deposit of `bond` by the challenger `challenger`. A name
    /// that the ledger does not know changes nothing.
    pub fn challenge_by(&mut self, challenger: String, bond: Decimal)
        ensures
            final(self)@ == old(self)@.challenge_by(challenger@, bond@),
            old(self).wf() ==> final(self).wf(),
    {
        let at: usize = self.challengers.position(challenger.as_str());
        if at < self.challengers.len() {
            self.challengers.charge_at(at, bond);
            self.submit_bond_pool = self.submit_bond_pool.plus(bond);
        }
    }

    /// Takes `value` out of the pool, or adds it to the debt of the
    /// treasury.
    fn pay_out(&mut self, from: RewardFrom, value: Decimal)
        ensures
            final(self)@ == old(self)@.paid_out(from, value@),
            final(self).relayers == old(self).relayers,
            final(self).challengers == old(self).challengers,
    {
        match from {
            RewardFrom::Slash => {
                self.submit_bond_pool = self.submit_bond_pool.minus(value);
            },
            RewardFrom::Treasure => {
                self.treasury_debt = self.treasury_debt.plus(value);
            },
        }
    }

    /// Pays one reward.
    fn reward_one(&mut self, reward: &Reward)
        ensures
            final(self)@ == old(self)@.reward_one(reward@),
            old(self).wf() ==> final(self).wf(),
    {
        let at: usize = self.relayers.position(reward.to.as_str());
        if at < self.relayers.len() {
            if !self.relayers.status_at(at).lie {
                self.relayers.reward_at(at, reward.from, reward.value);
                self.pay_out(reward.from, reward.value);
            }
        } else {
            let at: usize = self.challengers.position(reward.to.as_str());
            if at < self.challengers.len() {
                if !self.challengers.status_at(at).lie {
                    self.challengers.reward_at(at, reward.from, reward.value);
                    self.pay_out(reward.from, reward.value);
                }
            }
        }
    }

    /// Pays the rewards, one after the other. The recipient is looked up
    /// among the relayers first, then among the challengers. One who has
    /// ever lied is paid nothing; the others are credited, out of the pool or
    /// on the account of the treasury.
    pub fn reward(&mut self, rewards: Vec<Reward>)
        ensures
            final(self)@ == old(self)@.reward_all(rewards.deep_view()),
            old(self).wf() ==> final(self).wf(),
    {
        let ghost start = self@;
        let ghost all = rewards.deep_view();
        let mut i: usize = 0;
        assert(all.take(0) =~= Seq::<RewardView>::empty());
        while i < rewards.len()
            invariant
                i <= rewards@.len(),
                all == rewards.deep_view(),
                start == old(self)@,
                self@ == start.reward_all(all.take(i as int)),
                old(self).wf() ==> self.wf(),
            decreases rewards@.len() - i,
        {
            proof {
                assert(all.take(i + 1).drop_last() =~= all.take(i as int));
                assert(all[i as int] == rewards@[i as int]@);
            }
            self.reward_one(&rewards[i]);
            i += 1;
        }
        assert(all.take(i as int) =~= all);
    }
}

/// The ledger lines of `configs`, entered one after the other under the
/// numbers from `first_id` on. One that bears the name of an earlier one
/// takes its place.
pub open spec fn enrolled(configs: Seq<RelayerView>, first_id: nat) -> Seq<EntryView>
    decreases configs.len(),
{
    if configs.len() == 0 {
        Seq::empty()
    } else {
        let status = StatusView::fresh(
            (first_id + configs.len() - 1) as nat,
            configs.last().name,
        );
        filed(enrolled(configs.drop_last(), first_id), status.key(), status)
    }
}

/// The challengers of a scenario; none if it names none.
pub open spec fn challengers_of(c: ScenarioView) -> Seq<RelayerView> {
    match c.challengers {
        Some(cs) => cs,
        None => Seq::empty(),
    }
}

/// The first height of the remote chain: 100 unless the scenario says
/// otherwise.
pub open spec fn first_remote_height(c: ScenarioView) -> nat {
    match c.De {
        Some(h) => h as nat,
        None => 100,
    }
}

/// The ledger at the start of a run of the scenario `c`: the heights and the
/// speed factor of the scenario or their defaults, every participant entered
/// with nothing paid and nothing received, the relayers numbered from
/// `first_id` on and the challengers after them, an empty history, an empty
/// pool, and the first target halfway up the remote chain.
pub open spec fn initial_chain(c: ScenarioView, first_id: nat) -> ChainView {
    ChainView {
        darwinia_block_hight: match c.Dd {
            Some(h) => h as nat,
            None => 0,
        },
        ethereum_block_hight: first_remote_height(c),
        relayers: enrolled(c.relayers, first_id),
        challengers: enrolled(challengers_of(c), first_id + c.relayers.len()),
        submit_target_ethereum_block: midpoint(0, first_remote_height(c)),
        submitions: Seq::empty(),
        block_speed_factor: match c.F {
            Some(f) => f@,
            None => 2 * SCALE,
        },
        submit_bond_pool: 0,
        treasury_debt: 0,
    }
}

/// Whether nobody in `entries` has paid or received anything.
pub open spec fn untouched(entries: Seq<EntryView>) -> bool {
    forall|i: int|
        0 <= i < entries.len() ==> (#[trigger] entries[i]).status.pay == 0
            && entries[i].status.reward() == 0
}

/// Where nobody has paid or received anything the sums are zero.
pub proof fn lemma_untouched_totals(entries: Seq<EntryView>)
    requires
        untouched(entries),
    ensures
        total_pay(entries) == 0,
        total_reward(entries) == 0,
    decreases entries.len(),
{
    if entries.len() > 0 {
        assert(entries.last() == entries[entries.len() - 1]);
        assert forall|i: int| 0 <= i < entries.drop_last().len() implies (
        #[trigger] entries.drop_last()[i]).status.pay == 0 && entries.drop_last()[i].status.reward()
            == 0 by {
            assert(entries.drop_last()[i] == entries[i]);
        }
        lemma_untouched_totals(entries.drop_last());
    }
}

/// Newly entered participants have paid and received nothing.
pub proof fn lemma_enrolled_untouched(configs: Seq<RelayerView>, first_id: nat)
    ensures
        untouched(enrolled(configs, first_id)),
    decreases configs.len(),
{
    if configs.len() > 0 {
        lemma_enrolled_untouched(configs.drop_last(), first_id);
        let before = enrolled(configs.drop_last(), first_id);
        let status = StatusView::fresh(
            (first_id + configs.len() - 1) as nat,
            configs.last().name,
        );
        crate::text::lemma_first_index_of(keys_of(before), status.key());
        let after = filed(before, status.key(), status);
        assert forall|i: int| 0 <= i < after.len() implies (#[trigger] after[i]).status.pay == 0
            && after[i].status.reward() == 0 by {
            if i < before.len() && i != position_of(before, status.key()) {
                assert(after[i] == before[i]);
            }
        }
    }
}

/// The ledger at the start of a run balances.
pub proof fn lemma_initial_chain_balances(c: ScenarioView, first_id: nat)
    ensures
        initial_chain(c, first_id).imbalance() == 0,
        initial_chain(c, first_id).ordered(),
{
    lemma_enrolled_untouched(c.relayers, first_id);
    lemma_enrolled_untouched(challengers_of(c), first_id + c.relayers.len());
    lemma_untouched_totals(enrolled(c.relayers, first_id));
    lemma_untouched_totals(enrolled(challengers_of(c), first_id + c.relayers.len()));
}

/// Enters `configs` in a ledger of their own, numbered from `first_id` on.
pub fn enroll(configs: &Vec<RelayerConfig>, first_id: usize) -> (p: Participants)
    requires
        first_id + configs@.len() <= usize::MAX,
    ensures
        p@ == enrolled(configs.deep_view(), first_id as nat),
        p.wf(),
{
    let ghost views = configs.deep_view();
    let mut p: Participants = Participants::new();
    let mut i: usize = 0;
    assert(views.take(0) =~= Seq::<RelayerView>::empty());
    while i < configs.len()
        invariant
            i <= configs@.len(),
            first_id + configs@.len() <= usize::MAX,
            views == configs.deep_view(),
            p@ == enrolled(views.take(i as int), first_id as nat),
            p.wf(),
        decreases configs@.len() - i,
    {
        proof {
            assert(views.take(i + 1).drop_last() =~= views.take(i as int));
            assert(views.take(i + 1).last() == configs@[i as int]@);
        }
        let status: RelayerStatus = RelayerStatus::from_config(&configs[i], first_id + i);
        let key: String = status.key();
        p.insert(key, status);
        i += 1;
    }
    assert(views.take(i as int) =~= views);
    p
}

/// A sum of many numbers, kept in two parts so that it cannot overflow: it
/// stands for `high` times two to the power 64, plus `low`.
struct Tally {
    high: i128,
    low: i128,
}

impl Tally {
    spec fn value(self) -> int {
        self.high * 0x1_0000_0000_0000_0000 + self.low
    }

    spec fn within(self, steps: int) -> bool {
        &&& 0 <= self.low < 0x1_0000_0000_0000_0000
        &&& -steps <= self.high <= steps
    }

    /// The sum with `t` added.
    fn plus(self, t: i128, Ghost(steps): Ghost<int>) -> (r: Tally)
        requires
            self.within(steps),
            0 <= steps < 0x1_0000_0000_0000_0000_0000,
            -0x8000_0000_0000_0000 <= t <= 0x8000_0000_0000_0000,
        ensures
            r.value() == self.value() + t,
            r.within(steps + 1),
    {
        let low: i128 = self.low + t;
        if low < 0 {
            Tally { high: self.high - 1, low: low + 0x1_0000_0000_0000_0000 }
        } else if low >= 0x1_0000_0000_0000_0000 {
            Tally { high: self.high + 1, low: low - 0x1_0000_0000_0000_0000 }
        } else {
            Tally { high: self.high, low }
        }
    }

    /// The sum as a number, brought into the range of the numbers.
    fn saturated(self) -> (r: Decimal)
        requires
            0 <= self.low < 0x1_0000_0000_0000_0000,
        ensures
            r@ == saturate(self.value()),
    {
        if self.high > 0 || (self.high == 0 && self.low > i64::MAX as i128) {
            Decimal { raw: i64::MAX }
        } else if self.high == 0 {
            Decimal { raw: self.low as i64 }
        } else if self.high == -1 && self.low >= 0x8000_0000_0000_0000 {
            Decimal { raw: (self.low - 0x1_0000_0000_0000_0000) as i64 }
        } else {
            Decimal { raw: i64::MIN }
        }
    }

    /// The sum with what each of `side` has received added and what each has
    /// paid taken off.
    fn plus_side(self, side: &Participants, Ghost(steps): Ghost<int>) -> (r: Tally)
        requires
            self.within(steps),
            0 <= steps < 0x100_0000_0000_0000_0000,
        ensures
            r.value() == self.value() + total_reward(side@) - total_pay(side@),
            r.within(steps + 3 * side@.len()),
    {
        let mut tally: Tally = self;
        let mut i: usize = 0;
        assert(side@.take(0) =~= Seq::<EntryView>::empty());
        while i < side.len()
            invariant
                i <= side@.len(),
                0 <= steps < 0x100_0000_0000_0000_0000,
                tally.within(steps + 3 * i),
                tally.value() == self.value() + total_reward(side@.take(i as int)) - total_pay(
                    side@.take(i as int),
                ),
            decreases side@.len() - i,
        {
            proof {
                assert(side@.take(i + 1).drop_last() =~= side@.take(i as int));
                assert(side@.take(i + 1).last() == side@[i as int]);
            }
            let status: &RelayerStatus = side.status_at(i);
            tally = tally.plus(-(status.pay.raw as i128), Ghost(steps + 3 * i));
            tally = tally.plus(status.reward.0.raw as i128, Ghost(steps + 3 * i + 1));
            tally = tally.plus(status.reward.1.raw as i128, Ghost(steps + 3 * i + 2));
            i += 1;
        }
        assert(side@.take(i as int) =~= side@);
        tally
    }
}

impl ChainsStatus {
    /// The ledger at the start of a run of the scenario `c`, its
    /// participants numbered from `first_id` on; or the error of a scenario
    /// that names no target rule. Every challenger is entered as one that is
    /// set to challenge no submission; the challengers of a game of several
    /// are entered with `RelayerStatus::challenger` and `Participants::insert`.
    pub fn from_scenario(c: &ScenarioConfig, first_id: usize) -> (r: Result<ChainsStatus, Error>)
        requires
            first_id + c@.relayers.len() + challengers_of(c@).len() <= usize::MAX,
        ensures
            match c@.target_equation() {
                Ok(_) => r is Ok && r->Ok_0@ == initial_chain(c@, first_id as nat)
                    && r->Ok_0.wf(),
                Err(e) => r is Err && r->Err_0@ == e,
            },
    {
        let target: HalfConfig = match c.get_target_equation() {
            Ok(t) => t,
            Err(e) => {
                return Err(e);
            },
        };
        let relayers: Participants = enroll(&c.relayers, first_id);
        let challengers: Participants = match &c.challengers {
            Some(cs) => enroll(cs, first_id + c.relayers.len()),
            None => {
                let p = Participants::new();
                assert(enrolled(challengers_of(c@), (first_id + c.relayers.len()) as nat)
                    =~= p@);
                p
            },
        };
        let remote: usize = match c.De {
            Some(h) => h,
            None => 100,
        };
        let chain = ChainsStatus {
            darwinia_block_hight: match c.Dd {
                Some(h) => h,
                None => 0,
            },
            ethereum_block_hight: remote,
            relayers,
            challengers,
            submit_target_ethereum_block: target.calculate(0, remote),
            submitions: Vec::new(),
            block_speed_factor: match c.F {
                Some(f) => f,
                None => Decimal::from_raw(2_000_000),
            },
            submit_bond_pool: Decimal::zero(),
            treasury_debt: Decimal::zero(),
        };
        assert(chain@.submitions =~= Seq::<(nat, nat)>::empty());
        Ok(chain)
    }

    /// What the ledger is out by, summed so that nothing can overflow.
    fn tally(&self) -> (all: Tally)
        ensures
            all.value() == self@.imbalance(),
            0 <= all.low < 0x1_0000_0000_0000_0000,
    {
        let zero = Tally { high: 0, low: 0 };
        let pool = zero.plus(self.submit_bond_pool.raw as i128, Ghost(0));
        let net = pool.plus(-(self.treasury_debt.raw as i128), Ghost(1));
        let with_relayers = net.plus_side(&self.relayers, Ghost(2));
        let count: usize = self.relayers.len();
        let ghost steps: int = 2 + 3 * (count as int);
        with_relayers.plus_side(&self.challengers, Ghost(steps))
    }

    /// What the ledger is out by: the pool, less the debt of the treasury,
    /// less all that was paid in, plus all that was paid out. It is zero in
    /// a ledger that balances, and stops at the ends of the range of the
    /// numbers.
    pub fn imbalance(&self) -> (p: Decimal)
        ensures
            p@ == saturate(self@.imbalance()),
    {
        self.tally().saturated()
    }

    /// Makes sure that the ledger balances: that the pool, less the debt of
    /// the treasury, is what the participants have paid in less what they
    /// have been paid. A ledger that does not balance is an error that ends
    /// the run; `imbalance` tells by how much it is out.
    pub fn should_balance(&self) -> (r: Result<(), Error>)
        ensures
            r is Ok <==> self@.imbalance() == 0,
            r is Err ==> r->Err_0@ == ErrorView::UnknownError("System unbalance"@),
    {
        let all: Tally = self.tally();
        if all.high == 0 && all.low == 0 {
            Ok(())
        } else {
            Err(Error::UnknownError("System unbalance"))
        }
    }
}

/// How many columns of a chart `width` columns wide stand for `amount`, if
/// the whole width stands for `whole`: the part of the width that `amount`
/// is of `whole`, rounded down; nothing for a part below zero or of a whole
/// of zero; and never more than the machine word holds.
pub open spec fn bar_length(amount: int, whole: int, width: nat) -> nat {
    let columns = if whole > 0 && amount > 0 {
        (amount * width) / whole
    } else if whole < 0 && amount < 0 {
        (-amount * width) / (-whole)
    } else {
        0
    };
    if columns > usize::MAX {
        usize::MAX as nat
    } else {
        columns as nat
    }
}

impl StatusView {
    /// How often it has submitted, if it has never lied; zero if it has.
    pub open spec fn honest_submit_times(self) -> nat {
        if self.lie {
            0
        } else {
            self.submit_times
        }
    }

    /// What it has received less what it has paid.
    pub open spec fn balance(self) -> int {
        saturate(saturate(self.reward()) - self.pay)
    }

    /// The status in one line: the name, or `ID` and the number; in
    /// brackets, how often it has submitted without ever lying; and the
    /// balance.
    pub open spec fn text(self) -> Seq<char> {
        (match self.name {
            Some(n) => n,
            None => "ID "@ + decimal_digits(self.id),
        }) + "("@ + decimal_digits(self.honest_submit_times()) + "): "@ + decimal_text(
            self.balance(),
        ) + " "@
    }

    /// How many columns of a chart show what it lost, what it won out of
    /// slashed bonds and what it won out of the treasury. One whose rewards
    /// out of slashed bonds do not exceed what it paid is shown with what it
    /// paid as its loss.
    pub open spec fn bars(self, whole: int, width: nat) -> (nat, nat, nat) {
        if self.reward_slash > self.pay {
            (
                0,
                bar_length(saturate(self.reward_slash - self.pay), whole, width),
                bar_length(self.reward_treasury, whole, width),
            )
        } else {
            (bar_length(self.pay, whole, width), 0, 0)
        }
    }

    /// The status as a line of a chart.
    pub open spec fn bar_text(self, whole: int, width: nat) -> Seq<char> {
        " "@ + repeated("-"@, self.bars(whole, width).0) + repeated(
            "+"@,
            self.bars(whole, width).1,
        ) + repeated("*"@, self.bars(whole, width).2) + " "@ + self.text() + "\n"@
    }
}

/// The lines of `entries`, one after the other.
pub open spec fn statuses_text(entries: Seq<EntryView>) -> Seq<char>
    decreases entries.len(),
{
    if entries.len() == 0 {
        Seq::empty()
    } else {
        statuses_text(entries.drop_last()) + entries.last().status.text()
    }
}

/// The chart lines of `entries`, one after the other.
pub open spec fn bars_text(entries: Seq<EntryView>, whole: int, width: nat) -> Seq<char>
    decreases entries.len(),
{
    if entries.len() == 0 {
        Seq::empty()
    } else {
        bars_text(entries.drop_last(), whole, width) + entries.last().status.bar_text(
            whole,
            width,
        )
    }
}

impl ChainView {
    /// The heights, the target and the last round in one line.
    pub open spec fn status_text(self) -> Seq<char> {
        let last = if self.submitions.len() > 0 {
            self.submitions.last()
        } else {
            (0nat, 0nat)
        };
        "ChainsStatus: Darwinia #"@ + decimal_digits(self.darwinia_block_hight)
            + ", Ethereum #"@ + decimal_digits(self.ethereum_block_hight) + ", Submit at Eth(#"@
            + decimal_digits(self.submit_target_ethereum_block) + ") Last relay Eth(#"@
            + decimal_digits(last.1) + ") at #"@ + decimal_digits(last.0) + "\n"@
    }

    /// The whole ledger as text.
    pub open spec fn text(self) -> Seq<char> {
        self.status_text() + statuses_text(self.relayers) + statuses_text(self.challengers)
    }

    /// The chart of all participants, with its legend.
    pub open spec fn bar_chart_text(self, whole: int) -> Seq<char> {
        bars_text(self.relayers, whole, 64) + bars_text(self.challengers, whole, 64)
            + "-: slash, +: reward from slash, *: reward from treasury"@
    }
}

/// `bar_length`, computed.
pub fn bar_columns(amount: Decimal, whole: Decimal, width: usize) -> (columns: usize)
    ensures
        columns as nat == bar_length(amount@, whole@, width as nat),
{
    let same_sign: bool = (whole.raw > 0 && amount.raw > 0) || (whole.raw < 0 && amount.raw < 0);
    if !same_sign {
        return 0;
    }
    let part: i128 = amount.wide_times(width);
    let columns: i128 = if whole.raw > 0 {
        part / (whole.raw as i128)
    } else {
        assert(-(amount@) * width == -(amount@ * width)) by (nonlinear_arith);
        (-part) / (-(whole.raw as i128))
    };
    assert(columns >= 0) by (nonlinear_arith)
        requires
            columns == if whole@ > 0 {
                (amount@ * width) / whole@
            } else {
                (-(amount@ * width)) / (-whole@)
            },
            (whole@ > 0 && amount@ > 0) || (whole@ < 0 && amount@ < 0),
            width >= 0,
    ;
    if columns > usize::MAX as i128 {
        usize::MAX
    } else {
        columns as usize
    }
}

impl RelayerStatus {
    /// The status in one line.
    pub fn to_string(&self) -> (r: String)
        ensures
            r@ == self@.text(),
    {
        let mut r: String = match &self.name {
            Some(n) => n.clone(),
            None => {
                let mut r: String = String::from_str("ID ");
                r.append(number_to_string(self.id as u64).as_str());
                r
            },
        };
        r.append("(");
        r.append(number_to_string(self.get_honest_submit_times() as u64).as_str());
        r.append("): ");
        let balance: Decimal = self.reward().minus(self.pay);
        r.append(balance.to_string().as_str());
        r.append(" ");
        assert(r@ =~= self@.text());
        r
    }

    /// The status as a line of a chart `normalize_width` columns wide, in
    /// which the whole width stands for `normalize_value`: a `-` for each
    /// column lost, a `+` for each column won out of slashed bonds, a `*`
    /// for each column won out of the treasury, and the status.
    pub fn format_to_bar_char(&self, normalize_value: Decimal, normalize_width: usize) -> (r:
        String)
        ensures
            r@ == self@.bar_text(normalize_value@, normalize_width as nat),
    {
        let slash_part: usize;
        let reward_slash_part: usize;
        let reward_treasury_part: usize;
        if self.reward.0.raw > self.pay.raw {
            reward_slash_part =
            bar_columns(self.reward.0.minus(self.pay), normalize_value, normalize_width);
            reward_treasury_part = bar_columns(self.reward.1, normalize_value, normalize_width);
            slash_part = 0;
        } else {
            reward_slash_part = 0;
            reward_treasury_part = 0;
            slash_part = bar_columns(self.pay, normalize_value, normalize_width);
        }
        let mut r: String = String::from_str(" ");
        r.append(repeat_str("-", slash_part).as_str());
        r.append(repeat_str("+", reward_slash_part).as_str());
        r.append(repeat_str("*", reward_treasury_part).as_str());
        r.append(" ");
        r.append(self.to_string().as_str());
        r.append("\n");
        assert(r@ =~= self@.bar_text(normalize_value@, normalize_width as nat));
        r
    }
}

impl Participants {
    /// The lines of all participants, one after the other.
    pub fn to_string(&self) -> (r: String)
        ensures
            r@ == statuses_text(self@),
    {
        let mut r: String = String::from_str("");
        proof {
            reveal_strlit("");
            assert(self@.take(0) =~= Seq::<EntryView>::empty());
            assert(r@ =~= statuses_text(self@.take(0)));
        }
        let mut i: usize = 0;
        while i < self.len()
            invariant
                i <= self@.len(),
                r@ == statuses_text(self@.take(i as int)),
            decreases self@.len() - i,
        {
            proof {
                assert(self@.take(i + 1).drop_last() =~= self@.take(i as int));
                assert(self@.take(i + 1).last() == self@[i as int]);
            }
            r.append(self.status_at(i).to_string().as_str());
            i += 1;
        }
        assert(self@.take(i as int) =~= self@);
        r
    }

    /// The chart lines of all participants, one after the other.
    pub fn to_bar_chart(&self, normalize_value: Decimal, normalize_width: usize) -> (r: String)
        ensures
            r@ == bars_text(self@, normalize_value@, normalize_width as nat),
    {
        let mut r: String = String::from_str("");
        proof {
            reveal_strlit("");
            assert(self@.take(0) =~= Seq::<EntryView>::empty());
            assert(r@ =~= bars_text(self@.take(0), normalize_value@, normalize_width as nat));
        }
        let mut i: usize = 0;
        while i < self.len()
            invariant
                i <= self@.len(),
                r@ == bars_text(self@.take(i as int), normalize_value@, normalize_width as nat),
            decreases self@.len() - i,
        {
            proof {
                assert(self@.take(i + 1).drop_last() =~= self@.take(i as int));
                assert(self@.take(i + 1).last() == self@[i as int]);
            }
            r.append(
                self.status_at(i).format_to_bar_char(normalize_value, normalize_width).as_str(),
            );
            i += 1;
        }
        assert(self@.take(i as int) =~= self@);
        r
    }
}

impl ChainsStatus {
    /// The heights, the target and the last round in one line.
    pub fn fmt_status(&self) -> (r: String)
        ensures
            r@ == self@.status_text(),
    {
        let submition_times: usize = self.submitions.len();
        let last_relayed_block: (usize, usize) = if submition_times > 0 {
            assert(self@.submitions[submition_times - 1] == (
                self.submitions@[submition_times - 1].0 as nat,
                self.submitions@[submition_times - 1].1 as nat,
            ));
            self.submitions[submition_times - 1]
        } else {
            (0, 0)
        };
        let mut r: String = String::from_str("ChainsStatus: Darwinia #");
        r.append(number_to_string(self.darwinia_block_hight as u64).as_str());
        r.append(", Ethereum #");
        r.append(number_to_string(self.ethereum_block_hight as u64).as_str());
        r.append(", Submit at Eth(#");
        r.append(number_to_string(self.submit_target_ethereum_block as u64).as_str());
        r.append(") Last relay Eth(#");
        r.append(number_to_string(last_relayed_block.1 as u64).as_str());
        r.append(") at #");
        r.append(number_to_string(last_relayed_block.0 as u64).as_str());
        r.append("\n");
        assert(r@ =~= self@.status_text());
        r
    }

    /// The lines of the relayers.
    pub fn fmt_relayers_status(&self) -> (r: String)
        ensures
            r@ == statuses_text(self@.relayers),
    {
        self.relayers.to_string()
    }

    /// The lines of the challengers.
    pub fn fmt_challengers_status(&self) -> (r: String)
        ensures
            r@ == statuses_text(self@.challengers),
    {
        self.challengers.to_string()
    }

    /// The chart of all participants, 64 columns standing for
    /// `normalize_value`, with its legend.
    pub fn fmt_relayers_bar_chart(&self, normalize_value: Decimal) -> (r: String)
        ensures
            r@ == self@.bar_chart_text(normalize_value@),
    {
        let mut r: String = self.relayers.to_bar_chart(normalize_value, 64);
        r.append(self.challengers.to_bar_chart(normalize_value, 64).as_str());
        r.append("-: slash, +: reward from slash, *: reward from treasury");
        r
    }

    /// The whole ledger as text.
    pub fn to_string(&self) -> (r: String)
        ensures
            r@ == self@.text(),
    {
        let mut r: String = self.fmt_status();
        r.append(self.fmt_relayers_status().as_str());
        r.append(self.fmt_challengers_status().as_str());
        r
    }
}

/// A key is filed exactly where some line bears it.
pub proof fn lemma_has_key(entries: Seq<EntryView>, key: Seq<char>)
    ensures
        has_key(entries, key) <==> exists|j: int|
            0 <= j < entries.len() && (#[trigger] entries[j]).key == key,
{
    crate::text::lemma_first_index_of(keys_of(entries), key);
    let at = position_of(entries, key);
    if has_key(entries, key) {
        assert(entries[at].key == keys_of(entries)[at]);
    }
    if exists|j: int| 0 <= j < entries.len() && (#[trigger] entries[j]).key == key {
        let j = choose|j: int| 0 <= j < entries.len() && (#[trigger] entries[j]).key == key;
        assert(keys_of(entries)[j] == key);
    }
}

/// Filing a status under a key makes the key known and keeps every key that
/// was known.
pub proof fn lemma_filed_has_keys(
    entries: Seq<EntryView>,
    key: Seq<char>,
    status: StatusView,
    other: Seq<char>,
)
    ensures
        has_key(filed(entries, key, status), key),
        has_key(entries, other) ==> has_key(filed(entries, key, status), other),
{
    let after = filed(entries, key, status);
    let at = position_of(entries, key);
    crate::text::lemma_first_index_of(keys_of(entries), key);
    lemma_has_key(entries, other);
    lemma_has_key(after, other);
    lemma_has_key(after, key);
    if at < entries.len() {
        assert(after[at].key == key);
    } else {
        assert(after[entries.len() as int].key == key);
    }
    if has_key(entries, other) {
        let j = choose|j: int| 0 <= j < entries.len() && (#[trigger] entries[j]).key == other;
        if at < entries.len() && j == at {
            assert(keys_of(entries)[at] == key);
            assert(after[j].key == other);
        } else {
            assert(after[j] == entries[j]);
        }
    }
}

/// Every participant that was entered by name is filed under its name.
pub proof fn lemma_enrolled_has_keys(configs: Seq<RelayerView>, first_id: nat, i: int)
    requires
        0 <= i < configs.len(),
        configs[i].name is Some,
    ensures
        has_key(enrolled(configs, first_id), configs[i].name->0),
    decreases configs.len(),
{
    let status = StatusView::fresh((first_id + configs.len() - 1) as nat, configs.last().name);
    let before = enrolled(configs.drop_last(), first_id);
    if i < configs.len() - 1 {
        lemma_enrolled_has_keys(configs.drop_last(), first_id, i);
    }
    lemma_filed_has_keys(before, status.key(), status, configs[i].name->0);
}

} // verus!
