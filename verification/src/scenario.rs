//! Scenarios: who takes part, how each behaves round by round, and which
//! equations rule the game.

use vstd::prelude::*;
use vstd::string::StrSliceExecFns;
use vstd::string::StringExecFns;
use crate::bond::{BondEquation, LinearConfig as BondLinear};
use crate::challenge::{ChallengeEquation, ConfigValidate, LinearConfig as ChallengeLinear};
use crate::decimal::{parse_spec, Decimal};
use crate::error::{not_a_number, unknown_parameter, Error, ErrorView};
use crate::reward::{RewardEquation, SplitConfig, TreasureLastConfig};
use crate::target::HalfConfig;
use crate::text::{
    ascii_upper, decimal_digits, first_index_of, to_ascii_upper, first_segment, number_to_string, parse_usize,
    parse_usize_spec, second_segment, split_first, split_second, starts_with, str_eq,
    to_unicode_upper, unicode_upper,
};

verus! {

/// A relayer or a challenger as the scenario describes it.
#[derive(Debug, PartialEq, Eq)]
pub struct RelayerConfig {
    /// The name, if it has one.
    pub name: Option<String>,
    /// What it does in each round: `H` submits the truth, `L` lies, `N` does
    /// not answer. Past the end of the text it does not answer either.
    pub choice: String,
}

/// A `RelayerConfig` with its texts as sequences of characters.
pub struct RelayerView {
    pub name: Option<Seq<char>>,
    pub choice: Seq<char>,
}

impl View for RelayerConfig {
    type V = RelayerView;

    open spec fn view(&self) -> RelayerView {
        RelayerView {
            name: match self.name {
                Some(n) => Some(n@),
                None => None,
            },
            choice: self.choice@,
        }
    }
}

impl DeepView for RelayerConfig {
    type V = RelayerView;

    open spec fn deep_view(&self) -> RelayerView {
        self@
    }
}

impl Clone for RelayerConfig {
    fn clone(&self) -> (r: RelayerConfig)
        ensures
            r@ == self@,
    {
        RelayerConfig { name: self.name.clone(), choice: self.choice.clone() }
    }
}

/// Whether every one of `relayers` has a name.
pub open spec fn all_named(relayers: Seq<RelayerView>) -> bool {
    forall|i: int| 0 <= i < relayers.len() ==> (#[trigger] relayers[i]).name is Some
}

/// Whether `r` submits in the round `round`.
pub open spec fn responds(r: RelayerView, round: nat) -> bool {
    round < r.choice.len() && r.choice[round as int] != 'N'
}

/// Who submits in the round `round`, each with whether it lies, in the order
/// of `relayers`.
pub open spec fn round_actions(relayers: Seq<RelayerView>, round: nat) -> Seq<(Seq<char>, bool)>
    decreases relayers.len(),
{
    if relayers.len() == 0 {
        Seq::empty()
    } else {
        let earlier = round_actions(relayers.drop_last(), round);
        let r = relayers.last();
        if responds(r, round) {
            earlier.push((r.name->0, r.choice[round as int] == 'L'))
        } else {
            earlier
        }
    }
}

/// Whether a round `round` is still to come: the script of the first relayer
/// decides how many rounds there are.
pub open spec fn has_round(relayers: Seq<RelayerView>, round: nat) -> bool {
    relayers.len() > 0 && round < relayers[0].choice.len()
}

/// The rounds of a scenario, one set of submissions at a time.
pub struct ScenarioConfigIntoIterator {
    relayers: Vec<RelayerConfig>,
    /// The number of rounds handed out so far.
    pub submit_round: usize,
}

/// What a `ScenarioConfigIntoIterator` holds.
pub struct IteratorView {
    pub relayers: Seq<RelayerView>,
    pub submit_round: nat,
}

impl IteratorView {
    /// What the next call of `next` returns.
    pub open spec fn output(self) -> Option<Seq<(Seq<char>, bool)>> {
        if has_round(self.relayers, self.submit_round) {
            Some(round_actions(self.relayers, self.submit_round))
        } else {
            None
        }
    }

    /// The iterator after the next call of `next`.
    pub open spec fn advanced(self) -> IteratorView {
        if has_round(self.relayers, self.submit_round) {
            IteratorView { submit_round: self.submit_round + 1, ..self }
        } else {
            self
        }
    }

    /// The iterator after `calls` calls of `next`.
    pub open spec fn after(self, calls: nat) -> IteratorView
        decreases calls,
    {
        if calls == 0 {
            self
        } else {
            self.after((calls - 1) as nat).advanced()
        }
    }
}

impl View for ScenarioConfigIntoIterator {
    type V = IteratorView;

    closed spec fn view(&self) -> IteratorView {
        IteratorView {
            relayers: self.relayers.deep_view(),
            submit_round: self.submit_round as nat,
        }
    }
}

impl ScenarioConfigIntoIterator {
    /// An iterator over the rounds of `relayers`, at the first round.
    pub fn new(relayers: Vec<RelayerConfig>) -> (it: ScenarioConfigIntoIterator)
        ensures
            it@ == (IteratorView { relayers: relayers.deep_view(), submit_round: 0 }),
    {
        ScenarioConfigIntoIterator { relayers, submit_round: 0 }
    }

    /// The number of rounds handed out so far.
    pub fn round(&self) -> (n: usize)
        ensures
            n as nat == self@.submit_round,
    {
        self.submit_round
    }

    /// The submissions of the next round, or nothing once the script of the
    /// first relayer is used up. A relayer that does not answer in the round
    /// is left out.
    pub fn next(&mut self) -> (r: Option<Vec<(String, bool)>>)
        requires
            all_named(old(self)@.relayers),
        ensures
            r.deep_view() == old(self)@.output(),
            final(self)@ == old(self)@.advanced(),
    {
        if self.relayers.len() == 0 {
            return None;
        }
        let current_index: usize = self.submit_round;
        if current_index >= self.relayers[0].choice.as_str().unicode_len() {
            return None;
        }
        let ghost views = self.relayers.deep_view();
        let mut out: Vec<(String, bool)> = Vec::new();
        let mut i: usize = 0;
        while i < self.relayers.len()
            invariant
                i <= self.relayers@.len(),
                views == self.relayers.deep_view(),
                all_named(views),
                out.deep_view() == round_actions(views.take(i as int), current_index as nat),
            decreases self.relayers@.len() - i,
        {
            let r: &RelayerConfig = &self.relayers[i];
            assert(views.take(i + 1).drop_last() =~= views.take(i as int));
            assert(views.take(i + 1).last() == r@);
            assert(views[i as int].name is Some);
            let choice: &str = r.choice.as_str();
            if current_index < choice.unicode_len() {
                let c: char = choice.get_char(current_index);
                if c != 'N' {
                    let name: String = match &r.name {
                        Some(n) => n.clone(),
                        None => String::from_str(""),
                    };
                    let ghost before = out.deep_view();
                    out.push((name, c == 'L'));
                    assert(out.deep_view() =~= before.push((r@.name->0, c == 'L')));
                }
            }
            i += 1;
        }
        assert(views.take(i as int) =~= views);
        self.submit_round = current_index + 1;
        Some(out)
    }
}

/// Two iterators that start from the same relayers hand out the same rounds,
/// call after call, and end after the same number of calls.
pub proof fn lemma_iterators_agree(first: IteratorView, second: IteratorView, calls: nat)
    requires
        first.relayers == second.relayers,
        first.submit_round == second.submit_round,
    ensures
        first.after(calls) == second.after(calls),
        first.after(calls).output() == second.after(calls).output(),
    decreases calls,
{
    if calls > 0 {
        lemma_iterators_agree(first, second, (calls - 1) as nat);
    }
}

/// The blocks that were submitted, for a picture of where they lie.
#[derive(Default)]
pub struct RelayPositions {
    /// The block at the left end of the picture.
    pub geneisis: usize,
    /// The submitted blocks, the first of them at the right end.
    pub relay_blocks: Vec<usize>,
}

/// The column of `block` in a picture of 64 columns whose last column is the
/// block `first`. With `first` at zero nothing has a column.
pub open spec fn column_of(block: nat, first: nat) -> nat {
    if first == 0 {
        0
    } else {
        (block * 64) / first
    }
}

/// The column of each of `blocks`.
pub open spec fn columns(blocks: Seq<usize>) -> Seq<nat> {
    Seq::new(blocks.len(), |k: int| column_of(blocks[k] as nat, blocks[0] as nat))
}

/// What stands in the column `column`: the number of the first submission
/// that falls there, counted from one, or `=`.
pub open spec fn cell(blocks: Seq<usize>, column: nat) -> Seq<char> {
    let k = first_index_of(columns(blocks), column);
    if k < blocks.len() {
        decimal_digits((k + 1) as nat)
    } else {
        seq!['=']
    }
}

/// The columns one to `upto`, side by side.
pub open spec fn cells(blocks: Seq<usize>, upto: nat) -> Seq<char>
    decreases upto,
{
    if upto == 0 {
        Seq::empty()
    } else {
        cells(blocks, (upto - 1) as nat) + cell(blocks, upto)
    }
}

/// The picture: `G`, the 64 columns, and an arrow head.
pub open spec fn plot_text(blocks: Seq<usize>) -> Seq<char> {
    seq!['G'] + cells(blocks, 64) + seq!['=', '=', '>']
}

impl RelayPositions {
    /// The column of `block`, computed.
    fn column(block: usize, first: usize) -> (c: u128)
        ensures
            c as nat == column_of(block as nat, first as nat),
    {
        if first == 0 {
            0
        } else {
            assert(block * 64 <= 0xFFFF_FFFF_FFFF_FFFF * 64);
            (block as u128 * 64) / (first as u128)
        }
    }

    /// The first submission in the column `column`, or the number of
    /// submissions if there is none.
    fn first_in_column(&self, column: usize) -> (k: usize)
        ensures
            k as int == first_index_of(columns(self.relay_blocks@), column as nat),
            k <= self.relay_blocks@.len(),
    {
        let ghost all = columns(self.relay_blocks@);
        let mut k: usize = 0;
        while k < self.relay_blocks.len()
            invariant
                k <= self.relay_blocks@.len(),
                all == columns(self.relay_blocks@),
                forall|j: int| 0 <= j < k ==> all[j] != column as nat,
            decreases self.relay_blocks@.len() - k,
        {
            if Self::column(self.relay_blocks[k], self.relay_blocks[0]) == column as u128 {
                proof {
                    crate::text::lemma_first_index_of_unique(all, column as nat, k as int);
                }
                return k;
            }
            k += 1;
        }
        proof {
            crate::text::lemma_first_index_of_unique(all, column as nat, k as int);
        }
        k
    }

    /// A line of text that shows where the submitted blocks lie between the
    /// left end and the first of them.
    pub fn plot(&self) -> (picture: String)
        ensures
            picture@ == plot_text(self.relay_blocks@),
    {
        let mut output: String = String::from_str("G");
        proof {
            reveal_strlit("G");
            assert(output@ =~= seq!['G'] + cells(self.relay_blocks@, 0));
        }
        let mut i: usize = 1;
        while i < 65
            invariant
                1 <= i <= 65,
                output@ == seq!['G'] + cells(self.relay_blocks@, (i - 1) as nat),
            decreases 65 - i,
        {
            let ghost before = output@;
            let k: usize = self.first_in_column(i);
            if k < self.relay_blocks.len() {
                let number: String = number_to_string((k + 1) as u64);
                output.append(number.as_str());
            } else {
                output.append("=");
            }
            assert(output@ =~= seq!['G'] + cells(self.relay_blocks@, i as nat)) by {
                reveal_strlit("=");
                assert("="@ =~= seq!['=']);
                assert(output@ =~= before + cell(self.relay_blocks@, i as nat));
            }
            i += 1;
        }
        output.append("==>");
        assert(output@ =~= plot_text(self.relay_blocks@)) by {
            reveal_strlit("==>");
            assert("==>"@ =~= seq!['=', '=', '>']);
        }
        output
    }
}

/// A scenario: the first heights, the equations that rule the game, and who
/// takes part.
#[allow(non_snake_case)]
#[derive(Debug)]
pub struct ScenarioConfig {
    /// A line to print above the run.
    pub title: Option<String>,
    /// The first height of the local chain; zero if absent.
    pub Dd: Option<usize>,
    /// The first height of the remote chain; 100 if absent.
    pub De: Option<usize>,
    /// How many local blocks are produced for one remote block; two if
    /// absent.
    pub F: Option<Decimal>,
    /// The waiting rule: a number of blocks, or `linear`.
    pub challenge_function: String,
    /// The target rule: `half`.
    pub target_function: String,
    /// The bond rule: an amount, or `linear`.
    pub bond_function: String,
    /// The reward rule: `split` or `treasury_last`.
    pub reward_function: String,
    /// The parameters of the linear waiting rule.
    pub challenge_linear: Option<ChallengeLinear>,
    /// The parameters of the linear bond rule.
    pub bond_linear: Option<BondLinear>,
    /// The parameter of the split reward rule.
    pub reward_split: Option<SplitConfig>,
    /// The parameter of the reward rule that falls back on the treasury.
    pub reward_treasury_last: Option<TreasureLastConfig>,
    /// The relayers. Once the scenario is loaded the first of them is the
    /// relayer of the chain itself, which is always honest.
    pub relayers: Vec<RelayerConfig>,
    /// The challengers, for a game of one relayer against one challenger.
    pub challengers: Option<Vec<RelayerConfig>>,
}

/// A `ScenarioConfig` with its texts as sequences of characters.
#[allow(non_snake_case)]
pub struct ScenarioView {
    pub title: Option<Seq<char>>,
    pub Dd: Option<usize>,
    pub De: Option<usize>,
    pub F: Option<Decimal>,
    pub challenge_function: Seq<char>,
    pub target_function: Seq<char>,
    pub bond_function: Seq<char>,
    pub reward_function: Seq<char>,
    pub challenge_linear: Option<ChallengeLinear>,
    pub bond_linear: Option<BondLinear>,
    pub reward_split: Option<SplitConfig>,
    pub reward_treasury_last: Option<TreasureLastConfig>,
    pub relayers: Seq<RelayerView>,
    pub challengers: Option<Seq<RelayerView>>,
}

impl View for ScenarioConfig {
    type V = ScenarioView;

    open spec fn view(&self) -> ScenarioView {
        ScenarioView {
            title: match self.title {
                Some(t) => Some(t@),
                None => None,
            },
            Dd: self.Dd,
            De: self.De,
            F: self.F,
            challenge_function: self.challenge_function@,
            target_function: self.target_function@,
            bond_function: self.bond_function@,
            reward_function: self.reward_function@,
            challenge_linear: self.challenge_linear,
            bond_linear: self.bond_linear,
            reward_split: self.reward_split,
            reward_treasury_last: self.reward_treasury_last,
            relayers: self.relayers.deep_view(),
            challengers: match self.challengers {
                Some(c) => Some(c.deep_view()),
                None => None,
            },
        }
    }
}

/// A copy of `relayers`.
pub fn clone_relayers(relayers: &Vec<RelayerConfig>) -> (copy: Vec<RelayerConfig>)
    ensures
        copy.deep_view() == relayers.deep_view(),
{
    let mut copy: Vec<RelayerConfig> = Vec::new();
    let mut i: usize = 0;
    while i < relayers.len()
        invariant
            i <= relayers@.len(),
            copy@.len() == i,
            forall|k: int| 0 <= k < i ==> (#[trigger] copy@[k])@ == relayers@[k]@,
        decreases relayers@.len() - i,
    {
        copy.push(relayers[i].clone());
        i += 1;
    }
    assert(copy.deep_view() =~= relayers.deep_view());
    copy
}

/// The waiting rule named by a rule text that reads as the number
/// `constant`, if it reads as one, and whose upper-case form is `upper`,
/// given the linear parameters `linear`, if the scenario has them.
pub open spec fn challenge_choice(
    constant: Option<nat>,
    upper: Seq<char>,
    linear: Option<ChallengeLinear>,
) -> Result<ChallengeEquation, ErrorView> {
    if constant is Some {
        Ok(ChallengeEquation::Constant(constant->0 as usize))
    } else if upper != "LINEAR"@ {
        Err(ErrorView::ParameterError("Challenge function not support"@))
    } else if linear is Some {
        Ok(ChallengeEquation::Linear(linear->0))
    } else {
        Err(ErrorView::ParameterError("lack prameters for specified challenge function"@))
    }
}

/// The bond rule named by a rule text that reads as the amount `constant`,
/// if it reads as one, and whose upper-case form is `upper`.
pub open spec fn bond_choice(
    constant: Option<int>,
    upper: Seq<char>,
    linear: Option<BondLinear>,
) -> Result<BondEquation, ErrorView> {
    if constant is Some {
        Ok(BondEquation::Constant(Decimal { raw: constant->0 as i64 }))
    } else if upper != "LINEAR"@ {
        Err(ErrorView::ParameterError("Bond function not support"@))
    } else if linear is Some {
        Ok(BondEquation::Linear(linear->0))
    } else {
        Err(ErrorView::ParameterError("lack prameters for specified bond function"@))
    }
}

/// The target rule named by a rule text whose upper-case form is `upper`.
pub open spec fn target_choice(upper: Seq<char>) -> Result<HalfConfig, ErrorView> {
    if upper == "HALF"@ {
        Ok(HalfConfig {  })
    } else {
        Err(ErrorView::ParameterError("Target function absent"@))
    }
}

/// The reward rule named by a rule text whose upper-case form is `upper`.
pub open spec fn reward_choice(
    upper: Seq<char>,
    split: Option<SplitConfig>,
    treasury_last: Option<TreasureLastConfig>,
) -> Result<RewardEquation, ErrorView> {
    if upper == "SPLIT"@ {
        if split is Some {
            Ok(RewardEquation::Split(split->0))
        } else {
            Err(ErrorView::ParameterError("lack prameters for specified reward function"@))
        }
    } else if upper == "TREASURY_LAST"@ {
        if treasury_last is Some {
            Ok(RewardEquation::TreasuryLast(treasury_last->0))
        } else {
            Err(ErrorView::ParameterError("lack prameters for specified reward function"@))
        }
    } else {
        Err(ErrorView::ParameterError("Reward function absent"@))
    }
}

/// Whether `r` is the choice `expected`, an error being known by its view.
pub open spec fn is_choice<T>(r: Result<T, Error>, expected: Result<T, ErrorView>) -> bool {
    match r {
        Ok(t) => expected == Ok::<T, ErrorView>(t),
        Err(e) => expected == Err::<T, ErrorView>(e@),
    }
}

/// Selects the waiting rule.
pub fn select_challenge_equation(
    constant: Option<usize>,
    upper: &str,
    linear: Option<ChallengeLinear>,
) -> (r: Result<ChallengeEquation, Error>)
    ensures
        is_choice(
            r,
            challenge_choice(
                match constant {
                    Some(c) => Some(c as nat),
                    None => None,
                },
                upper@,
                linear,
            ),
        ),
{
    if let Some(c) = constant {
        return Ok(ChallengeEquation::Constant(c));
    }
    if !str_eq(upper, "LINEAR") {
        return Err(Error::ParameterError("Challenge function not support"));
    }
    match linear {
        Some(w) => Ok(ChallengeEquation::Linear(w)),
        None => Err(Error::ParameterError("lack prameters for specified challenge function")),
    }
}

/// Selects the bond rule.
pub fn select_bond_equation(constant: Option<Decimal>, upper: &str, linear: Option<BondLinear>) -> (r:
    Result<BondEquation, Error>)
    ensures
        is_choice(
            r,
            bond_choice(
                match constant {
                    Some(c) => Some(c@),
                    None => None,
                },
                upper@,
                linear,
            ),
        ),
{
    if let Some(c) = constant {
        return Ok(BondEquation::Constant(c));
    }
    if !str_eq(upper, "LINEAR") {
        return Err(Error::ParameterError("Bond function not support"));
    }
    match linear {
        Some(f) => Ok(BondEquation::Linear(f)),
        None => Err(Error::ParameterError("lack prameters for specified bond function")),
    }
}

/// Selects the target rule.
pub fn select_target_equation(upper: &str) -> (r: Result<HalfConfig, Error>)
    ensures
        is_choice(r, target_choice(upper@)),
{
    if str_eq(upper, "HALF") {
        Ok(HalfConfig {  })
    } else {
        Err(Error::ParameterError("Target function absent"))
    }
}

/// Selects the reward rule.
pub fn select_reward_equation(
    upper: &str,
    split: Option<SplitConfig>,
    treasury_last: Option<TreasureLastConfig>,
) -> (r: Result<RewardEquation, Error>)
    ensures
        is_choice(r, reward_choice(upper@, split, treasury_last)),
{
    if str_eq(upper, "SPLIT") {
        match split {
            Some(f) => Ok(RewardEquation::Split(f)),
            None => Err(Error::ParameterError("lack prameters for specified reward function")),
        }
    } else if str_eq(upper, "TREASURY_LAST") {
        match treasury_last {
            Some(f) => Ok(RewardEquation::TreasuryLast(f)),
            None => Err(Error::ParameterError("lack prameters for specified reward function")),
        }
    } else {
        Err(Error::ParameterError("Reward function absent"))
    }
}

impl ScenarioView {
    /// The waiting rule of the scenario.
    pub open spec fn challenge_equation(self) -> Result<ChallengeEquation, ErrorView> {
        challenge_choice(
            parse_usize_spec(self.challenge_function),
            unicode_upper(self.challenge_function),
            self.challenge_linear,
        )
    }

    /// The bond rule of the scenario.
    pub open spec fn bond_equation(self) -> Result<BondEquation, ErrorView> {
        bond_choice(
            parse_spec(self.bond_function),
            unicode_upper(self.bond_function),
            self.bond_linear,
        )
    }

    /// The target rule of the scenario.
    pub open spec fn target_equation(self) -> Result<HalfConfig, ErrorView> {
        target_choice(unicode_upper(self.target_function))
    }

    /// The reward rule of the scenario.
    pub open spec fn reward_equation(self) -> Result<RewardEquation, ErrorView> {
        reward_choice(
            unicode_upper(self.reward_function),
            self.reward_split,
            self.reward_treasury_last,
        )
    }
}

impl ScenarioConfig {
    /// An iterator over the rounds of the scenario, which is used up.
    pub fn into_iter(self) -> (it: ScenarioConfigIntoIterator)
        ensures
            it@ == (IteratorView { relayers: self@.relayers, submit_round: 0 }),
    {
        ScenarioConfigIntoIterator::new(self.relayers)
    }

    /// An iterator over the rounds of the scenario. The scenario stays as it
    /// is, so any number of iterators can be made from it.
    pub fn get_iter(&self) -> (it: ScenarioConfigIntoIterator)
        ensures
            it@ == (IteratorView { relayers: self@.relayers, submit_round: 0 }),
    {
        ScenarioConfigIntoIterator::new(clone_relayers(&self.relayers))
    }

    /// The waiting rule: the number that the rule text reads as, or the
    /// linear rule with its parameters.
    pub fn get_challenge_equation(&self) -> (r: Result<ChallengeEquation, Error>)
        ensures
            is_choice(r, self@.challenge_equation()),
    {
        let text: &str = self.challenge_function.as_str();
        let upper: String = to_unicode_upper(text);
        select_challenge_equation(parse_usize(text), upper.as_str(), self.challenge_linear)
    }

    /// The target rule.
    pub fn get_target_equation(&self) -> (r: Result<HalfConfig, Error>)
        ensures
            is_choice(r, self@.target_equation()),
    {
        let upper: String = to_unicode_upper(self.target_function.as_str());
        select_target_equation(upper.as_str())
    }

    /// The bond rule: the amount that the rule text reads as, or the linear
    /// rule with its parameters. A text reads as an amount if it is a plain
    /// decimal numeral with at most six digits after the point. A numeral
    /// with an exponent, with more digits after the point, or one of the
    /// words for infinity and for what is no number does not: such a text
    /// names no constant bond and is looked up as the name of a rule.
    pub fn get_bond_equation(&self) -> (r: Result<BondEquation, Error>)
        ensures
            is_choice(r, self@.bond_equation()),
    {
        let text: &str = self.bond_function.as_str();
        let upper: String = to_unicode_upper(text);
        select_bond_equation(Decimal::parse(text), upper.as_str(), self.bond_linear)
    }

    /// The reward rule with its parameter.
    pub fn get_reward_equation(&self) -> (r: Result<RewardEquation, Error>)
        ensures
            is_choice(r, self@.reward_equation()),
    {
        let upper: String = to_unicode_upper(self.reward_function.as_str());
        select_reward_equation(upper.as_str(), self.reward_split, self.reward_treasury_last)
    }
}

/// The parameters `current` with the one named `para` set to what `value`
/// reads as, checked again; or why that cannot be done.
pub open spec fn patch_params<T: ConfigValidate>(
    current: Option<T>,
    para: Option<Seq<char>>,
    value: Seq<char>,
    no_para: Seq<char>,
    no_config: Seq<char>,
) -> Result<T, ErrorView> {
    if para is None {
        Err(ErrorView::PatchParameterError(no_para))
    } else if current is None {
        Err(ErrorView::PatchParameterError(no_config))
    } else {
        match current->0.patched(para->0, value) {
            None => Err(
                if T::known_key(para->0) {
                    not_a_number()
                } else {
                    unknown_parameter()
                },
            ),
            Some(next) => match next.rejection() {
                Some(m) => Err(ErrorView::ParameterError(m@)),
                None => Ok(next),
            },
        }
    }
}

/// `patch_params`, computed.
pub fn patched_params<T: ConfigValidate + Copy>(
    current: Option<T>,
    para: Option<&str>,
    value: &str,
    no_para: &str,
    no_config: &str,
) -> (r: Result<T, Error>)
    ensures
        is_choice(r, patch_params(current, para.deep_view(), value@, no_para@, no_config@)),
{
    let p: &str = match para {
        Some(p) => p,
        None => {
            return Err(Error::patch(no_para));
        },
    };
    let mut w: T = match current {
        Some(w) => w,
        None => {
            return Err(Error::patch(no_config));
        },
    };
    match w.apply_patch(p, value) {
        Err(e) => {
            return Err(e);
        },
        Ok(_) => {},
    }
    match w.validate() {
        Err(e) => Err(e),
        Ok(_) => Ok(w),
    }
}

impl ScenarioView {
    /// The scenario after the patch `patch`, a text of the form `key=value`;
    /// or why the patch is refused. A key of the form `table.parameter` sets
    /// a parameter of one of the four tables, a key that names a rule text
    /// replaces it, and any other key changes nothing.
    pub open spec fn patched(self, patch: Seq<char>) -> Result<ScenarioView, ErrorView> {
        let k = first_segment(patch, '=');
        match second_segment(patch, '=') {
            None => Err(ErrorView::PatchParameterError(k)),
            Some(value) => {
                let para = second_segment(k, '.');
                if "challenge_linear"@.is_prefix_of(k) {
                    match patch_params(
                        self.challenge_linear,
                        para,
                        value,
                        "parameters of challenge linear are absent"@,
                        "challenge linear absent"@,
                    ) {
                        Ok(w) => Ok(ScenarioView { challenge_linear: Some(w), ..self }),
                        Err(e) => Err(e),
                    }
                } else if "bond_linear"@.is_prefix_of(k) {
                    match patch_params(
                        self.bond_linear,
                        para,
                        value,
                        "parameters of bond linear are absent"@,
                        "bond linear absent"@,
                    ) {
                        Ok(w) => Ok(ScenarioView { bond_linear: Some(w), ..self }),
                        Err(e) => Err(e),
                    }
                } else if "reward_split"@.is_prefix_of(k) {
                    match patch_params(
                        self.reward_split,
                        para,
                        value,
                        "parameter of reward split parameter is absent"@,
                        "reward split config absent"@,
                    ) {
                        Ok(w) => Ok(ScenarioView { reward_split: Some(w), ..self }),
                        Err(e) => Err(e),
                    }
                } else if "reward_treasury_last"@.is_prefix_of(k) {
                    match patch_params(
                        self.reward_treasury_last,
                        para,
                        value,
                        "parameter of reward treasury last model is absent"@,
                        "reward treasury last config absent"@,
                    ) {
                        Ok(w) => Ok(ScenarioView { reward_treasury_last: Some(w), ..self }),
                        Err(e) => Err(e),
                    }
                } else if "challenge_function"@.is_prefix_of(k) {
                    Ok(ScenarioView { challenge_function: value, ..self })
                } else if "bond_function"@.is_prefix_of(k) {
                    Ok(ScenarioView { bond_function: value, ..self })
                } else if "reward_function"@.is_prefix_of(k) {
                    Ok(ScenarioView { reward_function: value, ..self })
                } else {
                    Ok(self)
                }
            },
        }
    }

    /// The scenario after the patches `patches`, applied in their order up to
    /// the first that is refused, and why that one is refused.
    pub open spec fn patched_all(self, patches: Seq<Seq<char>>) -> (ScenarioView, Option<
        ErrorView,
    >)
        decreases patches.len(),
    {
        if patches.len() == 0 {
            (self, None)
        } else {
            let (so_far, failure) = self.patched_all(patches.drop_last());
            if failure is Some {
                (so_far, failure)
            } else {
                match so_far.patched(patches.last()) {
                    Ok(next) => (next, None),
                    Err(e) => (so_far, Some(e)),
                }
            }
        }
    }
}

impl ScenarioConfig {
    /// Applies one patch. A patch that is refused changes nothing.
    pub fn apply_one_patch(&mut self, patch: &str) -> (r: Result<(), Error>)
        ensures
            match old(self)@.patched(patch@) {
                Ok(next) => r is Ok && final(self)@ == next,
                Err(e) => r is Err && r->Err_0@ == e && final(self)@ == old(self)@,
            },
    {
        let k: &str = split_first(patch, '=');
        let v: &str = match split_second(patch, '=') {
            Some(v) => v,
            None => {
                return Err(Error::patch(k));
            },
        };
        let para: Option<&str> = split_second(k, '.');
        if starts_with(k, "challenge_linear") {
            match patched_params(
                self.challenge_linear,
                para,
                v,
                "parameters of challenge linear are absent",
                "challenge linear absent",
            ) {
                Ok(w) => {
                    self.challenge_linear = Some(w);
                },
                Err(e) => {
                    return Err(e);
                },
            }
        } else if starts_with(k, "bond_linear") {
            match patched_params(
                self.bond_linear,
                para,
                v,
                "parameters of bond linear are absent",
                "bond linear absent",
            ) {
                Ok(w) => {
                    self.bond_linear = Some(w);
                },
                Err(e) => {
                    return Err(e);
                },
            }
        } else if starts_with(k, "reward_split") {
            match patched_params(
                self.reward_split,
                para,
                v,
                "parameter of reward split parameter is absent",
                "reward split config absent",
            ) {
                Ok(w) => {
                    self.reward_split = Some(w);
                },
                Err(e) => {
                    return Err(e);
                },
            }
        } else if starts_with(k, "reward_treasury_last") {
            match patched_params(
                self.reward_treasury_last,
                para,
                v,
                "parameter of reward treasury last model is absent",
                "reward treasury last config absent",
            ) {
                Ok(w) => {
                    self.reward_treasury_last = Some(w);
                },
                Err(e) => {
                    return Err(e);
                },
            }
        } else if starts_with(k, "challenge_function") {
            self.challenge_function = String::from_str(v);
        } else if starts_with(k, "bond_function") {
            self.bond_function = String::from_str(v);
        } else if starts_with(k, "reward_function") {
            self.reward_function = String::from_str(v);
        }
        Ok(())
    }

    /// Applies the patches in their order and stops at the first that is
    /// refused; the patches before it stay applied.
    pub fn apply_patch(&mut self, patches: Vec<&str>) -> (r: Result<(), Error>)
        ensures
            final(self)@ == old(self)@.patched_all(patches.deep_view()).0,
            match r {
                Ok(_) => old(self)@.patched_all(patches.deep_view()).1 is None,
                Err(e) => old(self)@.patched_all(patches.deep_view()).1 == Some(e@),
            },
    {
        let ghost start = self@;
        let ghost all = patches.deep_view();
        let mut i: usize = 0;
        assert(all.take(0) =~= Seq::<Seq<char>>::empty());
        while i < patches.len()
            invariant
                i <= patches@.len(),
                all == patches.deep_view(),
                start == old(self)@,
                start.patched_all(all.take(i as int)) == (self@, None::<ErrorView>),
            decreases patches@.len() - i,
        {
            assert(all.take(i + 1).drop_last() =~= all.take(i as int));
            assert(all.take(i + 1).last() == patches@[i as int]@);
            let ghost before = self@;
            match self.apply_one_patch(patches[i]) {
                Err(e) => {
                    proof {
                        assert(start.patched_all(all.take(i + 1)) == (before, Some(e@)));
                        lemma_patched_all_stops(start, all, i + 1);
                    }
                    return Err(e);
                },
                Ok(_) => {},
            }
            i += 1;
        }
        assert(all.take(i as int) =~= all);
        Ok(())
    }
}

/// Once a patch has been refused, the patches after it change nothing.
pub proof fn lemma_patched_all_stops(start: ScenarioView, patches: Seq<Seq<char>>, upto: int)
    requires
        0 <= upto <= patches.len(),
        start.patched_all(patches.take(upto)).1 is Some,
    ensures
        start.patched_all(patches) == start.patched_all(patches.take(upto)),
    decreases patches.len(),
{
    if upto == patches.len() {
        assert(patches.take(upto) =~= patches);
    } else {
        assert(patches.drop_last().take(upto) =~= patches.take(upto));
        lemma_patched_all_stops(start, patches.drop_last(), upto);
    }
}

/// Whether `c` is one of the three answers of a relayer.
pub open spec fn is_answer(c: char) -> bool {
    c == 'H' || c == 'L' || c == 'N'
}

/// Whether `choice` holds answers of a relayer only.
pub open spec fn valid_script(choice: Seq<char>) -> bool {
    forall|i: int| 0 <= i < choice.len() ==> is_answer(#[trigger] choice[i])
}

/// The name given to the relayer at `index` if the scenario gives it none.
pub open spec fn default_name(index: nat) -> Seq<char> {
    seq![' '] + decimal_digits(index)
}

/// The relayer at `index` as a loaded scenario holds it: named, and with its
/// script in upper case.
pub open spec fn normalized(r: RelayerView, index: nat) -> RelayerView {
    RelayerView {
        name: Some(
            match r.name {
                Some(n) => n,
                None => default_name(index),
            },
        ),
        choice: ascii_upper(r.choice),
    }
}

/// The relayers as a loaded scenario holds them.
pub open spec fn normalized_all(relayers: Seq<RelayerView>) -> Seq<RelayerView> {
    Seq::new(relayers.len(), |i: int| normalized(relayers[i], i as nat))
}

/// Why the relayer `r` is refused, if it is. `reserved` says whether its name
/// is the reserved one.
pub open spec fn relayer_rejection(r: RelayerView, reserved: bool) -> Option<Seq<char>> {
    if r.name is Some && reserved {
        Some("Darwinia relayer alway honest, you do not need modify it"@)
    } else if !valid_script(ascii_upper(r.choice)) {
        Some("relayer chose must be 'H', 'L', 'N'"@)
    } else {
        None
    }
}

/// Why the first of `relayers` that is refused is refused.
pub open spec fn relayers_rejection(relayers: Seq<RelayerView>, reserved: Seq<bool>) -> Option<
    Seq<char>,
>
    decreases relayers.len(),
{
    if relayers.len() == 0 {
        None
    } else {
        match relayers_rejection(relayers.drop_last(), reserved) {
            Some(m) => Some(m),
            None => relayer_rejection(relayers.last(), reserved[relayers.len() - 1]),
        }
    }
}

/// The length of the longest script among `relayers`.
pub open spec fn longest_script(relayers: Seq<RelayerView>) -> nat
    decreases relayers.len(),
{
    if relayers.len() == 0 {
        0
    } else {
        let earlier = longest_script(relayers.drop_last());
        if relayers.last().choice.len() > earlier {
            relayers.last().choice.len()
        } else {
            earlier
        }
    }
}

/// For each relayer, whether it has a name whose upper-case form is the
/// reserved name.
pub open spec fn reserved_flags(relayers: Seq<RelayerView>) -> Seq<bool> {
    Seq::new(
        relayers.len(),
        |i: int| relayers[i].name is Some && unicode_upper(relayers[i].name->0) == "DARWINIA"@,
    )
}

/// The relayer of the chain itself: honest in each of `rounds` rounds.
pub open spec fn baseline(rounds: nat) -> RelayerView {
    RelayerView { name: Some("Darwinia"@), choice: Seq::new(rounds, |i: int| 'H') }
}

/// Why the answer `c` of a challenger in the round `i` is refused, if it is:
/// the relayer must have an answer in that round, `0` must meet a lie and `1`
/// the truth.
pub open spec fn answer_rejection(c: char, relayer: Seq<char>, i: int) -> Option<Seq<char>> {
    if i >= relayer.len() {
        Some("currently we are not support that challenger does not challenge to relayer"@)
    } else if c == '0' {
        if relayer[i] != 'L' {
            Some("currently we are not support challenger to lie"@)
        } else {
            None
        }
    } else if c == '1' {
        if relayer[i] != 'H' {
            Some("currently we are not support challenger to lie"@)
        } else {
            None
        }
    } else {
        Some("challenger chose must be '0', '1'"@)
    }
}

/// Why the first answer of `challenger` that is refused is refused.
pub open spec fn challenge_rejection(challenger: Seq<char>, relayer: Seq<char>) -> Option<
    Seq<char>,
>
    decreases challenger.len(),
{
    if challenger.len() == 0 {
        None
    } else {
        match challenge_rejection(challenger.drop_last(), relayer) {
            Some(m) => Some(m),
            None => answer_rejection(challenger.last(), relayer, challenger.len() - 1),
        }
    }
}

/// Why a game with challengers is refused, if it is: it takes one relayer and
/// at most one challenger, whose answers must fit those of the relayer.
pub open spec fn challengers_rejection(
    challengers: Seq<RelayerView>,
    relayers: Seq<RelayerView>,
) -> Option<Seq<char>> {
    if challengers.len() > 1 || relayers.len() != 1 {
        Some(
            "current we only support the scenario for one relayer and one challenger in relayer-challenger mode"@,
        )
    } else if challengers.len() == 1 {
        challenge_rejection(challengers[0].choice, relayers[0].choice)
    } else {
        None
    }
}

impl ScenarioView {
    /// Why the parameters of the equations are refused, if they are: the
    /// first of the four tables that is there and out of range decides, the
    /// linear waiting rule being looked at first, then the linear bond rule,
    /// the split rule and the rule that falls back on the treasury.
    pub open spec fn parameters_rejection(self) -> Option<Seq<char>> {
        if self.challenge_linear is Some && self.challenge_linear->0.rejection() is Some {
            Some(self.challenge_linear->0.rejection()->0@)
        } else if self.bond_linear is Some && self.bond_linear->0.rejection() is Some {
            Some(self.bond_linear->0.rejection()->0@)
        } else if self.reward_split is Some && self.reward_split->0.rejection() is Some {
            Some(self.reward_split->0.rejection()->0@)
        } else if self.reward_treasury_last is Some
            && self.reward_treasury_last->0.rejection() is Some {
            Some(self.reward_treasury_last->0.rejection()->0@)
        } else {
            None
        }
    }

    /// The scenario as it is after loading, or why it is refused. `reserved`
    /// says of each relayer whether its name is the reserved one.
    ///
    /// The parameters of the equations are checked, then the relayers one by
    /// one. A loaded scenario has the waiting rule and the scripts in upper
    /// case and every relayer named. Without challengers the relayer of the
    /// chain itself is put before the others, with a script one round longer
    /// than the longest of theirs.
    pub open spec fn loaded(self, reserved: Seq<bool>) -> Result<ScenarioView, ErrorView> {
        let relayers = normalized_all(self.relayers);
        let upper = ascii_upper(self.challenge_function);
        if self.parameters_rejection() is Some {
            Err(ErrorView::ParameterError(self.parameters_rejection()->0))
        } else if relayers_rejection(self.relayers, reserved) is Some {
            Err(ErrorView::ParameterError(relayers_rejection(self.relayers, reserved)->0))
        } else if self.challengers is Some {
            match challengers_rejection(self.challengers->0, relayers) {
                Some(m) => Err(ErrorView::ParameterError(m)),
                None => Ok(ScenarioView { challenge_function: upper, relayers, ..self }),
            }
        } else if longest_script(self.relayers) >= usize::MAX {
            Err(ErrorView::ParameterError("relayer chose is too long"@))
        } else {
            Ok(
                ScenarioView {
                    challenge_function: upper,
                    relayers: seq![baseline(longest_script(self.relayers) + 1)] + relayers,
                    ..self
                },
            )
        }
    }
}

/// Whether `r` is the outcome `expected`, both taken by their views.
pub open spec fn is_outcome(
    r: Result<ScenarioConfig, Error>,
    expected: Result<ScenarioView, ErrorView>,
) -> bool {
    match r {
        Ok(c) => expected == Ok::<ScenarioView, ErrorView>(c@),
        Err(e) => expected == Err::<ScenarioView, ErrorView>(e@),
    }
}

/// Once a relayer has been refused, the relayers after it change nothing.
pub proof fn lemma_relayers_rejection_stops(
    relayers: Seq<RelayerView>,
    reserved: Seq<bool>,
    upto: int,
)
    requires
        0 <= upto <= relayers.len(),
        relayers_rejection(relayers.take(upto), reserved) is Some,
    ensures
        relayers_rejection(relayers, reserved) == relayers_rejection(
            relayers.take(upto),
            reserved,
        ),
    decreases relayers.len(),
{
    if upto == relayers.len() {
        assert(relayers.take(upto) =~= relayers);
    } else {
        assert(relayers.drop_last().take(upto) =~= relayers.take(upto));
        lemma_relayers_rejection_stops(relayers.drop_last(), reserved, upto);
    }
}

/// Once an answer of a challenger has been refused, the answers after it
/// change nothing.
pub proof fn lemma_challenge_rejection_stops(
    challenger: Seq<char>,
    relayer: Seq<char>,
    upto: int,
)
    requires
        0 <= upto <= challenger.len(),
        challenge_rejection(challenger.take(upto), relayer) is Some,
    ensures
        challenge_rejection(challenger, relayer) == challenge_rejection(
            challenger.take(upto),
            relayer,
        ),
    decreases challenger.len(),
{
    if upto == challenger.len() {
        assert(challenger.take(upto) =~= challenger);
    } else {
        assert(challenger.drop_last().take(upto) =~= challenger.take(upto));
        lemma_challenge_rejection_stops(challenger.drop_last(), relayer, upto);
    }
}

/// Whether `choice` holds answers of a relayer only.
pub fn script_is_valid(choice: &str) -> (ok: bool)
    ensures
        ok == valid_script(choice@),
{
    let n: usize = choice.unicode_len();
    let mut i: usize = 0;
    while i < n
        invariant
            n == choice@.len(),
            i <= n,
            forall|k: int| 0 <= k < i ==> is_answer(#[trigger] choice@[k]),
        decreases n - i,
    {
        let c: char = choice.get_char(i);
        if c != 'H' && c != 'L' && c != 'N' {
            return false;
        }
        i += 1;
    }
    true
}

/// Why the answers of a challenger are refused, if they are.
pub fn check_challenge(challenger: &str, relayer: &str) -> (r: Option<&'static str>)
    ensures
        r.deep_view() == challenge_rejection(challenger@, relayer@),
{
    let n: usize = challenger.unicode_len();
    let m: usize = relayer.unicode_len();
    let mut i: usize = 0;
    assert(challenger@.take(0) =~= Seq::<char>::empty());
    while i < n
        invariant
            n == challenger@.len(),
            m == relayer@.len(),
            i <= n,
            challenge_rejection(challenger@.take(i as int), relayer@) is None,
        decreases n - i,
    {
        let c: char = challenger.get_char(i);
        assert(challenger@.take(i + 1).drop_last() =~= challenger@.take(i as int));
        assert(challenger@.take(i + 1).last() == c);
        let found: Option<&'static str> = if i >= m {
            Some("currently we are not support that challenger does not challenge to relayer")
        } else if c == '0' {
            if relayer.get_char(i) != 'L' {
                Some("currently we are not support challenger to lie")
            } else {
                None
            }
        } else if c == '1' {
            if relayer.get_char(i) != 'H' {
                Some("currently we are not support challenger to lie")
            } else {
                None
            }
        } else {
            Some("challenger chose must be '0', '1'")
        };
        assert(found.deep_view() == answer_rejection(c, relayer@, i as int));
        if found.is_some() {
            proof {
                lemma_challenge_rejection_stops(challenger@, relayer@, i + 1);
            }
            return found;
        }
        i += 1;
    }
    assert(challenger@.take(i as int) =~= challenger@);
    None
}

/// The text of `rounds` honest answers.
pub fn honest_script(rounds: usize) -> (script: String)
    ensures
        script@ == Seq::new(rounds as nat, |i: int| 'H'),
{
    let mut script: String = String::from_str("");
    proof {
        reveal_strlit("");
        assert(script@ =~= Seq::new(0, |i: int| 'H'));
    }
    let mut i: usize = 0;
    while i < rounds
        invariant
            i <= rounds,
            script@ == Seq::new(i as nat, |k: int| 'H'),
        decreases rounds - i,
    {
        script.append("H");
        proof {
            reveal_strlit("H");
            assert(script@ =~= Seq::new((i + 1) as nat, |k: int| 'H'));
        }
        i += 1;
    }
    script
}

/// For each relayer, whether it has a name whose upper-case form is the
/// reserved name.
pub fn reserved_names(relayers: &Vec<RelayerConfig>) -> (flags: Vec<bool>)
    ensures
        flags@ == reserved_flags(relayers.deep_view()),
{
    let mut flags: Vec<bool> = Vec::new();
    let mut i: usize = 0;
    while i < relayers.len()
        invariant
            i <= relayers@.len(),
            flags@.len() == i,
            forall|k: int|
                0 <= k < i ==> flags@[k] == (relayers@[k]@.name is Some && unicode_upper(
                    relayers@[k]@.name->0,
                ) == "DARWINIA"@),
        decreases relayers@.len() - i,
    {
        let flag: bool = match &relayers[i].name {
            Some(n) => {
                let upper: String = to_unicode_upper(n.as_str());
                str_eq(upper.as_str(), "DARWINIA")
            },
            None => false,
        };
        flags.push(flag);
        i += 1;
    }
    assert(flags@ =~= reserved_flags(relayers.deep_view()));
    flags
}

/// The relayers as a loaded scenario holds them, with the length of their
/// longest script; or why one of them is refused.
pub fn normalize_relayers(relayers: &Vec<RelayerConfig>, reserved: &Vec<bool>) -> (r: Result<
    (Vec<RelayerConfig>, usize),
    &'static str,
>)
    requires
        reserved@.len() == relayers@.len(),
    ensures
        match relayers_rejection(relayers.deep_view(), reserved@) {
            Some(m) => r is Err && r->Err_0@ == m,
            None => r is Ok && r->Ok_0.0.deep_view() == normalized_all(relayers.deep_view())
                && r->Ok_0.1 as nat == longest_script(relayers.deep_view()),
        },
{
    let ghost views = relayers.deep_view();
    let mut out: Vec<RelayerConfig> = Vec::new();
    let mut longest: usize = 0;
    let mut i: usize = 0;
    assert(views.take(0) =~= Seq::<RelayerView>::empty());
    while i < relayers.len()
        invariant
            i <= relayers@.len(),
            reserved@.len() == relayers@.len(),
            views == relayers.deep_view(),
            out@.len() == i,
            forall|k: int| 0 <= k < i ==> (#[trigger] out@[k])@ == normalized(views[k], k as nat),
            relayers_rejection(views.take(i as int), reserved@) is None,
            longest as nat == longest_script(views.take(i as int)),
        decreases relayers@.len() - i,
    {
        let r: &RelayerConfig = &relayers[i];
        assert(views.take(i + 1).drop_last() =~= views.take(i as int));
        assert(views.take(i + 1).last() == r@);
        let name: String = match &r.name {
            Some(n) => {
                if reserved[i] {
                    proof {
                        lemma_relayers_rejection_stops(views, reserved@, i + 1);
                    }
                    return Err("Darwinia relayer alway honest, you do not need modify it");
                }
                n.clone()
            },
            None => {
                let mut n: String = String::from_str(" ");
                let digits: String = number_to_string(i as u64);
                n.append(digits.as_str());
                proof {
                    reveal_strlit(" ");
                    assert(n@ =~= default_name(i as nat));
                }
                n
            },
        };
        let choice: String = to_ascii_upper(r.choice.as_str());
        if !script_is_valid(choice.as_str()) {
            proof {
                lemma_relayers_rejection_stops(views, reserved@, i + 1);
            }
            return Err("relayer chose must be 'H', 'L', 'N'");
        }
        let len: usize = choice.as_str().unicode_len();
        if len > longest {
            longest = len;
        }
        out.push(RelayerConfig { name: Some(name), choice });
        i += 1;
    }
    assert(views.take(i as int) =~= views);
    assert(out.deep_view() =~= normalized_all(views));
    Ok((out, longest))
}

impl ScenarioConfig {
    /// Why the parameters of the equations are refused, if they are.
    pub fn check_parameters(&self) -> (r: Result<(), Error>)
        ensures
            match self@.parameters_rejection() {
                Some(m) => r is Err && r->Err_0@ == ErrorView::ParameterError(m),
                None => r is Ok,
            },
    {
        if let Some(w) = self.challenge_linear {
            if let Err(e) = w.validate() {
                return Err(e);
            }
        }
        if let Some(f) = self.bond_linear {
            if let Err(e) = f.validate() {
                return Err(e);
            }
        }
        if let Some(s) = self.reward_split {
            if let Err(e) = s.validate() {
                return Err(e);
            }
        }
        if let Some(t) = self.reward_treasury_last {
            if let Err(e) = t.validate() {
                return Err(e);
            }
        }
        Ok(())
    }

    /// Checks and completes a scenario that was read from its file, given for
    /// each relayer whether its name is the reserved one.
    pub fn load_with(self, reserved: Vec<bool>) -> (r: Result<ScenarioConfig, Error>)
        requires
            reserved@.len() == self@.relayers.len(),
        ensures
            is_outcome(r, self@.loaded(reserved@)),
    {
        if let Err(e) = self.check_parameters() {
            return Err(e);
        }
        let (relayers, longest) = match normalize_relayers(&self.relayers, &reserved) {
            Ok(pair) => pair,
            Err(m) => {
                return Err(Error::ParameterError(m));
            },
        };
        let upper: String = to_ascii_upper(self.challenge_function.as_str());
        let ghost start = self@;
        match &self.challengers {
            Some(cs) => {
                if cs.len() > 1 || relayers.len() != 1 {
                    return Err(
                        Error::ParameterError(
                            "current we only support the scenario for one relayer and one challenger in relayer-challenger mode",
                        ),
                    );
                }
                if cs.len() == 1 {
                    assert(cs.deep_view()[0] == cs@[0]@);
                    assert(relayers.deep_view()[0] == relayers@[0]@);
                    if let Some(m) = check_challenge(
                        cs[0].choice.as_str(),
                        relayers[0].choice.as_str(),
                    ) {
                        return Err(Error::ParameterError(m));
                    }
                }
                let done = ScenarioConfig { challenge_function: upper, relayers, ..self };
                assert(done@ == start.loaded(reserved@)->Ok_0);
                Ok(done)
            },
            None => {
                if longest == usize::MAX {
                    return Err(Error::ParameterError("relayer chose is too long"));
                }
                let mut all: Vec<RelayerConfig> = Vec::new();
                all.push(
                    RelayerConfig {
                        name: Some(String::from_str("Darwinia")),
                        choice: honest_script(longest + 1),
                    },
                );
                let mut relayers = relayers;
                let ghost rest = relayers.deep_view();
                all.append(&mut relayers);
                assert(all.deep_view() =~= seq![baseline((longest + 1) as nat)] + rest);
                let done = ScenarioConfig { challenge_function: upper, relayers: all, ..self };
                assert(done@ == start.loaded(reserved@)->Ok_0);
                Ok(done)
            },
        }
    }

    /// Checks and completes a scenario that was read from its file. A relayer
    /// may not bear the name of the relayer of the chain itself, in any
    /// mixture of upper and lower case.
    pub fn load(self) -> (r: Result<ScenarioConfig, Error>)
        ensures
            is_outcome(r, self@.loaded(reserved_flags(self@.relayers))),
    {
        let reserved: Vec<bool> = reserved_names(&self.relayers);
        self.load_with(reserved)
    }
}

/// Where no relayer is refused, none of them is.
pub proof fn lemma_relayers_accepted(relayers: Seq<RelayerView>, reserved: Seq<bool>, i: int)
    requires
        relayers_rejection(relayers, reserved) is None,
        0 <= i < relayers.len(),
    ensures
        relayer_rejection(relayers[i], reserved[i]) is None,
    decreases relayers.len(),
{
    if i < relayers.len() - 1 {
        lemma_relayers_accepted(relayers.drop_last(), reserved, i);
    }
}

/// In a loaded scenario every relayer has a name and a script of answers.
/// Without challengers the relayer of the chain itself stands first, with a
/// script one round longer than the longest of the others; with challengers
/// there is one relayer and at most one challenger.
pub proof fn lemma_loaded_is_valid(c: ScenarioView, reserved: Seq<bool>)
    requires
        c.loaded(reserved) is Ok,
    ensures
        all_named(c.loaded(reserved)->Ok_0.relayers),
        forall|i: int|
            0 <= i < c.loaded(reserved)->Ok_0.relayers.len() ==> valid_script(
                (#[trigger] c.loaded(reserved)->Ok_0.relayers[i]).choice,
            ),
        c.challengers is None ==> c.loaded(reserved)->Ok_0.relayers.len() == c.relayers.len() + 1
            && c.loaded(reserved)->Ok_0.relayers[0].name == Some("Darwinia"@)
            && c.loaded(reserved)->Ok_0.relayers[0].choice.len() == longest_script(c.relayers)
            + 1,
        c.challengers is Some ==> c.loaded(reserved)->Ok_0.relayers.len() == 1
            && c.challengers->0.len() <= 1,
{
    let relayers = c.loaded(reserved)->Ok_0.relayers;
    let named = normalized_all(c.relayers);
    assert forall|i: int| 0 <= i < relayers.len() implies (#[trigger] relayers[i]).name is Some
        && valid_script(relayers[i].choice) by {
        if c.challengers is Some {
            assert(relayers[i] == named[i]);
            lemma_relayers_accepted(c.relayers, reserved, i);
        } else if i > 0 {
            assert(relayers[i] == named[i - 1]);
            lemma_relayers_accepted(c.relayers, reserved, i - 1);
        }
    }
}

} // verus!
