use relayer_game::chain::{ChainsStatus, Participants, RelayerStatus, Reward, RewardFrom};
use relayer_game::challenge::LinearConfig as ChallengeLinear;
use relayer_game::decimal::Decimal;
use relayer_game::error::Error;
use relayer_game::reward::SplitConfig;
use relayer_game::scenario::{RelayerConfig, ScenarioConfig};

fn money(text: &str) -> Decimal {
    Decimal::parse(text).unwrap()
}

fn participant(name: &str, choice: &str) -> RelayerConfig {
    RelayerConfig { name: Some(name.to_string()), choice: choice.to_string() }
}

fn evil_scenario() -> ScenarioConfig {
    ScenarioConfig {
        title: None,
        Dd: Some(100),
        De: Some(1000),
        F: None,
        challenge_function: "linear".to_string(),
        target_function: "half".to_string(),
        bond_function: "10.0".to_string(),
        reward_function: "split".to_string(),
        challenge_linear: Some(ChallengeLinear {
            Wd: money("0.0"),
            We: money("0.0"),
            C: 1,
            Md: 100,
            Me: 100,
        }),
        bond_linear: None,
        reward_split: Some(SplitConfig { P: money("0.5") }),
        reward_treasury_last: None,
        relayers: vec![participant("Evil", "L")],
        challengers: None,
    }
}

fn evil_chain() -> ChainsStatus {
    let c = evil_scenario().load().unwrap();
    ChainsStatus::from_scenario(&c, 0).unwrap()
}

#[test]
fn test_chain_status_from_scenario_config_with_submit_by_replysers() {
    let mut c: ChainsStatus = evil_chain();
    assert_eq!(c.relayers.get("Darwinia").unwrap().lie, false);
    c.submit_by("Evil".to_string(), money("10.0"), true);
    c.should_balance().unwrap();
    c.submit_by("Darwinia".to_string(), money("10.0"), false);
    c.should_balance().unwrap();
    c.submit_by("Darwinia".to_string(), money("10.0"), false);
    c.should_balance().unwrap();
    assert_eq!(c.submit_bond_pool, money("30.0"));
    c.reward(vec![Reward {
        from: RewardFrom::Slash,
        to: "Darwinia".to_string(),
        value: money("30.0"),
    }]);
    c.should_balance().unwrap();
    assert_eq!(c.relayers.get("Evil").unwrap().reward(), money("0.0"));
    assert_eq!(c.relayers.get("Darwinia").unwrap().reward(), money("30.0"));
}

#[test]
fn test_chain_status_from_scenario_config() {
    let mut c: ChainsStatus = evil_chain();
    assert_eq!(c.relayers.get("Darwinia").unwrap().lie, false);
    c.submit(
        vec![("Evil".to_string(), true), ("Darwinia".to_string(), false)],
        money("10.0"),
        50,
        500,
    );
    c.should_balance().unwrap();
    c.submit(vec![("Darwinia".to_string(), false)], money("10.0"), 50, 250);
    c.should_balance().unwrap();
    assert_eq!(c.submit_bond_pool, money("30.0"));
    c.reward(vec![Reward {
        from: RewardFrom::Slash,
        to: "Darwinia".to_string(),
        value: money("30.0"),
    }]);
    c.should_balance().unwrap();
    assert_eq!(c.relayers.get("Evil").unwrap().reward(), money("0.0"));
    assert_eq!(c.relayers.get("Darwinia").unwrap().reward(), money("30.0"));
}

#[test]
fn a_new_ledger_takes_its_heights_from_the_scenario() {
    let c = evil_chain();
    assert_eq!(c.darwinia_block_hight, 100);
    assert_eq!(c.ethereum_block_hight, 1000);
    assert_eq!(c.submit_target_ethereum_block, 500);
    assert_eq!(c.block_speed_factor, money("2"));
    assert_eq!(c.submit_bond_pool, money("0"));
    assert_eq!(c.treasury_debt, money("0"));
    assert!(c.submitions.is_empty());
    assert_eq!(c.relayers.len(), 2);
    assert_eq!(c.challengers.len(), 0);
    assert_eq!(c.relayers.get("Darwinia").unwrap().id, 0);
    assert_eq!(c.relayers.get("Evil").unwrap().id, 1);
    c.should_balance().unwrap();
}

#[test]
fn a_new_ledger_has_defaults_for_what_the_scenario_leaves_out() {
    let mut s = evil_scenario();
    s.Dd = None;
    s.De = None;
    s.F = Some(money("0.5"));
    let c = ChainsStatus::from_scenario(&s, 7).unwrap();
    assert_eq!(c.darwinia_block_hight, 0);
    assert_eq!(c.ethereum_block_hight, 100);
    assert_eq!(c.submit_target_ethereum_block, 50);
    assert_eq!(c.block_speed_factor, money("0.5"));
    assert_eq!(c.relayers.get("Evil").unwrap().id, 7);
}

#[test]
fn a_ledger_needs_a_target_rule() {
    let mut s = evil_scenario();
    s.target_function = "quarter".to_string();
    assert_eq!(
        ChainsStatus::from_scenario(&s, 0).err(),
        Some(Error::ParameterError("Target function absent"))
    );
}

#[test]
fn participants_without_a_name_are_filed_under_their_number() {
    let mut s = evil_scenario();
    s.relayers.push(RelayerConfig { name: None, choice: "H".to_string() });
    s.challengers = Some(vec![RelayerConfig { name: None, choice: "0".to_string() }]);
    let c = ChainsStatus::from_scenario(&s, 10).unwrap();
    assert_eq!(c.relayers.get(" 11").unwrap().id, 11);
    assert_eq!(c.relayers.get(" 11").unwrap().name, None);
    assert_eq!(c.challengers.get(" 12").unwrap().id, 12);
    assert!(c.relayers.get(" 12").is_none());
}

#[test]
fn a_later_participant_of_the_same_name_takes_the_place() {
    let mut s = evil_scenario();
    s.relayers.push(participant("Evil", "H"));
    let c = ChainsStatus::from_scenario(&s, 0).unwrap();
    assert_eq!(c.relayers.len(), 1);
    assert_eq!(c.relayers.get("Evil").unwrap().id, 1);
}

#[test]
fn a_round_moves_both_chains_and_enters_the_history() {
    let mut c = evil_chain();
    c.submit(vec![("Evil".to_string(), true)], money("2.5"), 51, 250);
    assert_eq!(c.submitions, vec![(100, 500)]);
    assert_eq!(c.darwinia_block_hight, 151);
    assert_eq!(c.ethereum_block_hight, 1025);
    assert_eq!(c.submit_target_ethereum_block, 250);
    let evil = c.relayers.get("Evil").unwrap();
    assert_eq!(evil.pay, money("2.5"));
    assert_eq!(evil.submit_times, 1);
    assert_eq!(evil.lie, true);
    assert_eq!(evil.get_honest_submit_times(), 0);
    let honest = c.relayers.get("Darwinia").unwrap();
    assert_eq!(honest.submit_times, 0);
    assert_eq!(honest.get_honest_submit_times(), 0);
    c.submit(vec![("Darwinia".to_string(), false), ("Evil".to_string(), false)], money("1"), 0, 9);
    assert_eq!(c.submitions, vec![(100, 500), (151, 250)]);
    assert_eq!(c.darwinia_block_hight, 151);
    assert_eq!(c.ethereum_block_hight, 1025);
    assert_eq!(c.relayers.get("Evil").unwrap().lie, true);
    assert_eq!(c.relayers.get("Evil").unwrap().submit_times, 2);
    assert_eq!(c.relayers.get("Darwinia").unwrap().get_honest_submit_times(), 1);
    assert_eq!(c.submit_bond_pool, money("4.5"));
    c.should_balance().unwrap();
}

#[test]
fn a_relayer_can_submit_twice_in_one_round() {
    let mut c = evil_chain();
    c.submit(
        vec![("Darwinia".to_string(), false), ("Darwinia".to_string(), false)],
        money("3"),
        1,
        2,
    );
    assert_eq!(c.relayers.get("Darwinia").unwrap().pay, money("6"));
    assert_eq!(c.relayers.get("Darwinia").unwrap().submit_times, 2);
    assert_eq!(c.submit_bond_pool, money("6"));
}

#[test]
fn the_speed_factor_is_divided_by() {
    let mut c = evil_chain();
    c.block_speed_factor = money("0.3");
    assert!(c.can_advance(10));
    c.submit(vec![], money("1"), 10, 1);
    assert_eq!(c.ethereum_block_hight, 1033);
    c.block_speed_factor = money("-1");
    assert!(c.can_advance(10));
    c.submit(vec![], money("1"), 10, 1);
    assert_eq!(c.ethereum_block_hight, 1033);
    assert_eq!(c.darwinia_block_hight, 120);
}

#[test]
fn a_round_that_does_not_fit_is_told_beforehand() {
    let mut c = evil_chain();
    assert!(c.can_advance(usize::MAX - 100));
    assert!(!c.can_advance(usize::MAX - 99));
    c.block_speed_factor = money("0");
    assert!(!c.can_advance(1));
    assert!(c.can_advance(0));
    c.block_speed_factor = money("0.000001");
    assert!(!c.can_advance(usize::MAX / 2));
}

#[test]
fn a_liar_is_never_paid() {
    let mut c = evil_chain();
    c.reward(vec![Reward { from: RewardFrom::Slash, to: "Evil".to_string(), value: money("1") }]);
    assert_eq!(c.relayers.get("Evil").unwrap().reward(), money("1"));
    c.submit_by("Evil".to_string(), money("10"), true);
    c.submit_by("Evil".to_string(), money("10"), false);
    c.reward(vec![
        Reward { from: RewardFrom::Slash, to: "Evil".to_string(), value: money("5") },
        Reward { from: RewardFrom::Treasure, to: "Evil".to_string(), value: money("5") },
    ]);
    assert_eq!(c.relayers.get("Evil").unwrap().reward(), money("1"));
    assert_eq!(c.submit_bond_pool, money("19"));
    assert_eq!(c.treasury_debt, money("0"));
}

#[test]
fn rewards_of_the_treasury_are_booked_as_its_debt() {
    let mut c = evil_chain();
    c.reward(vec![
        Reward { from: RewardFrom::Treasure, to: "Darwinia".to_string(), value: money("7.25") },
        Reward { from: RewardFrom::Slash, to: "Darwinia".to_string(), value: money("0.5") },
    ]);
    let honest = c.relayers.get("Darwinia").unwrap();
    assert_eq!(honest.reward, (money("0.5"), money("7.25")));
    assert_eq!(honest.reward(), money("7.75"));
    assert_eq!(c.treasury_debt, money("7.25"));
    assert_eq!(c.submit_bond_pool, money("-0.5"));
    c.should_balance().unwrap();
}

#[test]
fn a_challenger_deposits_and_is_found_after_the_relayers() {
    let mut s = evil_scenario();
    s.challengers = Some(vec![participant("Judge", "0"), participant("Evil", "0")]);
    let mut c = ChainsStatus::from_scenario(&s, 0).unwrap();
    c.challenge_by("Judge".to_string(), money("4"));
    assert_eq!(c.challengers.get("Judge").unwrap().pay, money("4"));
    assert_eq!(c.challengers.get("Judge").unwrap().submit_times, 0);
    assert_eq!(c.submit_bond_pool, money("4"));
    c.reward(vec![
        Reward { from: RewardFrom::Slash, to: "Judge".to_string(), value: money("8") },
        Reward { from: RewardFrom::Slash, to: "Evil".to_string(), value: money("1") },
    ]);
    assert_eq!(c.challengers.get("Judge").unwrap().reward(), money("8"));
    assert_eq!(c.relayers.get("Evil").unwrap().reward(), money("1"));
    assert_eq!(c.challengers.get("Evil").unwrap().reward(), money("0"));
    c.should_balance().unwrap();
}

#[test]
fn names_that_the_ledger_does_not_know_change_nothing() {
    let mut c = evil_chain();
    c.submit_by("Nobody".to_string(), money("10"), true);
    c.challenge_by("Nobody".to_string(), money("10"));
    c.reward(vec![Reward { from: RewardFrom::Treasure, to: "Nobody".to_string(), value: money("1") }]);
    assert_eq!(c.submit_bond_pool, money("0"));
    assert_eq!(c.treasury_debt, money("0"));
    c.should_balance().unwrap();
}

#[test]
fn a_ledger_out_of_balance_is_found_out() {
    let mut c = evil_chain();
    assert_eq!(c.imbalance(), money("0"));
    c.submit_bond_pool = money("0.000001");
    assert_eq!(c.imbalance(), money("0.000001"));
    assert_eq!(c.should_balance(), Err(Error::UnknownError("System unbalance")));
    c.submit_bond_pool = money("-0.000001");
    assert_eq!(c.should_balance(), Err(Error::UnknownError("System unbalance")));
    assert_eq!(c.imbalance(), money("-0.000001"));
    c.treasury_debt = money("-0.000001");
    c.should_balance().unwrap();
    assert_eq!(c.imbalance(), money("0"));
}

#[test]
fn the_imbalance_is_the_pool_less_the_debt_less_the_paid_plus_the_received() {
    let mut c = evil_chain();
    c.submit_bond_pool = money("100");
    c.treasury_debt = money("7");
    c.submit_by("Evil".to_string(), money("10"), true);
    c.submit_by("Darwinia".to_string(), money("2.5"), false);
    c.reward(vec![Reward {
        from: RewardFrom::Treasure,
        to: "Darwinia".to_string(),
        value: money("1.25"),
    }]);
    assert_eq!(c.submit_bond_pool, money("112.5"));
    assert_eq!(c.treasury_debt, money("8.25"));
    assert_eq!(c.imbalance(), money("93"));
    c.submit_bond_pool = Decimal::from_raw(i64::MAX);
    c.treasury_debt = Decimal::from_raw(i64::MIN);
    assert_eq!(c.imbalance(), Decimal::from_raw(i64::MAX));
    c.submit_bond_pool = Decimal::from_raw(i64::MIN);
    c.treasury_debt = Decimal::from_raw(i64::MAX);
    assert_eq!(c.imbalance(), Decimal::from_raw(i64::MIN));
    c.submit_bond_pool = Decimal::from_raw(i64::MIN);
    c.treasury_debt = money("0");
    assert_eq!(c.imbalance(), Decimal::from_raw(i64::MIN));
    assert_eq!(c.should_balance(), Err(Error::UnknownError("System unbalance")));
}

#[test]
fn a_challenger_of_several_is_entered_with_its_round() {
    let one = RelayerStatus::challenger(&participant("Judge", "0"), 5, 2, true);
    assert_eq!(one.id, 5);
    assert_eq!(one.name, Some("Judge".to_string()));
    assert_eq!(one.submit_round, 2);
    assert_eq!(one.lie, true);
    assert_eq!(one.pay, money("0"));
    assert_eq!(one.reward, (money("0"), money("0")));
    assert_eq!(one.submit_times, 0);
    let plain = RelayerStatus::from_config(&participant("Judge", "0"), 5);
    assert_eq!(plain.submit_round, 0);
    assert_eq!(plain.lie, false);
    let other = RelayerStatus::challenger(&participant("Judge", "0"), 5, 0, false);
    assert_eq!(plain, other);
}

#[test]
fn sums_stop_at_the_ends_of_the_range() {
    let mut c = evil_chain();
    let most = Decimal::from_raw(i64::MAX);
    c.submit_by("Evil".to_string(), most, false);
    c.submit_by("Evil".to_string(), most, false);
    assert_eq!(c.relayers.get("Evil").unwrap().pay, most);
    assert_eq!(c.submit_bond_pool, most);
    c.should_balance().unwrap();
    c.submit_by("Darwinia".to_string(), money("1"), false);
    assert_eq!(c.submit_bond_pool, most);
    assert_eq!(c.should_balance(), Err(Error::UnknownError("System unbalance")));
}

#[test]
fn the_ledger_is_written_as_text() {
    let mut c = evil_chain();
    assert_eq!(
        c.fmt_status(),
        "ChainsStatus: Darwinia #100, Ethereum #1000, Submit at Eth(#500) Last relay Eth(#0) at #0\n"
    );
    c.submit(
        vec![("Evil".to_string(), true), ("Darwinia".to_string(), false)],
        money("10.0"),
        50,
        250,
    );
    c.reward(vec![Reward {
        from: RewardFrom::Slash,
        to: "Darwinia".to_string(),
        value: money("12.5"),
    }]);
    assert_eq!(
        c.fmt_status(),
        "ChainsStatus: Darwinia #150, Ethereum #1025, Submit at Eth(#250) Last relay Eth(#500) at #100\n"
    );
    assert_eq!(c.fmt_relayers_status(), "Darwinia(1): 2.5 Evil(0): -10 ");
    assert_eq!(c.fmt_challengers_status(), "");
    assert_eq!(
        c.to_string(),
        format!("{}{}", c.fmt_status(), "Darwinia(1): 2.5 Evil(0): -10 ")
    );
    assert_eq!(
        c.fmt_relayers_bar_chart(money("20")),
        format!(
            " {} Darwinia(1): 2.5 \n {} Evil(0): -10 \n{}",
            "+".repeat(8),
            "-".repeat(32),
            "-: slash, +: reward from slash, *: reward from treasury"
        )
    );
}

#[test]
fn a_status_without_a_name_is_written_with_its_number() {
    let mut s = RelayerStatus::default();
    s.id = 42;
    s.submit(money("1.5"), false);
    s.reward = (money("2"), money("4"));
    assert_eq!(s.to_string(), "ID 42(1): 4.5 ");
    assert_eq!(
        s.format_to_bar_char(money("8"), 16),
        format!(" {}{} ID 42(1): 4.5 \n", "+".repeat(1), "*".repeat(8))
    );
    assert_eq!(s.format_to_bar_char(money("0"), 16), "  ID 42(1): 4.5 \n");
    assert_eq!(s.format_to_bar_char(money("-8"), 16), "  ID 42(1): 4.5 \n");
    assert_eq!(s.key(), " 42");
}

#[test]
fn participants_are_filed_under_distinct_keys() {
    let mut p = Participants::new();
    assert_eq!(p.len(), 0);
    assert!(!p.contains_key("a"));
    let mut first = RelayerStatus::default();
    first.id = 1;
    p.insert("a".to_string(), first);
    let mut second = RelayerStatus::default();
    second.id = 2;
    p.insert("b".to_string(), second);
    let mut third = RelayerStatus::default();
    third.id = 3;
    p.insert("a".to_string(), third);
    assert_eq!(p.len(), 2);
    assert_eq!(p.position("a"), 0);
    assert_eq!(p.position("b"), 1);
    assert_eq!(p.position("c"), 2);
    assert_eq!(p.get("a").unwrap().id, 3);
    assert_eq!(p.key_at(1), "b");
    assert_eq!(p.status_at(1).id, 2);
    p.submit_at(1, money("2"), true);
    p.charge_at(1, money("3"));
    p.reward_at(1, RewardFrom::Slash, money("9"));
    p.reward_at(0, RewardFrom::Treasure, money("9"));
    assert_eq!(p.get("b").unwrap().pay, money("5"));
    assert_eq!(p.get("b").unwrap().reward(), money("0"));
    assert_eq!(p.get("a").unwrap().reward, (money("0"), money("9")));
}
