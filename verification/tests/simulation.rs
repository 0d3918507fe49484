use relayer_game::chain::{ChainsStatus, RelayerStatus, Reward, RewardFrom};
use relayer_game::challenge::LinearConfig as WaitLinear;
use relayer_game::decimal::Decimal;
use relayer_game::error::Error;
use relayer_game::reward::{SplitConfig, TreasureLastConfig};
use relayer_game::scenario::{RelayerConfig, ScenarioConfig};
use relayer_game::simulation::{
    count_lies, honest_names, settle_challengers, simulate_from_scenario, Simulation,
};

fn value(text: &str) -> Decimal {
    Decimal::parse(text).unwrap()
}

fn player(name: &str, choice: &str) -> RelayerConfig {
    RelayerConfig { name: Some(name.to_string()), choice: choice.to_string() }
}

fn game(relayers: Vec<RelayerConfig>) -> ScenarioConfig {
    ScenarioConfig {
        title: Some("Evil against Honest".to_string()),
        Dd: None,
        De: None,
        F: None,
        challenge_function: "linear".to_string(),
        target_function: "half".to_string(),
        bond_function: "10.0".to_string(),
        reward_function: "split".to_string(),
        challenge_linear: Some(WaitLinear {
            Wd: value("0"),
            We: value("0"),
            C: 1,
            Md: 100,
            Me: 100,
        }),
        bond_linear: None,
        reward_split: Some(SplitConfig { P: value("0.5") }),
        reward_treasury_last: None,
        relayers,
        challengers: None,
    }
}

fn evil_against_honest() -> ScenarioConfig {
    game(vec![player("Evil", "LL"), player("Honest", "H")])
}

#[test]
fn end_to_end_scenario() {
    let c = evil_against_honest().load().unwrap();
    assert_eq!(c.relayers.len(), 3);
    assert_eq!(c.relayers[0], player("Darwinia", "HHH"));
    let mut rounds = c.get_iter();
    assert_eq!(
        rounds.next(),
        Some(vec![
            ("Darwinia".to_string(), false),
            ("Evil".to_string(), true),
            ("Honest".to_string(), false)
        ])
    );
    let bond = c.get_bond_equation().unwrap();
    let ten = relayer_game::bond::Equation::calculate(&bond, 1);
    assert_eq!(ten, value("10.0"));
    let mut chain = ChainsStatus::from_scenario(&c, 0).unwrap();
    chain.submit(vec![("Evil".to_string(), true), ("Darwinia".to_string(), false)], ten, 50, 500);
    chain.submit(vec![("Darwinia".to_string(), false)], ten, 50, 250);
    assert_eq!(chain.submit_bond_pool, value("30.0"));
    chain.reward(vec![Reward {
        from: RewardFrom::Slash,
        to: "Darwinia".to_string(),
        value: value("30.0"),
    }]);
    chain.should_balance().unwrap();
    assert_eq!(chain.relayers.get("Evil").unwrap().reward(), value("0.0"));
    assert_eq!(chain.relayers.get("Darwinia").unwrap().reward(), value("30.0"));
}

#[test]
fn a_whole_run_pays_the_honest_and_balances() {
    let report = simulate_from_scenario(evil_against_honest(), vec![]).unwrap();
    assert_eq!(report.max_bond_value, value("60"));
    assert_eq!(report.duration, 3);
    assert_eq!(report.challenge_times, vec![1, 1, 1]);
    assert_eq!(report.bonds, vec![value("10"), value("10"), value("10")]);
    assert_eq!(report.positions.relay_blocks, vec![50, 25, 12, 18]);
    let chain = report.chain;
    chain.should_balance().unwrap();
    assert_eq!(chain.submit_bond_pool, value("0"));
    assert_eq!(chain.treasury_debt, value("0"));
    assert_eq!(chain.darwinia_block_hight, 3);
    assert_eq!(chain.ethereum_block_hight, 100);
    assert_eq!(chain.submit_target_ethereum_block, 18);
    assert_eq!(chain.submitions, vec![(0, 50), (1, 25), (2, 12)]);
    let honest = chain.relayers.get("Darwinia").unwrap();
    assert_eq!(honest.pay, value("30"));
    assert_eq!(honest.reward, (value("47.5"), value("0")));
    assert_eq!(honest.submit_times, 3);
    let other = chain.relayers.get("Honest").unwrap();
    assert_eq!(other.pay, value("10"));
    assert_eq!(other.reward(), value("12.5"));
    let evil = chain.relayers.get("Evil").unwrap();
    assert_eq!(evil.pay, value("20"));
    assert_eq!(evil.reward(), value("0"));
    assert_eq!(evil.lie, true);
    assert_eq!(evil.get_honest_submit_times(), 0);
    assert_eq!(
        chain.to_string(),
        "ChainsStatus: Darwinia #3, Ethereum #100, Submit at Eth(#18) Last relay Eth(#12) at #2\n\
         Darwinia(3): 17.5 Evil(0): -20 Honest(1): 2.5 "
    );
}

#[test]
fn a_run_can_be_played_round_by_round() {
    let c = evil_against_honest().load().unwrap();
    let mut run = Simulation::new(&c, 0).unwrap();
    assert_eq!(run.relay_blocks, vec![50]);
    assert_eq!(run.step(), Ok(true));
    assert_eq!(run.chain.submit_bond_pool, value("30"));
    assert_eq!(run.reward_from_previous_round, value("5"));
    assert_eq!(run.latest_confirm_ethereum_block, 0);
    assert_eq!(run.chain.submit_target_ethereum_block, 25);
    assert_eq!(run.reward_actions.len(), 2);
    assert_eq!(run.reward_actions[0].value, value("12.5"));
    assert_eq!(run.iterator.submit_round, 1);
    assert_eq!(run.step(), Ok(true));
    assert_eq!(run.reward_actions[2].value, value("20"));
    assert_eq!(run.step(), Ok(true));
    assert_eq!(run.latest_confirm_ethereum_block, 12);
    assert_eq!(run.reward_from_previous_round, value("0"));
    assert_eq!(run.reward_actions[3].value, value("15"));
    assert_eq!(run.step(), Ok(false));
    assert_eq!(run.step(), Ok(false));
    assert_eq!(run.chain.relayers.get("Darwinia").unwrap().reward(), value("0"));
    let report = run.finish();
    assert_eq!(report.chain.relayers.get("Darwinia").unwrap().reward(), value("47.5"));
}

#[test]
fn patches_are_applied_before_the_run() {
    let report = simulate_from_scenario(
        evil_against_honest(),
        vec!["bond_function=2", "challenge_function=7", "reward_split.P=1"],
    )
    .unwrap();
    assert_eq!(report.bonds, vec![value("2"), value("2"), value("2")]);
    assert_eq!(report.challenge_times, vec![7, 7, 7]);
    assert_eq!(report.duration, 21);
    assert_eq!(report.chain.ethereum_block_hight, 109);
    assert_eq!(report.max_bond_value, value("12"));
    assert_eq!(report.chain.relayers.get("Darwinia").unwrap().reward(), value("9"));
    assert_eq!(report.chain.relayers.get("Honest").unwrap().reward(), value("3"));
    report.chain.should_balance().unwrap();
}

#[test]
fn a_run_is_refused_for_what_the_scenario_lacks() {
    assert_eq!(
        simulate_from_scenario(game(vec![player("Darwinia", "H")]), vec![]).err(),
        Some(Error::ParameterError("Darwinia relayer alway honest, you do not need modify it"))
    );
    assert_eq!(
        simulate_from_scenario(evil_against_honest(), vec!["bond_function"]).err(),
        Some(Error::PatchParameterError("bond_function".to_string()))
    );
    assert_eq!(
        simulate_from_scenario(evil_against_honest(), vec!["challenge_function=fast"]).err(),
        Some(Error::ParameterError("Challenge function not support"))
    );
    let mut c = evil_against_honest();
    c.target_function = "none".to_string();
    assert_eq!(
        simulate_from_scenario(c, vec!["bond_function=much"]).err(),
        Some(Error::ParameterError("Target function absent"))
    );
    assert_eq!(
        simulate_from_scenario(evil_against_honest(), vec!["reward_function=none", "bond_function=much"])
            .err(),
        Some(Error::ParameterError("Reward function absent"))
    );
    assert_eq!(
        simulate_from_scenario(evil_against_honest(), vec!["bond_function=much"]).err(),
        Some(Error::ParameterError("Bond function not support"))
    );
}

#[test]
fn a_run_that_does_not_fit_the_machine_is_given_up() {
    let mut c = evil_against_honest();
    c.F = Some(value("0"));
    assert_eq!(
        simulate_from_scenario(c, vec![]).err(),
        Some(Error::UnknownError("block height does not fit"))
    );
    let mut c = evil_against_honest();
    c.Dd = Some(usize::MAX);
    assert_eq!(
        simulate_from_scenario(c, vec![]).err(),
        Some(Error::UnknownError("block height does not fit"))
    );
    let mut c = evil_against_honest();
    c.challenge_linear =
        Some(WaitLinear { Wd: value("0"), We: value("0"), C: 2, Md: usize::MAX, Me: usize::MAX });
    assert!(simulate_from_scenario(c, vec![]).is_ok());
    let mut c = evil_against_honest();
    c.challenge_linear =
        Some(WaitLinear { Wd: value("1"), We: value("1"), C: usize::MAX, Md: 5, Me: 5 });
    assert_eq!(
        simulate_from_scenario(c, vec![]).err(),
        Some(Error::UnknownError("challenge time does not fit"))
    );
}

#[test]
fn a_run_out_of_balance_is_given_up() {
    let most = Decimal::from_raw(i64::MAX).to_string();
    let patch = format!("bond_function={}", most);
    assert_eq!(
        simulate_from_scenario(evil_against_honest(), vec![patch.as_str()]).err(),
        Some(Error::UnknownError("System unbalance"))
    );
}

#[test]
fn the_treasury_pays_a_run_without_lies() {
    let mut c = game(vec![player("Honest", "HH")]);
    c.reward_function = "treasury_last".to_string();
    c.reward_treasury_last = Some(TreasureLastConfig { C: value("3") });
    let report = simulate_from_scenario(c, vec![]).unwrap();
    assert_eq!(report.bonds.len(), 3);
    assert_eq!(report.positions.relay_blocks, vec![50, 25, 37, 31]);
    let chain = report.chain;
    assert_eq!(chain.relayers.get("Honest").unwrap().reward, (value("0"), value("23")));
    assert_eq!(chain.relayers.get("Darwinia").unwrap().reward, (value("0"), value("36")));
    assert_eq!(chain.treasury_debt, value("59"));
    assert_eq!(chain.submit_bond_pool, value("50"));
    chain.should_balance().unwrap();
}

#[test]
fn one_challenger_deposits_every_round_and_wins_twice_the_bond() {
    let mut c = game(vec![player("Evil", "LH")]);
    c.challengers = Some(vec![player("Judge", "01")]);
    let report = simulate_from_scenario(c, vec![]).unwrap();
    assert_eq!(report.duration, 2);
    let chain = report.chain;
    assert_eq!(chain.relayers.len(), 1);
    let judge = chain.challengers.get("Judge").unwrap();
    assert_eq!(judge.pay, value("20"));
    assert_eq!(judge.reward(), value("40"));
    assert_eq!(judge.submit_times, 0);
    let evil = chain.relayers.get("Evil").unwrap();
    assert_eq!(evil.pay, value("20"));
    assert_eq!(evil.reward(), value("0"));
    assert_eq!(chain.submit_bond_pool, value("0"));
    chain.should_balance().unwrap();
}

#[test]
fn several_challengers_deposit_in_the_round_they_are_set_to() {
    let c = game(vec![player("Relayer", "H")]);
    let mut chain = ChainsStatus::from_scenario(&c, 0).unwrap();
    for (id, (name, round, lie)) in
        [("a", 1, false), ("b", 2, false), ("c", 1, true), ("d", 1, false)].into_iter().enumerate()
    {
        let status = RelayerStatus::challenger(&player(name, ""), 10 + id, round, lie);
        chain.challengers.insert(status.key(), status);
    }
    let mut rewards: Vec<Reward> = vec![];
    let matched = settle_challengers(&mut chain, value("10"), &mut rewards);
    assert_eq!(matched, 3);
    assert_eq!(
        rewards,
        vec![
            Reward { from: RewardFrom::Slash, to: "a".to_string(), value: value("20") },
            Reward { from: RewardFrom::Slash, to: "c".to_string(), value: value("10") },
            Reward { from: RewardFrom::Slash, to: "d".to_string(), value: value("20") },
        ]
    );
    assert_eq!(chain.submit_bond_pool, value("30"));
    assert_eq!(chain.challengers.get("b").unwrap().pay, value("0"));
    assert_eq!(chain.challengers.get("c").unwrap().pay, value("10"));
    chain.should_balance().unwrap();
}

#[test]
fn further_challengers_make_the_relayer_submit_again() {
    let c = game(vec![player("Relayer", "HL")]).load().unwrap();
    let mut run = Simulation::new(&c, 0).unwrap();
    for (id, (name, round)) in
        [("a", 1), ("b", 1), ("c", 1), ("d", 2), ("e", 2)].into_iter().enumerate()
    {
        let status = RelayerStatus::challenger(&player(name, ""), 10 + id, round, false);
        run.chain.challengers.insert(status.key(), status);
    }
    assert_eq!(run.step(), Ok(true));
    assert_eq!(run.relay_blocks, vec![50, 75, 75, 25]);
    assert_eq!(run.chain.relayers.get("Darwinia").unwrap().submit_times, 3);
    assert_eq!(run.chain.relayers.get("Darwinia").unwrap().pay, value("30"));
    assert_eq!(run.chain.relayers.get("Relayer").unwrap().submit_times, 1);
    assert_eq!(run.chain.submit_bond_pool, value("70"));
    assert_eq!(run.reward_actions.len(), 5);
    assert_eq!(run.step(), Ok(true));
    assert_eq!(run.relay_blocks, vec![50, 75, 75, 25, 37, 37]);
    assert_eq!(run.chain.relayers.get("Darwinia").unwrap().submit_times, 5);
    assert_eq!(run.chain.submit_bond_pool, value("120"));
    assert_eq!(run.step(), Ok(true));
    assert_eq!(run.step(), Ok(false));
    run.chain.should_balance().unwrap();
}

#[test]
fn several_challengers_of_a_scenario_challenge_nothing() {
    let mut c = game(vec![player("Relayer", "L")]);
    c.challengers = Some(vec![player("a", "0"), player("b", "0")]);
    let mut run = Simulation::new(&c, 0).unwrap();
    assert_eq!(run.chain.challengers.len(), 2);
    assert_eq!(run.step(), Ok(true));
    assert_eq!(run.chain.challengers.get("a").unwrap().pay, value("0"));
    assert_eq!(run.chain.challengers.get("b").unwrap().pay, value("0"));
    assert_eq!(run.reward_actions.len(), 0);
    assert_eq!(run.relay_blocks, vec![50, 25]);
    assert_eq!(run.step(), Ok(false));
}

#[test]
fn a_negative_treasury_amount_never_starts_a_run() {
    let mut c = game(vec![player("Honest", "HH")]);
    c.reward_function = "treasury_last".to_string();
    c.reward_treasury_last = Some(TreasureLastConfig { C: value("-1") });
    assert_eq!(
        simulate_from_scenario(c, vec![]).err(),
        Some(Error::ParameterError("C should be greater than 0"))
    );
    let mut c = game(vec![player("Honest", "HH")]);
    c.reward_function = "treasury_last".to_string();
    c.reward_treasury_last = Some(TreasureLastConfig { C: value("1") });
    assert_eq!(
        simulate_from_scenario(c, vec!["reward_treasury_last.C=-0.000001"]).err(),
        Some(Error::ParameterError("C should be greater than 0"))
    );
}

#[test]
fn lies_are_counted_and_the_honest_are_named() {
    let actions = vec![
        ("a".to_string(), false),
        ("b".to_string(), true),
        ("c".to_string(), false),
        ("b".to_string(), true),
    ];
    assert_eq!(count_lies(&actions), 2);
    assert_eq!(honest_names(&actions), vec!["a".to_string(), "c".to_string()]);
    assert_eq!(count_lies(&vec![]), 0);
    assert!(honest_names(&vec![]).is_empty());
}
