use relayer_game::bond::Equation as BondEquationRule;
use relayer_game::challenge::{Equation as ChallengeEquationRule, LinearConfig as ChallengeLinear};
use relayer_game::decimal::Decimal;
use relayer_game::error::Error;
use relayer_game::reward::{SplitConfig, TreasureLastConfig};
use relayer_game::scenario::{RelayPositions, RelayerConfig, ScenarioConfig};

fn amount(text: &str) -> Decimal {
    Decimal::parse(text).unwrap()
}

fn relayer(name: &str, choice: &str) -> RelayerConfig {
    RelayerConfig { name: Some(name.to_string()), choice: choice.to_string() }
}

fn linear_challenge(wd: &str) -> ChallengeLinear {
    ChallengeLinear { Wd: amount(wd), We: amount("0.0"), C: 1, Md: 100, Me: 100 }
}

fn scenario(relayers: Vec<RelayerConfig>, challengers: Option<Vec<RelayerConfig>>) -> ScenarioConfig {
    ScenarioConfig {
        title: None,
        Dd: None,
        De: None,
        F: None,
        challenge_function: "linear".to_string(),
        target_function: "half".to_string(),
        bond_function: "10.0".to_string(),
        reward_function: "split".to_string(),
        challenge_linear: Some(linear_challenge("0.0")),
        bond_linear: None,
        reward_split: None,
        reward_treasury_last: None,
        relayers,
        challengers,
    }
}

fn evil_and_honest() -> ScenarioConfig {
    let mut c = scenario(vec![relayer("Evil", "LL"), relayer("Honest", "H")], None);
    c.Dd = Some(100);
    c.De = Some(1000);
    c
}

#[test]
fn test_from_toml_str() {
    let c = evil_and_honest().load();
    assert!(c.is_ok());
    let c = c.unwrap();
    assert_eq!(c.relayers.len(), 3);

    assert_eq!(c.relayers[0].name, Some("Darwinia".to_string()));
    assert_eq!(c.relayers[0].choice, "HHH");
    assert_eq!(c.relayers[1].choice, "LL");
    assert_eq!(c.relayers[2].choice, "H");

    let bond_function = c.get_bond_equation();
    assert!(bond_function.is_ok());
    assert_eq!(bond_function.unwrap().calculate(0), amount("10.0"));
}

#[test]
fn test_iterate_from_scenario() {
    let c = evil_and_honest().load().unwrap();
    let mut i = c.into_iter();
    assert_eq!(
        i.next(),
        Some(vec![
            ("Darwinia".to_string(), false),
            ("Evil".to_string(), true),
            ("Honest".to_string(), false)
        ])
    );
    assert_eq!(
        i.next(),
        Some(vec![("Darwinia".to_string(), false), ("Evil".to_string(), true),])
    );
    assert_eq!(i.next(), Some(vec![("Darwinia".to_string(), false),]));
    assert_eq!(i.next(), None);
}

#[test]
fn test_from_error_toml_str() {
    let mut raw = scenario(vec![relayer("Honest", "HHHHHHH")], None);
    raw.challenge_linear = Some(linear_challenge("-10"));
    let c = raw.load();
    assert!(format!("{:?}", c).contains("Wd should not be negative"));
}

#[test]
fn test_auto_upper_case() {
    let c = scenario(vec![relayer("Honest", "hhhhhhh")], None).load().unwrap();
    assert_eq!(c.relayers[1].choice, "HHHHHHH");
}

#[test]
fn scenario_test_apply_patch() {
    let mut c = evil_and_honest().load().unwrap();
    c.apply_patch(vec!["challenge_function=9487"]).unwrap();
    let challenge_function = c.get_challenge_equation();
    assert!(challenge_function.is_ok());
    assert_eq!(challenge_function.unwrap().calculate(10, 10), 9487);

    c.apply_patch(vec!["bond_function=1.2222"]).unwrap();
    let bond_function = c.get_bond_equation();
    assert!(bond_function.is_ok());
    assert_eq!(bond_function.unwrap().calculate(0), amount("1.2222"));
    assert_eq!(c.get_bond_equation().unwrap().calculate(0).raw, 1_222_200);
}

#[test]
fn test_() {
    let mut rp = RelayPositions::default();
    rp.relay_blocks.push(500);
    assert_eq!(
        rp.plot(),
        "G===============================================================1==>".to_string()
    );
    rp.relay_blocks.push(250);
    assert_eq!(
        rp.plot(),
        "G===============================2===============================1==>".to_string()
    );
    rp.relay_blocks.push(125);
    assert_eq!(
        rp.plot(),
        "G===============3===============2===============================1==>".to_string()
    );
    rp.relay_blocks.push(187);
    assert_eq!(
        rp.plot(),
        "G===============3======4========2===============================1==>".to_string()
    );
}

#[test]
fn test_challenger_mod() {
    let c = scenario(
        vec![relayer("Evil", "LHLL")],
        Some(vec![relayer("Challenger", "0100")]),
    )
    .load();
    assert_eq!(c.is_ok(), true);
}

#[test]
fn test_should_error_with_challengers() {
    let c = scenario(
        vec![relayer("Evil", "LHLL")],
        Some(vec![relayer("Challenger1", "0100"), relayer("Challenger2", "0100")]),
    )
    .load();
    assert_eq!(c.is_ok(), false);
}

#[test]
fn plot_of_nothing_is_an_empty_axis() {
    let rp = RelayPositions::default();
    assert_eq!(rp.plot(), format!("G{}==>", "=".repeat(64)));
}

#[test]
fn plot_with_a_first_block_of_zero_marks_nothing() {
    let mut rp = RelayPositions::default();
    rp.relay_blocks.push(0);
    rp.relay_blocks.push(7);
    assert_eq!(rp.plot(), format!("G{}==>", "=".repeat(64)));
}

#[test]
fn plot_numbers_the_tenth_submission_with_two_digits() {
    let mut rp = RelayPositions::default();
    for _ in 0..9 {
        rp.relay_blocks.push(64);
    }
    rp.relay_blocks.push(1);
    let picture = rp.plot();
    assert!(picture.starts_with("G10="));
    assert!(picture.ends_with("=1==>"));
    assert_eq!(picture.len(), 1 + 2 + 63 + 3);
}

#[test]
fn rounds_without_an_answer_are_left_out() {
    let c = scenario(vec![relayer("Quiet", "NHL"), relayer("Short", "H")], None)
        .load()
        .unwrap();
    let mut i = c.get_iter();
    assert_eq!(
        i.next(),
        Some(vec![("Darwinia".to_string(), false), ("Short".to_string(), false)])
    );
    assert_eq!(
        i.next(),
        Some(vec![("Darwinia".to_string(), false), ("Quiet".to_string(), false)])
    );
    assert_eq!(
        i.next(),
        Some(vec![("Darwinia".to_string(), false), ("Quiet".to_string(), true)])
    );
    assert_eq!(i.next(), Some(vec![("Darwinia".to_string(), false)]));
    assert_eq!(i.submit_round, 4);
    assert_eq!(i.next(), None);
    assert_eq!(i.next(), None);
    assert_eq!(i.submit_round, 4);
}

#[test]
fn the_first_relayer_decides_the_number_of_rounds() {
    let c = scenario(
        vec![relayer("Evil", "LHLL")],
        Some(vec![relayer("Challenger", "0100")]),
    )
    .load()
    .unwrap();
    assert_eq!(c.relayers.len(), 1);
    let mut i = c.get_iter();
    let mut rounds = 0;
    while let Some(actions) = i.next() {
        assert_eq!(actions.len(), 1);
        rounds += 1;
    }
    assert_eq!(rounds, 4);
}

#[test]
fn an_iterator_over_nobody_ends_at_once() {
    let mut c = scenario(vec![], None);
    c.relayers = vec![];
    let mut i = c.into_iter();
    assert_eq!(i.next(), None);
    assert_eq!(i.submit_round, 0);
}

#[test]
fn two_iterators_of_one_scenario_give_the_same_rounds() {
    let c = evil_and_honest().load().unwrap();
    let mut first = c.get_iter();
    let mut second = c.get_iter();
    let mut rounds = 0;
    loop {
        let a = first.next();
        let b = second.next();
        assert_eq!(a, b);
        if a.is_none() {
            break;
        }
        rounds += 1;
    }
    assert_eq!(rounds, 3);
    let mut third = c.get_iter();
    assert_eq!(third.next().unwrap().len(), 3);
}

#[test]
fn the_reserved_name_is_refused_in_any_case() {
    for name in ["Darwinia", "DARWINIA", "darwinia", "dArWiNiA"] {
        let c = scenario(vec![relayer(name, "H")], None).load();
        assert_eq!(
            c.err(),
            Some(Error::ParameterError("Darwinia relayer alway honest, you do not need modify it"))
        );
    }
    assert!(scenario(vec![relayer("Darwin", "H")], None).load().is_ok());
}

#[test]
fn a_script_outside_the_alphabet_is_refused() {
    let c = scenario(vec![relayer("Odd", "HXL")], None).load();
    assert_eq!(c.err(), Some(Error::ParameterError("relayer chose must be 'H', 'L', 'N'")));
}

#[test]
fn the_first_relayer_that_is_refused_decides_the_error() {
    let c = scenario(vec![relayer("Odd", "HXL"), relayer("Darwinia", "H")], None).load();
    assert_eq!(c.err(), Some(Error::ParameterError("relayer chose must be 'H', 'L', 'N'")));
    let c = scenario(vec![relayer("Darwinia", "HXL"), relayer("Odd", "?")], None).load();
    assert_eq!(
        c.err(),
        Some(Error::ParameterError("Darwinia relayer alway honest, you do not need modify it"))
    );
}

#[test]
fn a_relayer_without_a_name_is_named_after_its_place() {
    let c = scenario(
        vec![
            relayer("First", "H"),
            RelayerConfig { name: None, choice: "hl".to_string() },
        ],
        None,
    )
    .load()
    .unwrap();
    assert_eq!(c.relayers[0].choice, "HHH");
    assert_eq!(c.relayers[2].name, Some(" 1".to_string()));
    assert_eq!(c.relayers[2].choice, "HL");
}

#[test]
fn a_scenario_without_relayers_gets_the_baseline_alone() {
    let c = scenario(vec![], None).load().unwrap();
    assert_eq!(c.relayers, vec![relayer("Darwinia", "H")]);
}

#[test]
fn loading_puts_the_waiting_rule_in_upper_case() {
    let c = scenario(vec![relayer("A", "H")], None).load().unwrap();
    assert_eq!(c.challenge_function, "LINEAR");
    assert_eq!(c.target_function, "half");
}

#[test]
fn parameters_are_checked_in_their_order() {
    let mut raw = scenario(vec![relayer("A", "H")], None);
    raw.challenge_linear =
        Some(ChallengeLinear { Wd: amount("0"), We: amount("-1"), C: 1, Md: 1, Me: 1 });
    raw.reward_split = Some(SplitConfig { P: amount("1.5") });
    assert_eq!(raw.load().err(), Some(Error::ParameterError("We should not be negative")));

    let mut raw = scenario(vec![relayer("A", "H")], None);
    raw.bond_linear = Some(relayer_game::bond::LinearConfig {
        W: amount("-0.000001"),
        C: amount("0"),
        M: amount("0"),
    });
    raw.reward_split = Some(SplitConfig { P: amount("1.5") });
    assert_eq!(raw.load().err(), Some(Error::ParameterError("W should not be negative")));

    let mut raw = scenario(vec![relayer("A", "H")], None);
    raw.reward_split = Some(SplitConfig { P: amount("1.000001") });
    assert_eq!(raw.load().err(), Some(Error::ParameterError("P should not be greater than 1")));

    let mut raw = scenario(vec![relayer("A", "H")], None);
    raw.reward_split = Some(SplitConfig { P: amount("1") });
    assert!(raw.load().is_ok());

    let mut raw = scenario(vec![relayer("A", "H")], None);
    raw.reward_function = "treasury_last".to_string();
    raw.reward_treasury_last = Some(TreasureLastConfig { C: amount("-1.0") });
    assert_eq!(raw.load().err(), Some(Error::ParameterError("C should be greater than 0")));

    let mut raw = scenario(vec![relayer("A", "H")], None);
    raw.reward_treasury_last = Some(TreasureLastConfig { C: amount("-0.000001") });
    assert_eq!(raw.load().err(), Some(Error::ParameterError("C should be greater than 0")));

    let mut raw = scenario(vec![relayer("A", "H")], None);
    raw.reward_split = Some(SplitConfig { P: amount("1.5") });
    raw.reward_treasury_last = Some(TreasureLastConfig { C: amount("-1") });
    assert_eq!(raw.load().err(), Some(Error::ParameterError("P should not be greater than 1")));

    let mut raw = scenario(vec![relayer("Darwinia", "H")], None);
    raw.reward_treasury_last = Some(TreasureLastConfig { C: amount("-1") });
    assert_eq!(raw.load().err(), Some(Error::ParameterError("C should be greater than 0")));

    let mut raw = scenario(vec![relayer("A", "H")], None);
    raw.reward_function = "treasury_last".to_string();
    raw.reward_treasury_last = Some(TreasureLastConfig { C: amount("0") });
    assert!(raw.load().is_ok());
}

#[test]
fn a_game_with_challengers_takes_one_relayer() {
    let message = "current we only support the scenario for one relayer and one challenger in relayer-challenger mode";
    let c = scenario(
        vec![relayer("A", "L"), relayer("B", "H")],
        Some(vec![relayer("C", "0")]),
    )
    .load();
    assert_eq!(c.err(), Some(Error::ParameterError(message)));
    let c = scenario(vec![], Some(vec![relayer("C", "0")])).load();
    assert_eq!(c.err(), Some(Error::ParameterError(message)));
    let c = scenario(vec![relayer("A", "L")], Some(vec![])).load().unwrap();
    assert_eq!(c.relayers.len(), 1);
}

#[test]
fn the_answers_of_a_challenger_must_fit_the_relayer() {
    let lie = Some(Error::ParameterError("currently we are not support challenger to lie"));
    let c = scenario(vec![relayer("A", "LH")], Some(vec![relayer("C", "00")])).load();
    assert_eq!(c.err(), lie);
    let c = scenario(vec![relayer("A", "LH")], Some(vec![relayer("C", "1")])).load();
    assert_eq!(c.err(), lie);
    let c = scenario(vec![relayer("A", "L")], Some(vec![relayer("C", "01")])).load();
    assert_eq!(
        c.err(),
        Some(Error::ParameterError(
            "currently we are not support that challenger does not challenge to relayer"
        ))
    );
    let c = scenario(vec![relayer("A", "LH")], Some(vec![relayer("C", "0H")])).load();
    assert_eq!(c.err(), Some(Error::ParameterError("challenger chose must be '0', '1'")));
    let c = scenario(vec![relayer("A", "ln")], Some(vec![relayer("C", "0")])).load();
    assert!(c.is_ok());
}

#[test]
fn equations_are_selected_by_name_in_any_case() {
    let mut c = scenario(vec![relayer("A", "H")], None);
    c.target_function = "Half".to_string();
    assert!(c.get_target_equation().is_ok());
    c.target_function = "third".to_string();
    assert_eq!(
        c.get_target_equation().err(),
        Some(Error::ParameterError("Target function absent"))
    );

    c.challenge_function = "+7".to_string();
    assert_eq!(c.get_challenge_equation().unwrap().calculate(1, 2), 7);
    c.challenge_function = "Linear".to_string();
    assert_eq!(c.get_challenge_equation().unwrap().calculate(1, 2), 1);
    c.challenge_linear = None;
    assert_eq!(
        c.get_challenge_equation().err(),
        Some(Error::ParameterError("lack prameters for specified challenge function"))
    );
    c.challenge_function = "cubic".to_string();
    assert_eq!(
        c.get_challenge_equation().err(),
        Some(Error::ParameterError("Challenge function not support"))
    );

    c.bond_function = "linear".to_string();
    assert_eq!(
        c.get_bond_equation().err(),
        Some(Error::ParameterError("lack prameters for specified bond function"))
    );
    c.bond_function = "cubic".to_string();
    assert_eq!(
        c.get_bond_equation().err(),
        Some(Error::ParameterError("Bond function not support"))
    );

    assert_eq!(
        c.get_reward_equation().err(),
        Some(Error::ParameterError("lack prameters for specified reward function"))
    );
    c.reward_function = "treasury_last".to_string();
    assert_eq!(
        c.get_reward_equation().err(),
        Some(Error::ParameterError("lack prameters for specified reward function"))
    );
    c.reward_function = "none".to_string();
    assert_eq!(
        c.get_reward_equation().err(),
        Some(Error::ParameterError("Reward function absent"))
    );
    c.reward_function = "Split".to_string();
    c.reward_split = Some(SplitConfig { P: amount("0.5") });
    assert!(c.get_reward_equation().is_ok());
}

#[test]
fn patches_set_parameters_and_are_checked() {
    let mut c = evil_and_honest().load().unwrap();
    c.apply_patch(vec!["challenge_linear.C=9", "challenge_linear.Wd=1.5"]).unwrap();
    assert_eq!(c.challenge_linear.unwrap().C, 9);
    assert_eq!(c.challenge_linear.unwrap().Wd, amount("1.5"));

    let r = c.apply_patch(vec!["challenge_linear.Md=7", "challenge_linear.Wd=-1", "challenge_linear.Me=3"]);
    assert_eq!(r.err(), Some(Error::ParameterError("Wd should not be negative")));
    assert_eq!(c.challenge_linear.unwrap().Md, 7);
    assert_eq!(c.challenge_linear.unwrap().Wd, amount("1.5"));
    assert_eq!(c.challenge_linear.unwrap().Me, 100);

    assert_eq!(
        c.apply_patch(vec!["no equal sign"]).err(),
        Some(Error::PatchParameterError("no equal sign".to_string()))
    );
    assert_eq!(
        c.apply_patch(vec!["challenge_linear=3"]).err(),
        Some(Error::PatchParameterError(
            "parameters of challenge linear are absent".to_string()
        ))
    );
    assert_eq!(
        c.apply_patch(vec!["bond_linear.W=3"]).err(),
        Some(Error::PatchParameterError("bond linear absent".to_string()))
    );
    assert_eq!(
        c.apply_patch(vec!["reward_split.P=0.3"]).err(),
        Some(Error::PatchParameterError("reward split config absent".to_string()))
    );
    assert_eq!(
        c.apply_patch(vec!["reward_treasury_last.C=0.3"]).err(),
        Some(Error::PatchParameterError("reward treasury last config absent".to_string()))
    );
    assert_eq!(
        c.apply_patch(vec!["challenge_linear.X=3"]).err(),
        Some(Error::PatchParameterError("parameter not correct".to_string()))
    );
    assert_eq!(
        c.apply_patch(vec!["challenge_linear.C=three"]).err(),
        Some(Error::ParameterError("Parameter cannot parse as number"))
    );
    c.apply_patch(vec!["title=ignored", "reward_function=treasury_last=rest"]).unwrap();
    assert_eq!(c.title, None);
    assert_eq!(c.reward_function, "treasury_last");
}
