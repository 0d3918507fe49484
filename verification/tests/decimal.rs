use relayer_game::decimal::{floor_div, Decimal};
use relayer_game::error::Error;
use relayer_game::text::{
    find_char, number_to_string, parse_usize, repeat_str, split_first, split_second, starts_with,
    str_eq, to_ascii_upper, upper_letter,
};

fn raw(text: &str) -> Option<i64> {
    Decimal::parse(text).map(|d| d.raw)
}

#[test]
fn decimal_numerals_are_read() {
    assert_eq!(raw("10.0"), Some(10_000_000));
    assert_eq!(raw("1.2222"), Some(1_222_200));
    assert_eq!(raw("0.9"), Some(900_000));
    assert_eq!(raw("4.56"), Some(4_560_000));
    assert_eq!(raw("0"), Some(0));
    assert_eq!(raw("-0"), Some(0));
    assert_eq!(raw("-10"), Some(-10_000_000));
    assert_eq!(raw("+2.5"), Some(2_500_000));
    assert_eq!(raw(".5"), Some(500_000));
    assert_eq!(raw("5."), Some(5_000_000));
    assert_eq!(raw("0.000001"), Some(1));
    assert_eq!(raw("007.100000"), Some(7_100_000));
    assert_eq!(raw("9223372036854.775807"), Some(i64::MAX));
    assert_eq!(raw("-9223372036854.775808"), Some(i64::MIN));
}

#[test]
fn what_is_no_decimal_numeral_is_refused() {
    for text in [
        "", "+", "-", ".", "-.", "1.2.3", "1e3", "inf", "NaN", " 1", "1 ", "1,5", "--1", "+-1",
        "0.0000001", "1.1234567", "9223372036854.775808", "-9223372036854.775809",
        "99999999999999999999999999999999999999999", "١",
    ] {
        assert_eq!(raw(text), None, "{:?}", text);
    }
}

#[test]
fn decimals_are_written_as_short_as_they_can_be() {
    for (value, text) in [
        (0, "0"),
        (10_000_000, "10"),
        (-10_000_000, "-10"),
        (1_222_200, "1.2222"),
        (2_500_000, "2.5"),
        (-2_500_000, "-2.5"),
        (1, "0.000001"),
        (-1, "-0.000001"),
        (100_000, "0.1"),
        (1_000_010, "1.00001"),
        (i64::MAX, "9223372036854.775807"),
        (i64::MIN, "-9223372036854.775808"),
    ] {
        assert_eq!(Decimal::from_raw(value).to_string(), text);
        assert_eq!(Decimal::parse(text), Some(Decimal::from_raw(value)));
    }
}

#[test]
fn decimal_sums_stop_at_the_ends_of_the_range() {
    let one = Decimal::from_units(1);
    assert_eq!(one.raw, 1_000_000);
    assert_eq!(Decimal::zero().raw, 0);
    assert_eq!(one.plus(one).raw, 2_000_000);
    assert_eq!(one.minus(one.plus(one)).raw, -1_000_000);
    let most = Decimal::from_raw(i64::MAX);
    let least = Decimal::from_raw(i64::MIN);
    assert_eq!(most.plus(one), most);
    assert_eq!(least.minus(one), least);
    assert_eq!(most.minus(least), most);
    assert_eq!(least.plus(most).raw, -1);
    assert_eq!(Decimal::from_units(i64::MAX), most);
    assert_eq!(Decimal::from_units(i64::MIN), least);
    assert_eq!(Decimal::from_units(-3).raw, -3_000_000);
}

#[test]
fn decimal_products_and_shares_are_rounded_down() {
    let ten = Decimal::from_units(10);
    assert_eq!(ten.times(0).raw, 0);
    assert_eq!(ten.times(3).raw, 30_000_000);
    assert_eq!(ten.times(usize::MAX).raw, i64::MAX);
    assert_eq!(Decimal::from_units(-10).times(usize::MAX).raw, i64::MIN);
    assert_eq!(ten.wide_times(3), 30_000_000);
    let half = Decimal::from_raw(500_000);
    assert_eq!(ten.scaled(half).raw, 5_000_000);
    assert_eq!(Decimal::from_raw(1).scaled(half).raw, 0);
    assert_eq!(Decimal::from_raw(-1).scaled(half).raw, -1);
    assert_eq!(Decimal::from_raw(3).scaled(half).raw, 1);
    assert_eq!(Decimal::from_raw(i64::MAX).scaled(Decimal::from_raw(i64::MAX)).raw, i64::MAX);
    assert_eq!(Decimal::from_raw(i64::MAX).scaled(Decimal::from_raw(i64::MIN)).raw, i64::MIN);
    assert_eq!(ten.shared(3).raw, 3_333_333);
    assert_eq!(Decimal::from_units(-10).shared(3).raw, -3_333_334);
    assert_eq!(ten.shared(1), ten);
    assert_eq!(Decimal::from_raw(i64::MIN).shared(2).raw, i64::MIN / 2);
    assert_eq!(floor_div(-7, 2), -4);
    assert_eq!(floor_div(7, 2), 3);
    assert_eq!(floor_div(-8, 2), -4);
    assert_eq!(floor_div(0, 5), 0);
}

#[test]
fn whole_numbers_are_read_and_written() {
    assert_eq!(parse_usize("9487"), Some(9487));
    assert_eq!(parse_usize("+9"), Some(9));
    assert_eq!(parse_usize("000"), Some(0));
    assert_eq!(parse_usize(&usize::MAX.to_string()), Some(usize::MAX));
    assert_eq!(parse_usize("18446744073709551616"), None);
    for text in ["", "+", "-1", "1.0", "linear", "1 ", "++1", "٣"] {
        assert_eq!(parse_usize(text), None, "{:?}", text);
        assert_eq!(parse_usize(text), text.parse::<usize>().ok());
    }
    assert_eq!(number_to_string(0), "0");
    assert_eq!(number_to_string(7), "7");
    assert_eq!(number_to_string(10), "10");
    assert_eq!(number_to_string(1234567890), "1234567890");
    assert_eq!(number_to_string(u64::MAX), u64::MAX.to_string());
}

#[test]
fn texts_are_compared_and_taken_apart() {
    assert!(str_eq("", ""));
    assert!(str_eq("HALF", "HALF"));
    assert!(!str_eq("HALF", "HALf"));
    assert!(!str_eq("HALF", "HAL"));
    assert!(str_eq("ünïcödé", "ünïcödé"));
    assert!(starts_with("challenge_linear.C", "challenge_linear"));
    assert!(starts_with("abc", ""));
    assert!(!starts_with("ab", "abc"));
    assert!(!starts_with("xbc", "abc"));
    assert_eq!(find_char("a=b=c", '='), 1);
    assert_eq!(find_char("abc", '='), 3);
    assert_eq!(find_char("é=b", '='), 1);
    assert_eq!(split_first("key=value=rest", '='), "key");
    assert_eq!(split_first("key", '='), "key");
    assert_eq!(split_first("=value", '='), "");
    assert_eq!(split_second("key=value=rest", '='), Some("value"));
    assert_eq!(split_second("key=value", '='), Some("value"));
    assert_eq!(split_second("key=", '='), Some(""));
    assert_eq!(split_second("key", '='), None);
    assert_eq!(split_second("tablé.P.x", '.'), Some("P"));
    assert_eq!(repeat_str("ab", 3), "ababab");
    assert_eq!(repeat_str("ab", 0), "");
}

#[test]
fn ascii_letters_are_put_in_upper_case() {
    assert_eq!(to_ascii_upper(""), "");
    assert_eq!(to_ascii_upper("hhhhhhh"), "HHHHHHH");
    assert_eq!(to_ascii_upper("linear"), "LINEAR");
    assert_eq!(
        to_ascii_upper("abcdefghijklmnopqrstuvwxyz"),
        "ABCDEFGHIJKLMNOPQRSTUVWXYZ"
    );
    assert_eq!(to_ascii_upper("AbC_19 z{`@[~"), "ABC_19 Z{`@[~");
    assert_eq!(to_ascii_upper("darwınıa ß é ｈ"), "DARWıNıA ß é ｈ");
    for text in ["Grüße, Jürgen", "treasury_last", "hLn", "ǆ ﬁ ſ", "\u{0}a\u{7f}z"] {
        assert_eq!(to_ascii_upper(text), text.to_ascii_uppercase());
    }
    assert_eq!(upper_letter('a'), Some("A"));
    assert_eq!(upper_letter('z'), Some("Z"));
    assert_eq!(upper_letter('A'), None);
    assert_eq!(upper_letter('`'), None);
    assert_eq!(upper_letter('{'), None);
    assert_eq!(upper_letter('é'), None);
}

#[test]
fn errors_are_written_as_a_line() {
    assert_eq!(
        Error::TOMLParseError("expected a table".to_string()).message(),
        "The config should be TOML: expected a table"
    );
    assert_eq!(
        Error::ParameterError("Wd should not be negative").message(),
        "Unexpected parameter: Wd should not be negative"
    );
    assert_eq!(
        Error::CliError("no such file".to_string()).message(),
        "Command line args or options are not correct: no such file"
    );
    assert_eq!(
        Error::PatchParameterError("x".to_string()).message(),
        "Patch Parameter `x` is not valid"
    );
    assert_eq!(Error::UnknownError("System unbalance").message(), "Unexpected: System unbalance");
    assert_eq!(Error::not_a_number(), Error::ParameterError("Parameter cannot parse as number"));
    assert_eq!(
        Error::unknown_parameter(),
        Error::PatchParameterError("parameter not correct".to_string())
    );
    assert_eq!(Error::patch("k"), Error::PatchParameterError("k".to_string()));
}
