use bitcoinvert::amount::{parse_amount, strip_thousand_separators};
use bitcoinvert::decimal::Dec;

fn dec(neg: bool, mant: u128, exp: i32) -> Dec {
    Dec { neg, mant, exp }
}

#[test]
fn plain_numbers_pass_through() {
    assert_eq!(parse_amount("1").unwrap(), dec(false, 1, 0));
    assert_eq!(parse_amount("1234567").unwrap(), dec(false, 1234567, 0));
    assert_eq!(parse_amount("0.00012345").unwrap(), dec(false, 12345, -8));
    assert_eq!(parse_amount("123.45").unwrap(), dec(false, 12345, -2));
    assert_eq!(parse_amount("-2.5").unwrap(), dec(true, 25, -1));
    assert_eq!(parse_amount("+2.5").unwrap(), dec(false, 25, -1));
    assert_eq!(parse_amount(".5").unwrap(), dec(false, 5, -1));
    assert_eq!(parse_amount("5.").unwrap(), dec(false, 5, 0));
}

#[test]
fn zero_is_canonical() {
    assert_eq!(parse_amount("0").unwrap(), dec(false, 0, 0));
    assert_eq!(parse_amount("-0").unwrap(), dec(false, 0, 0));
    assert_eq!(parse_amount("0.000").unwrap(), dec(false, 0, 0));
}

#[test]
fn thousand_separators_are_stripped_anywhere() {
    assert_eq!(strip_thousand_separators("1'000 000,000.25"), "1000000000.25");
    let parsed = parse_amount("1'000 000,000.25").unwrap();
    assert_eq!(parsed, dec(false, 100000000025, -2));

    assert_eq!(parse_amount("1,000").unwrap(), dec(false, 1000, 0));
    assert_eq!(parse_amount(",1,").unwrap(), dec(false, 1, 0));
}

#[test]
fn si_suffix_multiplies() {
    assert_eq!(parse_amount("1M").unwrap(), dec(false, 1, 6));
    assert_eq!(parse_amount("1k").unwrap(), dec(false, 1, 3));
    assert_eq!(parse_amount("12.34k").unwrap(), dec(false, 1234, 1));
    assert_eq!(parse_amount("1u").unwrap(), dec(false, 1, -6));
    assert_eq!(parse_amount("2.5G").unwrap(), dec(false, 25, 8));
}

#[test]
fn si_symbol_is_a_suffix_only() {
    let err = parse_amount("M1").unwrap_err();
    assert_eq!(err.input, "M1");
    assert_eq!(err.message(), "\"M1\" is not a valid amount!");
}

#[test]
fn errors_report_the_original_string() {
    let err = parse_amount("twentyone").unwrap_err();
    assert_eq!(err.input, "twentyone");
    assert_eq!(err.message(), "\"twentyone\" is not a valid amount!");

    let err = parse_amount(", '").unwrap_err();
    assert_eq!(err.input, ", '");
    assert_eq!(err.message(), "\", '\" is not a valid amount!");

    assert_eq!(parse_amount("").unwrap_err().input, "");
    assert_eq!(parse_amount(".").unwrap_err().input, ".");
    assert_eq!(parse_amount("-").unwrap_err().input, "-");
    assert_eq!(parse_amount("1.2.3").unwrap_err().input, "1.2.3");
    assert_eq!(parse_amount("k").unwrap_err().input, "k");
    assert_eq!(parse_amount("1e5").unwrap_err().input, "1e5");
}

#[test]
fn parsing_is_idempotent_on_clean_numerals() {
    for raw in ["1", "123.45", "-2.5", "0.00012345", "0", "987654321.123456789"] {
        let once = parse_amount(raw).unwrap();
        let again = parse_amount(&once.to_string()).unwrap();
        assert_eq!(once, again);
    }
}

#[test]
fn huge_mantissas_are_rejected() {
    // one digit past what a u128 can hold
    let err = parse_amount("3402823669209384634633746074317682114560").unwrap_err();
    assert_eq!(err.input, "3402823669209384634633746074317682114560");
    // the largest mantissa still parses
    let max = parse_amount("340282366920938463463374607431768211455").unwrap();
    assert_eq!(max, dec(false, u128::MAX, 0));
}
