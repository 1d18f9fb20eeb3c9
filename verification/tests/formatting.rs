use bitcoinvert::amount::parse_amount;
use bitcoinvert::decimal::Dec;

fn dec(neg: bool, mant: u128, exp: i32) -> Dec {
    Dec { neg, mant, exp }
}

#[test]
fn decimals_format_canonically() {
    assert_eq!(dec(false, 0, 0).to_string(), "0");
    assert_eq!(dec(false, 1, 0).to_string(), "1");
    assert_eq!(dec(false, 12345, -2).to_string(), "123.45");
    assert_eq!(dec(true, 25, -1).to_string(), "-2.5");
    assert_eq!(dec(false, 5, 3).to_string(), "5000");
    assert_eq!(dec(false, 12345, -8).to_string(), "0.00012345");
    assert_eq!(dec(true, 7, -3).to_string(), "-0.007");
}

#[test]
fn formatting_then_parsing_returns_the_same_decimal() {
    let cases = [
        dec(false, 0, 0),
        dec(false, 1, 0),
        dec(false, 12345, -2),
        dec(true, 25, -1),
        dec(false, 12345, -8),
        dec(true, 987654321, -4),
        dec(false, u128::MAX, -30),
    ];
    for d in cases {
        let parsed = parse_amount(&d.to_string()).unwrap();
        assert_eq!(parsed, d);
    }
}

#[test]
fn positive_exponents_fold_into_the_digits() {
    let d = dec(false, 5, 3);
    let parsed = parse_amount(&d.to_string()).unwrap();
    assert_eq!(parsed, dec(false, 5000, 0));
}
