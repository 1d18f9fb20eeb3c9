use bitcoinvert::currencies::{Currencies, CurrencyParseError};
use bitcoinvert::currency::btc::BitcoinUnit;
use bitcoinvert::currency::fiat::Fiat;
use bitcoinvert::currency::Currency;

#[test]
fn should_return_correct_fiat_currency() {
    let currency_lowercase = Currencies::parse("usd").unwrap();
    let currency_capitalized = Currencies::parse("Usd").unwrap();
    let currency_uppercase = Currencies::parse("USD").unwrap();

    assert_eq!(currency_lowercase.to_string(), "USD");
    assert_eq!(currency_capitalized.to_string(), "USD");
    assert_eq!(currency_uppercase.to_string(), "USD");
}

#[test]
fn should_return_correct_bitcoin_denomination() {
    let currency_lowercase = Currencies::parse("btc").unwrap();
    let currency_capitalized = Currencies::parse("Btc").unwrap();
    let currency_uppercase = Currencies::parse("BTC").unwrap();

    assert_eq!(currency_lowercase.to_string(), "BTC");
    assert_eq!(currency_capitalized.to_string(), "BTC");
    assert_eq!(currency_uppercase.to_string(), "BTC");
}

#[test]
fn incorrect_use_should_return_error() {
    let currency_empty_string = Currencies::parse("");

    assert!(currency_empty_string.is_err());
    assert!(matches!(
        currency_empty_string,
        Err(CurrencyParseError { msg: _ })
    ));

    let currency_non_existant = Currencies::parse("non-existant");

    assert!(currency_non_existant.is_err());
    assert!(matches!(
        currency_non_existant,
        Err(CurrencyParseError { msg: _ })
    ));
}

#[test]
fn parse_error_carries_the_input() {
    let err = Currencies::parse("doge").unwrap_err();
    assert_eq!(err.msg, "Unable to parse the following currency: doge");
}

fn all_currencies() -> Vec<Currency> {
    let mut v = vec![
        Currency::Bitcoin(BitcoinUnit::BTC),
        Currency::Bitcoin(BitcoinUnit::MBTC),
        Currency::Bitcoin(BitcoinUnit::BITS),
        Currency::Bitcoin(BitcoinUnit::SAT),
        Currency::Bitcoin(BitcoinUnit::MSAT),
    ];
    for f in [
        Fiat::ARS,
        Fiat::AUD,
        Fiat::BRL,
        Fiat::CAD,
        Fiat::CHF,
        Fiat::CLP,
        Fiat::CNY,
        Fiat::CZK,
        Fiat::DKK,
        Fiat::EUR,
        Fiat::GBP,
        Fiat::HKD,
        Fiat::HUF,
        Fiat::INR,
        Fiat::ISK,
        Fiat::JPY,
        Fiat::KRW,
        Fiat::NZD,
        Fiat::PLN,
        Fiat::RON,
        Fiat::RUB,
        Fiat::SEK,
        Fiat::SGD,
        Fiat::THB,
        Fiat::TRY,
        Fiat::TWD,
        Fiat::USD,
    ] {
        v.push(Currency::Fiat(f));
    }
    v
}

#[test]
fn every_code_round_trips_through_the_registry() {
    for c in all_currencies() {
        let code = c.to_string();
        let parsed = Currencies::parse(&code).unwrap();
        assert_eq!(parsed, c);
        assert_eq!(parsed.to_string(), code.to_uppercase());

        let lower = code.to_lowercase();
        let parsed_lower = Currencies::parse(&lower).unwrap();
        assert_eq!(parsed_lower, c);
        assert_eq!(parsed_lower.to_string(), code);
    }
}

#[test]
fn decimal_places_follow_the_currency() {
    assert_eq!(Currency::Fiat(Fiat::USD).decimal_places(), 2);
    assert_eq!(Currency::Fiat(Fiat::EUR).decimal_places(), 2);
    assert_eq!(Currency::Fiat(Fiat::JPY).decimal_places(), 0);
    assert_eq!(Currency::Fiat(Fiat::ISK).decimal_places(), 0);
    assert_eq!(Currency::Fiat(Fiat::KRW).decimal_places(), 0);
    assert_eq!(Currency::Bitcoin(BitcoinUnit::BTC).decimal_places(), 0);
}

#[test]
fn bitcoin_units_have_power_of_ten_values() {
    let cases = [
        (BitcoinUnit::BTC, 1u128),
        (BitcoinUnit::MBTC, 1_000),
        (BitcoinUnit::BITS, 1_000_000),
        (BitcoinUnit::SAT, 100_000_000),
        (BitcoinUnit::MSAT, 100_000_000_000),
    ];
    for (unit, den) in cases {
        let v = unit.btc_value();
        assert!(!v.neg);
        assert_eq!(v.num, 1);
        assert_eq!(v.den, den);
    }
}
