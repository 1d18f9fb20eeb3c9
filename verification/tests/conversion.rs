use bitcoinvert::convert::{convert, ConversionError};
use bitcoinvert::currency::btc::BitcoinUnit;
use bitcoinvert::currency::fiat::Fiat;
use bitcoinvert::currency::Currency;
use bitcoinvert::decimal::Dec;
use bitcoinvert::exchange_rate_provider::{
    ExchangeRateApiConsumer, ExchangeRateProvider, RateFetchError,
};
use bitcoinvert::rational::{same_value, Rat};

const ALL_FIATS: [Fiat; 27] = [
    Fiat::ARS,
    Fiat::AUD,
    Fiat::BRL,
    Fiat::CAD,
    Fiat::CHF,
    Fiat::CLP,
    Fiat::CNY,
    Fiat::CZK,
    Fiat::DKK,
    Fiat::EUR,
    Fiat::GBP,
    Fiat::HKD,
    Fiat::HUF,
    Fiat::INR,
    Fiat::ISK,
    Fiat::JPY,
    Fiat::KRW,
    Fiat::NZD,
    Fiat::PLN,
    Fiat::RON,
    Fiat::RUB,
    Fiat::SEK,
    Fiat::SGD,
    Fiat::THB,
    Fiat::TRY,
    Fiat::TWD,
    Fiat::USD,
];

/// A full price list: every fiat at `mant * 10^exp` per bitcoin.
fn uniform_rates(mant: u128, exp: i32) -> Vec<(Fiat, Dec)> {
    ALL_FIATS
        .iter()
        .map(|f| (*f, Dec { neg: false, mant, exp }))
        .collect()
}

/// A data-source double that counts its calls.
struct MockConsumer {
    calls: u32,
    rates: Vec<(Fiat, Dec)>,
    fail: bool,
}

impl MockConsumer {
    fn with_rates(rates: Vec<(Fiat, Dec)>) -> Self {
        MockConsumer { calls: 0, rates, fail: false }
    }
}

impl ExchangeRateApiConsumer for MockConsumer {
    fn fetch_api(&mut self) -> Result<Vec<(Fiat, Dec)>, RateFetchError> {
        self.calls += 1;
        if self.fail {
            Err(RateFetchError { msg: String::from("the ticker is unreachable") })
        } else {
            Ok(self.rates.clone())
        }
    }
}

fn btc(u: BitcoinUnit) -> Currency {
    Currency::Bitcoin(u)
}

fn fiat(f: Fiat) -> Currency {
    Currency::Fiat(f)
}

fn int_rat(r: &Rat) -> u128 {
    assert!(!r.neg);
    assert_eq!(r.num % r.den, 0);
    r.num / r.den
}

#[test]
fn one_btc_is_a_hundred_million_sats() {
    let mut provider = ExchangeRateProvider {
        data_source: MockConsumer::with_rates(uniform_rates(1, 0)),
        data: None,
    };
    let amount = Dec { neg: false, mant: 1, exp: 0 };
    let to = vec![btc(BitcoinUnit::SAT)];
    let outs = convert(&amount, &btc(BitcoinUnit::BTC), &to, false, &mut provider).unwrap();
    assert_eq!(outs.len(), 1);
    assert_eq!(outs[0].0, btc(BitcoinUnit::SAT));
    assert_eq!(int_rat(&outs[0].1), 100_000_000);
}

#[test]
fn msat_to_sat_rounds_to_nearest_integer() {
    let mut provider = ExchangeRateProvider {
        data_source: MockConsumer::with_rates(uniform_rates(1, 0)),
        data: None,
    };
    let amount = Dec { neg: false, mant: 1234567, exp: 0 };
    let to = vec![btc(BitcoinUnit::SAT)];
    let outs = convert(&amount, &btc(BitcoinUnit::MSAT), &to, true, &mut provider).unwrap();
    // 1234567 milli-satoshi are 1234.567 satoshi, rounded half away from zero
    assert_eq!(outs[0].1, Rat { neg: false, num: 1235, den: 1 });
}

#[test]
fn small_btc_amounts_reach_sat_exactly() {
    let mut provider = ExchangeRateProvider {
        data_source: MockConsumer::with_rates(uniform_rates(1, 0)),
        data: None,
    };
    let amount = Dec { neg: false, mant: 12345, exp: -8 };
    let to = vec![btc(BitcoinUnit::SAT)];
    let outs = convert(&amount, &btc(BitcoinUnit::BTC), &to, true, &mut provider).unwrap();
    assert_eq!(outs[0].1, Rat { neg: false, num: 12345, den: 1 });
}

#[test]
fn rounding_is_half_away_from_zero() {
    let mut provider = ExchangeRateProvider {
        data_source: MockConsumer::with_rates(uniform_rates(1, 0)),
        data: None,
    };
    // 0.12345 satoshi are 123.45 milli-satoshi: rounds to 123
    let amount = Dec { neg: false, mant: 12345, exp: -5 };
    let to = vec![btc(BitcoinUnit::MSAT)];
    let outs = convert(&amount, &btc(BitcoinUnit::SAT), &to, true, &mut provider).unwrap();
    assert_eq!(outs[0].1, Rat { neg: false, num: 123, den: 1 });

    // 0.6656 satoshi are 665.6 milli-satoshi: rounds to 666
    let amount = Dec { neg: false, mant: 6656, exp: -4 };
    let outs = convert(&amount, &btc(BitcoinUnit::SAT), &to, true, &mut provider).unwrap();
    assert_eq!(outs[0].1, Rat { neg: false, num: 666, den: 1 });

    // -1234.5 milli-satoshi round away from zero to -1235
    let amount = Dec { neg: true, mant: 12345, exp: -1 };
    let outs = convert(&amount, &btc(BitcoinUnit::MSAT), &to, true, &mut provider).unwrap();
    assert_eq!(outs[0].1, Rat { neg: true, num: 1235, den: 1 });
}

#[test]
fn pure_bitcoin_conversion_never_calls_the_data_source() {
    let mut provider = ExchangeRateProvider {
        data_source: MockConsumer::with_rates(uniform_rates(1, 0)),
        data: None,
    };
    let amount = Dec { neg: false, mant: 21, exp: 0 };
    let to = vec![
        btc(BitcoinUnit::BTC),
        btc(BitcoinUnit::MBTC),
        btc(BitcoinUnit::BITS),
        btc(BitcoinUnit::SAT),
        btc(BitcoinUnit::MSAT),
    ];
    let outs = convert(&amount, &btc(BitcoinUnit::BTC), &to, false, &mut provider).unwrap();
    assert_eq!(outs.len(), 5);
    assert_eq!(provider.data_source.calls, 0);
    assert!(provider.data.is_none());
}

#[test]
fn fetch_is_memoized_across_conversions() {
    // 50,000 units of every fiat currency per bitcoin
    let mut provider = ExchangeRateProvider {
        data_source: MockConsumer::with_rates(uniform_rates(50_000, 0)),
        data: None,
    };
    let amount = Dec { neg: false, mant: 1, exp: 0 };
    let to = vec![fiat(Fiat::USD), fiat(Fiat::EUR)];
    let outs = convert(&amount, &btc(BitcoinUnit::BTC), &to, false, &mut provider).unwrap();
    assert_eq!(outs.len(), 2);
    assert_eq!(int_rat(&outs[0].1), 50_000);
    assert_eq!(int_rat(&outs[1].1), 50_000);
    assert_eq!(provider.data_source.calls, 1);

    // a second conversion over the same provider issues no further call
    let outs = convert(&amount, &btc(BitcoinUnit::BTC), &to, false, &mut provider).unwrap();
    assert_eq!(int_rat(&outs[0].1), 50_000);
    assert_eq!(provider.data_source.calls, 1);
}

#[test]
fn fetch_twice_issues_one_network_call() {
    let mut provider = ExchangeRateProvider {
        data_source: MockConsumer::with_rates(uniform_rates(42, 0)),
        data: None,
    };
    provider.fetch().unwrap();
    provider.fetch().unwrap();
    assert_eq!(provider.data_source.calls, 1);
}

#[test]
fn fiat_to_fiat_goes_through_the_base_unit() {
    // USD at 100,000 per BTC, JPY at 100,000 per BTC too (uniform):
    // 250 USD are 250 JPY
    let mut provider = ExchangeRateProvider {
        data_source: MockConsumer::with_rates(uniform_rates(100_000, 0)),
        data: None,
    };
    let amount = Dec { neg: false, mant: 250, exp: 0 };
    let to = vec![fiat(Fiat::JPY)];
    let outs = convert(&amount, &fiat(Fiat::USD), &to, false, &mut provider).unwrap();
    assert_eq!(int_rat(&outs[0].1), 250);
    assert_eq!(provider.data_source.calls, 1);
}

#[test]
fn fiat_prices_with_decimals_stay_exact() {
    // 43,250.12 per bitcoin: 1 BTC -> 43250.12 units, exactly
    let mut provider = ExchangeRateProvider {
        data_source: MockConsumer::with_rates(uniform_rates(4_325_012, -2)),
        data: None,
    };
    let amount = Dec { neg: false, mant: 1, exp: 0 };
    let to = vec![fiat(Fiat::USD)];
    let outs = convert(&amount, &btc(BitcoinUnit::BTC), &to, false, &mut provider).unwrap();
    let v = &outs[0].1;
    assert!(!v.neg);
    // the value equals 4325012 / 100
    let expected = Rat { neg: false, num: 4_325_012, den: 100 };
    assert_eq!(same_value(v, &expected), Some(true));
}

#[test]
fn failed_fetch_is_fatal_and_leaves_the_provider_empty() {
    let mut consumer = MockConsumer::with_rates(uniform_rates(1, 0));
    consumer.fail = true;
    let mut provider = ExchangeRateProvider { data_source: consumer, data: None };
    let amount = Dec { neg: false, mant: 1, exp: 0 };
    let to = vec![fiat(Fiat::USD)];
    let res = convert(&amount, &btc(BitcoinUnit::BTC), &to, false, &mut provider);
    assert!(matches!(res, Err(ConversionError::Rates(_))));
    assert!(provider.data.is_none());
    assert_eq!(provider.data_source.calls, 1);
}

#[test]
fn incomplete_price_lists_are_rejected() {
    let mut rates = uniform_rates(1, 0);
    rates.retain(|(f, _)| *f != Fiat::CHF);
    let mut provider = ExchangeRateProvider {
        data_source: MockConsumer::with_rates(rates),
        data: None,
    };
    assert!(provider.fetch().is_err());
    assert!(provider.data.is_none());
}

#[test]
fn non_positive_prices_are_rejected() {
    let mut rates = uniform_rates(1, 0);
    rates[0].1 = Dec { neg: false, mant: 0, exp: 0 };
    let mut provider = ExchangeRateProvider {
        data_source: MockConsumer::with_rates(rates),
        data: None,
    };
    assert!(provider.fetch().is_err());

    let mut rates = uniform_rates(1, 0);
    rates[3].1 = Dec { neg: true, mant: 5, exp: 0 };
    let mut provider = ExchangeRateProvider {
        data_source: MockConsumer::with_rates(rates),
        data: None,
    };
    assert!(provider.fetch().is_err());
}

#[test]
fn overflowing_conversions_are_reported() {
    let mut provider = ExchangeRateProvider {
        data_source: MockConsumer::with_rates(uniform_rates(1, 0)),
        data: None,
    };
    let amount = Dec { neg: false, mant: u128::MAX, exp: 0 };
    let to = vec![btc(BitcoinUnit::MSAT)];
    let res = convert(&amount, &btc(BitcoinUnit::BTC), &to, false, &mut provider);
    assert!(matches!(res, Err(ConversionError::Overflow)));
}

#[test]
fn display_rounding_follows_decimal_places() {
    // 1234.567 rounded for USD (two decimals) and JPY (zero decimals)
    let v = Rat { neg: false, num: 1_234_567, den: 1_000 };
    let usd = Currency::Fiat(Fiat::USD).round_value(&v).unwrap();
    assert_eq!(usd, Rat { neg: false, num: 123_457, den: 100 });
    let jpy = Currency::Fiat(Fiat::JPY).round_value(&v).unwrap();
    assert_eq!(jpy, Rat { neg: false, num: 1_235, den: 1 });
}
