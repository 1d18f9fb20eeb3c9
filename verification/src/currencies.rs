//! The currency registry: one entry point that parses any supported
//! currency code.

use vstd::prelude::*;

use crate::currency::btc::BitcoinUnit;
use crate::currency::fiat::Fiat;
use crate::currency::Currency;

verus! {

/// Error for an unrecognized currency code; `msg` names the offending
/// input.
#[derive(Debug, PartialEq, Eq)]
pub struct CurrencyParseError {
    pub msg: String,
}

/// The text put in front of the offending input in a
/// [`CurrencyParseError`] message.
pub open spec fn parse_error_prefix() -> Seq<char> {
    "Unable to parse the following currency: "@
}

/// The registry.  Codes are matched ASCII case-insensitively, Bitcoin
/// denominations before fiat currencies.
pub struct Currencies;

/// The registry lookup: the Bitcoin-unit family first, then the fiat
/// family.
pub open spec fn spec_parse_currency(s: Seq<char>) -> Option<Currency> {
    if BitcoinUnit::spec_parse(s) is Some {
        Some(Currency::Bitcoin(BitcoinUnit::spec_parse(s)->0))
    } else if Fiat::spec_parse(s) is Some {
        Some(Currency::Fiat(Fiat::spec_parse(s)->0))
    } else {
        None
    }
}

impl Currencies {
    /// Parse a currency code, ASCII case-insensitively, trying Bitcoin
    /// denominations before fiat currencies.  On failure the error
    /// message carries the offending input after a fixed prefix.
    pub fn parse(input: &str) -> (r: Result<Currency, CurrencyParseError>)
        ensures
            match r {
                Ok(c) => spec_parse_currency(input@) == Some(c),
                Err(e) => spec_parse_currency(input@) is None && e.msg@ == parse_error_prefix()
                    + input@,
            },
    {
        if let Some(btc) = BitcoinUnit::parse(input) {
            return Ok(Currency::Bitcoin(btc));
        }
        if let Some(fiat) = Fiat::parse(input) {
            return Ok(Currency::Fiat(fiat));
        }
        let mut msg = String::from_str("Unable to parse the following currency: ");
        msg.append(input);
        Err(CurrencyParseError { msg })
    }
}

/// No fiat code spells a Bitcoin-denomination code, not even
/// case-insensitively: the code families are disjoint.
proof fn lemma_families_disjoint(f: Fiat, u: BitcoinUnit)
    ensures
        !crate::currency::str_eq_ci(f.spec_code(), u.spec_code()),
{
    if crate::currency::str_eq_ci(f.spec_code(), u.spec_code()) {
        f.lemma_code_upper();
        u.lemma_code_upper();
        crate::currency::lemma_ci_upper_eq(f.spec_code(), u.spec_code());
        assert(crate::currency::code_key(f.spec_code()) == crate::currency::code_key(
            u.spec_code(),
        ));
    }
}

/// Every currency's display code parses back to exactly that currency:
/// the registry and the codes round-trip.
pub proof fn lemma_currency_code_round_trip(c: Currency)
    ensures
        spec_parse_currency(c.spec_code()) == Some(c),
{
    match c {
        Currency::Bitcoin(u) => {
            u.lemma_parse_code();
        },
        Currency::Fiat(f) => {
            lemma_families_disjoint(f, BitcoinUnit::BTC);
            lemma_families_disjoint(f, BitcoinUnit::MBTC);
            lemma_families_disjoint(f, BitcoinUnit::BITS);
            lemma_families_disjoint(f, BitcoinUnit::SAT);
            lemma_families_disjoint(f, BitcoinUnit::MSAT);
            f.lemma_parse_code();
        },
    }
}

} // verus!
