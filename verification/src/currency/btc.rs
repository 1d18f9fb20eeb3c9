//! Bitcoin denominations and their fixed ratios to the base unit.

use vstd::prelude::*;

use crate::rational::{pow10, Rat};
use super::{matches_code, str_eq_ci};

verus! {

/// A Bitcoin denomination.  Each unit is an exact power-of-ten fraction
/// of one bitcoin, the base unit.
#[derive(Clone, Copy, Debug, PartialEq, Eq, Structural)]
pub enum BitcoinUnit {
    /// Bitcoin, the base unit.
    BTC,
    /// Milli-bitcoin, one thousandth.
    MBTC,
    /// Micro-bitcoin, one millionth.
    BITS,
    /// Satoshi, one hundred-millionth.
    SAT,
    /// Milli-satoshi, one hundred-billionth.
    MSAT,
}

impl BitcoinUnit {
    /// The unit is `10^-ratio_exp()` bitcoin.
    pub open spec fn ratio_exp(self) -> nat {
        match self {
            BitcoinUnit::BTC => 0,
            BitcoinUnit::MBTC => 3,
            BitcoinUnit::BITS => 6,
            BitcoinUnit::SAT => 8,
            BitcoinUnit::MSAT => 11,
        }
    }

    /// The canonical upper-case display code.
    pub open spec fn spec_code(self) -> Seq<char> {
        match self {
            BitcoinUnit::BTC => seq!['B', 'T', 'C'],
            BitcoinUnit::MBTC => seq!['M', 'B', 'T', 'C'],
            BitcoinUnit::BITS => seq!['B', 'I', 'T', 'S'],
            BitcoinUnit::SAT => seq!['S', 'A', 'T'],
            BitcoinUnit::MSAT => seq!['M', 'S', 'A', 'T'],
        }
    }

    /// The code `s` parsed ASCII case-insensitively.
    pub open spec fn spec_parse(s: Seq<char>) -> Option<BitcoinUnit> {
        if str_eq_ci(s, BitcoinUnit::BTC.spec_code()) {
            Some(BitcoinUnit::BTC)
        } else if str_eq_ci(s, BitcoinUnit::MBTC.spec_code()) {
            Some(BitcoinUnit::MBTC)
        } else if str_eq_ci(s, BitcoinUnit::BITS.spec_code()) {
            Some(BitcoinUnit::BITS)
        } else if str_eq_ci(s, BitcoinUnit::SAT.spec_code()) {
            Some(BitcoinUnit::SAT)
        } else if str_eq_ci(s, BitcoinUnit::MSAT.spec_code()) {
            Some(BitcoinUnit::MSAT)
        } else {
            None
        }
    }

    /// Parse a denomination code, ASCII case-insensitively.
    pub fn parse(s: &str) -> (r: Option<BitcoinUnit>)
        ensures
            r == BitcoinUnit::spec_parse(s@),
    {
        proof {
            reveal_strlit("BTC");
            reveal_strlit("MBTC");
            reveal_strlit("BITS");
            reveal_strlit("SAT");
            reveal_strlit("MSAT");
            assert("BTC"@ =~= BitcoinUnit::BTC.spec_code());
            assert("MBTC"@ =~= BitcoinUnit::MBTC.spec_code());
            assert("BITS"@ =~= BitcoinUnit::BITS.spec_code());
            assert("SAT"@ =~= BitcoinUnit::SAT.spec_code());
            assert("MSAT"@ =~= BitcoinUnit::MSAT.spec_code());
        }
        if matches_code(s, "BTC") {
            Some(BitcoinUnit::BTC)
        } else if matches_code(s, "MBTC") {
            Some(BitcoinUnit::MBTC)
        } else if matches_code(s, "BITS") {
            Some(BitcoinUnit::BITS)
        } else if matches_code(s, "SAT") {
            Some(BitcoinUnit::SAT)
        } else if matches_code(s, "MSAT") {
            Some(BitcoinUnit::MSAT)
        } else {
            None
        }
    }

    /// The display code as a fresh string.
    pub fn to_string(&self) -> (r: String)
        ensures
            r@ == self.spec_code(),
    {
        proof {
            reveal_strlit("BTC");
            reveal_strlit("MBTC");
            reveal_strlit("BITS");
            reveal_strlit("SAT");
            reveal_strlit("MSAT");
            assert("BTC"@ =~= BitcoinUnit::BTC.spec_code());
            assert("MBTC"@ =~= BitcoinUnit::MBTC.spec_code());
            assert("BITS"@ =~= BitcoinUnit::BITS.spec_code());
            assert("SAT"@ =~= BitcoinUnit::SAT.spec_code());
            assert("MSAT"@ =~= BitcoinUnit::MSAT.spec_code());
        }
        match self {
            BitcoinUnit::BTC => String::from_str("BTC"),
            BitcoinUnit::MBTC => String::from_str("MBTC"),
            BitcoinUnit::BITS => String::from_str("BITS"),
            BitcoinUnit::SAT => String::from_str("SAT"),
            BitcoinUnit::MSAT => String::from_str("MSAT"),
        }
    }

    /// Every denomination code is upper-case.
    pub proof fn lemma_code_upper(self)
        ensures
            super::all_upper(self.spec_code()),
    {
    }

    /// Codes discriminate denominations, even case-insensitively.
    pub proof fn lemma_code_ci_injective(self, other: BitcoinUnit)
        requires
            super::str_eq_ci(self.spec_code(), other.spec_code()),
        ensures
            self == other,
    {
        self.lemma_code_upper();
        other.lemma_code_upper();
        super::lemma_ci_upper_eq(self.spec_code(), other.spec_code());
        assert(super::code_key(self.spec_code()) == super::code_key(other.spec_code()));
    }

    /// A denomination's own code parses back to it.
    pub proof fn lemma_parse_code(self)
        ensures
            BitcoinUnit::spec_parse(self.spec_code()) == Some(self),
    {
        super::lemma_ci_reflexive(self.spec_code());
        if super::str_eq_ci(self.spec_code(), BitcoinUnit::BTC.spec_code()) {
            self.lemma_code_ci_injective(BitcoinUnit::BTC);
        }
        if super::str_eq_ci(self.spec_code(), BitcoinUnit::MBTC.spec_code()) {
            self.lemma_code_ci_injective(BitcoinUnit::MBTC);
        }
        if super::str_eq_ci(self.spec_code(), BitcoinUnit::BITS.spec_code()) {
            self.lemma_code_ci_injective(BitcoinUnit::BITS);
        }
        if super::str_eq_ci(self.spec_code(), BitcoinUnit::SAT.spec_code()) {
            self.lemma_code_ci_injective(BitcoinUnit::SAT);
        }
        if super::str_eq_ci(self.spec_code(), BitcoinUnit::MSAT.spec_code()) {
            self.lemma_code_ci_injective(BitcoinUnit::MSAT);
        }
    }

    /// The unit's value in the base unit, as an exact rational:
    /// `1 / 10^ratio_exp()`.
    pub fn btc_value(&self) -> (r: Rat)
        ensures
            r.wf(),
            !r.neg,
            r.num == 1,
            r.den == pow10(self.ratio_exp()),
    {
        proof {
            reveal_with_fuel(pow10, 12);
        }
        let den: u128 = match self {
            BitcoinUnit::BTC => 1,
            BitcoinUnit::MBTC => 1000,
            BitcoinUnit::BITS => 1000000,
            BitcoinUnit::SAT => 100000000,
            BitcoinUnit::MSAT => 100000000000,
        };
        Rat { neg: false, num: 1, den }
    }
}

} // verus!
