//! Fiat currencies: a fixed set of ISO-like codes.
//!
//! A fiat currency has no intrinsic ratio to the base unit; its value is
//! resolved through an exchange-rate snapshot.  Each currency carries its
//! real-world display precision: zero decimal places for currencies whose
//! smallest unit is not subdivided, two for the others.

use vstd::prelude::*;

use super::{matches_code, str_eq_ci};

verus! {

/// A supported fiat currency.
#[derive(Clone, Copy, Debug, PartialEq, Eq, Structural)]
pub enum Fiat {
    ARS,
    AUD,
    BRL,
    CAD,
    CHF,
    CLP,
    CNY,
    CZK,
    DKK,
    EUR,
    GBP,
    HKD,
    HUF,
    INR,
    ISK,
    JPY,
    KRW,
    NZD,
    PLN,
    RON,
    RUB,
    SEK,
    SGD,
    THB,
    TRY,
    TWD,
    USD,
}

impl Fiat {
    /// The canonical upper-case display code.
    pub open spec fn spec_code(self) -> Seq<char> {
        match self {
            Fiat::ARS => seq!['A', 'R', 'S'],
            Fiat::AUD => seq!['A', 'U', 'D'],
            Fiat::BRL => seq!['B', 'R', 'L'],
            Fiat::CAD => seq!['C', 'A', 'D'],
            Fiat::CHF => seq!['C', 'H', 'F'],
            Fiat::CLP => seq!['C', 'L', 'P'],
            Fiat::CNY => seq!['C', 'N', 'Y'],
            Fiat::CZK => seq!['C', 'Z', 'K'],
            Fiat::DKK => seq!['D', 'K', 'K'],
            Fiat::EUR => seq!['E', 'U', 'R'],
            Fiat::GBP => seq!['G', 'B', 'P'],
            Fiat::HKD => seq!['H', 'K', 'D'],
            Fiat::HUF => seq!['H', 'U', 'F'],
            Fiat::INR => seq!['I', 'N', 'R'],
            Fiat::ISK => seq!['I', 'S', 'K'],
            Fiat::JPY => seq!['J', 'P', 'Y'],
            Fiat::KRW => seq!['K', 'R', 'W'],
            Fiat::NZD => seq!['N', 'Z', 'D'],
            Fiat::PLN => seq!['P', 'L', 'N'],
            Fiat::RON => seq!['R', 'O', 'N'],
            Fiat::RUB => seq!['R', 'U', 'B'],
            Fiat::SEK => seq!['S', 'E', 'K'],
            Fiat::SGD => seq!['S', 'G', 'D'],
            Fiat::THB => seq!['T', 'H', 'B'],
            Fiat::TRY => seq!['T', 'R', 'Y'],
            Fiat::TWD => seq!['T', 'W', 'D'],
            Fiat::USD => seq!['U', 'S', 'D'],
        }
    }

    /// Display decimal places: zero for currencies whose smallest unit is
    /// not subdivided, two for the others.
    pub open spec fn spec_decimal_places(self) -> u8 {
        match self {
            Fiat::ARS | Fiat::CLP | Fiat::HUF | Fiat::ISK | Fiat::JPY | Fiat::KRW => 0,
            _ => 2,
        }
    }

    /// The code `s` parsed ASCII case-insensitively.
    pub open spec fn spec_parse(s: Seq<char>) -> Option<Fiat> {
        if str_eq_ci(s, Fiat::ARS.spec_code()) {
            Some(Fiat::ARS)
        } else if str_eq_ci(s, Fiat::AUD.spec_code()) {
            Some(Fiat::AUD)
        } else if str_eq_ci(s, Fiat::BRL.spec_code()) {
            Some(Fiat::BRL)
        } else if str_eq_ci(s, Fiat::CAD.spec_code()) {
            Some(Fiat::CAD)
        } else if str_eq_ci(s, Fiat::CHF.spec_code()) {
            Some(Fiat::CHF)
        } else if str_eq_ci(s, Fiat::CLP.spec_code()) {
            Some(Fiat::CLP)
        } else if str_eq_ci(s, Fiat::CNY.spec_code()) {
            Some(Fiat::CNY)
        } else if str_eq_ci(s, Fiat::CZK.spec_code()) {
            Some(Fiat::CZK)
        } else if str_eq_ci(s, Fiat::DKK.spec_code()) {
            Some(Fiat::DKK)
        } else if str_eq_ci(s, Fiat::EUR.spec_code()) {
            Some(Fiat::EUR)
        } else if str_eq_ci(s, Fiat::GBP.spec_code()) {
            Some(Fiat::GBP)
        } else if str_eq_ci(s, Fiat::HKD.spec_code()) {
            Some(Fiat::HKD)
        } else if str_eq_ci(s, Fiat::HUF.spec_code()) {
            Some(Fiat::HUF)
        } else if str_eq_ci(s, Fiat::INR.spec_code()) {
            Some(Fiat::INR)
        } else if str_eq_ci(s, Fiat::ISK.spec_code()) {
            Some(Fiat::ISK)
        } else if str_eq_ci(s, Fiat::JPY.spec_code()) {
            Some(Fiat::JPY)
        } else if str_eq_ci(s, Fiat::KRW.spec_code()) {
            Some(Fiat::KRW)
        } else if str_eq_ci(s, Fiat::NZD.spec_code()) {
            Some(Fiat::NZD)
        } else if str_eq_ci(s, Fiat::PLN.spec_code()) {
            Some(Fiat::PLN)
        } else if str_eq_ci(s, Fiat::RON.spec_code()) {
            Some(Fiat::RON)
        } else if str_eq_ci(s, Fiat::RUB.spec_code()) {
            Some(Fiat::RUB)
        } else if str_eq_ci(s, Fiat::SEK.spec_code()) {
            Some(Fiat::SEK)
        } else if str_eq_ci(s, Fiat::SGD.spec_code()) {
            Some(Fiat::SGD)
        } else if str_eq_ci(s, Fiat::THB.spec_code()) {
            Some(Fiat::THB)
        } else if str_eq_ci(s, Fiat::TRY.spec_code()) {
            Some(Fiat::TRY)
        } else if str_eq_ci(s, Fiat::TWD.spec_code()) {
            Some(Fiat::TWD)
        } else if str_eq_ci(s, Fiat::USD.spec_code()) {
            Some(Fiat::USD)
        } else {
            None
        }
    }

    /// Parse a fiat currency code, ASCII case-insensitively.
    pub fn parse(s: &str) -> (r: Option<Fiat>)
        ensures
            r == Fiat::spec_parse(s@),
    {
        proof {
            reveal_strlit("ARS");
            reveal_strlit("AUD");
            reveal_strlit("BRL");
            reveal_strlit("CAD");
            reveal_strlit("CHF");
            reveal_strlit("CLP");
            reveal_strlit("CNY");
            reveal_strlit("CZK");
            reveal_strlit("DKK");
            reveal_strlit("EUR");
            reveal_strlit("GBP");
            reveal_strlit("HKD");
            reveal_strlit("HUF");
            reveal_strlit("INR");
            reveal_strlit("ISK");
            reveal_strlit("JPY");
            reveal_strlit("KRW");
            reveal_strlit("NZD");
            reveal_strlit("PLN");
            reveal_strlit("RON");
            reveal_strlit("RUB");
            reveal_strlit("SEK");
            reveal_strlit("SGD");
            reveal_strlit("THB");
            reveal_strlit("TRY");
            reveal_strlit("TWD");
            reveal_strlit("USD");
            assert("ARS"@ =~= Fiat::ARS.spec_code());
            assert("AUD"@ =~= Fiat::AUD.spec_code());
            assert("BRL"@ =~= Fiat::BRL.spec_code());
            assert("CAD"@ =~= Fiat::CAD.spec_code());
            assert("CHF"@ =~= Fiat::CHF.spec_code());
            assert("CLP"@ =~= Fiat::CLP.spec_code());
            assert("CNY"@ =~= Fiat::CNY.spec_code());
            assert("CZK"@ =~= Fiat::CZK.spec_code());
            assert("DKK"@ =~= Fiat::DKK.spec_code());
            assert("EUR"@ =~= Fiat::EUR.spec_code());
            assert("GBP"@ =~= Fiat::GBP.spec_code());
            assert("HKD"@ =~= Fiat::HKD.spec_code());
            assert("HUF"@ =~= Fiat::HUF.spec_code());
            assert("INR"@ =~= Fiat::INR.spec_code());
            assert("ISK"@ =~= Fiat::ISK.spec_code());
            assert("JPY"@ =~= Fiat::JPY.spec_code());
            assert("KRW"@ =~= Fiat::KRW.spec_code());
            assert("NZD"@ =~= Fiat::NZD.spec_code());
            assert("PLN"@ =~= Fiat::PLN.spec_code());
            assert("RON"@ =~= Fiat::RON.spec_code());
            assert("RUB"@ =~= Fiat::RUB.spec_code());
            assert("SEK"@ =~= Fiat::SEK.spec_code());
            assert("SGD"@ =~= Fiat::SGD.spec_code());
            assert("THB"@ =~= Fiat::THB.spec_code());
            assert("TRY"@ =~= Fiat::TRY.spec_code());
            assert("TWD"@ =~= Fiat::TWD.spec_code());
            assert("USD"@ =~= Fiat::USD.spec_code());
        }
        if matches_code(s, "ARS") {
            Some(Fiat::ARS)
        } else if matches_code(s, "AUD") {
            Some(Fiat::AUD)
        } else if matches_code(s, "BRL") {
            Some(Fiat::BRL)
        } else if matches_code(s, "CAD") {
            Some(Fiat::CAD)
        } else if matches_code(s, "CHF") {
            Some(Fiat::CHF)
        } else if matches_code(s, "CLP") {
            Some(Fiat::CLP)
        } else if matches_code(s, "CNY") {
            Some(Fiat::CNY)
        } else if matches_code(s, "CZK") {
            Some(Fiat::CZK)
        } else if matches_code(s, "DKK") {
            Some(Fiat::DKK)
        } else if matches_code(s, "EUR") {
            Some(Fiat::EUR)
        } else if matches_code(s, "GBP") {
            Some(Fiat::GBP)
        } else if matches_code(s, "HKD") {
            Some(Fiat::HKD)
        } else if matches_code(s, "HUF") {
            Some(Fiat::HUF)
        } else if matches_code(s, "INR") {
            Some(Fiat::INR)
        } else if matches_code(s, "ISK") {
            Some(Fiat::ISK)
        } else if matches_code(s, "JPY") {
            Some(Fiat::JPY)
        } else if matches_code(s, "KRW") {
            Some(Fiat::KRW)
        } else if matches_code(s, "NZD") {
            Some(Fiat::NZD)
        } else if matches_code(s, "PLN") {
            Some(Fiat::PLN)
        } else if matches_code(s, "RON") {
            Some(Fiat::RON)
        } else if matches_code(s, "RUB") {
            Some(Fiat::RUB)
        } else if matches_code(s, "SEK") {
            Some(Fiat::SEK)
        } else if matches_code(s, "SGD") {
            Some(Fiat::SGD)
        } else if matches_code(s, "THB") {
            Some(Fiat::THB)
        } else if matches_code(s, "TRY") {
            Some(Fiat::TRY)
        } else if matches_code(s, "TWD") {
            Some(Fiat::TWD)
        } else if matches_code(s, "USD") {
            Some(Fiat::USD)
        } else {
            None
        }
    }

    /// The display code as a fresh string.
    pub fn to_string(&self) -> (r: String)
        ensures
            r@ == self.spec_code(),
    {
        match self {
            Fiat::ARS => {
                proof {
                    reveal_strlit("ARS");
                    assert("ARS"@ =~= Fiat::ARS.spec_code());
                }
                String::from_str("ARS")
            },
            Fiat::AUD => {
                proof {
                    reveal_strlit("AUD");
                    assert("AUD"@ =~= Fiat::AUD.spec_code());
                }
                String::from_str("AUD")
            },
            Fiat::BRL => {
                proof {
                    reveal_strlit("BRL");
                    assert("BRL"@ =~= Fiat::BRL.spec_code());
                }
                String::from_str("BRL")
            },
            Fiat::CAD => {
                proof {
                    reveal_strlit("CAD");
                    assert("CAD"@ =~= Fiat::CAD.spec_code());
                }
                String::from_str("CAD")
            },
            Fiat::CHF => {
                proof {
                    reveal_strlit("CHF");
                    assert("CHF"@ =~= Fiat::CHF.spec_code());
                }
                String::from_str("CHF")
            },
            Fiat::CLP => {
                proof {
                    reveal_strlit("CLP");
                    assert("CLP"@ =~= Fiat::CLP.spec_code());
                }
                String::from_str("CLP")
            },
            Fiat::CNY => {
                proof {
                    reveal_strlit("CNY");
                    assert("CNY"@ =~= Fiat::CNY.spec_code());
                }
                String::from_str("CNY")
            },
            Fiat::CZK => {
                proof {
                    reveal_strlit("CZK");
                    assert("CZK"@ =~= Fiat::CZK.spec_code());
                }
                String::from_str("CZK")
            },
            Fiat::DKK => {
                proof {
                    reveal_strlit("DKK");
                    assert("DKK"@ =~= Fiat::DKK.spec_code());
                }
                String::from_str("DKK")
            },
            Fiat::EUR => {
                proof {
                    reveal_strlit("EUR");
                    assert("EUR"@ =~= Fiat::EUR.spec_code());
                }
                String::from_str("EUR")
            },
            Fiat::GBP => {
                proof {
                    reveal_strlit("GBP");
                    assert("GBP"@ =~= Fiat::GBP.spec_code());
                }
                String::from_str("GBP")
            },
            Fiat::HKD => {
                proof {
                    reveal_strlit("HKD");
                    assert("HKD"@ =~= Fiat::HKD.spec_code());
                }
                String::from_str("HKD")
            },
            Fiat::HUF => {
                proof {
                    reveal_strlit("HUF");
                    assert("HUF"@ =~= Fiat::HUF.spec_code());
                }
                String::from_str("HUF")
            },
            Fiat::INR => {
                proof {
                    reveal_strlit("INR");
                    assert("INR"@ =~= Fiat::INR.spec_code());
                }
                String::from_str("INR")
            },
            Fiat::ISK => {
                proof {
                    reveal_strlit("ISK");
                    assert("ISK"@ =~= Fiat::ISK.spec_code());
                }
                String::from_str("ISK")
            },
            Fiat::JPY => {
                proof {
                    reveal_strlit("JPY");
                    assert("JPY"@ =~= Fiat::JPY.spec_code());
                }
                String::from_str("JPY")
            },
            Fiat::KRW => {
                proof {
                    reveal_strlit("KRW");
                    assert("KRW"@ =~= Fiat::KRW.spec_code());
                }
                String::from_str("KRW")
            },
            Fiat::NZD => {
                proof {
                    reveal_strlit("NZD");
                    assert("NZD"@ =~= Fiat::NZD.spec_code());
                }
                String::from_str("NZD")
            },
            Fiat::PLN => {
                proof {
                    reveal_strlit("PLN");
                    assert("PLN"@ =~= Fiat::PLN.spec_code());
                }
                String::from_str("PLN")
            },
            Fiat::RON => {
                proof {
                    reveal_strlit("RON");
                    assert("RON"@ =~= Fiat::RON.spec_code());
                }
                String::from_str("RON")
            },
            Fiat::RUB => {
                proof {
                    reveal_strlit("RUB");
                    assert("RUB"@ =~= Fiat::RUB.spec_code());
                }
                String::from_str("RUB")
            },
            Fiat::SEK => {
                proof {
                    reveal_strlit("SEK");
                    assert("SEK"@ =~= Fiat::SEK.spec_code());
                }
                String::from_str("SEK")
            },
            Fiat::SGD => {
                proof {
                    reveal_strlit("SGD");
                    assert("SGD"@ =~= Fiat::SGD.spec_code());
                }
                String::from_str("SGD")
            },
            Fiat::THB => {
                proof {
                    reveal_strlit("THB");
                    assert("THB"@ =~= Fiat::THB.spec_code());
                }
                String::from_str("THB")
            },
            Fiat::TRY => {
                proof {
                    reveal_strlit("TRY");
                    assert("TRY"@ =~= Fiat::TRY.spec_code());
                }
                String::from_str("TRY")
            },
            Fiat::TWD => {
                proof {
                    reveal_strlit("TWD");
                    assert("TWD"@ =~= Fiat::TWD.spec_code());
                }
                String::from_str("TWD")
            },
            Fiat::USD => {
                proof {
                    reveal_strlit("USD");
                    assert("USD"@ =~= Fiat::USD.spec_code());
                }
                String::from_str("USD")
            },
        }
    }

    /// Every fiat code is upper-case.
    pub proof fn lemma_code_upper(self)
        ensures
            super::all_upper(self.spec_code()),
    {
    }

    /// Codes discriminate fiat currencies, even case-insensitively.
    pub proof fn lemma_code_ci_injective(self, other: Fiat)
        requires
            super::str_eq_ci(self.spec_code(), other.spec_code()),
        ensures
            self == other,
    {
        self.lemma_code_upper();
        other.lemma_code_upper();
        super::lemma_ci_upper_eq(self.spec_code(), other.spec_code());
        assert(super::code_key(self.spec_code()) == super::code_key(other.spec_code()));
    }

    /// A fiat currency's own code parses back to it.
    pub proof fn lemma_parse_code(self)
        ensures
            Fiat::spec_parse(self.spec_code()) == Some(self),
    {
        super::lemma_ci_reflexive(self.spec_code());
        if super::str_eq_ci(self.spec_code(), Fiat::ARS.spec_code()) {
            self.lemma_code_ci_injective(Fiat::ARS);
        }
        if super::str_eq_ci(self.spec_code(), Fiat::AUD.spec_code()) {
            self.lemma_code_ci_injective(Fiat::AUD);
        }
        if super::str_eq_ci(self.spec_code(), Fiat::BRL.spec_code()) {
            self.lemma_code_ci_injective(Fiat::BRL);
        }
        if super::str_eq_ci(self.spec_code(), Fiat::CAD.spec_code()) {
            self.lemma_code_ci_injective(Fiat::CAD);
        }
        if super::str_eq_ci(self.spec_code(), Fiat::CHF.spec_code()) {
            self.lemma_code_ci_injective(Fiat::CHF);
        }
        if super::str_eq_ci(self.spec_code(), Fiat::CLP.spec_code()) {
            self.lemma_code_ci_injective(Fiat::CLP);
        }
        if super::str_eq_ci(self.spec_code(), Fiat::CNY.spec_code()) {
            self.lemma_code_ci_injective(Fiat::CNY);
        }
        if super::str_eq_ci(self.spec_code(), Fiat::CZK.spec_code()) {
            self.lemma_code_ci_injective(Fiat::CZK);
        }
        if super::str_eq_ci(self.spec_code(), Fiat::DKK.spec_code()) {
            self.lemma_code_ci_injective(Fiat::DKK);
        }
        if super::str_eq_ci(self.spec_code(), Fiat::EUR.spec_code()) {
            self.lemma_code_ci_injective(Fiat::EUR);
        }
        if super::str_eq_ci(self.spec_code(), Fiat::GBP.spec_code()) {
            self.lemma_code_ci_injective(Fiat::GBP);
        }
        if super::str_eq_ci(self.spec_code(), Fiat::HKD.spec_code()) {
            self.lemma_code_ci_injective(Fiat::HKD);
        }
        if super::str_eq_ci(self.spec_code(), Fiat::HUF.spec_code()) {
            self.lemma_code_ci_injective(Fiat::HUF);
        }
        if super::str_eq_ci(self.spec_code(), Fiat::INR.spec_code()) {
            self.lemma_code_ci_injective(Fiat::INR);
        }
        if super::str_eq_ci(self.spec_code(), Fiat::ISK.spec_code()) {
            self.lemma_code_ci_injective(Fiat::ISK);
        }
        if super::str_eq_ci(self.spec_code(), Fiat::JPY.spec_code()) {
            self.lemma_code_ci_injective(Fiat::JPY);
        }
        if super::str_eq_ci(self.spec_code(), Fiat::KRW.spec_code()) {
            self.lemma_code_ci_injective(Fiat::KRW);
        }
        if super::str_eq_ci(self.spec_code(), Fiat::NZD.spec_code()) {
            self.lemma_code_ci_injective(Fiat::NZD);
        }
        if super::str_eq_ci(self.spec_code(), Fiat::PLN.spec_code()) {
            self.lemma_code_ci_injective(Fiat::PLN);
        }
        if super::str_eq_ci(self.spec_code(), Fiat::RON.spec_code()) {
            self.lemma_code_ci_injective(Fiat::RON);
        }
        if super::str_eq_ci(self.spec_code(), Fiat::RUB.spec_code()) {
            self.lemma_code_ci_injective(Fiat::RUB);
        }
        if super::str_eq_ci(self.spec_code(), Fiat::SEK.spec_code()) {
            self.lemma_code_ci_injective(Fiat::SEK);
        }
        if super::str_eq_ci(self.spec_code(), Fiat::SGD.spec_code()) {
            self.lemma_code_ci_injective(Fiat::SGD);
        }
        if super::str_eq_ci(self.spec_code(), Fiat::THB.spec_code()) {
            self.lemma_code_ci_injective(Fiat::THB);
        }
        if super::str_eq_ci(self.spec_code(), Fiat::TRY.spec_code()) {
            self.lemma_code_ci_injective(Fiat::TRY);
        }
        if super::str_eq_ci(self.spec_code(), Fiat::TWD.spec_code()) {
            self.lemma_code_ci_injective(Fiat::TWD);
        }
        if super::str_eq_ci(self.spec_code(), Fiat::USD.spec_code()) {
            self.lemma_code_ci_injective(Fiat::USD);
        }
    }

    pub fn decimal_places(&self) -> (r: u8)
        ensures
            r == self.spec_decimal_places(),
    {
        match self {
            Fiat::ARS | Fiat::CLP | Fiat::HUF | Fiat::ISK | Fiat::JPY | Fiat::KRW => 0,
            _ => 2,
        }
    }
}

} // verus!
