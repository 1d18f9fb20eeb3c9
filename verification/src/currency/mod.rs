//! The currency abstraction: a closed union of Bitcoin denominations and
//! fiat currencies.
//!
//! Every currency has exactly one upper-case display code; parsing a code
//! is ASCII case-insensitive.  Bitcoin units carry a fixed power-of-ten
//! ratio to the base unit (one bitcoin); fiat units are priced only
//! through an exchange-rate snapshot.

use vstd::prelude::*;

use crate::rational::{pow10, Rat};

pub mod btc;
pub mod fiat;

use btc::BitcoinUnit;
use fiat::Fiat;

verus! {

/// `c` is `up` compared ASCII case-insensitively, where `up` is an
/// upper-case letter or digit: either the character itself or, for a
/// letter, its lower-case form 32 code points above.
pub open spec fn char_eq_ci(c: char, up: char) -> bool {
    c == up || c as int == up as int + 32
}

/// `s` spells `code` under ASCII case-insensitive comparison.
pub open spec fn str_eq_ci(s: Seq<char>, code: Seq<char>) -> bool {
    s.len() == code.len() && (forall|i: int| 0 <= i < s.len() ==> char_eq_ci(s[i], #[trigger] code[i]))
}

/// Whether `s` spells `code`, ASCII case-insensitively.  `code` is the
/// canonical (upper-case) form.
pub fn matches_code(s: &str, code: &str) -> (b: bool)
    ensures
        b == str_eq_ci(s@, code@),
{
    let n = s.unicode_len();
    if n != code.unicode_len() {
        return false;
    }
    let mut i: usize = 0;
    while i < n
        invariant
            0 <= i <= n,
            n == s@.len(),
            n == code@.len(),
            forall|j: int| 0 <= j < i ==> char_eq_ci(s@[j], #[trigger] code@[j]),
        decreases n - i,
    {
        let c = s.get_char(i);
        let u = code.get_char(i);
        if !(c == u || c as u32 == u as u32 + 32) {
            return false;
        }
        i = i + 1;
    }
    true
}

/// `c` is an upper-case ASCII letter.
pub open spec fn is_upper(c: char) -> bool {
    'A' <= c && c <= 'Z'
}

/// Every character of `s` is an upper-case ASCII letter.
pub open spec fn all_upper(s: Seq<char>) -> bool {
    forall|i: int| 0 <= i < s.len() ==> is_upper(#[trigger] s[i])
}

/// Between two upper-case strings, case-insensitive equality is plain
/// equality: the lower-case alternative lies outside the upper-case
/// range.
pub proof fn lemma_ci_upper_eq(a: Seq<char>, b: Seq<char>)
    requires
        str_eq_ci(a, b),
        all_upper(a),
        all_upper(b),
    ensures
        a =~= b,
{
    assert forall|i: int| 0 <= i < a.len() implies a[i] == b[i] by {
        assert(char_eq_ci(a[i], b[i]));
        assert(is_upper(a[i]));
        assert(is_upper(b[i]));
    }
}

/// A discriminating key for a display code: its length and first two
/// characters.  All supported codes differ in it.
pub open spec fn code_key(s: Seq<char>) -> int {
    s.len() * 1000000 + (s[0] as int) * 1000 + (s[1] as int)
}

/// Every code is ASCII case-insensitive to itself.
pub proof fn lemma_ci_reflexive(s: Seq<char>)
    ensures
        str_eq_ci(s, s),
{
}

/// A currency: either a Bitcoin denomination or a fiat currency.
#[derive(Clone, Copy, Debug, PartialEq, Eq, Structural)]
pub enum Currency {
    Bitcoin(BitcoinUnit),
    Fiat(Fiat),
}

impl Currency {
    /// The canonical upper-case display code.
    pub open spec fn spec_code(self) -> Seq<char> {
        match self {
            Currency::Bitcoin(u) => u.spec_code(),
            Currency::Fiat(f) => f.spec_code(),
        }
    }

    /// Display decimal places: fiat currencies follow their real-world
    /// convention (zero or two); Bitcoin denominations round to whole
    /// numbers under display rounding, as integer output mode does.
    pub open spec fn spec_decimal_places(self) -> u8 {
        match self {
            Currency::Bitcoin(_) => 0,
            Currency::Fiat(f) => f.spec_decimal_places(),
        }
    }

    /// Whether this currency is priced through the exchange-rate snapshot.
    pub open spec fn spec_is_fiat(self) -> bool {
        self is Fiat
    }

    pub fn is_fiat(&self) -> (b: bool)
        ensures
            b == self.spec_is_fiat(),
    {
        match self {
            Currency::Bitcoin(_) => false,
            Currency::Fiat(_) => true,
        }
    }

    /// The display code as a fresh string.
    pub fn to_string(&self) -> (r: String)
        ensures
            r@ == self.spec_code(),
    {
        match self {
            Currency::Bitcoin(u) => u.to_string(),
            Currency::Fiat(f) => f.to_string(),
        }
    }

    pub fn decimal_places(&self) -> (r: u8)
        ensures
            r == self.spec_decimal_places(),
    {
        match self {
            Currency::Bitcoin(_) => 0,
            Currency::Fiat(f) => f.decimal_places(),
        }
    }

    /// Round `value` to this currency's display precision: the nearest
    /// multiple of `10^-decimal_places`, halves away from zero.  `None`
    /// exactly when the scaled numerator does not fit in a `u128`.
    pub fn round_value(&self, value: &Rat) -> (r: Option<Rat>)
        requires
            value.wf(),
        ensures
            match r {
                Some(out) => {
                    &&& out.wf()
                    &&& out.den == pow10(self.spec_decimal_places() as nat)
                    &&& out.num == crate::rational::div_round_half_up(
                        (value.num * pow10(self.spec_decimal_places() as nat)) as nat,
                        value.den as nat,
                    )
                    &&& out.neg == (value.neg && out.num != 0)
                },
                None => value.num * pow10(self.spec_decimal_places() as nat) > u128::MAX || pow10(
                    self.spec_decimal_places() as nat,
                ) > u128::MAX,
            },
    {
        let dp = self.decimal_places();
        value.round_to_places(dp as u32)
    }
}

} // verus!
