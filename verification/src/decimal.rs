//! Exact decimal numbers: a sign, an integer mantissa and a power-of-ten
//! exponent.
//!
//! A [`Dec`] denotes `mant * 10^exp`, negated when `neg` is set.  Parsed
//! amount strings and exchange-rate prices are held in this form, so no
//! precision is ever lost before a conversion is computed.

use vstd::prelude::*;

use crate::rational::{pow10, pow10_u128, lemma_pow10_positive, Rat};
use crate::text::{digits_of, push_char, push_digits, zeros};

verus! {

/// An exact decimal number `(-1)^neg * mant * 10^exp`.
#[derive(Clone, Copy, Debug, PartialEq, Eq, Structural)]
pub struct Dec {
    pub neg: bool,
    pub mant: u128,
    pub exp: i32,
}

impl Dec {
    /// Well-formedness: zero has a canonical form.
    pub open spec fn wf(self) -> bool {
        self.mant == 0 ==> (!self.neg && self.exp == 0)
    }

    /// The numerator of `self` seen as a fraction over [`Dec::spec_den`]:
    /// the signed mantissa, scaled up when the exponent is positive.
    pub open spec fn spec_num(self) -> int {
        let scaled = self.mant * if self.exp >= 0 {
            pow10(self.exp as nat)
        } else {
            1
        };
        if self.neg {
            -scaled
        } else {
            scaled
        }
    }

    /// The denominator of `self` seen as a fraction: one, or the
    /// power of ten matching a negative exponent.
    pub open spec fn spec_den(self) -> nat {
        if self.exp >= 0 {
            1
        } else {
            pow10((-self.exp) as nat)
        }
    }

    /// The magnitude of [`Dec::spec_num`]: the mantissa, scaled up when
    /// the exponent is positive.
    pub open spec fn spec_mag(self) -> nat {
        (self.mant * if self.exp >= 0 {
            pow10(self.exp as nat)
        } else {
            1
        }) as nat
    }

    /// The numerator is the signed magnitude.
    pub proof fn lemma_num_mag(self)
        ensures
            self.spec_num() == if self.neg {
                -(self.spec_mag() as int)
            } else {
                self.spec_mag() as int
            },
    {
        if self.exp >= 0 {
            lemma_pow10_positive(self.exp as nat);
            assert(self.mant * pow10(self.exp as nat) >= 0) by (nonlinear_arith)
                requires
                    self.mant >= 0,
                    pow10(self.exp as nat) >= 0,
            ;
        } else {
            assert(self.mant * 1 == self.mant) by (nonlinear_arith);
        }
    }

    /// `self` and `r` denote the same number.
    pub open spec fn same_as(self, r: Rat) -> bool {
        self.spec_num() * r.den == r.signed_num() * self.spec_den()
    }

    /// `self` as a rational number, exactly.  `None` exactly when a
    /// positive exponent scales the mantissa past `u128::MAX`.
    pub fn to_rat(&self) -> (r: Option<Rat>)
        requires
            self.wf(),
        ensures
            match r {
                Some(v) => {
                    &&& v.wf()
                    &&& v.signed_num() == self.spec_num()
                    &&& v.num == self.spec_mag()
                    &&& v.den == self.spec_den()
                    &&& v.neg == self.neg
                    &&& self.same_as(v)
                },
                None => self.spec_num() > u128::MAX || self.spec_num() < -(u128::MAX as int)
                    || self.spec_den() > u128::MAX,
            },
    {
        if self.exp >= 0 {
            let p10 = match pow10_u128(self.exp as u32) {
                Some(v) => v,
                None => {
                    proof {
                        lemma_mul_exceeds(self.mant as nat, pow10(self.exp as nat));
                    }
                    return None;
                },
            };
            let num = match self.mant.checked_mul(p10) {
                Some(v) => v,
                None => {
                    return None;
                },
            };
            let out = Rat { neg: self.neg, num, den: 1 };
            proof {
                lemma_pow10_positive(self.exp as nat);
                assert(self.mant == 0 <==> num == 0) by (nonlinear_arith)
                    requires
                        num == self.mant * pow10(self.exp as nat),
                        pow10(self.exp as nat) >= 1,
                ;
                let sn = self.spec_num();
                assert(out.signed_num() == sn);
                assert(sn * out.den == out.signed_num() * self.spec_den()) by (nonlinear_arith)
                    requires
                        out.signed_num() == sn,
                        out.den == 1,
                        self.spec_den() == 1,
                ;
            }
            Some(out)
        } else {
            let mag: u32 = (-(self.exp as i64)) as u32;
            proof {
                assert(mag == (-self.exp) as nat);
            }
            let den = match pow10_u128(mag) {
                Some(v) => v,
                None => {
                    return None;
                },
            };
            let out = Rat { neg: self.neg, num: self.mant, den };
            proof {
                lemma_pow10_positive(mag as nat);
                let sn = self.spec_num();
                assert(self.mant * 1 == self.mant) by (nonlinear_arith);
                assert(out.signed_num() == sn);
                assert(sn * out.den == out.signed_num() * self.spec_den()) by (nonlinear_arith)
                    requires
                        out.signed_num() == sn,
                        out.den == self.spec_den(),
                ;
            }
            Some(out)
        }
    }
}

/// The canonical numeral of a decimal: a `-` for a negative number,
/// the mantissa's digits, and either trailing zeros (positive exponent)
/// or a decimal point placed `-exp` digits from the end, zero-padded on
/// the left when the mantissa is short (negative exponent).
pub open spec fn spec_format(d: Dec) -> Seq<char> {
    let ds = digits_of(d.mant as nat);
    let sign: Seq<char> = if d.neg {
        seq!['-']
    } else {
        Seq::empty()
    };
    if d.exp >= 0 {
        sign + ds + zeros(d.exp as nat)
    } else {
        let s = (-d.exp) as nat;
        if ds.len() > s {
            sign + ds.subrange(0, ds.len() - s) + seq!['.'] + ds.subrange(
                ds.len() - s,
                ds.len() as int,
            )
        } else {
            sign + seq!['0', '.'] + zeros((s - ds.len()) as nat) + ds
        }
    }
}

impl Dec {
    /// The canonical numeral of `self`; see [`spec_format`].
    pub fn to_string(&self) -> (r: String)
        requires
            self.wf(),
        ensures
            r@ == spec_format(*self),
    {
        let mut out = String::new();
        if self.neg {
            push_char(&mut out, '-');
        }
        let ghost sign: Seq<char> = if self.neg {
            seq!['-']
        } else {
            Seq::empty()
        };
        proof {
            assert(out@ =~= sign);
        }
        if self.exp >= 0 {
            push_digits(self.mant, &mut out);
            let e = self.exp as u32;
            let mut k: u32 = 0;
            while k < e
                invariant
                    0 <= k <= e,
                    out@ == sign + digits_of(self.mant as nat) + zeros(k as nat),
                decreases e - k,
            {
                push_char(&mut out, '0');
                proof {
                    assert(sign + digits_of(self.mant as nat) + zeros(k as nat + 1) =~= (sign
                        + digits_of(self.mant as nat) + zeros(k as nat)).push('0'));
                }
                k = k + 1;
            }
            proof {
                assert(sign + digits_of(self.mant as nat) + zeros(0) =~= sign + digits_of(
                    self.mant as nat,
                ));
            }
            out
        } else {
            let s_mag: u32 = (-(self.exp as i64)) as u32;
            let mut digs = String::new();
            push_digits(self.mant, &mut digs);
            proof {
                assert(digs@ =~= digits_of(self.mant as nat));
                crate::text::lemma_digits_of(self.mant as nat);
            }
            let ghost ds = digits_of(self.mant as nat);
            let dn = digs.as_str().unicode_len();
            if dn > s_mag as usize {
                let head = dn - s_mag as usize;
                let mut k: usize = 0;
                while k < head
                    invariant
                        0 <= k <= head,
                        head <= dn,
                        dn == digs@.len(),
                        digs@ == ds,
                        out@ == sign + ds.subrange(0, k as int),
                    decreases head - k,
                {
                    let c = digs.as_str().get_char(k);
                    push_char(&mut out, c);
                    proof {
                        assert(sign + ds.subrange(0, k + 1) =~= (sign + ds.subrange(
                            0,
                            k as int,
                        )).push(ds[k as int]));
                    }
                    k = k + 1;
                }
                push_char(&mut out, '.');
                proof {
                    assert(out@ =~= sign + ds.subrange(0, head as int) + seq!['.']);
                }
                let mut j: usize = head;
                while j < dn
                    invariant
                        head <= j <= dn,
                        dn == digs@.len(),
                        digs@ == ds,
                        out@ == sign + ds.subrange(0, head as int) + seq!['.'] + ds.subrange(
                            head as int,
                            j as int,
                        ),
                    decreases dn - j,
                {
                    let c = digs.as_str().get_char(j);
                    push_char(&mut out, c);
                    proof {
                        assert(sign + ds.subrange(0, head as int) + seq!['.'] + ds.subrange(
                            head as int,
                            j + 1,
                        ) =~= (sign + ds.subrange(0, head as int) + seq!['.'] + ds.subrange(
                            head as int,
                            j as int,
                        )).push(ds[j as int]));
                    }
                    j = j + 1;
                }
                proof {
                    assert(ds.subrange(head as int, dn as int) == ds.subrange(
                        ds.len() - s_mag as nat,
                        ds.len() as int,
                    ));
                    assert(ds.subrange(0, head as int) == ds.subrange(0, ds.len() - s_mag as nat));
                }
                out
            } else {
                push_char(&mut out, '0');
                push_char(&mut out, '.');
                proof {
                    assert(out@ =~= sign + seq!['0', '.']);
                }
                let pad = s_mag as usize - dn;
                let mut k: usize = 0;
                while k < pad
                    invariant
                        0 <= k <= pad,
                        out@ == sign + seq!['0', '.'] + zeros(k as nat),
                    decreases pad - k,
                {
                    push_char(&mut out, '0');
                    proof {
                        assert(sign + seq!['0', '.'] + zeros(k as nat + 1) =~= (sign + seq![
                            '0',
                            '.',
                        ] + zeros(k as nat)).push('0'));
                    }
                    k = k + 1;
                }
                out.append(digs.as_str());
                proof {
                    assert((-self.exp) as nat - ds.len() == pad as nat);
                    assert(out@ == sign + seq!['0', '.'] + zeros(pad as nat) + ds);
                }
                out
            }
        }
    }
}

/// If the scale alone exceeds the bound, so does the scaled mantissa
/// whenever the mantissa is non-zero; a zero mantissa is well-formed only
/// with exponent zero, so this case never carries a zero mantissa.
proof fn lemma_mul_exceeds(m: nat, p: nat)
    requires
        m >= 1,
        p > u128::MAX,
    ensures
        m * p > u128::MAX,
{
    assert(m * p >= p) by (nonlinear_arith)
        requires
            m >= 1,
            p >= 0,
    ;
}

} // verus!
