//! The conversion engine.
//!
//! A conversion normalizes the amount to the base unit through the source
//! currency's value, then divides by each target currency's value, all in
//! exact rational arithmetic.  The exchange-rate provider is consulted
//! only when the source or a target is a fiat currency, and then at most
//! once; a conversion between Bitcoin denominations never touches it.

use vstd::prelude::*;

use crate::currency::Currency;
use crate::decimal::Dec;
use crate::exchange_rate_provider::{ExchangeRateApiConsumer, ExchangeRateProvider, RateFetchError,
    RateSnapshot};
use crate::rational::{div_round_half_up, lemma_pow10_positive, pow10, Rat};

verus! {

/// Why a conversion failed.
#[derive(Debug)]
pub enum ConversionError {
    /// The exchange rates could not be obtained; fatal, nothing partial.
    Rates(RateFetchError),
    /// An exact intermediate product does not fit in a `u128`.
    Overflow,
}

/// The value of one unit of `c` in the base unit: a fixed power-of-ten
/// fraction for a Bitcoin denomination, the reciprocal price from the
/// snapshot for a fiat currency.  A fiat currency is only ever priced
/// with a snapshot at hand; without one this places a dummy value.
pub open spec fn spec_cur_ratio(c: Currency, snap: Option<RateSnapshot>) -> Rat {
    match c {
        Currency::Bitcoin(u) => Rat { neg: false, num: 1, den: pow10(u.ratio_exp()) as u128 },
        Currency::Fiat(f) => match snap {
            Some(s) => s.spec_btc_value(f),
            None => Rat { neg: false, num: 1, den: 1 },
        },
    }
}

/// The conversion needs exchange rates: the source or some target is a
/// fiat currency.
pub open spec fn needs_rates(from: Currency, to: Seq<Currency>) -> bool {
    from.spec_is_fiat() || exists|i: int| 0 <= i < to.len() && (#[trigger] to[i]).spec_is_fiat()
}

/// `out` denotes exactly `(in_num / in_den) * vf / vt`.
pub open spec fn scales_to(in_num: int, in_den: int, vf: Rat, vt: Rat, out: Rat) -> bool {
    out.signed_num() * (in_den * vf.den * vt.num) == (in_num * vf.num * vt.den) * out.den
}

/// `out` is exactly `amount * vf / vt`.
pub open spec fn converts_exactly(out: Rat, amount: Dec, vf: Rat, vt: Rat) -> bool {
    scales_to(amount.spec_num(), amount.spec_den() as int, vf, vt, out)
}

/// `out` is the whole number nearest to `amount * vf / vt`, halves away
/// from zero.
pub open spec fn converts_rounded(out: Rat, amount: Dec, vf: Rat, vt: Rat) -> bool {
    let n = (amount.spec_mag() * vf.num * vt.den) as nat;
    let d = (amount.spec_den() * vf.den * vt.num) as nat;
    let m = div_round_half_up(n, d);
    &&& out.den == 1
    &&& out.num == m
    &&& out.neg == (amount.neg && m != 0)
}

/// The exact products behind `amount * vf / vt` fit in a `u128`.
pub open spec fn conversion_fits(amount: Dec, vf: Rat, vt: Rat) -> bool {
    &&& amount.spec_mag() * vf.num * vt.den <= u128::MAX
    &&& amount.spec_den() * vf.den * vt.num <= u128::MAX
}

/// A currency's base-unit value is a well-formed positive fraction.
proof fn lemma_cur_ratio_wf(c: Currency, snap: Option<RateSnapshot>)
    requires
        snap matches Some(s) ==> s.wf(),
    ensures
        ({
            let r = spec_cur_ratio(c, snap);
            &&& r.wf()
            &&& !r.neg
            &&& r.num >= 1
            &&& r.den >= 1
        }),
{
    match c {
        Currency::Bitcoin(u) => {
            reveal_with_fuel(pow10, 12);
        },
        Currency::Fiat(f) => {
            if let Some(s) = snap {
                let price = s.spec_price(f);
                assert(crate::exchange_rate_provider::valid_price(price));
                if price.exp >= 0 {
                    lemma_pow10_positive(price.exp as nat);
                    assert(price.mant * pow10(price.exp as nat) >= 1) by (nonlinear_arith)
                        requires
                            price.mant >= 1,
                            pow10(price.exp as nat) >= 1,
                    ;
                } else {
                    lemma_pow10_positive((-price.exp) as nat);
                }
            }
        },
    }
}

/// A rational built by cross-multiplication denotes the quotient it was
/// built from.
proof fn lemma_product_scales(a: Rat, vf: Rat, vt: Rat, out: Rat)
    requires
        a.wf(),
        vf.wf(),
        vt.wf(),
        !vf.neg,
        !vt.neg,
        vt.num >= 1,
        out.num == a.num * vf.num * vt.den,
        out.den == a.den * vf.den * vt.num,
        out.neg == (a.neg && out.num != 0),
    ensures
        scales_to(a.signed_num(), a.den as int, vf, vt, out),
{
    let x = a.num as int;
    let p = vf.num as int;
    let qd = vt.den as int;
    assert((-x) * p * qd == -(x * p * qd)) by (nonlinear_arith);
    if a.neg && out.num == 0 {
        assert(x * p * qd == 0);
        assert((-x) * p * qd == 0);
    }
}

/// Rounding a zero quotient gives zero.
proof fn lemma_round_zero(d: nat)
    requires
        d >= 1,
    ensures
        div_round_half_up(0, d) == 0,
{
    assert((2 * 0 + d) / (2 * d) == 0) by (nonlinear_arith)
        requires
            d >= 1,
    ;
}

/// Equal products with a positive common factor have equal co-factors.
proof fn lemma_cancel(x: int, y: int, c: int)
    requires
        x * c == y * c,
        c >= 1,
    ensures
        x == y,
{
    assert(x == y) by (nonlinear_arith)
        requires
            x * c == y * c,
            c >= 1,
    ;
}

/// Conversion is transitive, exactly: converting an amount from unit A
/// to unit B and the result on to unit C denotes the same number as
/// converting from A to C directly.  Stated over the conversion
/// relation [`scales_to`] with arbitrary positive unit values, so it
/// covers in particular every pair of Bitcoin denominations, whose
/// values are exact powers of ten; with exact arithmetic no
/// floating-point tolerance is needed.
pub proof fn lemma_conversion_transitive(
    in_num: int,
    in_den: int,
    ra: Rat,
    rb: Rat,
    rc: Rat,
    ab: Rat,
    bc: Rat,
    ac: Rat,
)
    requires
        in_den >= 1,
        ra.num >= 1 && ra.den >= 1,
        rb.num >= 1 && rb.den >= 1,
        rc.num >= 1 && rc.den >= 1,
        ab.wf(),
        bc.wf(),
        ac.wf(),
        scales_to(in_num, in_den, ra, rb, ab),
        scales_to(ab.signed_num(), ab.den as int, rb, rc, bc),
        scales_to(in_num, in_den, ra, rc, ac),
    ensures
        crate::rational::rat_eqv(bc, ac),
{
    let a = in_num;
    let dd = in_den;
    let p1 = ra.num as int;
    let q1 = ra.den as int;
    let p2 = rb.num as int;
    let q2 = rb.den as int;
    let p3 = rc.num as int;
    let q3 = rc.den as int;
    let s1 = ab.signed_num();
    let d1 = ab.den as int;
    let s2 = bc.signed_num();
    let d2 = bc.den as int;
    let s3 = ac.signed_num();
    let d3 = ac.den as int;
    // hypotheses, spelled out
    assert(s1 * (dd * q1 * p2) == (a * p1 * q2) * d1);
    assert(s2 * (d1 * q2 * p3) == (s1 * p2 * q3) * d2);
    assert(s3 * (dd * q1 * p3) == (a * p1 * q3) * d3);
    // multiply the middle equation by dd * q1 and substitute the first
    assert((s2 * (d1 * q2 * p3)) * (dd * q1) == ((s1 * p2 * q3) * d2) * (dd * q1));
    assert((s2 * (d1 * q2 * p3)) * (dd * q1) == (s2 * (q2 * p3 * dd * q1)) * d1)
        by (nonlinear_arith);
    assert(((s1 * p2 * q3) * d2) * (dd * q1) == (s1 * (dd * q1 * p2)) * (q3 * d2))
        by (nonlinear_arith);
    assert((s1 * (dd * q1 * p2)) * (q3 * d2) == ((a * p1 * q2) * d1) * (q3 * d2));
    assert(((a * p1 * q2) * d1) * (q3 * d2) == ((a * p1 * q2) * (q3 * d2)) * d1)
        by (nonlinear_arith);
    lemma_cancel(s2 * (q2 * p3 * dd * q1), (a * p1 * q2) * (q3 * d2), d1);
    // strip the common factor q2
    assert((s2 * (p3 * dd * q1)) * q2 == ((a * p1 * q3) * d2) * q2) by (nonlinear_arith)
        requires
            s2 * (q2 * p3 * dd * q1) == (a * p1 * q2) * (q3 * d2),
    ;
    lemma_cancel(s2 * (p3 * dd * q1), (a * p1 * q3) * d2, q2);
    // multiply by d3 and substitute the third equation
    assert((s2 * d3) * (dd * q1 * p3) == ((a * p1 * q3) * d3) * d2) by (nonlinear_arith)
        requires
            s2 * (p3 * dd * q1) == (a * p1 * q3) * d2,
    ;
    assert(((a * p1 * q3) * d3) * d2 == (s3 * d2) * (dd * q1 * p3)) by (nonlinear_arith)
        requires
            s3 * (dd * q1 * p3) == (a * p1 * q3) * d3,
    ;
    assert(dd * q1 * p3 >= 1) by (nonlinear_arith)
        requires
            dd >= 1,
            q1 >= 1,
            p3 >= 1,
    ;
    lemma_cancel(s2 * d3, s3 * d2, dd * q1 * p3);
}

/// Whether some listed currency is fiat.
fn any_fiat(to: &Vec<Currency>) -> (b: bool)
    ensures
        b == exists|i: int| 0 <= i < to@.len() && (#[trigger] to@[i]).spec_is_fiat(),
{
    let n = to.len();
    let mut i: usize = 0;
    while i < n
        invariant
            0 <= i <= n,
            n == to@.len(),
            forall|j: int| 0 <= j < i ==> !(#[trigger] to@[j]).spec_is_fiat(),
        decreases n - i,
    {
        if to[i].is_fiat() {
            return true;
        }
        i = i + 1;
    }
    false
}

/// Turn an optional snapshot reference into an optional snapshot value.
spec fn deref_opt(o: Option<&RateSnapshot>) -> Option<RateSnapshot> {
    match o {
        Some(s) => Some(*s),
        None => None,
    }
}

/// The value of one unit of `c` in the base unit; a fiat currency needs
/// the snapshot at hand.
fn ratio_of(c: &Currency, snap: Option<&RateSnapshot>) -> (r: Rat)
    requires
        c.spec_is_fiat() ==> (snap matches Some(s) && s.wf()),
    ensures
        r == spec_cur_ratio(*c, deref_opt(snap)),
        r.wf(),
        !r.neg,
        r.num >= 1,
        r.den >= 1,
{
    match c {
        Currency::Bitcoin(u) => {
            let v = u.btc_value();
            proof {
                lemma_pow10_positive(u.ratio_exp());
            }
            v
        },
        Currency::Fiat(f) => match snap {
            Some(s) => {
                let v = s.btc_value(f);
                proof {
                    lemma_cur_ratio_wf(*c, deref_opt(snap));
                }
                v
            },
            None => {
                proof {
                    assert(false);
                }
                Rat { neg: false, num: 1, den: 1 }
            },
        },
    }
}

/// Convert `amount` of `from` into every currency of `to`, in order.
///
/// The result pairs each target with the exact value — or, when
/// `integer` is set, with the nearest whole number, halves away from
/// zero.  The provider is asked to fetch rates only when the source or a
/// target is fiat, and then only when it holds no snapshot yet; a
/// conversion between Bitcoin denominations leaves the provider
/// untouched, as does one on an already-populated provider.
pub fn convert<T: ExchangeRateApiConsumer>(
    amount: &Dec,
    from: &Currency,
    to: &Vec<Currency>,
    integer: bool,
    provider: &mut ExchangeRateProvider<T>,
) -> (r: Result<Vec<(Currency, Rat)>, ConversionError>)
    requires
        amount.wf(),
        old(provider).wf(),
        to@.len() >= 1,
    ensures
        final(provider).wf(),
        old(provider).populated() ==> *final(provider) == *old(provider),
        !needs_rates(*from, to@) ==> *final(provider) == *old(provider),
        ({
            let snap = final(provider).data;
            match r {
                Ok(outs) => {
                    &&& (needs_rates(*from, to@) ==> final(provider).populated())
                    &&& outs@.len() == to@.len()
                    &&& (forall|i: int| 0 <= i < to@.len() ==> (#[trigger] outs@[i]).0 == to@[i])
                    &&& (forall|i: int|
                        0 <= i < to@.len() ==> {
                            let vf = spec_cur_ratio(*from, snap);
                            let vt = spec_cur_ratio(to@[i], snap);
                            &&& (#[trigger] outs@[i]).1.wf()
                            &&& if integer {
                                converts_rounded(outs@[i].1, *amount, vf, vt)
                            } else {
                                converts_exactly(outs@[i].1, *amount, vf, vt)
                            }
                        })
                },
                Err(ConversionError::Rates(_)) => needs_rates(*from, to@) && !old(
                    provider,
                ).populated() && !final(provider).populated(),
                Err(ConversionError::Overflow) => exists|i: int|
                    0 <= i < to@.len() && !conversion_fits(
                        *amount,
                        spec_cur_ratio(*from, snap),
                        spec_cur_ratio(#[trigger] to@[i], snap),
                    ),
            }
        }),
        ({
            let snap = final(provider).data;
            ((needs_rates(*from, to@) ==> final(provider).populated()) && (forall|i: int|
                0 <= i < to@.len() ==> conversion_fits(
                    *amount,
                    spec_cur_ratio(*from, snap),
                    spec_cur_ratio(#[trigger] to@[i], snap),
                ))) ==> r is Ok
        }),
{
    let needs = from.is_fiat() || any_fiat(to);
    if needs {
        match provider.fetch() {
            Ok(()) => {},
            Err(e) => {
                return Err(ConversionError::Rates(e));
            },
        }
    }
    let data_ref: Option<&RateSnapshot> = match &provider.data {
        Some(s) => Some(s),
        None => None,
    };
    let ghost snap = deref_opt(data_ref);
    proof {
        assert(snap == final(provider).data);
        lemma_cur_ratio_wf(*from, snap);
    }
    let vf = ratio_of(from, data_ref);
    let amt = match amount.to_rat() {
        Some(v) => v,
        None => {
            proof {
                amount.lemma_num_mag();
                lemma_cur_ratio_wf(to@[0], snap);
                let vt0 = spec_cur_ratio(to@[0], snap);
                assert(amount.spec_mag() > u128::MAX || amount.spec_den() > u128::MAX);
                assert(!conversion_fits(*amount, vf, vt0)) by (nonlinear_arith)
                    requires
                        amount.spec_mag() > u128::MAX || amount.spec_den() > u128::MAX,
                        vf.num >= 1,
                        vf.den >= 1,
                        vt0.num >= 1,
                        vt0.den >= 1,
                ;
            }
            return Err(ConversionError::Overflow);
        },
    };
    let n = to.len();
    let mut outs: Vec<(Currency, Rat)> = Vec::new();
    let mut i: usize = 0;
    while i < n
        invariant
            0 <= i <= n,
            n == to@.len(),
            outs@.len() == i,
            provider.wf(),
            snap == provider.data,
            old(provider).populated() ==> *provider == *old(provider),
            !needs_rates(*from, to@) ==> *provider == *old(provider),
            needs_rates(*from, to@) ==> provider.populated(),
            amount.wf(),
            amt.wf(),
            amt.signed_num() == amount.spec_num(),
            amt.den == amount.spec_den(),
            amt.num == amount.spec_mag(),
            amt.neg == amount.neg,
            vf == spec_cur_ratio(*from, snap),
            vf.wf(),
            !vf.neg,
            vf.num >= 1,
            vf.den >= 1,
            data_ref matches Some(s) ==> s.wf() && snap == Some(*s),
            data_ref is None ==> snap is None,
            forall|j: int| 0 <= j < to@.len() && (#[trigger] to@[j]).spec_is_fiat() ==> data_ref
                is Some,
            forall|j: int| 0 <= j < i ==> (#[trigger] outs@[j]).0 == to@[j],
            forall|j: int|
                0 <= j < i ==> {
                    let vt = spec_cur_ratio(to@[j], snap);
                    &&& (#[trigger] outs@[j]).1.wf()
                    &&& if integer {
                        converts_rounded(outs@[j].1, *amount, vf, vt)
                    } else {
                        converts_exactly(outs@[j].1, *amount, vf, vt)
                    }
                },
        decreases n - i,
    {
        let t = to[i];
        let vt = ratio_of(&t, data_ref);
        proof {
            assert(vt == spec_cur_ratio(to@[i as int], snap));
        }
        let out0 = match amt.mul_div(&vf, &vt) {
            Some(v) => v,
            None => {
                proof {
                    assert(!conversion_fits(*amount, vf, vt));
                }
                return Err(ConversionError::Overflow);
            },
        };
        proof {
            lemma_product_scales(amt, vf, vt, out0);
        }
        let out = if integer {
            proof {
                assert(pow10(0) == 1);
                assert(out0.num * pow10(0) == out0.num) by (nonlinear_arith)
                    requires
                        pow10(0) == 1,
                ;
            }
            match out0.round_to_places(0) {
                Some(v) => v,
                None => {
                    proof {
                        assert(false);
                    }
                    out0
                },
            }
        } else {
            out0
        };
        proof {
            if integer {
                if out0.num == 0 {
                    lemma_round_zero(out0.den as nat);
                }
                assert(converts_rounded(out, *amount, vf, vt));
            } else {
                assert(converts_exactly(out, *amount, vf, vt));
            }
        }
        outs.push((t, out));
        i = i + 1;
    }
    Ok(outs)
}

} // verus!
