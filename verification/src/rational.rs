//! Exact rational numbers over unsigned 128-bit integers.
//!
//! A [`Rat`] carries an explicit sign, a numerator and a positive
//! denominator.  Values are not kept in lowest terms; two rationals denote
//! the same number exactly when their cross products agree, see
//! [`rat_eqv`].  All arithmetic is checked: an operation whose exact result
//! does not fit returns `None` instead of wrapping.

use vstd::prelude::*;

verus! {

/// 10 raised to `e`, as a mathematical natural number.
pub open spec fn pow10(e: nat) -> nat
    decreases e,
{
    if e == 0 {
        1
    } else {
        10 * pow10((e - 1) as nat)
    }
}

pub proof fn lemma_pow10_positive(e: nat)
    ensures
        pow10(e) >= 1,
    decreases e,
{
    if e > 0 {
        lemma_pow10_positive((e - 1) as nat);
    }
}

pub proof fn lemma_pow10_increases(a: nat, b: nat)
    requires
        a <= b,
    ensures
        pow10(a) <= pow10(b),
    decreases b,
{
    if a < b {
        lemma_pow10_increases(a, (b - 1) as nat);
        lemma_pow10_positive((b - 1) as nat);
    }
}

pub proof fn lemma_pow10_adds(a: nat, b: nat)
    ensures
        pow10(a + b) == pow10(a) * pow10(b),
    decreases a,
{
    if a == 0 {
        assert(a + b == b);
        assert(pow10(a + b) == pow10(b));
        assert(pow10(a) == 1);
        assert(pow10(a) * pow10(b) == pow10(b)) by (nonlinear_arith)
            requires
                pow10(a) == 1,
        ;
    } else {
        let ap = (a - 1) as nat;
        lemma_pow10_adds(ap, b);
        assert(pow10(a + b) == pow10(a) * pow10(b)) by (nonlinear_arith)
            requires
                pow10(a + b) == 10 * pow10(ap + b),
                pow10(ap + b) == pow10(ap) * pow10(b),
                pow10(a) == 10 * pow10(ap),
        ;
    }
}

/// 10 raised to `e`, or `None` where that does not fit in a `u128`.
pub fn pow10_u128(e: u32) -> (r: Option<u128>)
    ensures
        match r {
            Some(v) => v == pow10(e as nat),
            None => pow10(e as nat) > u128::MAX,
        },
{
    let mut acc: u128 = 1;
    let mut i: u32 = 0;
    while i < e
        invariant
            i <= e,
            acc == pow10(i as nat),
        decreases e - i,
    {
        match acc.checked_mul(10) {
            Some(next) => {
                acc = next;
            },
            None => {
                proof {
                    assert(pow10((i + 1) as nat) == 10 * pow10(i as nat));
                    lemma_pow10_increases((i + 1) as nat, e as nat);
                }
                return None;
            },
        }
        i = i + 1;
    }
    Some(acc)
}

/// A signed rational number: `num / den`, negated when `neg` is set.
#[derive(Clone, Copy, Debug, PartialEq, Eq, Structural)]
pub struct Rat {
    pub neg: bool,
    pub num: u128,
    pub den: u128,
}

impl Rat {
    /// Well-formedness: the denominator is positive and zero is never
    /// marked negative.
    pub open spec fn wf(self) -> bool {
        self.den >= 1 && (self.num == 0 ==> !self.neg)
    }

    /// The numerator with its sign applied, as a mathematical integer.
    pub open spec fn signed_num(self) -> int {
        if self.neg {
            -(self.num as int)
        } else {
            self.num as int
        }
    }

}

/// Magnitude of `n / d` rounded to the nearest integer, with halves
/// rounded up (i.e. away from zero on a magnitude).  Meaningful for `d >= 1`.
pub open spec fn div_round_half_up(n: nat, d: nat) -> nat {
    ((2 * n + d) / (2 * d)) as nat
}

impl Rat {
    /// The exact product `self * f / t`, built without any reduction:
    /// the numerators multiply with `t`'s denominator and vice versa.
    /// `f` and `t` must be non-negative and `t` must be non-zero.
    /// `None` exactly when a product exceeds `u128::MAX`.
    pub fn mul_div(&self, f: &Rat, t: &Rat) -> (r: Option<Rat>)
        requires
            self.wf(),
            f.wf(),
            t.wf(),
            !f.neg,
            !t.neg,
            t.num >= 1,
        ensures
            match r {
                Some(out) => {
                    &&& out.wf()
                    &&& out.num == self.num * f.num * t.den
                    &&& out.den == self.den * f.den * t.num
                    &&& out.neg == (self.neg && out.num != 0)
                },
                None => self.num * f.num * t.den > u128::MAX || self.den * f.den * t.num
                    > u128::MAX,
            },
    {
        proof {
            assert(self.num * f.num > u128::MAX ==> self.num * f.num * t.den > u128::MAX)
                by (nonlinear_arith)
                requires
                    t.den >= 1,
            ;
            assert(self.den * f.den > u128::MAX ==> self.den * f.den * t.num > u128::MAX)
                by (nonlinear_arith)
                requires
                    t.num >= 1,
            ;
        }
        let n1 = match self.num.checked_mul(f.num) {
            Some(v) => v,
            None => {
                return None;
            },
        };
        let num = match n1.checked_mul(t.den) {
            Some(v) => v,
            None => {
                return None;
            },
        };
        let d1 = match self.den.checked_mul(f.den) {
            Some(v) => v,
            None => {
                return None;
            },
        };
        let den = match d1.checked_mul(t.num) {
            Some(v) => v,
            None => {
                return None;
            },
        };
        proof {
            assert(den >= 1) by (nonlinear_arith)
                requires
                    den == self.den * f.den * t.num,
                    self.den >= 1,
                    f.den >= 1,
                    t.num >= 1,
            ;
        }
        Some(Rat { neg: self.neg && num != 0, num, den })
    }

    /// `self`, rounded to `dp` decimal places: the result is the nearest
    /// multiple of `10^-dp`, halves away from zero.  `None` exactly when
    /// the scaled numerator does not fit in a `u128`.
    pub fn round_to_places(&self, dp: u32) -> (r: Option<Rat>)
        requires
            self.wf(),
        ensures
            match r {
                Some(out) => {
                    &&& out.wf()
                    &&& out.den == pow10(dp as nat)
                    &&& out.num == div_round_half_up((self.num * pow10(dp as nat)) as nat,
                        self.den as nat)
                    &&& out.neg == (self.neg && out.num != 0)
                },
                None => self.num * pow10(dp as nat) > u128::MAX || pow10(dp as nat) > u128::MAX,
            },
    {
        let p10 = match pow10_u128(dp) {
            Some(v) => v,
            None => {
                return None;
            },
        };
        let scaled = match self.num.checked_mul(p10) {
            Some(v) => v,
            None => {
                return None;
            },
        };
        let q = scaled / self.den;
        let rem = scaled % self.den;
        proof {
            vstd::arithmetic::div_mod::lemma_fundamental_div_mod(scaled as int, self.den as int);
        }
        let num = if self.den - rem <= rem {
            proof {
                lemma_round_up_case(scaled as nat, self.den as nat, q as nat, rem as nat);
            }
            q + 1
        } else {
            proof {
                lemma_round_down_case(scaled as nat, self.den as nat, q as nat, rem as nat);
            }
            q
        };
        proof {
            lemma_pow10_positive(dp as nat);
        }
        Some(Rat { neg: self.neg && num != 0, num, den: p10 })
    }
}

/// Rounding helper: when the remainder is at least half the divisor, the
/// half-up rounding of `n / d` is the quotient plus one, and that sum
/// still fits in a `u128`.
proof fn lemma_round_up_case(n: nat, d: nat, q: nat, rem: nat)
    requires
        d >= 1,
        n == d * q + rem,
        rem < d,
        d - rem <= rem,
        n <= u128::MAX,
    ensures
        q + 1 == div_round_half_up(n, d),
        q + 1 <= u128::MAX,
{
    assert(2 * n + d == (q + 1) * (2 * d) + (2 * rem - d)) by (nonlinear_arith)
        requires
            n == d * q + rem,
    ;
    assert(0 <= 2 * rem - d < 2 * d);
    vstd::arithmetic::div_mod::lemma_fundamental_div_mod_converse(
        (2 * n + d) as int,
        (2 * d) as int,
        (q + 1) as int,
        (2 * rem - d) as int,
    );
    // since rounding went up, d >= 2, hence 2 * q < n
    assert(d >= 2);
    assert(2 * q <= d * q) by (nonlinear_arith)
        requires
            d >= 2,
            q >= 0,
    ;
}

/// Rounding helper: when the remainder is below half the divisor, the
/// half-up rounding of `n / d` is the plain quotient.
proof fn lemma_round_down_case(n: nat, d: nat, q: nat, rem: nat)
    requires
        d >= 1,
        n == d * q + rem,
        rem < d,
        !(d - rem <= rem),
    ensures
        q == div_round_half_up(n, d),
{
    assert(2 * n + d == q * (2 * d) + (2 * rem + d)) by (nonlinear_arith)
        requires
            n == d * q + rem,
    ;
    assert(0 <= 2 * rem + d < 2 * d);
    vstd::arithmetic::div_mod::lemma_fundamental_div_mod_converse(
        (2 * n + d) as int,
        (2 * d) as int,
        q as int,
        (2 * rem + d) as int,
    );
}

/// `a` and `b` denote the same rational number.
pub open spec fn rat_eqv(a: Rat, b: Rat) -> bool {
    a.signed_num() * b.den == b.signed_num() * a.den
}

/// Denoting the same number is transitive: [`rat_eqv`] chains.
pub proof fn lemma_rat_eqv_transitive(a: Rat, b: Rat, c: Rat)
    requires
        a.wf(),
        b.wf(),
        c.wf(),
        rat_eqv(a, b),
        rat_eqv(b, c),
    ensures
        rat_eqv(a, c),
{
    let an = a.signed_num();
    let bn = b.signed_num();
    let cn = c.signed_num();
    assert((an * b.den) * c.den == (bn * a.den) * c.den) by (nonlinear_arith)
        requires
            an * b.den == bn * a.den,
    ;
    assert((bn * c.den) * a.den == (cn * b.den) * a.den) by (nonlinear_arith)
        requires
            bn * c.den == cn * b.den,
    ;
    assert((an * c.den) * b.den == (cn * a.den) * b.den) by (nonlinear_arith)
        requires
            (an * b.den) * c.den == (bn * a.den) * c.den,
            (bn * c.den) * a.den == (cn * b.den) * a.den,
    ;
    assert(an * c.den == cn * a.den) by (nonlinear_arith)
        requires
            (an * c.den) * b.den == (cn * a.den) * b.den,
            b.den >= 1,
    ;
}

/// Whether `a` and `b` denote the same rational number; `None` where a
/// cross product does not fit in a `u128`.
pub fn same_value(a: &Rat, b: &Rat) -> (r: Option<bool>)
    requires
        a.wf(),
        b.wf(),
    ensures
        match r {
            Some(eq) => eq == rat_eqv(*a, *b),
            None => a.num * b.den > u128::MAX || b.num * a.den > u128::MAX,
        },
{
    let left = match a.num.checked_mul(b.den) {
        Some(v) => v,
        None => {
            return None;
        },
    };
    let right = match b.num.checked_mul(a.den) {
        Some(v) => v,
        None => {
            return None;
        },
    };
    proof {
        let x = a.num as int;
        let y = b.num as int;
        let p = a.den as int;
        let q = b.den as int;
        assert((-x) * q == -(x * q)) by (nonlinear_arith);
        assert((-y) * p == -(y * p)) by (nonlinear_arith);
        assert(x * q == 0 ==> x == 0) by (nonlinear_arith)
            requires
                x >= 0,
                q >= 1,
        ;
        assert(y * p == 0 ==> y == 0) by (nonlinear_arith)
            requires
                y >= 0,
                p >= 1,
        ;
        assert(x >= 1 ==> x * q >= 1) by (nonlinear_arith)
            requires
                q >= 1,
        ;
        assert(y >= 1 ==> y * p >= 1) by (nonlinear_arith)
            requires
                p >= 1,
        ;
    }
    if left == 0 && right == 0 {
        Some(true)
    } else {
        Some(a.neg == b.neg && left == right)
    }
}

} // verus!
