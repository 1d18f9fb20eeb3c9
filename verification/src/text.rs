//! Character and digit-string helpers shared by the amount parser and
//! the decimal formatter.

use vstd::prelude::*;

verus! {

/// `c` is an ASCII decimal digit.
pub open spec fn is_digit(c: char) -> bool {
    '0' <= c && c <= '9'
}

/// The numeric value of the digit `c`.
pub open spec fn digit_val(c: char) -> nat {
    (c as int - '0' as int) as nat
}

/// The digit character for `d < 10`.
pub open spec fn digit_char(d: nat) -> char {
    if d == 0 {
        '0'
    } else if d == 1 {
        '1'
    } else if d == 2 {
        '2'
    } else if d == 3 {
        '3'
    } else if d == 4 {
        '4'
    } else if d == 5 {
        '5'
    } else if d == 6 {
        '6'
    } else if d == 7 {
        '7'
    } else if d == 8 {
        '8'
    } else {
        '9'
    }
}

/// Every character of `s` is a digit.
pub open spec fn all_digits(s: Seq<char>) -> bool {
    forall|i: int| 0 <= i < s.len() ==> is_digit(#[trigger] s[i])
}

/// The number denoted by the digit string `s`, most significant digit
/// first; the empty string denotes zero.
pub open spec fn digits_val(s: Seq<char>) -> nat
    decreases s.len(),
{
    if s.len() == 0 {
        0
    } else {
        digits_val(s.drop_last()) * 10 + digit_val(s.last())
    }
}

/// Appending a digit multiplies the value by ten and adds the digit.
pub proof fn lemma_digits_val_push(s: Seq<char>, c: char)
    ensures
        digits_val(s.push(c)) == digits_val(s) * 10 + digit_val(c),
{
    assert(s.push(c).drop_last() =~= s);
    assert(s.push(c).last() == c);
}

/// The value of concatenated digit strings.
pub proof fn lemma_digits_val_concat(a: Seq<char>, b: Seq<char>)
    ensures
        digits_val(a + b) == digits_val(a) * crate::rational::pow10(b.len()) + digits_val(b),
    decreases b.len(),
{
    if b.len() == 0 {
        assert(a + b =~= a);
        assert(digits_val(a) * 1 == digits_val(a)) by (nonlinear_arith);
    } else {
        let bp = b.drop_last();
        lemma_digits_val_concat(a, bp);
        assert((a + b).drop_last() =~= a + bp);
        assert((a + b).last() == b.last());
        let p = crate::rational::pow10(bp.len());
        assert(crate::rational::pow10(b.len()) == 10 * p);
        assert((digits_val(a) * p + digits_val(bp)) * 10 + digit_val(b.last()) == digits_val(a) * (
        10 * p) + (digits_val(bp) * 10 + digit_val(b.last()))) by (nonlinear_arith);
    }
}

/// A digit string's value grows with a longer prefix value: if even the
/// prefix's value exceeds a bound, so does the whole value.
pub proof fn lemma_digits_val_prefix_le(a: Seq<char>, b: Seq<char>)
    ensures
        digits_val(a) <= digits_val(a + b),
{
    lemma_digits_val_concat(a, b);
    crate::rational::lemma_pow10_positive(b.len());
    assert(digits_val(a) * crate::rational::pow10(b.len()) >= digits_val(a)) by (nonlinear_arith)
        requires
            crate::rational::pow10(b.len()) >= 1,
            digits_val(a) >= 0,
    ;
}

/// The canonical digit string of `n`, most significant digit first;
/// zero is the single digit `0`.
pub open spec fn digits_of(n: nat) -> Seq<char>
    decreases n,
{
    if n < 10 {
        seq![digit_char(n)]
    } else {
        digits_of(n / 10).push(digit_char(n % 10))
    }
}

/// The canonical digit string has at least one character, holds only
/// digits, and denotes the number it was built from.
pub proof fn lemma_digits_of(n: nat)
    ensures
        digits_of(n).len() >= 1,
        all_digits(digits_of(n)),
        digits_val(digits_of(n)) == n,
    decreases n,
{
    if n < 10 {
        let s = digits_of(n);
        assert(s.len() == 1);
        assert(s.last() == digit_char(n));
        assert(s.drop_last() =~= Seq::<char>::empty());
        assert(digits_val(s.drop_last()) == 0);
        assert(digits_val(s) == 0 * 10 + digit_val(digit_char(n)));
        assert(digit_val(digit_char(n)) == n);
    } else {
        lemma_digits_of(n / 10);
        lemma_digits_val_push(digits_of(n / 10), digit_char(n % 10));
        vstd::arithmetic::div_mod::lemma_fundamental_div_mod(n as int, 10);
        let s = digits_of(n);
        assert forall|i: int| 0 <= i < s.len() implies is_digit(#[trigger] s[i]) by {
            if i < s.len() - 1 {
                assert(s[i] == digits_of(n / 10)[i]);
            }
        }
    }
}

/// A string of `n` zero digits.
pub open spec fn zeros(n: nat) -> Seq<char> {
    Seq::new(n, |i: int| '0')
}

/// Zero digits denote zero, whatever their number.
pub proof fn lemma_zeros(n: nat)
    ensures
        all_digits(zeros(n)),
        digits_val(zeros(n)) == 0,
    decreases n,
{
    if n > 0 {
        lemma_zeros((n - 1) as nat);
        assert(zeros(n).drop_last() =~= zeros((n - 1) as nat));
        assert(digit_val('0') == 0);
    }
}

/// Relies on `String::push`: appends exactly one character.
#[verifier::external_body]
pub(crate) fn push_char(s: &mut String, c: char)
    ensures
        final(s)@ == old(s)@.push(c),
{
    s.push(c);
}

/// The digit character of `d`.
pub fn digit_to_char(d: u8) -> (c: char)
    requires
        d < 10,
    ensures
        c == digit_char(d as nat),
{
    match d {
        0 => '0',
        1 => '1',
        2 => '2',
        3 => '3',
        4 => '4',
        5 => '5',
        6 => '6',
        7 => '7',
        8 => '8',
        _ => '9',
    }
}

/// Append the canonical digit string of `n`.
pub fn push_digits(n: u128, out: &mut String)
    ensures
        final(out)@ == old(out)@ + digits_of(n as nat),
    decreases n,
{
    if n < 10 {
        push_char(out, digit_to_char(n as u8));
        proof {
            assert(old(out)@ + digits_of(n as nat) =~= old(out)@.push(digit_char(n as nat)));
        }
    } else {
        push_digits(n / 10, out);
        push_char(out, digit_to_char((n % 10) as u8));
        proof {
            assert(old(out)@ + digits_of(n as nat) =~= (old(out)@ + digits_of(n as nat / 10)).push(
                digit_char(n as nat % 10),
            ));
        }
    }
}

} // verus!
