//! The amount-string parser.
//!
//! An amount is written as a plain decimal numeral — an optional sign,
//! digits, at most one `.` as the decimal separator — possibly broken up
//! by thousand separators (comma, space, apostrophe, anywhere and in any
//! quantity) and possibly followed by one trailing SI symbol naming a
//! power-of-ten multiplier (`1M` is a million; a leading symbol, as in
//! `M1`, is no amount).  Parsing is exact: the result is a decimal
//! number, never a rounded binary float.

use vstd::prelude::*;

use crate::decimal::Dec;
use crate::text::{all_digits, digit_val, digits_val, is_digit, push_char};

verus! {

/// Error for an unparsable amount string; `input` is the original,
/// unmodified input.
#[derive(Debug, PartialEq, Eq)]
pub struct AmountParseError {
    pub input: String,
}

impl AmountParseError {
    /// The message the command line shows for this error.
    pub fn message(&self) -> (r: String)
        ensures
            r@ == seq!['"'] + self.input@ + "\" is not a valid amount!"@,
    {
        let mut msg = String::new();
        push_char(&mut msg, '"');
        msg.append(self.input.as_str());
        msg.append("\" is not a valid amount!");
        proof {
            assert(Seq::<char>::empty().push('"') =~= seq!['"']);
        }
        msg
    }
}

/// `c` is a thousand separator: comma, space or apostrophe.
pub open spec fn is_separator(c: char) -> bool {
    c == ',' || c == ' ' || c == '\''
}

/// `s` with every thousand separator removed.
pub open spec fn strip_separators(s: Seq<char>) -> Seq<char>
    decreases s.len(),
{
    if s.len() == 0 {
        Seq::empty()
    } else {
        let rest = strip_separators(s.drop_last());
        if is_separator(s.last()) {
            rest
        } else {
            rest.push(s.last())
        }
    }
}

/// The power-of-ten exponent of a trailing SI symbol, if `c` is one.
/// The symbols and their exponents are the single-character SI prefixes,
/// from quetta (`Q`, 30) down to quecto (`q`, -30).
pub open spec fn spec_si_exp(c: char) -> Option<int> {
    if c == 'Q' {
        Some(30int)
    } else if c == 'R' {
        Some(27int)
    } else if c == 'Y' {
        Some(24int)
    } else if c == 'Z' {
        Some(21int)
    } else if c == 'E' {
        Some(18int)
    } else if c == 'P' {
        Some(15int)
    } else if c == 'T' {
        Some(12int)
    } else if c == 'G' {
        Some(9int)
    } else if c == 'M' {
        Some(6int)
    } else if c == 'k' {
        Some(3int)
    } else if c == 'h' {
        Some(2int)
    } else if c == 'd' {
        Some(-1int)
    } else if c == 'c' {
        Some(-2int)
    } else if c == 'm' {
        Some(-3int)
    } else if c == 'u' {
        Some(-6int)
    } else if c == 'n' {
        Some(-9int)
    } else if c == 'p' {
        Some(-12int)
    } else if c == 'f' {
        Some(-15int)
    } else if c == 'a' {
        Some(-18int)
    } else if c == 'z' {
        Some(-21int)
    } else if c == 'y' {
        Some(-24int)
    } else if c == 'r' {
        Some(-27int)
    } else if c == 'q' {
        Some(-30int)
    } else {
        None
    }
}

/// The index of the first `.` in `s`, or `s.len()` if there is none.
pub open spec fn find_dot(s: Seq<char>) -> int
    decreases s.len(),
{
    if s.len() == 0 {
        0
    } else if s[0] == '.' {
        0
    } else {
        1 + find_dot(s.drop_first())
    }
}

/// `find_dot` names the first dot: everything before it is dot-free,
/// and it is a dot unless there is none.
pub proof fn lemma_find_dot(s: Seq<char>)
    ensures
        0 <= find_dot(s) <= s.len(),
        find_dot(s) < s.len() ==> s[find_dot(s)] == '.',
        forall|j: int| 0 <= j < find_dot(s) ==> s[j] != '.',
    decreases s.len(),
{
    if s.len() > 0 && s[0] != '.' {
        lemma_find_dot(s.drop_first());
        assert(forall|j: int| 0 <= j < find_dot(s.drop_first()) ==> s.drop_first()[j] != '.');
        assert forall|j: int| 0 <= j < find_dot(s) implies s[j] != '.' by {
            if j > 0 {
                assert(s.drop_first()[j - 1] == s[j]);
            }
        }
        if find_dot(s) < s.len() {
            assert(s.drop_first()[find_dot(s.drop_first())] == s[find_dot(s)]);
        }
    }
}

/// Conversely, an index with those properties is `find_dot`.
pub proof fn lemma_find_dot_unique(s: Seq<char>, d: int)
    requires
        0 <= d <= s.len(),
        d < s.len() ==> s[d] == '.',
        forall|j: int| 0 <= j < d ==> s[j] != '.',
    ensures
        find_dot(s) == d,
{
    lemma_find_dot(s);
    if find_dot(s) < d {
        assert(s[find_dot(s)] == '.');
    } else if d < find_dot(s) {
        assert(s[d] != '.');
    }
}

/// A cleaned (separator-free, suffix-free) numeral without its sign:
/// digits with at most one dot, at least one digit.  The result is the
/// digit value and the number of fraction digits.
pub open spec fn spec_parse_body(s: Seq<char>) -> Option<(nat, nat)> {
    let d = find_dot(s);
    if d == s.len() {
        if s.len() >= 1 && all_digits(s) {
            Some((digits_val(s), 0nat))
        } else {
            None
        }
    } else {
        let ip = s.subrange(0, d);
        let fp = s.subrange(d + 1, s.len() as int);
        if s.len() >= 2 && all_digits(ip) && all_digits(fp) {
            Some((digits_val(ip + fp), fp.len()))
        } else {
            None
        }
    }
}

/// A cleaned numeral with an optional leading sign.  The result adds
/// whether the number is negative.
pub open spec fn spec_parse_clean(s: Seq<char>) -> Option<(bool, nat, nat)> {
    if s.len() == 0 {
        None
    } else if s[0] == '-' {
        match spec_parse_body(s.drop_first()) {
            Some(t) => Some((true, t.0, t.1)),
            None => None,
        }
    } else if s[0] == '+' {
        match spec_parse_body(s.drop_first()) {
            Some(t) => Some((false, t.0, t.1)),
            None => None,
        }
    } else {
        match spec_parse_body(s) {
            Some(t) => Some((false, t.0, t.1)),
            None => None,
        }
    }
}

/// A raw amount string: an optional trailing SI symbol, then, with all
/// thousand separators stripped, a signed decimal numeral.  The result
/// is the sign, the digit value, and the decimal exponent (the SI
/// exponent minus the number of fraction digits); the number denoted is
/// `±mant * 10^exp`.
pub open spec fn spec_parse_amount(raw: Seq<char>) -> Option<(bool, nat, int)> {
    if raw.len() == 0 {
        None
    } else {
        let si = spec_si_exp(raw.last());
        let body = if si is Some {
            raw.drop_last()
        } else {
            raw
        };
        let e0: int = if si is Some {
            si->0
        } else {
            0
        };
        match spec_parse_clean(strip_separators(body)) {
            Some(t) => Some((t.0, t.1, e0 - t.2)),
            None => None,
        }
    }
}

/// The trailing-SI-symbol table, executable form.
pub fn si_exponent(c: char) -> (r: Option<i32>)
    ensures
        match r {
            Some(e) => spec_si_exp(c) == Some(e as int),
            None => spec_si_exp(c) is None,
        },
{
    match c {
        'Q' => Some(30),
        'R' => Some(27),
        'Y' => Some(24),
        'Z' => Some(21),
        'E' => Some(18),
        'P' => Some(15),
        'T' => Some(12),
        'G' => Some(9),
        'M' => Some(6),
        'k' => Some(3),
        'h' => Some(2),
        'd' => Some(-1),
        'c' => Some(-2),
        'm' => Some(-3),
        'u' => Some(-6),
        'n' => Some(-9),
        'p' => Some(-12),
        'f' => Some(-15),
        'a' => Some(-18),
        'z' => Some(-21),
        'y' => Some(-24),
        'r' => Some(-27),
        'q' => Some(-30),
        _ => None,
    }
}

/// `s` with every thousand separator (comma, space, apostrophe)
/// removed, whatever its position.
pub fn strip_thousand_separators(s: &str) -> (r: String)
    ensures
        r@ == strip_separators(s@),
{
    let n = s.unicode_len();
    let mut out = String::new();
    let mut i: usize = 0;
    while i < n
        invariant
            0 <= i <= n,
            n == s@.len(),
            out@ == strip_separators(s@.subrange(0, i as int)),
        decreases n - i,
    {
        let c = s.get_char(i);
        proof {
            let pre = s@.subrange(0, i as int);
            let pre1 = s@.subrange(0, i + 1);
            assert(pre1.drop_last() =~= pre);
            assert(pre1.last() == s@[i as int]);
        }
        if !(c == ',' || c == ' ' || c == '\'') {
            push_char(&mut out, c);
        }
        i = i + 1;
    }
    proof {
        assert(s@.subrange(0, n as int) =~= s@);
    }
    out
}

/// A prefix of a digit string denotes at most the whole string's value.
proof fn lemma_digits_prefix_bound(full: Seq<char>, pre: Seq<char>)
    requires
        pre.is_prefix_of(full),
    ensures
        crate::text::digits_val(pre) <= digits_val(full),
{
    let suffix = full.subrange(pre.len() as int, full.len() as int);
    assert(full =~= pre + suffix);
    crate::text::lemma_digits_val_prefix_le(pre, suffix);
}

/// The digit characters scanned so far, in order: everything from
/// `start` up to `i`, skipping the dot if one was seen.
spec fn scanned_digits(s: Seq<char>, start: int, dot: Option<int>, i: int) -> Seq<char> {
    match dot {
        Some(dp) => s.subrange(start, dp) + s.subrange(dp + 1, i),
        None => s.subrange(start, i),
    }
}

/// Parse a cleaned numeral: an optional sign, digits, at most one dot.
/// The result is the sign, the digit value and the number of fraction
/// digits; `None` when the string is no numeral or its digit value does
/// not fit in a `u128`.
fn parse_clean(s: &str) -> (r: Option<(bool, u128, usize)>)
    ensures
        match r {
            Some(t) => spec_parse_clean(s@) == Some((t.0, t.1 as nat, t.2 as nat)),
            None => spec_parse_clean(s@) is None || (spec_parse_clean(s@) matches Some(t) && t.1
                > u128::MAX),
        },
        r is Some <==> (spec_parse_clean(s@) matches Some(t) && t.1 <= u128::MAX),
{
    let n = s.unicode_len();
    if n == 0 {
        return None;
    }
    let first = s.get_char(0);
    let (neg, start): (bool, usize) = if first == '-' {
        (true, 1)
    } else if first == '+' {
        (false, 1)
    } else {
        (false, 0)
    };
    let ghost body: Seq<char> = s@.subrange(start as int, n as int);
    proof {
        if start == 1 {
            assert(body =~= s@.drop_first());
        } else {
            assert(body =~= s@);
        }
    }
    let mut mant: u128 = 0;
    let mut dot: Option<usize> = None;
    let mut i: usize = start;
    while i < n
        invariant
            start <= i <= n,
            start <= 1 < usize::MAX,
            n == s@.len(),
            n >= 1,
            body == s@.subrange(start as int, n as int),
            neg == (s@[0] == '-'),
            start == 1 <==> (s@[0] == '-' || s@[0] == '+'),
            match dot {
                Some(dp) => {
                    &&& start <= dp < i
                    &&& s@[dp as int] == '.'
                    &&& forall|j: int| start <= j < dp ==> is_digit(#[trigger] s@[j])
                    &&& forall|j: int| dp < j < i ==> is_digit(#[trigger] s@[j])
                },
                None => forall|j: int| start <= j < i ==> is_digit(#[trigger] s@[j]),
            },
            mant == digits_val(scanned_digits(s@, start as int, dot_view(dot), i as int)),
        decreases n - i,
    {
        let c = s.get_char(i);
        let cu = c as u32;
        if c == '.' {
            if dot.is_some() {
                proof {
                    lemma_parse_none_second_dot(s@, start as int, dot_view(dot)->0, i as int);
                }
                return None;
            }
            proof {
                let dp = i as int;
                assert(scanned_digits(s@, start as int, Some(dp), dp + 1) =~= scanned_digits(
                    s@,
                    start as int,
                    None,
                    dp,
                ));
            }
            dot = Some(i);
        } else if cu >= '0' as u32 && cu <= '9' as u32 {
            let dval = (cu - '0' as u32) as u128;
            proof {
                assert(is_digit(s@[i as int]));
                assert(dval == digit_val(s@[i as int]));
            }
            let ghost pre = scanned_digits(s@, start as int, dot_view(dot), i as int);
            proof {
                crate::text::lemma_digits_val_push(pre, s@[i as int]);
                assert(scanned_digits(s@, start as int, dot_view(dot), i + 1) =~= pre.push(
                    s@[i as int],
                ));
            }
            let next = match mant.checked_mul(10) {
                Some(m10) => m10.checked_add(dval),
                None => None,
            };
            match next {
                Some(nm) => {
                    mant = nm;
                },
                None => {
                    proof {
                        assert(mant * 10 + dval > u128::MAX);
                        lemma_parse_overflow(
                            s@,
                            start as int,
                            dot_view(dot),
                            i as int,
                            (mant * 10 + dval) as nat,
                        );
                    }
                    return None;
                },
            }
        } else {
            proof {
                lemma_parse_none_bad_char(s@, start as int, dot_view(dot), i as int);
            }
            return None;
        }
        i = i + 1;
    }
    let digit_count: usize = match dot {
        Some(_) => n - start - 1,
        None => n - start,
    };
    if digit_count == 0 {
        proof {
            lemma_parse_none_no_digits(s@, start as int, dot_view(dot));
        }
        return None;
    }
    let scale: usize = match dot {
        Some(dp) => n - dp - 1,
        None => 0,
    };
    proof {
        lemma_parse_complete(s@, start as int, dot_view(dot), mant as nat, scale as nat);
    }
    Some((neg, mant, scale))
}

/// The ghost view of an executable dot position.
spec fn dot_view(dot: Option<usize>) -> Option<int> {
    match dot {
        Some(dp) => Some(dp as int),
        None => None,
    }
}

/// Parse an amount string: an optional trailing SI symbol, thousand
/// separators anywhere, then a signed decimal numeral.  The result is
/// the exact decimal number denoted; an error always reports the
/// original, unmodified input.  Parsing fails exactly when the string
/// is no such numeral, or its digits or exponent leave the range a
/// [`Dec`] can hold.
pub fn parse_amount(raw: &str) -> (r: Result<Dec, AmountParseError>)
    ensures
        match r {
            Ok(d) => {
                &&& d.wf()
                &&& spec_parse_amount(raw@) matches Some(t)
                &&& d.mant == t.1
                &&& d.neg == (t.0 && t.1 != 0)
                &&& d.exp as int == (if t.1 == 0 {
                    0int
                } else {
                    t.2
                })
            },
            Err(e) => {
                &&& e.input@ == raw@
                &&& (spec_parse_amount(raw@) is None || (spec_parse_amount(raw@) matches Some(t)
                    && (t.1 > u128::MAX || t.2 < i32::MIN || i32::MAX < t.2)))
            },
        },
        r is Ok <==> (spec_parse_amount(raw@) matches Some(t) && t.1 <= u128::MAX && i32::MIN <= t.2
            <= i32::MAX),
{
    let n = raw.unicode_len();
    if n == 0 {
        return Err(AmountParseError { input: String::from_str(raw) });
    }
    let last = raw.get_char(n - 1);
    proof {
        assert(raw@.last() == raw@[n - 1]);
    }
    let (e0, body_len): (i32, usize) = match si_exponent(last) {
        Some(e) => (e, n - 1),
        None => (0, n),
    };
    let body = raw.substring_char(0, body_len);
    proof {
        if spec_si_exp(raw@.last()) is Some {
            assert(body@ =~= raw@.drop_last());
        } else {
            assert(body@ =~= raw@);
        }
    }
    let clean = strip_thousand_separators(body);
    let ghost spec_e0: int = if spec_si_exp(raw@.last()) is Some {
        spec_si_exp(raw@.last())->0
    } else {
        0
    };
    proof {
        assert(e0 as int == spec_e0);
        assert(clean@ == strip_separators(body@));
        assert(spec_parse_amount(raw@) == (match spec_parse_clean(clean@) {
            Some(t) => Some((t.0, t.1, spec_e0 - t.2)),
            None => None::<(bool, nat, int)>,
        }));
    }
    match parse_clean(clean.as_str()) {
        Some((neg, mant, scale)) => {
            proof {
                assert(spec_parse_amount(raw@) == Some(
                    (neg, mant as nat, spec_e0 - scale as nat),
                ));
            }
            let exp_i: i128 = e0 as i128 - scale as i128;
            if exp_i < i32::MIN as i128 || exp_i > i32::MAX as i128 {
                return Err(AmountParseError { input: String::from_str(raw) });
            }
            if mant == 0 {
                Ok(Dec { neg: false, mant: 0, exp: 0 })
            } else {
                Ok(Dec { neg, mant, exp: exp_i as i32 })
            }
        },
        None => Err(AmountParseError { input: String::from_str(raw) }),
    }
}

/// The parser's scan state: `start` skips a sign, every character
/// before `i` is a digit except a single dot at `dot`.
spec fn scan_ok(s: Seq<char>, start: int, dot: Option<int>, i: int) -> bool {
    &&& 0 <= start <= i <= s.len()
    &&& start <= 1
    &&& s.len() >= 1
    &&& (start == 1 <==> (s[0] == '-' || s[0] == '+'))
    &&& match dot {
        Some(dp) => {
            &&& start <= dp < i
            &&& s[dp] == '.'
            &&& (forall|j: int| start <= j < dp ==> is_digit(#[trigger] s[j]))
            &&& (forall|j: int| dp < j < i ==> is_digit(#[trigger] s[j]))
        },
        None => forall|j: int| start <= j < i ==> is_digit(#[trigger] s[j]),
    }
}

/// Parsing a signed numeral is parsing its unsigned body.
proof fn lemma_clean_body(s: Seq<char>, start: int)
    requires
        s.len() >= 1,
        0 <= start <= 1,
        start <= s.len(),
        start == 1 <==> (s[0] == '-' || s[0] == '+'),
    ensures
        spec_parse_clean(s) == (match spec_parse_body(s.subrange(start, s.len() as int)) {
            Some(t) => Some((s[0] == '-', t.0, t.1)),
            None => None::<(bool, nat, nat)>,
        }),
{
    if start == 1 {
        assert(s.drop_first() =~= s.subrange(1, s.len() as int));
    } else {
        assert(s =~= s.subrange(0, s.len() as int));
    }
}

/// A second dot makes the string no numeral.
proof fn lemma_parse_none_second_dot(s: Seq<char>, start: int, dp: int, i: int)
    requires
        scan_ok(s, start, Some(dp), i),
        i < s.len(),
        s[i] == '.',
    ensures
        spec_parse_clean(s) is None,
{
    lemma_clean_body(s, start);
    let body = s.subrange(start, s.len() as int);
    let d = dp - start;
    assert forall|j: int| 0 <= j < d implies body[j] != '.' by {
        assert(body[j] == s[start + j]);
        assert(is_digit(s[start + j]));
    }
    assert(body[d] == s[dp]);
    lemma_find_dot_unique(body, d);
    let fp = body.subrange(d + 1, body.len() as int);
    let k = i - start - d - 1;
    assert(fp[k] == s[i]);
    assert(!is_digit(fp[k]));
    assert(!all_digits(fp));
}

/// A character that is neither digit nor first dot makes the string no
/// numeral.
proof fn lemma_parse_none_bad_char(s: Seq<char>, start: int, dot: Option<int>, i: int)
    requires
        scan_ok(s, start, dot, i),
        i < s.len(),
        s[i] != '.',
        !is_digit(s[i]),
    ensures
        spec_parse_clean(s) is None,
{
    lemma_clean_body(s, start);
    let body = s.subrange(start, s.len() as int);
    lemma_find_dot(body);
    let d = find_dot(body);
    let rel = i - start;
    assert(body[rel] == s[i]);
    match dot {
        None => {
            if d < rel {
                assert(body[d] == s[start + d]);
                assert(is_digit(s[start + d]));
                assert(false);
            } else if d == rel {
                assert(false);
            } else if d == body.len() {
                assert(!all_digits(body));
            } else {
                let ip = body.subrange(0, d);
                assert(ip[rel] == body[rel]);
                assert(!all_digits(ip));
            }
        },
        Some(dp) => {
            let dd = dp - start;
            assert forall|j: int| 0 <= j < dd implies body[j] != '.' by {
                assert(body[j] == s[start + j]);
                assert(is_digit(s[start + j]));
            }
            assert(body[dd] == s[dp]);
            lemma_find_dot_unique(body, dd);
            let fp = body.subrange(dd + 1, body.len() as int);
            let k = rel - dd - 1;
            assert(fp[k] == body[rel]);
            assert(!all_digits(fp));
        },
    }
}

/// A string with no digit at all is no numeral.
proof fn lemma_parse_none_no_digits(s: Seq<char>, start: int, dot: Option<int>)
    requires
        scan_ok(s, start, dot, s.len() as int),
        match dot {
            Some(dp) => s.len() - start == 1,
            None => s.len() - start == 0,
        },
    ensures
        spec_parse_clean(s) is None,
{
    lemma_clean_body(s, start);
    let body = s.subrange(start, s.len() as int);
    match dot {
        None => {
            assert(body.len() == 0);
            lemma_find_dot(body);
        },
        Some(dp) => {
            assert(body.len() == 1);
            assert(body[0] == s[dp]);
            lemma_find_dot_unique(body, 0);
        },
    }
}

/// A fully scanned numeral parses to the scanned digits and scale.
proof fn lemma_parse_complete(s: Seq<char>, start: int, dot: Option<int>, mant: nat, scale: nat)
    requires
        scan_ok(s, start, dot, s.len() as int),
        mant == digits_val(scanned_digits(s, start, dot, s.len() as int)),
        match dot {
            Some(dp) => s.len() - start >= 2 && scale == s.len() - dp - 1,
            None => s.len() - start >= 1 && scale == 0,
        },
    ensures
        spec_parse_clean(s) == Some((s[0] == '-', mant, scale)),
{
    lemma_clean_body(s, start);
    let body = s.subrange(start, s.len() as int);
    match dot {
        None => {
            assert forall|j: int| 0 <= j < body.len() implies body[j] != '.' by {
                assert(body[j] == s[start + j]);
                assert(is_digit(s[start + j]));
            }
            lemma_find_dot_unique(body, body.len() as int);
            assert forall|j: int| 0 <= j < body.len() implies is_digit(#[trigger] body[j]) by {
                assert(body[j] == s[start + j]);
            }
            assert(body =~= scanned_digits(s, start, dot, s.len() as int));
        },
        Some(dp) => {
            let d = dp - start;
            assert forall|j: int| 0 <= j < d implies body[j] != '.' by {
                assert(body[j] == s[start + j]);
                assert(is_digit(s[start + j]));
            }
            assert(body[d] == s[dp]);
            lemma_find_dot_unique(body, d);
            let ip = body.subrange(0, d);
            let fp = body.subrange(d + 1, body.len() as int);
            assert(ip =~= s.subrange(start, dp));
            assert(fp =~= s.subrange(dp + 1, s.len() as int));
            assert forall|j: int| 0 <= j < ip.len() implies is_digit(#[trigger] ip[j]) by {
                assert(ip[j] == s[start + j]);
            }
            assert forall|j: int| 0 <= j < fp.len() implies is_digit(#[trigger] fp[j]) by {
                assert(fp[j] == s[dp + 1 + j]);
            }
            assert(ip + fp =~= scanned_digits(s, start, dot, s.len() as int));
            assert(fp.len() == scale);
        },
    }
}

/// A string without separators is untouched by separator stripping.
proof fn lemma_strip_id(s: Seq<char>)
    requires
        forall|i: int| 0 <= i < s.len() ==> !is_separator(#[trigger] s[i]),
    ensures
        strip_separators(s) =~= s,
    decreases s.len(),
{
    if s.len() > 0 {
        lemma_strip_id(s.drop_last());
        assert(!is_separator(s.last()));
    }
}

/// No digit is an SI symbol.
proof fn lemma_digit_not_si(c: char)
    requires
        is_digit(c),
    ensures
        spec_si_exp(c) is None,
{
}

/// Formatting a decimal and parsing the numeral back yields the same
/// number: the sign is kept, and the digits and exponent are kept
/// exactly for a non-positive exponent, or folded into the digit string
/// for a positive one.  Formatting never emits separators or an SI
/// symbol, so the numeral is already clean.
#[verifier::rlimit(100)]
pub proof fn lemma_format_parse_round_trip(d: Dec)
    requires
        d.wf(),
    ensures
        ({
            let p = spec_parse_amount(crate::decimal::spec_format(d));
            &&& p matches Some(t)
            &&& t.0 == d.neg
            &&& (d.exp >= 0 ==> t.1 == d.mant * crate::rational::pow10(d.exp as nat) && t.2 == 0)
            &&& (d.exp < 0 ==> t.1 == d.mant && t.2 == d.exp)
        }),
{
    let f = crate::decimal::spec_format(d);
    let ds = crate::text::digits_of(d.mant as nat);
    crate::text::lemma_digits_of(d.mant as nat);
    let sign: Seq<char> = if d.neg {
        seq!['-']
    } else {
        Seq::empty()
    };
    let start: int = if d.neg {
        1
    } else {
        0
    };
    if d.exp >= 0 {
        let e = d.exp as nat;
        crate::text::lemma_zeros(e);
        assert(f == sign + ds + crate::text::zeros(e));
        assert(f.len() == start + ds.len() + e);
        assert forall|j: int| start <= j < f.len() implies is_digit(#[trigger] f[j]) by {
            if j < start + ds.len() {
                assert(f[j] == ds[j - start]);
            } else {
                assert(f[j] == crate::text::zeros(e)[j - start - ds.len()]);
                assert(f[j] == '0');
            }
        }
        assert(d.neg ==> f[0] == '-');
        assert(!d.neg ==> f[0] == ds[0]);
        assert(scan_ok(f, start, None, f.len() as int));
        let scanned = scanned_digits(f, start, None, f.len() as int);
        assert(scanned =~= ds + crate::text::zeros(e));
        crate::text::lemma_digits_val_concat(ds, crate::text::zeros(e));
        let mval = (d.mant * crate::rational::pow10(e)) as nat;
        assert(digits_val(scanned) == mval);
        lemma_parse_complete(f, start, None, mval, 0);
        assert(spec_parse_clean(f) == Some((d.neg, mval, 0nat)));
        // the full amount parse: no SI suffix, no separators
        assert(f.last() == f[f.len() - 1]);
        assert(is_digit(f.last()));
        lemma_digit_not_si(f.last());
        assert forall|i: int| 0 <= i < f.len() implies !is_separator(#[trigger] f[i]) by {
            if i >= start {
                assert(is_digit(f[i]));
            } else {
                assert(f[i] == '-');
            }
        }
        lemma_strip_id(f);
    } else {
        let s = (-d.exp) as nat;
        if ds.len() > s {
            let head = ds.len() - s;
            let dp = start + head;
            assert(f == sign + ds.subrange(0, head as int) + seq!['.'] + ds.subrange(
                head as int,
                ds.len() as int,
            ));
            assert(f.len() == start + ds.len() + 1);
            assert forall|j: int| start <= j < f.len() && j != dp implies is_digit(
                #[trigger] f[j],
            ) by {
                if j < dp {
                    assert(f[j] == ds.subrange(0, head as int)[j - start]);
                    assert(f[j] == ds[j - start]);
                } else {
                    assert(f[j] == ds.subrange(head as int, ds.len() as int)[j - dp - 1]);
                    assert(f[j] == ds[j - start - 1]);
                }
            }
            assert(f[dp] == '.');
            assert(d.neg ==> f[0] == '-');
            assert(!d.neg ==> f[0] == ds[0]);
            assert(scan_ok(f, start, Some(dp), f.len() as int));
            let scanned = scanned_digits(f, start, Some(dp), f.len() as int);
            assert(scanned =~= ds);
            lemma_parse_complete(f, start, Some(dp), d.mant as nat, s);
            assert(spec_parse_clean(f) == Some((d.neg, d.mant as nat, s)));
            assert(f.last() == ds[ds.len() - 1]);
            assert(is_digit(f.last()));
            lemma_digit_not_si(f.last());
            assert forall|i: int| 0 <= i < f.len() implies !is_separator(#[trigger] f[i]) by {
                if i == dp {
                    assert(f[i] == '.');
                } else if i >= start {
                    assert(is_digit(f[i]));
                } else {
                    assert(f[i] == '-');
                }
            }
            lemma_strip_id(f);
        } else {
            let pad = (s - ds.len()) as nat;
            crate::text::lemma_zeros(pad);
            let dp = start + 1;
            assert(f == sign + seq!['0', '.'] + crate::text::zeros(pad) + ds);
            assert(f.len() == start + 2 + pad + ds.len());
            assert(f[start] == '0');
            assert(f[dp] == '.');
            assert forall|j: int| dp < j < f.len() implies is_digit(#[trigger] f[j]) by {
                if j < start + 2 + pad {
                    assert(f[j] == crate::text::zeros(pad)[j - start - 2]);
                    assert(f[j] == '0');
                } else {
                    assert(f[j] == ds[j - start - 2 - pad]);
                }
            }
            assert(d.neg ==> f[0] == '-');
            assert(!d.neg ==> f[0] == '0');
            assert(scan_ok(f, start, Some(dp), f.len() as int));
            let scanned = scanned_digits(f, start, Some(dp), f.len() as int);
            assert(scanned =~= seq!['0'] + (crate::text::zeros(pad) + ds));
            crate::text::lemma_digits_val_concat(crate::text::zeros(pad), ds);
            crate::text::lemma_digits_val_concat(seq!['0'], crate::text::zeros(pad) + ds);
            assert(digits_val(seq!['0']) == 0) by {
                let z = seq!['0'];
                assert(z.len() == 1);
                assert(z.last() == '0');
                assert(z.drop_last() =~= Seq::<char>::empty());
                assert(digits_val(z.drop_last()) == 0);
                assert(digit_val('0') == 0);
                assert(digits_val(z) == digits_val(z.drop_last()) * 10 + digit_val(z.last()));
            }
            assert(digits_val(crate::text::zeros(pad) + ds) == d.mant) by (nonlinear_arith)
                requires
                    digits_val(crate::text::zeros(pad) + ds) == digits_val(crate::text::zeros(pad))
                        * crate::rational::pow10(ds.len()) + digits_val(ds),
                    digits_val(crate::text::zeros(pad)) == 0,
                    digits_val(ds) == d.mant,
            ;
            assert(digits_val(scanned) == d.mant) by (nonlinear_arith)
                requires
                    digits_val(scanned) == digits_val(seq!['0']) * crate::rational::pow10(
                        (crate::text::zeros(pad) + ds).len(),
                    ) + digits_val(crate::text::zeros(pad) + ds),
                    digits_val(seq!['0']) == 0,
                    digits_val(crate::text::zeros(pad) + ds) == d.mant,
            ;
            assert(f.len() - dp - 1 == s);
            lemma_parse_complete(f, start, Some(dp), d.mant as nat, s);
            assert(spec_parse_clean(f) == Some((d.neg, d.mant as nat, s)));
            assert(f.last() == ds[ds.len() - 1]);
            assert(is_digit(f.last()));
            lemma_digit_not_si(f.last());
            assert forall|i: int| 0 <= i < f.len() implies !is_separator(#[trigger] f[i]) by {
                if i == dp {
                    assert(f[i] == '.');
                } else if i == start {
                    assert(f[i] == '0');
                } else if i > dp {
                    assert(is_digit(f[i]));
                } else {
                    assert(f[i] == '-');
                }
            }
            lemma_strip_id(f);
        }
    }
}

/// When even the digits scanned so far exceed the bound, any value the
/// whole string parses to exceeds it too.
proof fn lemma_parse_overflow(s: Seq<char>, start: int, dot: Option<int>, i: int, v: nat)
    requires
        scan_ok(s, start, dot, i),
        i < s.len(),
        is_digit(s[i]),
        v == digits_val(scanned_digits(s, start, dot, i).push(s[i])),
        v > u128::MAX,
    ensures
        spec_parse_clean(s) matches Some(t) ==> t.1 > u128::MAX,
{
    lemma_clean_body(s, start);
    let body = s.subrange(start, s.len() as int);
    if spec_parse_clean(s) is Some {
        lemma_find_dot(body);
        let d = find_dot(body);
        let rel = i - start;
        assert(body[rel] == s[i]);
        let mypre = scanned_digits(s, start, dot, i).push(s[i]);
        match dot {
            None => {
                assert(mypre =~= body.subrange(0, rel + 1));
                if d == body.len() {
                    lemma_digits_prefix_bound(body, mypre);
                } else {
                    // the dot cannot sit in the scanned digits, nor at `i`
                    if d < rel {
                        assert(body[d] == s[start + d]);
                        assert(is_digit(s[start + d]));
                        assert(false);
                    } else if d == rel {
                        assert(false);
                    }
                    let ip = body.subrange(0, d);
                    let fp = body.subrange(d + 1, body.len() as int);
                    assert(mypre =~= ip.subrange(0, rel + 1));
                    lemma_digits_prefix_bound(ip, mypre);
                    crate::text::lemma_digits_val_prefix_le(ip, fp);
                }
            },
            Some(dp) => {
                let dd = dp - start;
                assert forall|j: int| 0 <= j < dd implies body[j] != '.' by {
                    assert(body[j] == s[start + j]);
                    assert(is_digit(s[start + j]));
                }
                assert(body[dd] == s[dp]);
                lemma_find_dot_unique(body, dd);
                let ip = body.subrange(0, dd);
                let fp = body.subrange(dd + 1, body.len() as int);
                assert(mypre =~= (ip + fp).subrange(0, mypre.len() as int));
                lemma_digits_prefix_bound(ip + fp, mypre);
            },
        }
    }
}

} // verus!
