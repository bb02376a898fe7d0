//! The numbers of the text format: unsigned decimal integers and decimal
//! floating-point literals.

use crate::text::{is_digit, lemma_run_end, run_end, scan, ByteClass, DIGIT_ZERO};
use vstd::prelude::*;

verus! {

pub const PLUS: u8 = 43;

pub const MINUS: u8 = 45;

pub const POINT: u8 = 46;

pub const UPPER_A: u8 = 65;

pub const UPPER_Z: u8 = 90;

pub const LOWER_A: u8 = 97;

pub const LOWER_E: u8 = 101;

pub const LOWER_F: u8 = 102;

pub const LOWER_I: u8 = 105;

pub const LOWER_N: u8 = 110;

pub const LOWER_T: u8 = 116;

pub const LOWER_Y: u8 = 121;

/// Every byte is a decimal digit.
pub open spec fn all_digits(s: Seq<u8>) -> bool {
    forall|i: int| 0 <= i < s.len() ==> is_digit(#[trigger] s[i])
}

/// The number that a string of decimal digits denotes.
pub open spec fn digits_value(s: Seq<u8>) -> nat
    decreases s.len(),
{
    if s.len() == 0 {
        0
    } else {
        digits_value(s.drop_last()) * 10 + (s.last() - DIGIT_ZERO) as nat
    }
}

/// The digits of an unsigned integer token: all of it, or what follows a
/// leading `+`.
pub open spec fn unsigned_digits(token: Seq<u8>) -> Seq<u8> {
    if token.len() > 0 && token[0] == PLUS {
        token.skip(1)
    } else {
        token
    }
}

/// The value of an unsigned integer token: an optional `+` and then one or
/// more decimal digits, nothing else. Other tokens have none.
pub open spec fn unsigned_value(token: Seq<u8>) -> Option<nat> {
    if unsigned_digits(token).len() > 0 && all_digits(unsigned_digits(token)) {
        Some(digits_value(unsigned_digits(token)))
    } else {
        None
    }
}

/// The value of an unsigned integer token, where it is at most `max`.
pub open spec fn bounded_value(token: Seq<u8>, max: nat) -> Option<nat> {
    match unsigned_value(token) {
        Some(v) => if v <= max {
            Some(v)
        } else {
            None
        },
        None => None,
    }
}

/// What a token denotes as a `usize`.
pub open spec fn usize_value(token: Seq<u8>) -> Option<usize> {
    match bounded_value(token, usize::MAX as nat) {
        Some(v) => Some(v as usize),
        None => None,
    }
}

/// What a token denotes as a `u32`.
pub open spec fn u32_value(token: Seq<u8>) -> Option<u32> {
    match bounded_value(token, u32::MAX as nat) {
        Some(v) => Some(v as u32),
        None => None,
    }
}

/// A longer string of digits denotes no smaller a number than its beginning.
pub proof fn lemma_digits_value_grows(s: Seq<u8>, k: int)
    requires
        all_digits(s),
        0 <= k <= s.len(),
    ensures
        digits_value(s.take(k)) <= digits_value(s),
    decreases s.len(),
{
    if k == s.len() {
        assert(s.take(k) =~= s);
    } else {
        let front = s.drop_last();
        assert(front.take(k) =~= s.take(k));
        lemma_digits_value_grows(front, k);
    }
}

/// Reads an unsigned decimal integer that is at most `max`.
pub fn parse_unsigned(token: &[u8], max: u64) -> (r: Option<u64>)
    ensures
        match r {
            Some(v) => bounded_value(token@, max as nat) == Some(v as nat),
            None => bounded_value(token@, max as nat) is None,
        },
{
    let n = token.len();
    let start: usize = if n > 0 && token[0] == PLUS {
        1
    } else {
        0
    };
    let ghost digits = unsigned_digits(token@);
    assert(digits =~= token@.subrange(start as int, n as int));
    if start == n {
        return None;
    }
    let mut value: u64 = 0;
    let mut i: usize = start;
    while i < n
        invariant
            start <= i <= n,
            n == token@.len(),
            digits == unsigned_digits(token@),
            digits == token@.subrange(start as int, n as int),
            all_digits(digits.take(i - start)),
            value == digits_value(digits.take(i - start)),
            value <= max,
        decreases n - i,
    {
        let b = token[i];
        if !(DIGIT_ZERO <= b && b <= crate::text::DIGIT_NINE) {
            assert(!is_digit(digits[i - start]));
            return None;
        }
        let ghost longer = digits.take(i - start + 1);
        assert(longer.drop_last() =~= digits.take(i - start));
        assert(longer.last() == b);
        assert(all_digits(longer));
        let next = match value.checked_mul(10) {
            Some(tens) => tens.checked_add((b - DIGIT_ZERO) as u64),
            None => None,
        };
        match next {
            Some(v) if v <= max => {
                value = v;
            },
            _ => {
                proof {
                    assert(digits_value(longer) > max);
                    if all_digits(digits) {
                        lemma_digits_value_grows(digits, i - start + 1);
                    }
                }
                return None;
            },
        }
        i += 1;
    }
    assert(digits.take(n - start) =~= digits);
    Some(value)
}

/// Reads an unsigned decimal integer that fits a `usize`.
pub fn parse_usize(token: &[u8]) -> (r: Option<usize>)
    ensures
        r == usize_value(token@),
{
    match parse_unsigned(token, usize::MAX as u64) {
        Some(v) => Some(v as usize),
        None => None,
    }
}

/// Reads an unsigned decimal integer that fits a `u32`.
pub fn parse_u32(token: &[u8]) -> (r: Option<u32>)
    ensures
        r == u32_value(token@),
{
    match parse_unsigned(token, u32::MAX as u64) {
        Some(v) => Some(v as u32),
        None => None,
    }
}

pub open spec fn is_sign(b: u8) -> bool {
    b == PLUS || b == MINUS
}

/// The lower-case form of an ASCII letter; any other byte as it is.
pub open spec fn lower(b: u8) -> u8 {
    if UPPER_A <= b <= UPPER_Z {
        (b + 32) as u8
    } else {
        b
    }
}

/// `s` is `word`, written in upper or lower case or a mixture.
pub open spec fn spells(s: Seq<u8>, word: Seq<u8>) -> bool {
    &&& s.len() == word.len()
    &&& forall|i: int| 0 <= i < s.len() ==> lower(#[trigger] s[i]) == word[i]
}

pub open spec fn word_inf() -> Seq<u8> {
    seq![LOWER_I, LOWER_N, LOWER_F]
}

pub open spec fn word_infinity() -> Seq<u8> {
    seq![LOWER_I, LOWER_N, LOWER_F, LOWER_I, LOWER_N, LOWER_I, LOWER_T, LOWER_Y]
}

pub open spec fn word_nan() -> Seq<u8> {
    seq![LOWER_N, LOWER_A, LOWER_N]
}

/// A decimal exponent: `e` or `E`, an optional sign, one or more digits.
pub open spec fn is_exponent(e: Seq<u8>) -> bool {
    &&& e.len() > 0
    &&& lower(e[0]) == LOWER_E
    &&& {
        let digits = if e.len() > 1 && is_sign(e[1]) {
            e.skip(2)
        } else {
            e.skip(1)
        };
        digits.len() > 0 && all_digits(digits)
    }
}

/// A decimal number without sign: digits with at most one point among them,
/// before them or behind them, at least one digit in all, and then an
/// optional exponent.
pub open spec fn is_decimal(s: Seq<u8>) -> bool {
    let whole_end = run_end(s, 0, ByteClass::Digit);
    let has_point = whole_end < s.len() && s[whole_end] == POINT;
    let mantissa_end = if has_point {
        run_end(s, whole_end + 1, ByteClass::Digit)
    } else {
        whole_end
    };
    let digit_count = if has_point {
        mantissa_end - 1
    } else {
        mantissa_end
    };
    digit_count > 0 && (mantissa_end == s.len() || is_exponent(s.skip(mantissa_end)))
}

/// The floating-point literals of the format: an optional sign, and then
/// `inf`, `infinity` or `nan` in any case, or a decimal number.
pub open spec fn is_float_literal(token: Seq<u8>) -> bool {
    let body = if token.len() > 0 && is_sign(token[0]) {
        token.skip(1)
    } else {
        token
    };
    spells(body, word_inf()) || spells(body, word_infinity()) || spells(body, word_nan())
        || is_decimal(body)
}

fn to_lower(b: u8) -> (r: u8)
    ensures
        r == lower(b),
{
    if UPPER_A <= b && b <= UPPER_Z {
        b + 32
    } else {
        b
    }
}

fn spells_word(s: &[u8], word: &[u8]) -> (r: bool)
    ensures
        r == spells(s@, word@),
{
    if s.len() != word.len() {
        return false;
    }
    let mut i: usize = 0;
    while i < s.len()
        invariant
            i <= s@.len(),
            s@.len() == word@.len(),
            forall|k: int| 0 <= k < i ==> lower(#[trigger] s@[k]) == word@[k],
        decreases s@.len() - i,
    {
        if to_lower(s[i]) != word[i] {
            return false;
        }
        i += 1;
    }
    true
}

fn exponent_ok(e: &[u8]) -> (r: bool)
    ensures
        r == is_exponent(e@),
{
    let n = e.len();
    if n == 0 || to_lower(e[0]) != LOWER_E {
        return false;
    }
    let start: usize = if n > 1 && (e[1] == PLUS || e[1] == MINUS) {
        2
    } else {
        1
    };
    let end = scan(e, start, ByteClass::Digit);
    proof {
        lemma_run_end(e@, start as int, ByteClass::Digit);
        let digits = e@.skip(start as int);
        if end == n {
            assert forall|i: int| 0 <= i < digits.len() implies is_digit(#[trigger] digits[i]) by {
                assert(ByteClass::Digit.holds(e@[start + i]));
            }
        } else {
            assert(!is_digit(digits[end - start]));
        }
    }
    start < n && end == n
}

fn decimal_ok(s: &[u8]) -> (r: bool)
    ensures
        r == is_decimal(s@),
{
    let n = s.len();
    let whole_end = scan(s, 0, ByteClass::Digit);
    let has_point = whole_end < n && s[whole_end] == POINT;
    let mantissa_end = if has_point {
        scan(s, whole_end + 1, ByteClass::Digit)
    } else {
        whole_end
    };
    let digit_count = if has_point {
        mantissa_end - 1
    } else {
        mantissa_end
    };
    if digit_count == 0 {
        false
    } else if mantissa_end == n {
        true
    } else {
        let rest = vstd::slice::slice_subrange(s, mantissa_end, n);
        assert(rest@ =~= s@.skip(mantissa_end as int));
        exponent_ok(rest)
    }
}

/// Whether a token is a floating-point literal of the format.
pub fn is_float_token(token: &[u8]) -> (r: bool)
    ensures
        r == is_float_literal(token@),
{
    let n = token.len();
    let start: usize = if n > 0 && (token[0] == PLUS || token[0] == MINUS) {
        1
    } else {
        0
    };
    let body = vstd::slice::slice_subrange(token, start, n);
    assert(body@ =~= if token@.len() > 0 && is_sign(token@[0]) {
        token@.skip(1)
    } else {
        token@
    });
    let inf = [LOWER_I, LOWER_N, LOWER_F];
    let infinity = [LOWER_I, LOWER_N, LOWER_F, LOWER_I, LOWER_N, LOWER_I, LOWER_T, LOWER_Y];
    let nan = [LOWER_N, LOWER_A, LOWER_N];
    assert(inf@ =~= word_inf());
    assert(infinity@ =~= word_infinity());
    assert(nan@ =~= word_nan());
    spells_word(body, inf.as_slice()) || spells_word(body, infinity.as_slice()) || spells_word(
        body,
        nan.as_slice(),
    ) || decimal_ok(body)
}

} // verus!
