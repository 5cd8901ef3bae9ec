//! Integer literals: from the text of a numeric core to a value.
//!
//! A literal is a run of decimal digits with an optional sign in front: `+`
//! for any type, `-` for a signed one.  It is read from the left, one digit
//! at a time, and fails at the first character that is no digit or that
//! takes the value out of the type's range.
use crate::chars::is_digit;
use crate::text::{after_first, first_char};
use vstd::prelude::*;
use vstd::std_specs::iter::IteratorSpec;

verus! {

/// Why a text is not a literal of the integer type asked for.
#[derive(Clone, Copy, Debug, PartialEq, Eq, Structural)]
pub enum NumberError {
    /// The text is empty.
    Empty,
    /// The text holds a character that is no digit where a digit must
    /// stand, or a sign with nothing after it.
    InvalidDigit,
    /// The value is above the largest of the type.
    PosOverflow,
    /// The value is below the smallest of the type.
    NegOverflow,
}

/// The number that a decimal digit stands for.
pub open spec fn digit_value(c: char) -> int {
    c as int - '0' as int
}

/// Reads the digits of `s` into `acc`, the most significant first, keeping
/// the value between `low` and `high`.  With `negative` set each digit is
/// subtracted.
pub open spec fn read_digits(s: Seq<char>, acc: int, negative: bool, low: int, high: int) -> Result<
    int,
    NumberError,
>
    decreases s.len(),
{
    if s.len() == 0 {
        Ok(acc)
    } else if !is_digit(s[0]) {
        Err(NumberError::InvalidDigit)
    } else {
        let next = if negative {
            acc * 10 - digit_value(s[0])
        } else {
            acc * 10 + digit_value(s[0])
        };
        if next < low {
            Err(NumberError::NegOverflow)
        } else if next > high {
            Err(NumberError::PosOverflow)
        } else {
            read_digits(s.drop_first(), next, negative, low, high)
        }
    }
}

/// The integer between `low` and `high` that `s` is the literal of.  Only a
/// `signed` literal may start with `-`.
pub open spec fn parse_int(s: Seq<char>, signed: bool, low: int, high: int) -> Result<
    int,
    NumberError,
> {
    if s.len() == 0 {
        Err(NumberError::Empty)
    } else if s.len() == 1 && (s[0] == '+' || s[0] == '-') {
        Err(NumberError::InvalidDigit)
    } else if s[0] == '+' {
        read_digits(s.skip(1), 0, false, low, high)
    } else if s[0] == '-' && signed {
        read_digits(s.skip(1), 0, true, low, high)
    } else {
        read_digits(s, 0, false, low, high)
    }
}

/// Whether every character of `s` is a decimal digit.
pub open spec fn all_digits(s: Seq<char>) -> bool {
    forall|i: int| 0 <= i < s.len() ==> is_digit(#[trigger] s[i])
}

/// The number that the digits of `s` write in base ten.
pub open spec fn decimal_value(s: Seq<char>) -> int
    decreases s.len(),
{
    if s.len() == 0 {
        0
    } else {
        decimal_value(s.drop_last()) * 10 + digit_value(s.last())
    }
}

/// Whether the literal `s` is negative: a `signed` one that starts with
/// `-`.
pub open spec fn is_negative(s: Seq<char>, signed: bool) -> bool {
    signed && s.len() > 0 && s[0] == '-'
}

/// What of the literal `s` follows its sign.
pub open spec fn digits_of(s: Seq<char>, signed: bool) -> Seq<char> {
    if s.len() > 0 && (s[0] == '+' || is_negative(s, signed)) {
        s.skip(1)
    } else {
        s
    }
}

/// Whether `s` is written as an integer literal: at least one digit and
/// nothing but digits, after the sign if there is one.
pub open spec fn is_literal(s: Seq<char>, signed: bool) -> bool {
    digits_of(s, signed).len() > 0 && all_digits(digits_of(s, signed))
}

/// The number that the literal `s` writes.
pub open spec fn literal_value(s: Seq<char>, signed: bool) -> int {
    if is_negative(s, signed) {
        -decimal_value(digits_of(s, signed))
    } else {
        decimal_value(digits_of(s, signed))
    }
}

/// The value of a run of digits is not negative and not below the value of
/// any of its prefixes.
pub proof fn lemma_decimal_value_grows(s: Seq<char>, k: int)
    requires
        all_digits(s),
        0 <= k <= s.len(),
    ensures
        0 <= decimal_value(s.take(k)) <= decimal_value(s),
    decreases s.len() - k,
{
    if k < s.len() {
        let longer = s.take(k + 1);
        assert(longer.drop_last() =~= s.take(k));
        lemma_decimal_value_grows(s, k + 1);
        lemma_decimal_value_is_natural(s.take(k));
    } else {
        assert(s.take(k) =~= s);
        lemma_decimal_value_is_natural(s);
    }
}

/// The value of a run of digits is not negative.
proof fn lemma_decimal_value_is_natural(s: Seq<char>)
    requires
        all_digits(s),
    ensures
        0 <= decimal_value(s),
    decreases s.len(),
{
    if s.len() > 0 {
        lemma_decimal_value_is_natural(s.drop_last());
    }
}

/// Reading digits one at a time gives the value that they write, and
/// fails just when a character is no digit or that value is out of range.
/// Here the first `k` characters of `s` have been read.
proof fn lemma_read_digits_from(s: Seq<char>, k: int, negative: bool, low: int, high: int)
    requires
        low <= 0 <= high,
        0 <= k <= s.len(),
        all_digits(s.take(k)),
        !negative ==> decimal_value(s.take(k)) <= high,
        negative ==> low <= -decimal_value(s.take(k)),
    ensures
        ({
            let value = if negative {
                -decimal_value(s)
            } else {
                decimal_value(s)
            };
            let acc = if negative {
                -decimal_value(s.take(k))
            } else {
                decimal_value(s.take(k))
            };
            match read_digits(s.skip(k), acc, negative, low, high) {
                Ok(v) => all_digits(s) && v == value && low <= v <= high,
                Err(_) => !(all_digits(s) && low <= value <= high),
            }
        }),
    decreases s.len() - k,
{
    let rest = s.skip(k);
    lemma_decimal_value_is_natural(s.take(k));
    if k == s.len() {
        assert(s.take(k) =~= s);
    } else if is_digit(s[k]) {
        let longer = s.take(k + 1);
        assert(longer.drop_last() =~= s.take(k));
        assert forall|i: int| 0 <= i < longer.len() implies is_digit(#[trigger] longer[i]) by {
            if i < k {
                assert(longer[i] == s.take(k)[i]);
            }
        }
        assert(rest.drop_first() =~= s.skip(k + 1));
        let next = if negative {
            -decimal_value(longer)
        } else {
            decimal_value(longer)
        };
        if low <= next <= high {
            lemma_read_digits_from(s, k + 1, negative, low, high);
        } else if all_digits(s) {
            lemma_decimal_value_grows(s, k + 1);
        }
    }
}

/// A text is read as an integer just when it is written as a literal whose
/// value lies in the range, and then as that value.
pub proof fn lemma_parse_int_value(s: Seq<char>, signed: bool, low: int, high: int)
    requires
        low <= 0 <= high,
    ensures
        match parse_int(s, signed, low, high) {
            Ok(v) => is_literal(s, signed) && v == literal_value(s, signed) && low <= v <= high,
            Err(_) => !(is_literal(s, signed) && low <= literal_value(s, signed) <= high),
        },
{
    let digits = digits_of(s, signed);
    let lone_sign = s.len() == 1 && (s[0] == '+' || s[0] == '-');
    if lone_sign && digits.len() > 0 {
        assert(!is_digit(digits[0]));
    } else if s.len() > 0 && !lone_sign {
        assert(digits.skip(0) =~= digits);
        lemma_read_digits_from(digits, 0, is_negative(s, signed), low, high);
    }
}

/// The value of `text` as an unsigned 32-bit literal.
pub open spec fn spec_parse_u32(text: Seq<char>) -> Result<u32, NumberError> {
    match parse_int(text, false, 0, u32::MAX as int) {
        Ok(v) => Ok(v as u32),
        Err(e) => Err(e),
    }
}

/// The value of `text` as a signed 32-bit literal.
pub open spec fn spec_parse_i32(text: Seq<char>) -> Result<i32, NumberError> {
    match parse_int(text, true, i32::MIN as int, i32::MAX as int) {
        Ok(v) => Ok(v as i32),
        Err(e) => Err(e),
    }
}

/// Reads the digits of `s`, which hold no sign, into a value between `low`
/// and `high`.
fn parse_digits(s: &str, negative: bool, low: i64, high: i64) -> (r: Result<i64, NumberError>)
    requires
        i32::MIN <= low <= 0 <= high <= u32::MAX,
    ensures
        match r {
            Ok(v) => read_digits(s@, 0, negative, low as int, high as int) == Ok::<
                int,
                NumberError,
            >(v as int),
            Err(e) => read_digits(s@, 0, negative, low as int, high as int) == Err::<
                int,
                NumberError,
            >(e),
        },
{
    broadcast use vstd::string::group_string_axioms;

    let mut chars = s.chars();
    let mut acc: i64 = 0;
    let ghost mut k: int = 0;
    loop
        invariant
            0 <= k <= s@.len(),
            chars.remaining() == s@.skip(k),
            i32::MIN <= low <= acc <= high <= u32::MAX,
            read_digits(s@, 0, negative, low as int, high as int) == read_digits(
                s@.skip(k),
                acc as int,
                negative,
                low as int,
                high as int,
            ),
        decreases s@.len() - k,
    {
        match chars.next() {
            None => {
                return Ok(acc);
            },
            Some(c) => {
                if !is_digit(c) {
                    return Err(NumberError::InvalidDigit);
                }
                let digit = (c as u32 - '0' as u32) as i64;
                let next = if negative {
                    acc * 10 - digit
                } else {
                    acc * 10 + digit
                };
                if next < low {
                    return Err(NumberError::NegOverflow);
                }
                if next > high {
                    return Err(NumberError::PosOverflow);
                }
                proof {
                    assert(s@.skip(k).drop_first() =~= s@.skip(k + 1));
                    k = k + 1;
                }
                acc = next;
            },
        }
    }
}

/// Reads `s` as an integer literal between `low` and `high`.
fn parse_integer(s: &str, signed: bool, low: i64, high: i64) -> (r: Result<i64, NumberError>)
    requires
        i32::MIN <= low <= 0 <= high <= u32::MAX,
    ensures
        match r {
            Ok(v) => parse_int(s@, signed, low as int, high as int) == Ok::<int, NumberError>(
                v as int,
            ),
            Err(e) => parse_int(s@, signed, low as int, high as int) == Err::<int, NumberError>(e),
        },
{
    match first_char(s) {
        None => Err(NumberError::Empty),
        Some(sign) => {
            if sign == '+' || sign == '-' {
                let digits = after_first(s, sign);
                if first_char(digits).is_none() {
                    Err(NumberError::InvalidDigit)
                } else if sign == '+' {
                    parse_digits(digits, false, low, high)
                } else if signed {
                    parse_digits(digits, true, low, high)
                } else {
                    parse_digits(s, false, low, high)
                }
            } else {
                parse_digits(s, false, low, high)
            }
        },
    }
}

/// Reads `text` as an unsigned 32-bit literal: decimal digits, with `+` in
/// front of them or nothing.
pub fn parse_u32(text: &str) -> (r: Result<u32, NumberError>)
    ensures
        r == spec_parse_u32(text@),
        r is Ok <==> is_literal(text@, false) && literal_value(text@, false) <= u32::MAX,
        r matches Ok(v) ==> v == literal_value(text@, false),
{
    proof {
        lemma_parse_int_value(text@, false, 0, u32::MAX as int);
        if is_literal(text@, false) {
            lemma_decimal_value_grows(digits_of(text@, false), 0);
        }
    }
    match parse_integer(text, false, 0, 0xffff_ffff) {
        Ok(v) => Ok(v as u32),
        Err(e) => Err(e),
    }
}

/// Reads `text` as a signed 32-bit literal: decimal digits, with `+` or `-`
/// in front of them or nothing.
pub fn parse_i32(text: &str) -> (r: Result<i32, NumberError>)
    ensures
        r == spec_parse_i32(text@),
        r is Ok <==> is_literal(text@, true) && i32::MIN <= literal_value(text@, true) <= i32::MAX,
        r matches Ok(v) ==> v == literal_value(text@, true),
{
    proof {
        lemma_parse_int_value(text@, true, i32::MIN as int, i32::MAX as int);
    }
    match parse_integer(text, true, -0x8000_0000, 0x7fff_ffff) {
        Ok(v) => Ok(v as i32),
        Err(e) => Err(e),
    }
}

} // verus!
