//! The number micro-lexer: the core of a numeric literal and the suffix
//! that may follow it.
//!
//! The core is kept as text, whatever it holds: `1.2.3` is one core.  What a
//! core is worth is decided where a value is asked for.
use crate::chars::{is_digit, is_exponent_mark, is_type_tag};
use crate::scan::{consume_any, lemma_cut_is_run, run_len, Scanned};
use crate::text::{
    after_first, byte_len, byte_offset, char_width, contains_char, first_char,
    lemma_byte_offset_step, split_at_char, utf8_len,
};
use crate::token::{Token, TokenView};
use vstd::prelude::*;
use vstd::std_specs::iter::IteratorSpec;

verus! {

/// Whether the core of a numeric literal may go on with `c`.
///
/// `first` says that no character has been accepted yet, `after_exponent`
/// that the character accepted last was an exponent marker.  The first
/// character is a digit, `-` or `.`.  Later, an exponent marker is always
/// accepted, and so is a digit or `.`; right after an exponent marker a `-`
/// is accepted too.
#[verifier::allow_in_spec]
pub fn core_accepts(c: char, first: bool, after_exponent: bool) -> bool
    returns
        if first {
            c == '-' || is_digit(c) || c == '.'
        } else if is_exponent_mark(c) {
            true
        } else {
            is_digit(c) || c == '.' || (after_exponent && c == '-')
        },
{
    if first {
        c == '-' || is_digit(c) || c == '.'
    } else if is_exponent_mark(c) {
        true
    } else {
        is_digit(c) || c == '.' || (after_exponent && c == '-')
    }
}

/// Whether character `k` of `s` is accepted into the core that starts at
/// the beginning of `s`, given that the characters before it were.
pub open spec fn core_accepts_at(s: Seq<char>, k: int) -> bool {
    core_accepts(s[k], k == 0, k > 0 && is_exponent_mark(s[k - 1]))
}

/// Where the core that holds the characters before `k` of `s` ends.
pub open spec fn core_end(s: Seq<char>, k: int) -> int
    decreases s.len() - k,
{
    if 0 <= k < s.len() && core_accepts_at(s, k) {
        core_end(s, k + 1)
    } else {
        k
    }
}

/// Number of characters in the core at the start of `s`.
pub open spec fn core_len(s: Seq<char>) -> int {
    core_end(s, 0)
}

/// The type of a literal that states none: a float if its core holds a
/// `.`, a signed integer if not.
pub open spec fn default_type(value: Seq<char>) -> char {
    if value.contains('.') {
        'f'
    } else {
        'i'
    }
}

/// The numeric literal at the start of `s`: its core, then a type tag with
/// the digits of a bit width, if a tag follows the core.
pub open spec fn scan_number(s: Seq<char>) -> Scanned {
    let n = core_len(s);
    let value = s.take(n);
    if n < s.len() && is_type_tag(s[n]) {
        let w = run_len(s.skip(n + 1), |c: char| is_digit(c));
        Scanned {
            token: TokenView::Number { value, ty: s[n], width: s.subrange(n + 1, n + 1 + w) },
            len: n + 1 + w,
        }
    } else {
        Scanned {
            token: TokenView::Number { value, ty: default_type(value), width: Seq::empty() },
            len: n,
        }
    }
}

/// The core of a numeric literal stays inside the text.
pub proof fn lemma_core_end_bounds(s: Seq<char>, k: int)
    requires
        0 <= k <= s.len(),
    ensures
        k <= core_end(s, k) <= s.len(),
    decreases s.len() - k,
{
    if k < s.len() && core_accepts_at(s, k) {
        lemma_core_end_bounds(s, k + 1);
    }
}

/// Splits `input` after the core of the numeric literal it starts with.
fn consume_core<'a>(input: &'a str) -> (r: (&'a str, &'a str))
    ensures
        0 <= core_len(input@) <= input@.len(),
        r.0@ == input@.take(core_len(input@)),
        r.1@ == input@.skip(core_len(input@)),
{
    broadcast use vstd::string::group_string_axioms;

    let total = byte_len(input);
    let mut chars = input.chars();
    let mut pos: usize = 0;
    let mut first = true;
    let mut after_exponent = false;
    let ghost mut k: int = 0;
    loop
        invariant_except_break
            chars.remaining() == input@.skip(k),
        invariant
            0 <= k <= input@.len(),
            total == utf8_len(input@),
            pos == byte_offset(input@, k),
            first == (k == 0),
            after_exponent == (k > 0 && is_exponent_mark(input@[k - 1])),
            core_len(input@) == core_end(input@, k),
        ensures
            core_len(input@) == k,
        decreases input@.len() - k,
    {
        match chars.next() {
            None => {
                break ;
            },
            Some(c) => {
                if !core_accepts(c, first, after_exponent) {
                    break ;
                }
                proof {
                    lemma_byte_offset_step(input@, k);
                    k = k + 1;
                }
                after_exponent = !first && is_exponent_mark(c);
                first = false;
                pos = pos + char_width(c);
            },
        }
    }
    split_at_char(input, pos, Ghost(k))
}

/// Reads the numeric literal that `input` starts with, and returns it with
/// the text after it.
///
/// The literal is not evaluated: its core is kept as text, whatever it
/// holds, and so are the digits of its bit width.
pub fn consume_number<'a>(input: &'a str) -> (r: (Token<'a>, &'a str))
    ensures
        0 <= scan_number(input@).len <= input@.len(),
        r.0@ == scan_number(input@).token,
        r.1@ == input@.skip(scan_number(input@).len),
{
    let (value, rest) = consume_core(input);
    let ghost n = core_len(input@);
    match first_char(rest) {
        Some(ty) if is_type_tag(ty) => {
            let after_tag = after_first(rest, ty);
            let (width, rest) = consume_any(after_tag, is_digit);
            proof {
                let w = width@.len() as int;
                assert(after_tag@ =~= input@.skip(n + 1));
                lemma_cut_is_run(after_tag@, width@, rest@, |c: char| is_digit(c));
                assert(width@ =~= input@.subrange(n + 1, n + 1 + w));
            }
            (Token::Number { value, ty, width }, rest)
        },
        _ => {
            let ty = if contains_char(value, '.') {
                'f'
            } else {
                'i'
            };
            proof {
                reveal_strlit("");
                assert(""@ =~= Seq::<char>::empty());
            }
            (Token::Number { value, ty, width: "" }, rest)
        },
    }
}

} // verus!
