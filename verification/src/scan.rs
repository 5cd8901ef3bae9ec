//! The raw scanner: from the text that is left to one token and the text
//! after it.
use crate::chars::{
    is_blank, is_comment_part, is_digit, is_string_part, is_word_part, is_word_start,
};
use crate::number::{consume_number, core_len, lemma_core_end_bounds, scan_number};
use crate::text::{
    after_first, byte_len, byte_offset, char_width, first_char, lemma_byte_offset_step,
    split_at_char, utf8_len,
};
use crate::token::{Token, TokenView};
use vstd::prelude::*;
use vstd::std_specs::iter::IteratorSpec;

verus! {

/// Length of the longest prefix of `s` whose characters all satisfy `p`.
pub open spec fn run_len(s: Seq<char>, p: spec_fn(char) -> bool) -> int
    decreases s.len(),
{
    if s.len() > 0 && p(s[0]) {
        1 + run_len(s.drop_first(), p)
    } else {
        0
    }
}

/// A prefix that satisfies `p` and stops before a character that does not
/// is the run of `p`.
pub proof fn lemma_run_len(s: Seq<char>, p: spec_fn(char) -> bool, n: int)
    requires
        0 <= n <= s.len(),
        forall|i: int| 0 <= i < n ==> p(#[trigger] s[i]),
        n < s.len() ==> !p(s[n]),
    ensures
        run_len(s, p) == n,
    decreases n,
{
    if n > 0 {
        let t = s.drop_first();
        assert forall|i: int| 0 <= i < n - 1 implies p(#[trigger] t[i]) by {
            assert(t[i] == s[i + 1]);
        }
        lemma_run_len(t, p, n - 1);
    }
}

/// The run of `p` lies inside the text, satisfies `p`, and stops before a
/// character that does not.
pub proof fn lemma_run_len_holds(s: Seq<char>, p: spec_fn(char) -> bool)
    ensures
        0 <= run_len(s, p) <= s.len(),
        forall|i: int| 0 <= i < run_len(s, p) ==> p(#[trigger] s[i]),
        run_len(s, p) < s.len() ==> !p(s[run_len(s, p)]),
    decreases s.len(),
{
    if s.len() > 0 && p(s[0]) {
        let t = s.drop_first();
        lemma_run_len_holds(t, p);
        assert forall|i: int| 0 <= i < run_len(s, p) implies p(#[trigger] s[i]) by {
            if i > 0 {
                assert(s[i] == t[i - 1]);
            }
        }
    }
}

/// A text cut where `p` first fails is cut at the end of the run of `p`.
pub proof fn lemma_cut_is_run(
    s: Seq<char>,
    head: Seq<char>,
    tail: Seq<char>,
    p: spec_fn(char) -> bool,
)
    requires
        head + tail == s,
        forall|i: int| 0 <= i < head.len() ==> p(#[trigger] head[i]),
        tail.len() > 0 ==> !p(tail[0]),
    ensures
        run_len(s, p) == head.len(),
        head == s.take(run_len(s, p)),
        tail == s.skip(run_len(s, p)),
{
    assert forall|i: int| 0 <= i < head.len() implies p(#[trigger] s[i]) by {
        assert(s[i] == head[i]);
    }
    lemma_run_len(s, p, head.len() as int);
}

/// If `input` starts with `what`, the text after it.
pub fn _consume_str<'a>(input: &'a str, what: &str) -> (r: Option<&'a str>)
    ensures
        match r {
            Some(rest) => what@.is_prefix_of(input@) && rest@ == input@.skip(what@.len() as int),
            None => !what@.is_prefix_of(input@),
        },
{
    broadcast use vstd::string::group_string_axioms;

    let total = byte_len(input);
    let mut chars = input.chars();
    let mut wanted = what.chars();
    let mut pos: usize = 0;
    let ghost mut k: int = 0;
    loop
        invariant
            0 <= k <= input@.len(),
            k <= what@.len(),
            chars.remaining() == input@.skip(k),
            wanted.remaining() == what@.skip(k),
            total == utf8_len(input@),
            pos == byte_offset(input@, k),
            input@.take(k) == what@.take(k),
        decreases what@.len() - k,
    {
        match wanted.next() {
            None => {
                return Some(split_at_char(input, pos, Ghost(k)).1);
            },
            Some(w) => {
                match chars.next() {
                    None => {
                        return None;
                    },
                    Some(c) => {
                        if c != w {
                            return None;
                        }
                        proof {
                            lemma_byte_offset_step(input@, k);
                            k = k + 1;
                        }
                        pos = pos + char_width(c);
                    },
                }
            },
        }
    }
}

/// Splits `input` after its longest prefix of characters that `what`
/// accepts: `what` returned `true` for each character of the first part,
/// and `false` for the first character of the second, if it has one.
pub fn consume_any<'a, F: Fn(char) -> bool>(input: &'a str, what: F) -> (r: (&'a str, &'a str))
    requires
        forall|c: char| what.requires((c,)),
    ensures
        r.0@ + r.1@ == input@,
        forall|i: int| 0 <= i < r.0@.len() ==> what.ensures((#[trigger] r.0@[i],), true),
        r.1@.len() > 0 ==> what.ensures((r.1@[0],), false),
{
    broadcast use vstd::string::group_string_axioms;

    let total = byte_len(input);
    let mut chars = input.chars();
    let mut pos: usize = 0;
    let ghost mut k: int = 0;
    loop
        invariant_except_break
            chars.remaining() == input@.skip(k),
        invariant
            0 <= k <= input@.len(),
            total == utf8_len(input@),
            pos == byte_offset(input@, k),
            forall|c: char| what.requires((c,)),
            forall|i: int| 0 <= i < k ==> what.ensures((#[trigger] input@[i],), true),
        ensures
            k < input@.len() ==> what.ensures((input@[k],), false),
        decreases input@.len() - k,
    {
        match chars.next() {
            None => {
                break ;
            },
            Some(c) => {
                if !what(c) {
                    break ;
                }
                proof {
                    lemma_byte_offset_step(input@, k);
                    k = k + 1;
                }
                pos = pos + char_width(c);
            },
        }
    }
    let r = split_at_char(input, pos, Ghost(k));
    r
}

/// Whether `s` starts with the character `c`.
pub open spec fn begins_with(s: Seq<char>, c: char) -> bool {
    s.len() > 0 && s[0] == c
}

/// Whether `s` starts with a decimal digit.
pub open spec fn begins_with_digit(s: Seq<char>) -> bool {
    s.len() > 0 && is_digit(s[0])
}

/// Whether `s` starts with the character `c`.
pub fn starts_with(s: &str, c: char) -> (r: bool)
    ensures
        r == begins_with(s@, c),
{
    match first_char(s) {
        Some(d) => d == c,
        None => false,
    }
}

/// Whether `s` starts with a decimal digit.
pub fn starts_with_digit(s: &str) -> (r: bool)
    ensures
        r == begins_with_digit(s@),
{
    match first_char(s) {
        Some(d) => is_digit(d),
        None => false,
    }
}

/// A token as the scanner finds it at the start of a text, with the number
/// of characters that it takes.
pub struct Scanned {
    pub token: TokenView,
    pub len: int,
}

/// A token of one character.
pub open spec fn one(token: TokenView) -> Scanned {
    Scanned { token, len: 1 }
}

/// A token of two characters.
pub open spec fn two(token: TokenView) -> Scanned {
    Scanned { token, len: 2 }
}

/// The word at the start of `s`: its longest prefix of letters, digits and
/// `_`.
pub open spec fn scan_word(s: Seq<char>) -> Scanned {
    let n = run_len(s, |c: char| is_word_part(c));
    Scanned { token: TokenView::Word(s.take(n)), len: n }
}

/// The quoted string at the start of `s`, whose first character is the
/// opening quote.  The content runs to the next quote, which is taken too;
/// where there is none, it runs to the end of the text.
pub open spec fn scan_string(s: Seq<char>) -> Scanned {
    let body = s.skip(1);
    let n = run_len(body, |c: char| is_string_part(c));
    if n < body.len() {
        Scanned { token: TokenView::String(body.take(n)), len: n + 2 }
    } else {
        Scanned { token: TokenView::UnterminatedString(body), len: s.len() as int }
    }
}

/// The line comment at the start of `s`, whose first character is the first
/// `/`.  It runs through the next line break, or to the end of the text.
pub open spec fn scan_comment(s: Seq<char>) -> Scanned {
    let body = s.skip(1);
    let n = run_len(body, |c: char| is_comment_part(c));
    Scanned {
        token: TokenView::Trivia,
        len: if n < body.len() {
            n + 2
        } else {
            s.len() as int
        },
    }
}

/// The run of white space at the start of `s`.
pub open spec fn scan_blank(s: Seq<char>) -> Scanned {
    Scanned { token: TokenView::Trivia, len: run_len(s, |c: char| is_blank(c)) }
}

/// The token at the start of `s` and the number of characters it takes.
///
/// With `generic` set, `<` and `>` are always brackets of one character, so
/// that the bracket which closes a generic parameter list is never read as
/// part of `>>` or `>=`.
pub open spec fn scan_token(s: Seq<char>, generic: bool) -> Scanned {
    if s.len() == 0 {
        Scanned { token: TokenView::End, len: 0 }
    } else {
        let c = s[0];
        let rest = s.skip(1);
        if c == ':' {
            if begins_with(rest, ':') {
                two(TokenView::DoubleColon)
            } else {
                one(TokenView::Separator(c))
            }
        } else if c == ';' || c == ',' {
            one(TokenView::Separator(c))
        } else if c == '.' {
            if begins_with_digit(rest) {
                scan_number(s)
            } else {
                one(TokenView::Separator(c))
            }
        } else if c == '(' || c == ')' || c == '{' || c == '}' {
            one(TokenView::Paren(c))
        } else if c == '<' || c == '>' {
            if !generic && begins_with(rest, '=') {
                two(TokenView::LogicalOperation(c))
            } else if !generic && begins_with(rest, c) {
                two(TokenView::ShiftOperation(c))
            } else {
                one(TokenView::Paren(c))
            }
        } else if c == '[' || c == ']' {
            if begins_with(rest, c) {
                two(TokenView::DoubleParen(c))
            } else {
                one(TokenView::Paren(c))
            }
        } else if is_digit(c) {
            scan_number(s)
        } else if is_word_start(c) {
            scan_word(s)
        } else if c == '"' {
            scan_string(s)
        } else if c == '/' && begins_with(rest, '/') {
            scan_comment(s)
        } else if c == '-' {
            if begins_with(rest, '>') {
                two(TokenView::Arrow)
            } else if begins_with_digit(rest) || begins_with(rest, '.') {
                scan_number(s)
            } else {
                one(TokenView::Operation(c))
            }
        } else if c == '+' || c == '*' || c == '/' || c == '%' || c == '^' {
            one(TokenView::Operation(c))
        } else if c == '!' || c == '~' {
            if begins_with(rest, '=') {
                two(TokenView::LogicalOperation(c))
            } else {
                one(TokenView::Operation(c))
            }
        } else if c == '=' || c == '&' || c == '|' {
            if begins_with(rest, c) {
                two(TokenView::LogicalOperation(c))
            } else {
                one(TokenView::Operation(c))
            }
        } else if is_blank(c) {
            scan_blank(s)
        } else {
            one(TokenView::Unknown(c))
        }
    }
}

/// A token takes characters that the text has; only the end of the input
/// takes none.
pub proof fn lemma_scan_token_len(s: Seq<char>, generic: bool)
    ensures
        0 <= scan_token(s, generic).len <= s.len(),
        scan_token(s, generic).token is End <==> s.len() == 0,
        s.len() > 0 ==> scan_token(s, generic).len > 0,
{
    if s.len() > 0 {
        let rest = s.skip(1);
        lemma_core_end_bounds(s, 0);
        lemma_core_end_bounds(s, 1);
        lemma_run_len_holds(s, |c: char| is_word_part(c));
        lemma_run_len_holds(s, |c: char| is_blank(c));
        lemma_run_len_holds(rest, |c: char| is_string_part(c));
        lemma_run_len_holds(rest, |c: char| is_comment_part(c));
        let n = core_len(s);
        if n < s.len() {
            lemma_run_len_holds(s.skip(n + 1), |c: char| is_digit(c));
        }
    }
}

/// Reads the token that `input` starts with and returns it with the text
/// after it.  At the end of the input the token is [`Token::End`] and the
/// text is returned as it is.
pub fn consume_token<'a>(input: &'a str, generic: bool) -> (r: (Token<'a>, &'a str))
    ensures
        0 <= scan_token(input@, generic).len <= input@.len(),
        r.0@ == scan_token(input@, generic).token,
        r.1@ == input@.skip(scan_token(input@, generic).len),
{
    let cur = match first_char(input) {
        Some(c) => c,
        None => {
            return (Token::End, input);
        },
    };
    let rest = after_first(input, cur);
    if cur == ':' {
        if starts_with(rest, ':') {
            (Token::DoubleColon, after_first(rest, ':'))
        } else {
            (Token::Separator(cur), rest)
        }
    } else if cur == ';' || cur == ',' {
        (Token::Separator(cur), rest)
    } else if cur == '.' {
        if starts_with_digit(rest) {
            consume_number(input)
        } else {
            (Token::Separator(cur), rest)
        }
    } else if cur == '(' || cur == ')' || cur == '{' || cur == '}' {
        (Token::Paren(cur), rest)
    } else if cur == '<' || cur == '>' {
        if !generic && starts_with(rest, '=') {
            (Token::LogicalOperation(cur), after_first(rest, '='))
        } else if !generic && starts_with(rest, cur) {
            (Token::ShiftOperation(cur), after_first(rest, cur))
        } else {
            (Token::Paren(cur), rest)
        }
    } else if cur == '[' || cur == ']' {
        if starts_with(rest, cur) {
            (Token::DoubleParen(cur), after_first(rest, cur))
        } else {
            (Token::Paren(cur), rest)
        }
    } else if is_digit(cur) {
        consume_number(input)
    } else if is_word_start(cur) {
        let (word, rest) = consume_any(input, is_word_part);
        proof {
            lemma_cut_is_run(input@, word@, rest@, |c: char| is_word_part(c));
        }
        (Token::Word(word), rest)
    } else if cur == '"' {
        let (content, tail) = consume_any(rest, is_string_part);
        proof {
            lemma_cut_is_run(rest@, content@, tail@, |c: char| is_string_part(c));
        }
        match first_char(tail) {
            Some(quote) => (Token::String(content), after_first(tail, quote)),
            None => (Token::UnterminatedString(content), tail),
        }
    } else if cur == '/' && starts_with(rest, '/') {
        let (body, tail) = consume_any(rest, is_comment_part);
        proof {
            lemma_cut_is_run(rest@, body@, tail@, |c: char| is_comment_part(c));
        }
        match first_char(tail) {
            Some(line_break) => (Token::Trivia, after_first(tail, line_break)),
            None => (Token::Trivia, tail),
        }
    } else if cur == '-' {
        if starts_with(rest, '>') {
            (Token::Arrow, after_first(rest, '>'))
        } else if starts_with_digit(rest) || starts_with(rest, '.') {
            consume_number(input)
        } else {
            (Token::Operation(cur), rest)
        }
    } else if cur == '+' || cur == '*' || cur == '/' || cur == '%' || cur == '^' {
        (Token::Operation(cur), rest)
    } else if cur == '!' || cur == '~' {
        if starts_with(rest, '=') {
            (Token::LogicalOperation(cur), after_first(rest, '='))
        } else {
            (Token::Operation(cur), rest)
        }
    } else if cur == '=' || cur == '&' || cur == '|' {
        if starts_with(rest, cur) {
            (Token::LogicalOperation(cur), after_first(rest, cur))
        } else {
            (Token::Operation(cur), rest)
        }
    } else if is_blank(cur) {
        let (blank, rest) = consume_any(input, is_blank);
        proof {
            lemma_cut_is_run(input@, blank@, rest@, |c: char| is_blank(c));
        }
        (Token::Trivia, rest)
    } else {
        (Token::Unknown(cur), rest)
    }
}

} // verus!
