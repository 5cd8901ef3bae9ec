//! The token model: what the scanner hands out, and where in the source it
//! was found.
use crate::text::str_eq;
use std::ops::Range;
use vstd::prelude::*;
use vstd::std_specs::cmp::PartialEqSpecImpl;

verus! {

/// Half-open range of byte offsets into the source text.
pub type Span = Range<usize>;

/// A token together with the span it was read from.
pub type TokenSpan<'a> = (Token<'a>, Span);

/// One lexical unit of the source.  Text payloads borrow from the source.
#[derive(Clone, Copy, Debug)]
pub enum Token<'a> {
    /// One of `:`, `;`, `,`, `.`.
    Separator(char),
    /// `::`
    DoubleColon,
    /// One of `(`, `)`, `{`, `}`, `[`, `]`, `<`, `>`.
    Paren(char),
    /// `[[` or `]]`, named by the bracket that is doubled.
    DoubleParen(char),
    /// A numeric literal, split into the text of its core, its type tag
    /// (`u`, `i` or `f`) and the digits of its bit width.
    Number { value: &'a str, ty: char, width: &'a str },
    /// The content of a quoted string, without the quotes.
    String(&'a str),
    /// What follows a quote that is never closed.
    UnterminatedString(&'a str),
    /// An identifier or keyword.
    Word(&'a str),
    /// A one-character arithmetic or bitwise operator.
    Operation(char),
    /// A two-character comparison, equality or boolean operator, named by
    /// its first character.
    LogicalOperation(char),
    /// `<<` or `>>`, named by the character that is doubled.
    ShiftOperation(char),
    /// `->`
    Arrow,
    /// A character that starts no token.
    Unknown(char),
    /// White space or a comment.
    Trivia,
    /// The end of the input.
    End,
}

/// The mathematical value of a [`Token`]: the same variants, with texts as
/// character sequences.
pub enum TokenView {
    Separator(char),
    DoubleColon,
    Paren(char),
    DoubleParen(char),
    Number { value: Seq<char>, ty: char, width: Seq<char> },
    String(Seq<char>),
    UnterminatedString(Seq<char>),
    Word(Seq<char>),
    Operation(char),
    LogicalOperation(char),
    ShiftOperation(char),
    Arrow,
    Unknown(char),
    Trivia,
    End,
}

impl<'a> View for Token<'a> {
    type V = TokenView;

    open spec fn view(&self) -> TokenView {
        match *self {
            Token::Separator(c) => TokenView::Separator(c),
            Token::DoubleColon => TokenView::DoubleColon,
            Token::Paren(c) => TokenView::Paren(c),
            Token::DoubleParen(c) => TokenView::DoubleParen(c),
            Token::Number { value, ty, width } => TokenView::Number {
                value: value@,
                ty,
                width: width@,
            },
            Token::String(s) => TokenView::String(s@),
            Token::UnterminatedString(s) => TokenView::UnterminatedString(s@),
            Token::Word(s) => TokenView::Word(s@),
            Token::Operation(c) => TokenView::Operation(c),
            Token::LogicalOperation(c) => TokenView::LogicalOperation(c),
            Token::ShiftOperation(c) => TokenView::ShiftOperation(c),
            Token::Arrow => TokenView::Arrow,
            Token::Unknown(c) => TokenView::Unknown(c),
            Token::Trivia => TokenView::Trivia,
            Token::End => TokenView::End,
        }
    }
}

impl<'a> PartialEq for Token<'a> {
    fn eq(&self, other: &Self) -> (r: bool) {
        match (*self, *other) {
            (Token::Separator(a), Token::Separator(b)) => a == b,
            (Token::DoubleColon, Token::DoubleColon) => true,
            (Token::Paren(a), Token::Paren(b)) => a == b,
            (Token::DoubleParen(a), Token::DoubleParen(b)) => a == b,
            (
                Token::Number { value: v1, ty: t1, width: w1 },
                Token::Number { value: v2, ty: t2, width: w2 },
            ) => str_eq(v1, v2) && t1 == t2 && str_eq(w1, w2),
            (Token::String(a), Token::String(b)) => str_eq(a, b),
            (Token::UnterminatedString(a), Token::UnterminatedString(b)) => str_eq(a, b),
            (Token::Word(a), Token::Word(b)) => str_eq(a, b),
            (Token::Operation(a), Token::Operation(b)) => a == b,
            (Token::LogicalOperation(a), Token::LogicalOperation(b)) => a == b,
            (Token::ShiftOperation(a), Token::ShiftOperation(b)) => a == b,
            (Token::Arrow, Token::Arrow) => true,
            (Token::Unknown(a), Token::Unknown(b)) => a == b,
            (Token::Trivia, Token::Trivia) => true,
            (Token::End, Token::End) => true,
            _ => false,
        }
    }
}

impl<'a> PartialEqSpecImpl for Token<'a> {
    open spec fn obeys_eq_spec() -> bool {
        true
    }

    open spec fn eq_spec(&self, other: &Self) -> bool {
        self@ == other@
    }
}

} // verus!
