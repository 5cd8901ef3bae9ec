//! What the helpers of the cursor report when the token stream is not what
//! they were asked to read.
use crate::literal::NumberError;
use crate::token::{Span, Token, TokenSpan, TokenView};
use vstd::prelude::*;

verus! {

/// What a helper was looking for when it met another token.
#[derive(Clone, Copy, Debug)]
pub enum ExpectedToken<'a> {
    /// This very token.
    Token(Token<'a>),
    /// A word.
    Identifier,
    /// A numeric literal, to be read as a float.
    Float,
    /// A numeric literal, to be read as an unsigned integer.
    Uint,
    /// A numeric literal, to be read as a signed integer.
    Sint,
}

/// A failure to read what was asked for.  Each holds the span of the text
/// that is at fault.
#[derive(Debug)]
pub enum Error<'a> {
    /// The token read, with its span, is not the one expected.
    Unexpected(TokenSpan<'a>, ExpectedToken<'a>),
    /// The text of a numeric literal is no float.
    BadFloat(Span),
    /// The text of a numeric literal is no unsigned 32-bit integer.
    BadU32(Span, NumberError),
    /// The text of a numeric literal is no signed 32-bit integer.
    BadI32(Span, NumberError),
    /// The word between the brackets of a generic names no scalar type.
    UnknownScalarType(Span),
    /// The word between the brackets of a generic names no storage format.
    UnknownStorageFormat(Span),
}

/// The mathematical value of an [`ExpectedToken`].
pub enum ExpectedTokenView {
    Token(TokenView),
    Identifier,
    Float,
    Uint,
    Sint,
}

/// The mathematical value of an [`Error`].
pub enum ErrorView {
    Unexpected(TokenView, Span, ExpectedTokenView),
    BadFloat(Span),
    BadU32(Span, NumberError),
    BadI32(Span, NumberError),
    UnknownScalarType(Span),
    UnknownStorageFormat(Span),
}

impl<'a> View for ExpectedToken<'a> {
    type V = ExpectedTokenView;

    open spec fn view(&self) -> ExpectedTokenView {
        match *self {
            ExpectedToken::Token(t) => ExpectedTokenView::Token(t@),
            ExpectedToken::Identifier => ExpectedTokenView::Identifier,
            ExpectedToken::Float => ExpectedTokenView::Float,
            ExpectedToken::Uint => ExpectedTokenView::Uint,
            ExpectedToken::Sint => ExpectedTokenView::Sint,
        }
    }
}

impl<'a> View for Error<'a> {
    type V = ErrorView;

    open spec fn view(&self) -> ErrorView {
        match *self {
            Error::Unexpected(found, expected) => ErrorView::Unexpected(
                found.0@,
                found.1,
                expected@,
            ),
            Error::BadFloat(span) => ErrorView::BadFloat(span),
            Error::BadU32(span, why) => ErrorView::BadU32(span, why),
            Error::BadI32(span, why) => ErrorView::BadI32(span, why),
            Error::UnknownScalarType(span) => ErrorView::UnknownScalarType(span),
            Error::UnknownStorageFormat(span) => ErrorView::UnknownStorageFormat(span),
        }
    }
}

} // verus!
