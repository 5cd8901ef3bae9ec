//! The cursor: a position in a source text, moved forward token by token.
use crate::error::{Error, ErrorView, ExpectedToken, ExpectedTokenView};
use crate::literal::{parse_i32, parse_u32, spec_parse_i32, spec_parse_u32};
use crate::scan::{consume_token, lemma_scan_token_len, scan_token};
use crate::text::{
    byte_len, byte_offset, lemma_byte_offset_monotonic, lemma_utf8_len_split, utf8_len,
};
use crate::token::{Span, Token, TokenSpan, TokenView};
use std::ops::Range;
use vstd::prelude::*;

verus! {

/// A token as it is read from a text: the token, and the characters of the
/// text at which it starts and ends.  What lies before the start is white
/// space and comments.
pub struct Read {
    pub token: TokenView,
    pub start: int,
    pub end: int,
}

/// The first token of `s` that is neither white space nor a comment.
pub open spec fn read_token(s: Seq<char>, generic: bool) -> Read
    decreases s.len(),
{
    let first = scan_token(s, generic);
    if first.token is Trivia && 0 < first.len <= s.len() {
        let later = read_token(s.skip(first.len), generic);
        Read { token: later.token, start: first.len + later.start, end: first.len + later.end }
    } else {
        Read { token: first.token, start: 0, end: first.len }
    }
}

/// Reading skips white space and comments, and nothing else: the token read
/// lies inside the text, is no white space, and is the end of the input
/// just when nothing else is left.
pub proof fn lemma_read_token_bounds(s: Seq<char>, generic: bool)
    ensures
        0 <= read_token(s, generic).start <= read_token(s, generic).end <= s.len(),
        !(read_token(s, generic).token is Trivia),
        read_token(s, generic).token is End ==> read_token(s, generic).start == s.len(),
        !(read_token(s, generic).token is End) ==> read_token(s, generic).start < read_token(
            s,
            generic,
        ).end,
    decreases s.len(),
{
    lemma_scan_token_len(s, generic);
    let first = scan_token(s, generic);
    if first.token is Trivia {
        lemma_read_token_bounds(s.skip(first.len), generic);
    }
}

/// The mathematical value of a [`Lexer`]: the source text, and the number
/// of its characters that have been read.
pub struct LexerView {
    pub source: Seq<char>,
    pub pos: int,
}

impl LexerView {
    /// The position is inside the source, and byte offsets into the source
    /// fit the machine's word.
    pub open spec fn wf(self) -> bool {
        &&& 0 <= self.pos <= self.source.len()
        &&& utf8_len(self.source) <= usize::MAX
    }

    /// The text that has not been read yet.
    pub open spec fn remaining(self) -> Seq<char> {
        self.source.skip(self.pos)
    }

    /// The byte offset of the position.
    pub open spec fn offset(self) -> nat {
        byte_offset(self.source, self.pos)
    }

    /// The same source at another position.
    pub open spec fn at(self, pos: int) -> LexerView {
        LexerView { source: self.source, pos }
    }

    /// The span in bytes of the characters from `start` to `end`, counted
    /// from the position.
    pub open spec fn span(self, start: int, end: int) -> Span {
        Range {
            start: byte_offset(self.source, self.pos + start) as usize,
            end: byte_offset(self.source, self.pos + end) as usize,
        }
    }

    /// The token that is read next.
    pub open spec fn token(self, generic: bool) -> TokenView {
        read_token(self.remaining(), generic).token
    }

    /// The span of the token that is read next.
    pub open spec fn token_span(self, generic: bool) -> Span {
        let read = read_token(self.remaining(), generic);
        self.span(read.start, read.end)
    }

    /// The cursor after the token that is read next.
    pub open spec fn after(self, generic: bool) -> LexerView {
        self.at(self.pos + read_token(self.remaining(), generic).end)
    }

    /// The failure that reports the token read next as unexpected.
    pub open spec fn unexpected(self, generic: bool, expected: ExpectedTokenView) -> ErrorView {
        ErrorView::Unexpected(self.token(generic), self.token_span(generic), expected)
    }

    /// What expecting `expected` as the next token gives: its span, or the
    /// failure that reports what was read in its place.
    pub open spec fn expects_span(self, generic: bool, expected: TokenView) -> Result<
        Span,
        ErrorView,
    > {
        if self.token(generic) == expected {
            Ok(self.token_span(generic))
        } else {
            Err(self.unexpected(generic, ExpectedTokenView::Token(expected)))
        }
    }

    /// What expecting `expected` as the next token gives: nothing, or the
    /// failure that reports what was read in its place.
    pub open spec fn expects(self, generic: bool, expected: TokenView) -> Result<(), ErrorView> {
        if self.token(generic) == expected {
            Ok(())
        } else {
            Err(self.unexpected(generic, ExpectedTokenView::Token(expected)))
        }
    }

    /// What reading a word gives: its text and span, or the failure that
    /// reports what was read in its place.
    pub open spec fn ident(self) -> Result<(Seq<char>, Span), ErrorView> {
        match self.token(false) {
            TokenView::Word(word) => Ok((word, self.token_span(false))),
            _ => Err(self.unexpected(false, ExpectedTokenView::Identifier)),
        }
    }

    /// What reading an unsigned integer literal gives.
    pub open spec fn uint_literal(self) -> Result<u32, ErrorView> {
        match self.token(false) {
            TokenView::Number { value, .. } => match spec_parse_u32(value) {
                Ok(v) => Ok(v),
                Err(why) => Err(ErrorView::BadU32(self.token_span(false), why)),
            },
            _ => Err(self.unexpected(false, ExpectedTokenView::Uint)),
        }
    }

    /// What reading a signed integer literal gives.
    pub open spec fn sint_literal(self) -> Result<i32, ErrorView> {
        match self.token(false) {
            TokenView::Number { value, .. } => match spec_parse_i32(value) {
                Ok(v) => Ok(v),
                Err(why) => Err(ErrorView::BadI32(self.token_span(false), why)),
            },
            _ => Err(self.unexpected(false, ExpectedTokenView::Sint)),
        }
    }

    /// The cursor after one `,`, if the next token is one; the same cursor
    /// if not.
    pub open spec fn after_comma(self) -> LexerView {
        if self.token(false) == TokenView::Separator(',') {
            self.after(false)
        } else {
            self
        }
    }

    /// What asking for another argument gives: `true` after a `,` that no
    /// `)` follows, `false` at a `)`, with one `,` before it or none.
    pub open spec fn argument(self) -> Result<bool, ErrorView> {
        if self.token(false) == TokenView::Separator(',') {
            Ok(self.after(false).token(false) != TokenView::Paren(')'))
        } else {
            match self.expects(false, TokenView::Paren(')')) {
                Ok(_) => Ok(false),
                Err(e) => Err(e),
            }
        }
    }

    /// The cursor after asking for another argument.
    pub open spec fn after_argument(self) -> LexerView {
        if self.token(false) == TokenView::Separator(',') {
            let next = self.after(false);
            if next.token(false) == TokenView::Paren(')') {
                next.after(false)
            } else {
                next
            }
        } else {
            self.after(false)
        }
    }

    /// Whether reading a token hands out `out` and leaves the cursor at
    /// `next`.
    pub open spec fn reads(self, generic: bool, out: TokenSpan, next: LexerView) -> bool {
        &&& out.0@ == self.token(generic)
        &&& out.1 == self.token_span(generic)
        &&& next == self.after(generic)
    }
}

/// Spans lie inside the source, in order, and a cursor never moves back:
/// the token read starts at or after the position, ends where the cursor
/// is left, and that is inside the source.
pub proof fn lemma_span_bounds(v: LexerView, generic: bool)
    requires
        v.wf(),
    ensures
        v.after(generic).wf(),
        v.offset() <= v.token_span(generic).start <= v.token_span(generic).end,
        v.token_span(generic).end == v.after(generic).offset(),
        v.after(generic).offset() <= utf8_len(v.source),
        v.pos <= v.after(generic).pos,
{
    let read = read_token(v.remaining(), generic);
    lemma_read_token_bounds(v.remaining(), generic);
    lemma_byte_offset_monotonic(v.source, v.pos, v.pos + read.start);
    lemma_byte_offset_monotonic(v.source, v.pos + read.start, v.pos + read.end);
}

/// Whether `r` is the result `model`, failures taken by their value.
pub open spec fn same_result<'a, T>(r: Result<T, Error<'a>>, model: Result<T, ErrorView>) -> bool {
    match r {
        Ok(v) => model == Ok::<T, ErrorView>(v),
        Err(e) => model == Err::<T, ErrorView>(e@),
    }
}

/// What closing a generic gives, once the word between its brackets has
/// been looked up with the result `found`: the failure of the lookup with
/// the cursor left at `v`; or, after the token read next in the mode
/// `generic`, the value found if that token is `>`, and the failure that
/// reports the token if not.
pub open spec fn generic_closes<'a, T>(
    v: LexerView,
    generic: bool,
    found: Result<T, Error<'a>>,
    r: Result<T, Error<'a>>,
    next: LexerView,
) -> bool {
    match found {
        Err(_) => r == found && next == v,
        Ok(_) => {
            &&& next == v.after(generic)
            &&& match v.expects(generic, TokenView::Paren('>')) {
                Ok(_) => r == found,
                Err(e) => r is Err && r->Err_0@ == e,
            }
        },
    }
}

/// A cursor over a source text.  It holds the text that is left to read and
/// the whole text, and nothing else: a copy of it is a saved position.
pub struct Lexer<'a> {
    input: &'a str,
    source: &'a str,
}

impl<'a> View for Lexer<'a> {
    type V = LexerView;

    closed spec fn view(&self) -> LexerView {
        LexerView { source: self.source@, pos: self.source@.len() - self.input@.len() }
    }
}

impl<'a> Clone for Lexer<'a> {
    /// A second cursor at the same position.
    fn clone(&self) -> (r: Self)
        ensures
            r == *self,
    {
        proof {
            use_type_invariant(self);
        }
        Lexer { input: self.input, source: self.source }
    }
}

impl<'a> Lexer<'a> {
    /// What is left to read is the end of the source, and the length of the
    /// source in bytes fits a `usize`.
    #[verifier::type_invariant]
    spec fn inv(self) -> bool {
        &&& self.input@.len() <= self.source@.len()
        &&& self.input@ == self.source@.skip(self.source@.len() - self.input@.len())
        &&& utf8_len(self.source@) <= usize::MAX
    }

    /// A cursor at the start of `input`.
    pub fn new(input: &'a str) -> (r: Self)
        ensures
            r@ == (LexerView { source: input@, pos: 0 }),
            r@.wf(),
    {
        // Measured for the proof alone: offsets into `input` fit a `usize`.
        let _ = byte_len(input);
        proof {
            assert(input@.skip(0) =~= input@);
        }
        Lexer { input, source: input }
    }

    /// The whole source text.
    pub fn source(&self) -> (r: &'a str)
        ensures
            self@.wf(),
            r@ == self@.source,
    {
        proof {
            use_type_invariant(self);
        }
        self.source
    }

    /// The span from the position to the end of the source.
    pub fn _leftover_span(&self) -> (r: Span)
        ensures
            self@.wf(),
            r.start == self@.offset(),
            r.end == utf8_len(self@.source),
    {
        let start = self.current_byte_offset();
        start..byte_len(self.source)
    }

    /// The byte offset of the position in the source.
    pub fn current_byte_offset(&self) -> (r: usize)
        ensures
            self@.wf(),
            r == self@.offset(),
    {
        proof {
            use_type_invariant(self);
            lemma_utf8_len_split(self@.source, self@.pos);
        }
        byte_len(self.source) - byte_len(self.input)
    }

    /// Reads the next token in the given mode: scans on from the position
    /// until a token comes that is neither white space nor a comment.
    fn read(&mut self, generic: bool) -> (r: TokenSpan<'a>)
        ensures
            old(self)@.reads(generic, r, final(self)@),
            final(self)@.wf(),
            !(r.0 is Trivia),
            old(self)@.offset() <= r.1.start <= r.1.end == final(self)@.offset(),
    {
        let ghost v0 = self@;
        let mut start_byte_offset = self.current_byte_offset();
        let ghost total = read_token(v0.remaining(), generic);
        loop
            invariant
                v0 == old(self)@,
                v0.wf(),
                self@.wf(),
                self@.source == v0.source,
                v0.pos <= self@.pos,
                start_byte_offset == self@.offset(),
                total == read_token(v0.remaining(), generic),
                total.token == read_token(self@.remaining(), generic).token,
                total.start == self@.pos - v0.pos + read_token(self@.remaining(), generic).start,
                total.end == self@.pos - v0.pos + read_token(self@.remaining(), generic).end,
            decreases self@.source.len() - self@.pos,
        {
            proof {
                use_type_invariant(&*self);
                lemma_scan_token_len(self@.remaining(), generic);
            }
            let ghost before = self@;
            let (token, rest) = consume_token(self.input, generic);
            proof {
                let n = scan_token(before.remaining(), generic).len;
                assert(before.source.skip(before.pos).skip(n) =~= before.source.skip(
                    before.pos + n,
                ));
            }
            self.input = rest;
            match token {
                Token::Trivia => {
                    start_byte_offset = self.current_byte_offset();
                },
                _ => {
                    let end_byte_offset = self.current_byte_offset();
                    proof {
                        lemma_span_bounds(v0, generic);
                    }
                    return (token, start_byte_offset..end_byte_offset);
                },
            }
        }
    }

    /// Reads the next token, skipping white space and comments.  `<` and
    /// `>` may start an operator of two characters.
    #[must_use]
    pub fn next(&mut self) -> (r: TokenSpan<'a>)
        ensures
            old(self)@.reads(false, r, final(self)@),
            final(self)@.wf(),
            !(r.0 is Trivia),
            old(self)@.offset() <= r.1.start <= r.1.end == final(self)@.offset(),
    {
        self.read(false)
    }

    /// Reads the next token, skipping white space and comments.  `<` and
    /// `>` are brackets, whatever follows them.
    #[must_use]
    pub fn next_generic(&mut self) -> (r: TokenSpan<'a>)
        ensures
            old(self)@.reads(true, r, final(self)@),
            final(self)@.wf(),
            !(r.0 is Trivia),
            old(self)@.offset() <= r.1.start <= r.1.end == final(self)@.offset(),
    {
        self.read(true)
    }

    /// The next token and the text after it.  The cursor stays where it is.
    pub fn peek_token_and_rest(&mut self) -> (r: (TokenSpan<'a>, &'a str))
        ensures
            *final(self) == *old(self),
            old(self)@.wf(),
            old(self)@.reads(false, r.0, old(self)@.after(false)),
            r.1@ == old(self)@.after(false).remaining(),
    {
        let mut cloned = self.clone();
        let token = cloned.next();
        proof {
            use_type_invariant(&cloned);
            use_type_invariant(&*self);
            lemma_read_token_bounds(self@.remaining(), false);
        }
        let rest = cloned.input;
        (token, rest)
    }

    /// The next token.  The cursor stays where it is.
    #[must_use]
    pub fn peek(&mut self) -> (r: TokenSpan<'a>)
        ensures
            *final(self) == *old(self),
            old(self)@.wf(),
            old(self)@.reads(false, r, old(self)@.after(false)),
    {
        let (token, _) = self.peek_token_and_rest();
        token
    }

    /// Runs `inner` on the cursor and returns what it returns, together
    /// with the span of everything that it read.
    #[inline]
    pub fn capture_span<T, E, F: FnOnce(&mut Self) -> Result<T, E>>(&mut self, inner: F) -> (r:
        Result<(T, Span), E>)
        requires
            forall|lexer: &mut Self| inner.requires((lexer,)),
        ensures
            final(self)@.wf(),
            exists|lexer: &mut Self, out: Result<T, E>|
                {
                    &&& *lexer == *old(self)
                    &&& *final(lexer) == *final(self)
                    &&& inner.ensures((lexer,), out)
                    &&& r == match out {
                        Ok(value) => Ok::<(T, Span), E>(
                            (
                                value,
                                Range {
                                    start: old(self)@.offset() as usize,
                                    end: final(self)@.offset() as usize,
                                },
                            ),
                        ),
                        Err(e) => Err::<(T, Span), E>(e),
                    }
                },
    {
        let start = self.current_byte_offset();
        let res = inner(self);
        let end = self.current_byte_offset();
        match res {
            Ok(value) => Ok((value, start..end)),
            Err(e) => Err(e),
        }
    }

    /// Reads the next token and requires that it is `expected`.  Returns
    /// its span.
    pub fn expect_span(&mut self, expected: Token<'a>) -> (r: Result<Span, Error<'a>>)
        ensures
            final(self)@ == old(self)@.after(false),
            final(self)@.wf(),
            same_result(r, old(self)@.expects_span(false, expected@)),
    {
        let next = self.next();
        if next.0 == expected {
            Ok(next.1)
        } else {
            Err(Error::Unexpected(next, ExpectedToken::Token(expected)))
        }
    }

    /// Reads the next token and requires that it is `expected`.
    pub fn expect(&mut self, expected: Token<'a>) -> (r: Result<(), Error<'a>>)
        ensures
            final(self)@ == old(self)@.after(false),
            final(self)@.wf(),
            same_result(r, old(self)@.expects(false, expected@)),
    {
        match self.expect_span(expected) {
            Ok(_) => Ok(()),
            Err(e) => Err(e),
        }
    }

    /// Reads the next token as inside a generic parameter list and requires
    /// that it is the bracket `expected`.
    pub fn expect_generic_paren(&mut self, expected: char) -> (r: Result<(), Error<'a>>)
        ensures
            final(self)@ == old(self)@.after(true),
            final(self)@.wf(),
            same_result(r, old(self)@.expects(true, TokenView::Paren(expected))),
    {
        let next = self.next_generic();
        if next.0 == Token::Paren(expected) {
            Ok(())
        } else {
            Err(Error::Unexpected(next, ExpectedToken::Token(Token::Paren(expected))))
        }
    }

    /// If the next token is `what`, reads it and returns `true`.  If not,
    /// the cursor stays where it is.
    pub fn skip(&mut self, what: Token<'_>) -> (r: bool)
        ensures
            r == (old(self)@.token(false) == what@),
            final(self)@ == (if r {
                old(self)@.after(false)
            } else {
                old(self)@
            }),
            final(self)@.wf(),
    {
        let (peeked_token, rest) = self.peek_token_and_rest();
        if peeked_token.0 == what {
            proof {
                use_type_invariant(&*self);
                lemma_read_token_bounds(self@.remaining(), false);
            }
            self.input = rest;
            true
        } else {
            false
        }
    }

    /// Reads a word and returns it with its span.
    pub fn next_ident_with_span(&mut self) -> (r: Result<(&'a str, Span), Error<'a>>)
        ensures
            final(self)@ == old(self)@.after(false),
            final(self)@.wf(),
            match r {
                Ok((word, span)) => old(self)@.ident() == Ok::<(Seq<char>, Span), ErrorView>(
                    (word@, span),
                ),
                Err(e) => old(self)@.ident() == Err::<(Seq<char>, Span), ErrorView>(e@),
            },
    {
        match self.next() {
            (Token::Word(word), span) => Ok((word, span)),
            other => Err(Error::Unexpected(other, ExpectedToken::Identifier)),
        }
    }

    /// Reads a word and returns it.
    pub fn next_ident(&mut self) -> (r: Result<&'a str, Error<'a>>)
        ensures
            final(self)@ == old(self)@.after(false),
            final(self)@.wf(),
            match r {
                Ok(word) => old(self)@.ident() matches Ok(found) && found.0 == word@,
                Err(e) => old(self)@.ident() == Err::<(Seq<char>, Span), ErrorView>(e@),
            },
    {
        match self.next() {
            (Token::Word(word), _) => Ok(word),
            other => Err(Error::Unexpected(other, ExpectedToken::Identifier)),
        }
    }

    /// Reads a numeric literal as an unsigned 32-bit integer.
    pub fn next_uint_literal(&mut self) -> (r: Result<u32, Error<'a>>)
        ensures
            final(self)@ == old(self)@.after(false),
            final(self)@.wf(),
            same_result(r, old(self)@.uint_literal()),
    {
        match self.next() {
            (Token::Number { value, .. }, span) => {
                match parse_u32(value) {
                    Ok(v) => Ok(v),
                    Err(why) => Err(Error::BadU32(span, why)),
                }
            },
            other => Err(Error::Unexpected(other, ExpectedToken::Uint)),
        }
    }

    /// Reads a numeric literal as a signed 32-bit integer.
    pub fn next_sint_literal(&mut self) -> (r: Result<i32, Error<'a>>)
        ensures
            final(self)@ == old(self)@.after(false),
            final(self)@.wf(),
            same_result(r, old(self)@.sint_literal()),
    {
        match self.next() {
            (Token::Number { value, .. }, span) => {
                match parse_i32(value) {
                    Ok(v) => Ok(v),
                    Err(why) => Err(Error::BadI32(span, why)),
                }
            },
            other => Err(Error::Unexpected(other, ExpectedToken::Sint)),
        }
    }

    /// Closes a generic whose inner word has been looked up with the result
    /// `found`.  A failed lookup is handed on and nothing is read.  After a
    /// lookup that found a value the next token is read in the mode
    /// `generic` and must be `>`.
    pub fn close_generic<T>(&mut self, generic: bool, found: Result<T, Error<'a>>) -> (r: Result<
        T,
        Error<'a>,
    >)
        ensures
            generic_closes(old(self)@, generic, found, r, final(self)@),
            final(self)@.wf(),
    {
        match found {
            Err(e) => {
                proof {
                    use_type_invariant(&*self);
                }
                Err(e)
            },
            Ok(value) => {
                let next = self.read(generic);
                if next.0 == Token::Paren('>') {
                    Ok(value)
                } else {
                    Err(Error::Unexpected(next, ExpectedToken::Token(Token::Paren('>'))))
                }
            },
        }
    }

    /// Reads a generic scalar type, such as `<f32>`, and returns what
    /// `lookup` finds for the word between the brackets.  The brackets are
    /// read as inside a generic parameter list.
    pub fn next_scalar_generic<T, F: FnOnce(&'a str) -> Option<T>>(&mut self, lookup: F) -> (r:
        Result<T, Error<'a>>)
        requires
            forall|word: &'a str| lookup.requires((word,)),
        ensures
            final(self)@.wf(),
            ({
                let opened = old(self)@.after(true);
                let inner = opened.after(false);
                match old(self)@.expects(true, TokenView::Paren('<')) {
                    Err(e) => final(self)@ == opened && r is Err && r->Err_0@ == e,
                    Ok(_) => match opened.ident() {
                        Err(_) => {
                            &&& final(self)@ == inner
                            &&& r is Err
                            &&& r->Err_0@ == ErrorView::UnknownScalarType(opened.token_span(false))
                        },
                        Ok((name, span)) => exists|word: &'a str, found: Option<T>|
                            {
                                &&& word@ == name
                                &&& lookup.ensures((word,), found)
                                &&& generic_closes(
                                    inner,
                                    true,
                                    match found {
                                        Some(value) => Ok(value),
                                        None => Err(Error::UnknownScalarType(span)),
                                    },
                                    r,
                                    final(self)@,
                                )
                            },
                    },
                }
            }),
    {
        match self.expect_generic_paren('<') {
            Err(e) => {
                return Err(e);
            },
            Ok(_) => {},
        }
        let found = match self.next() {
            (Token::Word(word), span) => match lookup(word) {
                Some(value) => Ok(value),
                None => Err(Error::UnknownScalarType(span)),
            },
            (_, span) => {
                return Err(Error::UnknownScalarType(span));
            },
        };
        self.close_generic(true, found)
    }

    /// Reads a generic scalar type, such as `<f32>`, and returns what
    /// `lookup` finds for the word between the brackets, together with the
    /// span of that word.  The brackets are read as inside a generic
    /// parameter list.
    pub fn next_scalar_generic_with_span<T, F: FnOnce(&'a str) -> Option<T>>(
        &mut self,
        lookup: F,
    ) -> (r: Result<(T, Span), Error<'a>>)
        requires
            forall|word: &'a str| lookup.requires((word,)),
        ensures
            final(self)@.wf(),
            ({
                let opened = old(self)@.after(true);
                let inner = opened.after(false);
                match old(self)@.expects(true, TokenView::Paren('<')) {
                    Err(e) => final(self)@ == opened && r is Err && r->Err_0@ == e,
                    Ok(_) => match opened.ident() {
                        Err(_) => {
                            &&& final(self)@ == inner
                            &&& r is Err
                            &&& r->Err_0@ == ErrorView::UnknownScalarType(opened.token_span(false))
                        },
                        Ok((name, span)) => exists|word: &'a str, found: Option<T>|
                            {
                                &&& word@ == name
                                &&& lookup.ensures((word,), found)
                                &&& generic_closes(
                                    inner,
                                    true,
                                    match found {
                                        Some(value) => Ok((value, span)),
                                        None => Err(Error::UnknownScalarType(span)),
                                    },
                                    r,
                                    final(self)@,
                                )
                            },
                    },
                }
            }),
    {
        match self.expect_generic_paren('<') {
            Err(e) => {
                return Err(e);
            },
            Ok(_) => {},
        }
        let found = match self.next() {
            (Token::Word(word), span) => match lookup(word) {
                Some(value) => Ok((value, span.start..span.end)),
                None => Err(Error::UnknownScalarType(span)),
            },
            (_, span) => {
                return Err(Error::UnknownScalarType(span));
            },
        };
        self.close_generic(true, found)
    }

    /// Reads a generic storage format, such as `<rgba8unorm>`, and returns
    /// what `lookup` finds for the word between the brackets and its span.
    /// The brackets are read as inside a generic parameter list, so that a
    /// `>` or `=` after the closing bracket is left where it is.
    pub fn next_format_generic<T, F: FnOnce(&'a str, Span) -> Result<T, Error<'a>>>(
        &mut self,
        lookup: F,
    ) -> (r: Result<T, Error<'a>>)
        requires
            forall|word: &'a str, span: Span| lookup.requires((word, span)),
        ensures
            final(self)@.wf(),
            ({
                let opened = old(self)@.after(true);
                let inner = opened.after(false);
                match old(self)@.expects(true, TokenView::Paren('<')) {
                    Err(e) => final(self)@ == opened && r is Err && r->Err_0@ == e,
                    Ok(_) => match opened.ident() {
                        Err(e) => final(self)@ == inner && r is Err && r->Err_0@ == e,
                        Ok((name, span)) => exists|word: &'a str, found: Result<T, Error<'a>>|
                            {
                                &&& word@ == name
                                &&& lookup.ensures((word, span), found)
                                &&& generic_closes(inner, true, found, r, final(self)@)
                            },
                    },
                }
            }),
    {
        match self.expect_generic_paren('<') {
            Err(e) => {
                return Err(e);
            },
            Ok(_) => {},
        }
        let (ident, ident_span) = match self.next_ident_with_span() {
            Err(e) => {
                return Err(e);
            },
            Ok(found) => found,
        };
        let ghost span = ident_span;
        let format = lookup(ident, ident_span);
        let ghost found = format;
        let ghost inner = self@;
        let r = self.close_generic(true, format);
        proof {
            // The word and the result of the lookup are the witnesses.
            let opened = old(self)@.after(true);
            let model = opened.ident();
            assert(model->Ok_0.1 == span);
            assert(exists|word: &'a str, found: Result<T, Error<'a>>|
                {
                    &&& word@ == model->Ok_0.0
                    &&& lookup.ensures((word, model->Ok_0.1), found)
                    &&& generic_closes(opened.after(false), true, found, r, self@)
                });
        }
        r
    }

    /// Reads the `(` that opens an argument list.
    pub fn open_arguments(&mut self) -> (r: Result<(), Error<'a>>)
        ensures
            final(self)@ == old(self)@.after(false),
            final(self)@.wf(),
            same_result(r, old(self)@.expects(false, TokenView::Paren('('))),
    {
        self.expect(Token::Paren('('))
    }

    /// Reads the `)` that closes an argument list, after one `,` if there
    /// is one.
    pub fn close_arguments(&mut self) -> (r: Result<(), Error<'a>>)
        ensures
            final(self)@ == old(self)@.after_comma().after(false),
            final(self)@.wf(),
            same_result(r, old(self)@.after_comma().expects(false, TokenView::Paren(')'))),
    {
        let _ = self.skip(Token::Separator(','));
        self.expect(Token::Paren(')'))
    }

    /// Asks whether another argument follows the one just read, and reads
    /// what separates them or closes the list.
    pub fn next_argument(&mut self) -> (r: Result<bool, Error<'a>>)
        ensures
            final(self)@ == old(self)@.after_argument(),
            final(self)@.wf(),
            same_result(r, old(self)@.argument()),
    {
        let paren = Token::Paren(')');
        if self.skip(Token::Separator(',')) {
            Ok(!self.skip(paren))
        } else {
            match self.expect(paren) {
                Ok(_) => Ok(false),
                Err(e) => Err(e),
            }
        }
    }
}

} // verus!
