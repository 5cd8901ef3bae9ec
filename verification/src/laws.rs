//! What holds of every text and every cursor.
use crate::chars::{is_digit, is_string_part, is_type_tag};
use crate::cursor::{lemma_read_token_bounds, lemma_span_bounds, read_token, LexerView};
use crate::number::{core_len, default_type, lemma_core_end_bounds};
use crate::scan::{lemma_run_len_holds, lemma_scan_token_len, scan_token};
use crate::text::{
    byte_offset, lemma_byte_offset_monotonic, lemma_encode_concat, lemma_utf8_len_is_encoded_len,
    utf8_len,
};
use crate::token::{Span, TokenSpan, TokenView};
use std::ops::Range;
use vstd::prelude::*;
use vstd::utf8::{decode_utf8, encode_utf8, encode_utf8_decode_utf8};

verus! {

/// Whether `text` is how `token` is written in a source.
///
/// A string is written between quotes, and an unterminated one after its
/// opening quote.  A logical operation is written as its first character
/// and `=`, but for `&&` and `||`.  A number is written as its core,
/// followed by its type
/// tag and bit width where the source states them; where it does not,
/// the width is empty and the tag is the one that the core stands for.
pub open spec fn spells(token: TokenView, text: Seq<char>) -> bool {
    match token {
        TokenView::Separator(c) => text == seq![c],
        TokenView::Paren(c) => text == seq![c],
        TokenView::Operation(c) => text == seq![c],
        TokenView::Unknown(c) => text == seq![c],
        TokenView::DoubleColon => text == seq![':', ':'],
        TokenView::Arrow => text == seq!['-', '>'],
        TokenView::DoubleParen(c) => text == seq![c, c],
        TokenView::ShiftOperation(c) => text == seq![c, c],
        TokenView::LogicalOperation(c) => text == seq![c, if c == '&' || c == '|' {
            c
        } else {
            '='
        }],
        TokenView::Word(word) => text == word,
        TokenView::String(content) => text == seq!['"'] + content + seq!['"'],
        TokenView::UnterminatedString(content) => text == seq!['"'] + content,
        TokenView::Number { value, ty, width } => {
            ||| text == value + seq![ty] + width
            ||| (text == value && width.len() == 0 && ty == default_type(value))
        },
        TokenView::Trivia => true,
        TokenView::End => text.len() == 0,
    }
}

/// The text of `source` that lies at the byte offsets of `span`.
pub open spec fn text_at(source: Seq<char>, span: Span) -> Seq<char> {
    decode_utf8(encode_utf8(source).subrange(span.start as int, span.end as int))
}

/// The cursor after one read in each of the modes of `modes`, in turn.
pub open spec fn after_reads(v: LexerView, modes: Seq<bool>) -> LexerView
    decreases modes.len(),
{
    if modes.len() == 0 {
        v
    } else {
        after_reads(v.after(modes[0]), modes.drop_first())
    }
}

/// Whether `outs` is what a run of reads hands out, one read in each of
/// the modes of `modes`, starting at `v`.
pub open spec fn is_trace(v: LexerView, modes: Seq<bool>, outs: Seq<TokenSpan>) -> bool
    decreases modes.len(),
{
    if modes.len() == 0 {
        outs.len() == 0
    } else {
        &&& outs.len() == modes.len()
        &&& v.reads(modes[0], outs[0], v.after(modes[0]))
        &&& is_trace(v.after(modes[0]), modes.drop_first(), outs.drop_first())
    }
}

/// The characters that a token takes spell it.
pub proof fn lemma_scan_token_spells(s: Seq<char>, generic: bool)
    ensures
        spells(scan_token(s, generic).token, s.take(scan_token(s, generic).len)),
{
    lemma_scan_token_len(s, generic);
    let scanned = scan_token(s, generic);
    let text = s.take(scanned.len);
    if s.len() > 0 {
        let rest = s.skip(1);
        lemma_run_len_holds(rest, |c: char| is_string_part(c));
        lemma_core_end_bounds(s, 0);
        let n = core_len(s);
        if n < s.len() {
            lemma_run_len_holds(s.skip(n + 1), |c: char| is_digit(c));
        }
        match scanned.token {
            TokenView::Separator(c) => {
                assert(text =~= seq![c]);
            },
            TokenView::Paren(c) => {
                assert(text =~= seq![c]);
            },
            TokenView::Operation(c) => {
                assert(text =~= seq![c]);
            },
            TokenView::Unknown(c) => {
                assert(text =~= seq![c]);
            },
            TokenView::DoubleColon => {
                assert(text =~= seq![':', ':']);
            },
            TokenView::Arrow => {
                assert(text =~= seq!['-', '>']);
            },
            TokenView::DoubleParen(c) => {
                assert(text =~= seq![c, c]);
            },
            TokenView::ShiftOperation(c) => {
                assert(text =~= seq![c, c]);
            },
            TokenView::LogicalOperation(c) => {
                assert(text =~= seq![c, rest[0]]);
            },
            TokenView::Word(word) => {},
            TokenView::String(content) => {
                assert(text =~= seq!['"'] + content + seq!['"']);
            },
            TokenView::UnterminatedString(content) => {
                assert(text =~= seq!['"'] + content);
            },
            TokenView::Number { value, ty, width } => {
                if n < s.len() && is_type_tag(s[n]) {
                    assert(text =~= value + seq![ty] + width);
                }
            },
            TokenView::Trivia => {},
            TokenView::End => {},
        }
    }
}

/// The characters between the start and the end of the token read spell
/// it.
pub proof fn lemma_read_token_spells(s: Seq<char>, generic: bool)
    ensures
        spells(
            read_token(s, generic).token,
            s.subrange(read_token(s, generic).start, read_token(s, generic).end),
        ),
    decreases s.len(),
{
    lemma_scan_token_len(s, generic);
    lemma_scan_token_spells(s, generic);
    let first = scan_token(s, generic);
    if first.token is Trivia {
        let later = s.skip(first.len);
        lemma_read_token_bounds(later, generic);
        lemma_read_token_spells(later, generic);
        let read = read_token(later, generic);
        assert(later.subrange(read.start, read.end) =~= s.subrange(
            first.len + read.start,
            first.len + read.end,
        ));
    }
}

/// The bytes between two character starts are the encoding of the
/// characters between them.
pub proof fn lemma_text_at(source: Seq<char>, i: int, j: int)
    requires
        0 <= i <= j <= source.len(),
        utf8_len(source) <= usize::MAX,
    ensures
        text_at(
            source,
            Range { start: byte_offset(source, i) as usize, end: byte_offset(source, j) as usize },
        ) == source.subrange(i, j),
{
    let head = source.take(i);
    let middle = source.subrange(i, j);
    let tail = source.skip(j);
    lemma_byte_offset_monotonic(source, i, j);
    assert(source =~= head + middle + tail);
    lemma_encode_concat(head + middle, tail);
    lemma_encode_concat(head, middle);
    lemma_utf8_len_is_encoded_len(head);
    lemma_utf8_len_is_encoded_len(middle);
    lemma_utf8_len_is_encoded_len(head + middle);
    let bytes = encode_utf8(source);
    let a = byte_offset(source, i) as int;
    let b = byte_offset(source, j) as int;
    assert(bytes.subrange(a, b) =~= encode_utf8(middle));
    encode_utf8_decode_utf8(middle);
}

/// Span fidelity: the text of the source at the span of a token spells that
/// token.  For a word it is the word; for a string, the content between its
/// quotes; for a number, its core with the suffix that the source gives it.
pub proof fn lemma_span_fidelity(v: LexerView, generic: bool)
    requires
        v.wf(),
    ensures
        spells(v.token(generic), text_at(v.source, v.token_span(generic))),
{
    let s = v.remaining();
    let read = read_token(s, generic);
    lemma_read_token_bounds(s, generic);
    lemma_read_token_spells(s, generic);
    lemma_text_at(v.source, v.pos + read.start, v.pos + read.end);
    assert(s.subrange(read.start, read.end) =~= v.source.subrange(
        v.pos + read.start,
        v.pos + read.end,
    ));
}

/// Progress and stability: a read that does not hand out the end of the
/// input moves the cursor forward, and hands out no white space; at the
/// end of the input the cursor stays, and every later read, in either
/// mode, hands out the end again.
pub proof fn lemma_end_is_stable(v: LexerView, generic: bool, later: bool)
    requires
        v.wf(),
    ensures
        !(v.token(generic) is Trivia),
        !(v.token(generic) is End) ==> v.pos < v.after(generic).pos,
        v.token(generic) is End ==> {
            &&& v.after(generic).pos == v.source.len()
            &&& v.after(generic).after(later) == v.after(generic)
            &&& v.after(generic).token(later) is End
        },
{
    let read = read_token(v.remaining(), generic);
    lemma_read_token_bounds(v.remaining(), generic);
    if read.token is End {
        let end = v.after(generic);
        lemma_scan_token_len(end.remaining(), later);
    }
}

/// Termination: after as many reads as the source has characters left, in
/// whatever modes, the next read hands out the end of the input.
pub proof fn lemma_end_is_reached(v: LexerView, modes: Seq<bool>, generic: bool)
    requires
        v.wf(),
        modes.len() >= v.source.len() - v.pos,
    ensures
        after_reads(v, modes).wf(),
        after_reads(v, modes).token(generic) is End,
    decreases modes.len(),
{
    if modes.len() == 0 {
        lemma_scan_token_len(v.remaining(), generic);
    } else {
        lemma_span_bounds(v, modes[0]);
        lemma_end_is_stable(v, modes[0], generic);
        lemma_end_is_reached(v.after(modes[0]), modes.drop_first(), generic);
    }
}

/// Determinism: two runs of reads in the same modes, from the same
/// position of the same text, hand out the same tokens with the same spans.
pub proof fn lemma_reads_are_deterministic(
    v: LexerView,
    modes: Seq<bool>,
    first: Seq<TokenSpan>,
    second: Seq<TokenSpan>,
)
    requires
        is_trace(v, modes, first),
        is_trace(v, modes, second),
    ensures
        first.len() == second.len(),
        forall|i: int|
            0 <= i < first.len() ==> (#[trigger] first[i]).0@ == second[i].0@ && first[i].1
                == second[i].1,
    decreases modes.len(),
{
    if modes.len() > 0 {
        let next = v.after(modes[0]);
        lemma_reads_are_deterministic(
            next,
            modes.drop_first(),
            first.drop_first(),
            second.drop_first(),
        );
        assert forall|i: int| 0 <= i < first.len() implies (#[trigger] first[i]).0@ == second[i].0@
            && first[i].1 == second[i].1 by {
            if i > 0 {
                assert(first[i] == first.drop_first()[i - 1]);
            }
        }
    }
}

/// Inside a generic parameter list `<` and `>` are brackets of one
/// character, whatever follows them: no read in that mode hands out a
/// shift, nor a comparison that starts with a bracket.
pub proof fn lemma_generic_brackets(s: Seq<char>)
    ensures
        s.len() > 0 && (s[0] == '<' || s[0] == '>') ==> scan_token(s, true).token
            == TokenView::Paren(s[0]) && scan_token(s, true).len == 1,
        !(read_token(s, true).token is ShiftOperation),
        read_token(s, true).token matches TokenView::LogicalOperation(c) ==> c != '<' && c != '>',
    decreases s.len(),
{
    let first = scan_token(s, true);
    if first.token is Trivia && 0 < first.len <= s.len() {
        lemma_generic_brackets(s.skip(first.len));
    }
}

} // verus!
