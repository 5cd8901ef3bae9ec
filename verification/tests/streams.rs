use wgsl_lexer::cursor::Lexer;
use wgsl_lexer::error::Error;
use wgsl_lexer::token::{Token, TokenSpan};

const SAMPLES: [&str; 12] = [
    "",
    "   ",
    "fn main() -> void { return; }",
    "[[ group(0 )]] var< uniform> texture:   texture_multisampled_2d <f32 >;",
    "a<<b>>c<=d>=e==f!=g&&h||i",
    "1 2u 3i32 4.5 .5f16 -6 -.7 1e-5 1.2.3 8u;",
    "\"str\" \"好\" \"\" x \"open",
    "// only a comment",
    "x // c\r\n y /* z */",
    "æNoø No¾ No好 \u{1F600}",
    "a::b:c;d,e.f",
    "!~=-+*/%^&|",
];

fn tokenize(source: &str) -> Vec<TokenSpan<'_>> {
    let mut lexer = Lexer::new(source);
    let mut out = Vec::new();
    loop {
        let read = lexer.next();
        let end = read.0 == Token::End;
        out.push(read);
        if end {
            return out;
        }
        assert!(out.len() <= source.len() + 1);
    }
}

fn count_arguments(source: &str) -> Result<usize, Error<'_>> {
    let mut lexer = Lexer::new(source);
    lexer.open_arguments()?;
    let mut count = 0;
    if lexer.skip(Token::Paren(')')) {
        return Ok(count);
    }
    loop {
        lexer.next_ident()?;
        count += 1;
        if !lexer.next_argument()? {
            break;
        }
    }
    assert_eq!(lexer.next().0, Token::End);
    Ok(count)
}

#[test]
fn tokenizing_twice_gives_the_same_tokens_and_spans() {
    for source in SAMPLES {
        let copy = String::from(source);
        assert_eq!(tokenize(source), tokenize(&copy));
    }
}

#[test]
fn every_input_reaches_the_end_within_its_length() {
    for source in SAMPLES {
        let tokens = tokenize(source);
        assert!(tokens.len() <= source.chars().count() + 1);
        assert_eq!(tokens.last().unwrap().0, Token::End);
    }
}

#[test]
fn reads_after_the_end_keep_returning_the_end() {
    for source in SAMPLES {
        let mut lexer = Lexer::new(source);
        while lexer.next().0 != Token::End {}
        let end = source.len();
        for _ in 0..3 {
            assert_eq!(lexer.next(), (Token::End, end..end));
            assert_eq!(lexer.next_generic(), (Token::End, end..end));
            assert_eq!(lexer.peek(), (Token::End, end..end));
            assert_eq!(lexer.current_byte_offset(), end);
        }
    }
}

#[test]
fn spans_are_in_order_and_inside_the_source() {
    for source in SAMPLES {
        let mut last = 0;
        for (token, span) in tokenize(source) {
            assert!(last <= span.start);
            assert!(span.start <= span.end);
            assert!(span.end <= source.len());
            assert_eq!(span.start == span.end, token == Token::End);
            last = span.end;
        }
    }
}

#[test]
fn text_at_the_span_is_the_token() {
    for source in SAMPLES {
        for (token, span) in tokenize(source) {
            let text = &source[span];
            match token {
                Token::Word(word) => assert_eq!(text, word),
                Token::String(content) => assert_eq!(text, format!("\"{}\"", content)),
                Token::UnterminatedString(content) => assert_eq!(text, format!("\"{}", content)),
                Token::Number { value, ty, width } => {
                    if text == value {
                        assert_eq!(width, "");
                        assert_eq!(ty, if value.contains('.') { 'f' } else { 'i' });
                    } else {
                        assert_eq!(text, format!("{}{}{}", value, ty, width));
                    }
                }
                Token::Separator(c) | Token::Paren(c) | Token::Operation(c) | Token::Unknown(c) => {
                    assert_eq!(text, c.to_string())
                }
                Token::DoubleParen(c) | Token::ShiftOperation(c) => {
                    assert_eq!(text, format!("{}{}", c, c))
                }
                Token::LogicalOperation(c) => {
                    let second = if c == '&' || c == '|' { c } else { '=' };
                    assert_eq!(text, format!("{}{}", c, second))
                }
                Token::DoubleColon => assert_eq!(text, "::"),
                Token::Arrow => assert_eq!(text, "->"),
                Token::End => assert_eq!(text, ""),
                Token::Trivia => panic!("trivia was handed out"),
            }
        }
    }
}

#[test]
fn text_at_the_span_exact_values() {
    let source = "x1 \"好s\" 2.5f32 >= 7";
    let spans: Vec<&str> = tokenize(source).into_iter().map(|(_, span)| &source[span]).collect();
    assert_eq!(spans, vec!["x1", "\"好s\"", "2.5f32", ">=", "7", ""]);
}

#[test]
fn number_decomposition() {
    let mut lexer = Lexer::new("2u3o");
    assert_eq!(lexer.next().0, Token::Number { value: "2", ty: 'u', width: "3" });
    assert_eq!(lexer.next().0, Token::Word("o"));
    let mut lexer = Lexer::new("2.4f44po");
    assert_eq!(lexer.next().0, Token::Number { value: "2.4", ty: 'f', width: "44" });
    assert_eq!(lexer.next().0, Token::Word("po"));
    let mut lexer = Lexer::new("92No");
    assert_eq!(lexer.next().0, Token::Number { value: "92", ty: 'i', width: "" });
    assert_eq!(lexer.next().0, Token::Word("No"));
}

#[test]
fn generic_mode_suppression() {
    let mut lexer = Lexer::new(">>");
    assert_eq!(lexer.next_generic().0, Token::Paren('>'));
    assert_eq!(lexer.next_generic().0, Token::Paren('>'));
    assert_eq!(lexer.next_generic().0, Token::End);
    let mut lexer = Lexer::new(">>");
    assert_eq!(lexer.next().0, Token::ShiftOperation('>'));
    assert_eq!(lexer.next().0, Token::End);
}

#[test]
fn unterminated_string() {
    let mut lexer = Lexer::new("\"abc");
    assert_eq!(lexer.next().0, Token::UnterminatedString("abc"));
    assert_eq!(lexer._leftover_span(), 4..4);
    assert_eq!(lexer.next().0, Token::End);
}

#[test]
fn unicode_safety() {
    for c in ['æ', '好', '¾'] {
        let source = format!("ab{}cd {} e", c, c);
        let mut lexer = Lexer::new(&source);
        let n = c.len_utf8();
        assert_eq!(lexer.next(), (Token::Word("ab"), 0..2));
        assert_eq!(lexer.next(), (Token::Unknown(c), 2..2 + n));
        assert_eq!(lexer.next(), (Token::Word("cd"), 2 + n..4 + n));
        assert_eq!(lexer.next(), (Token::Unknown(c), 5 + n..5 + 2 * n));
        assert_eq!(lexer.next(), (Token::Word("e"), 6 + 2 * n..7 + 2 * n));
        assert_eq!(lexer.next().0, Token::End);
    }
}

#[test]
fn argument_list_protocol() {
    assert_eq!(count_arguments("(a, b,)").unwrap(), 2);
    assert_eq!(count_arguments("(a, b)").unwrap(), 2);
    assert_eq!(count_arguments("()").unwrap(), 0);
    assert_eq!(count_arguments("(a)").unwrap(), 1);
    assert_eq!(count_arguments("( a , )").unwrap(), 1);
    assert_eq!(count_arguments("(a,b,c)").unwrap(), 3);
}

#[test]
fn argument_list_failures() {
    assert!(count_arguments("(a b)").is_err());
    assert!(count_arguments("(a,,b)").is_err());
    assert!(count_arguments("(a, b").is_err());
    assert!(count_arguments("a, b)").is_err());
    assert!(count_arguments("(,)").is_err());
}

#[test]
fn empty_argument_list_with_close_arguments() {
    let mut lexer = Lexer::new("()");
    assert!(lexer.open_arguments().is_ok());
    assert!(lexer.close_arguments().is_ok());
    assert_eq!(lexer.next().0, Token::End);
}

fn generated(seed: u64, len: usize) -> String {
    const ALPHABET: [char; 40] = [
        'a', 'Z', '_', '0', '1', '9', 'e', 'E', 'u', 'i', 'f', '.', '-', '+', '*', '/', '%', '^',
        '<', '>', '=', '!', '~', '&', '|', '[', ']', '(', ')', '{', '}', ':', ';', ',', '"', ' ',
        '\n', '\r', 'æ', '好',
    ];
    let mut state = seed.wrapping_mul(6364136223846793005).wrapping_add(1442695040888963407);
    let mut text = String::new();
    for _ in 0..len {
        state = state.wrapping_mul(6364136223846793005).wrapping_add(1442695040888963407);
        text.push(ALPHABET[(state >> 33) as usize % ALPHABET.len()]);
    }
    text
}

#[test]
fn generated_sources_are_covered_by_their_tokens() {
    for seed in 0..400 {
        let source = generated(seed, (seed % 23) as usize);
        let tokens = tokenize(&source);
        assert!(tokens.len() <= source.chars().count() + 1);
        let mut last = 0;
        for (token, span) in &tokens {
            assert!(last <= span.start && span.start <= span.end && span.end <= source.len());
            assert!(source.is_char_boundary(span.start) && source.is_char_boundary(span.end));
            let mut between = Lexer::new(&source[last..span.start]);
            assert_eq!(between.next().0, Token::End);
            assert_eq!((span.start == span.end), (*token == Token::End));
            last = span.end;
        }
        assert_eq!(last, source.len());
    }
}

#[test]
fn text_of_a_token_reads_as_that_token() {
    for seed in 0..400 {
        let source = generated(seed + 1000, (seed % 29) as usize);
        for (token, span) in tokenize(&source) {
            let text = &source[span];
            let mut alone = Lexer::new(text);
            assert_eq!(alone.next(), (token, 0..text.len()), "{:?} in {:?}", text, source);
            assert_eq!(alone.next().0, Token::End);
        }
    }
}

#[test]
fn peek_agrees_with_next_on_generated_sources() {
    for seed in 0..200 {
        let source = generated(seed + 5000, (seed % 31) as usize);
        let mut lexer = Lexer::new(&source);
        loop {
            let before = lexer.current_byte_offset();
            let peeked = lexer.peek();
            assert_eq!(lexer.current_byte_offset(), before);
            let read = lexer.next();
            assert_eq!(peeked, read);
            assert_eq!(lexer.current_byte_offset(), read.1.end);
            if read.0 == Token::End {
                break;
            }
        }
    }
}

#[test]
fn generic_reads_never_join_brackets_on_generated_sources() {
    for seed in 0..200 {
        let source = generated(seed + 9000, (seed % 37) as usize);
        let mut lexer = Lexer::new(&source);
        loop {
            let (token, span) = lexer.next_generic();
            match token {
                Token::ShiftOperation(_) => panic!("shift read in {:?}", source),
                Token::LogicalOperation(c) => assert!(c != '<' && c != '>'),
                Token::Paren('<') | Token::Paren('>') => assert_eq!(span.end - span.start, 1),
                Token::End => break,
                _ => {}
            }
        }
    }
}
