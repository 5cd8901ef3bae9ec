use wgsl_lexer::number::consume_number;
use wgsl_lexer::scan::{_consume_str, consume_any, consume_token};
use wgsl_lexer::text::{contains_char, str_eq};
use wgsl_lexer::token::Token;

fn number<'a>(value: &'a str, ty: char, width: &'a str) -> Token<'a> {
    Token::Number { value, ty, width }
}

fn scan(input: &str) -> (Token<'_>, &str) {
    consume_token(input, false)
}

#[test]
fn empty_input_is_the_end() {
    assert_eq!(scan(""), (Token::End, ""));
    assert_eq!(consume_token("", true), (Token::End, ""));
}

#[test]
fn colons() {
    assert_eq!(scan(":"), (Token::Separator(':'), ""));
    assert_eq!(scan("::"), (Token::DoubleColon, ""));
    assert_eq!(scan(":::"), (Token::DoubleColon, ":"));
    assert_eq!(scan(":x"), (Token::Separator(':'), "x"));
    assert_eq!(scan(": :"), (Token::Separator(':'), " :"));
}

#[test]
fn plain_separators() {
    assert_eq!(scan(";;"), (Token::Separator(';'), ";"));
    assert_eq!(scan(",a"), (Token::Separator(','), "a"));
}

#[test]
fn dot_is_a_separator_unless_a_digit_follows() {
    assert_eq!(scan("."), (Token::Separator('.'), ""));
    assert_eq!(scan(".x"), (Token::Separator('.'), "x"));
    assert_eq!(scan(".."), (Token::Separator('.'), "."));
    assert_eq!(scan(".5"), (number(".5", 'f', ""), ""));
    assert_eq!(scan(".5f32;"), (number(".5", 'f', "32"), ";"));
}

#[test]
fn round_and_curly_brackets() {
    assert_eq!(scan("()"), (Token::Paren('('), ")"));
    assert_eq!(scan(")"), (Token::Paren(')'), ""));
    assert_eq!(scan("{{"), (Token::Paren('{'), "{"));
    assert_eq!(scan("}}"), (Token::Paren('}'), "}"));
}

#[test]
fn angle_brackets_outside_generics() {
    assert_eq!(scan("<"), (Token::Paren('<'), ""));
    assert_eq!(scan(">"), (Token::Paren('>'), ""));
    assert_eq!(scan("<a"), (Token::Paren('<'), "a"));
    assert_eq!(scan("<<1"), (Token::ShiftOperation('<'), "1"));
    assert_eq!(scan(">>1"), (Token::ShiftOperation('>'), "1"));
    assert_eq!(scan("<=1"), (Token::LogicalOperation('<'), "1"));
    assert_eq!(scan(">=1"), (Token::LogicalOperation('>'), "1"));
    assert_eq!(scan("<>"), (Token::Paren('<'), ">"));
    assert_eq!(scan("><"), (Token::Paren('>'), "<"));
}

#[test]
fn angle_brackets_inside_generics() {
    assert_eq!(consume_token(">>", true), (Token::Paren('>'), ">"));
    assert_eq!(consume_token(">", true), (Token::Paren('>'), ""));
    assert_eq!(consume_token("<<", true), (Token::Paren('<'), "<"));
    assert_eq!(consume_token(">=", true), (Token::Paren('>'), "="));
    assert_eq!(consume_token("<=", true), (Token::Paren('<'), "="));
}

#[test]
fn generic_mode_changes_nothing_else() {
    for input in ["::", "[[", "==", "&&", "!=", "->", "-1", "a<b", "\"s\"", "// c\n", " \t", "1u8"] {
        assert_eq!(consume_token(input, true), consume_token(input, false));
    }
}

#[test]
fn square_brackets() {
    assert_eq!(scan("["), (Token::Paren('['), ""));
    assert_eq!(scan("]"), (Token::Paren(']'), ""));
    assert_eq!(scan("[["), (Token::DoubleParen('['), ""));
    assert_eq!(scan("]]"), (Token::DoubleParen(']'), ""));
    assert_eq!(scan("[]"), (Token::Paren('['), "]"));
    assert_eq!(scan("]["), (Token::Paren(']'), "["));
    assert_eq!(scan("[[["), (Token::DoubleParen('['), "["));
}

#[test]
fn words() {
    assert_eq!(scan("id123_OK"), (Token::Word("id123_OK"), ""));
    assert_eq!(scan("_x y"), (Token::Word("_x"), " y"));
    assert_eq!(scan("a-b"), (Token::Word("a"), "-b"));
    assert_eq!(scan("Zz9("), (Token::Word("Zz9"), "("));
    assert_eq!(scan("næ"), (Token::Word("n"), "æ"));
}

#[test]
fn strings() {
    assert_eq!(scan("\"abc\"def"), (Token::String("abc"), "def"));
    assert_eq!(scan("\"\""), (Token::String(""), ""));
    assert_eq!(scan("\"a b\n\"\""), (Token::String("a b\n"), "\""));
    assert_eq!(scan("\"好\" "), (Token::String("好"), " "));
}

#[test]
fn unterminated_strings_take_the_rest() {
    assert_eq!(scan("\"abc"), (Token::UnterminatedString("abc"), ""));
    assert_eq!(scan("\""), (Token::UnterminatedString(""), ""));
    assert_eq!(scan("\"a b\nc æ"), (Token::UnterminatedString("a b\nc æ"), ""));
}

#[test]
fn line_comments() {
    assert_eq!(scan("// hi\nx"), (Token::Trivia, "x"));
    assert_eq!(scan("// hi"), (Token::Trivia, ""));
    assert_eq!(scan("//"), (Token::Trivia, ""));
    assert_eq!(scan("//\r\nx"), (Token::Trivia, "\nx"));
    assert_eq!(scan("///\n/"), (Token::Trivia, "/"));
    assert_eq!(scan("// æ好\ry"), (Token::Trivia, "y"));
}

#[test]
fn slash_alone_is_an_operator() {
    assert_eq!(scan("/"), (Token::Operation('/'), ""));
    assert_eq!(scan("/ /"), (Token::Operation('/'), " /"));
    assert_eq!(scan("/2"), (Token::Operation('/'), "2"));
}

#[test]
fn minus() {
    assert_eq!(scan("->"), (Token::Arrow, ""));
    assert_eq!(scan("->x"), (Token::Arrow, "x"));
    assert_eq!(scan("-"), (Token::Operation('-'), ""));
    assert_eq!(scan("- 5"), (Token::Operation('-'), " 5"));
    assert_eq!(scan("-x"), (Token::Operation('-'), "x"));
    assert_eq!(scan("--"), (Token::Operation('-'), "-"));
    assert_eq!(scan("-5"), (number("-5", 'i', ""), ""));
    assert_eq!(scan("-.5"), (number("-.5", 'f', ""), ""));
    assert_eq!(scan("-."), (number("-.", 'f', ""), ""));
}

#[test]
fn one_character_operators() {
    for c in ['+', '*', '%', '^'] {
        let text = format!("{}=", c);
        assert_eq!(scan(&text), (Token::Operation(c), "="));
    }
}

#[test]
fn bang_and_tilde() {
    assert_eq!(scan("!"), (Token::Operation('!'), ""));
    assert_eq!(scan("!x"), (Token::Operation('!'), "x"));
    assert_eq!(scan("!="), (Token::LogicalOperation('!'), ""));
    assert_eq!(scan("!!"), (Token::Operation('!'), "!"));
    assert_eq!(scan("~"), (Token::Operation('~'), ""));
    assert_eq!(scan("~=1"), (Token::LogicalOperation('~'), "1"));
}

#[test]
fn doubled_operators() {
    assert_eq!(scan("="), (Token::Operation('='), ""));
    assert_eq!(scan("==a"), (Token::LogicalOperation('='), "a"));
    assert_eq!(scan("=&"), (Token::Operation('='), "&"));
    assert_eq!(scan("&"), (Token::Operation('&'), ""));
    assert_eq!(scan("&&"), (Token::LogicalOperation('&'), ""));
    assert_eq!(scan("&|"), (Token::Operation('&'), "|"));
    assert_eq!(scan("|"), (Token::Operation('|'), ""));
    assert_eq!(scan("||"), (Token::LogicalOperation('|'), ""));
    assert_eq!(scan("|=|"), (Token::Operation('|'), "=|"));
}

#[test]
fn white_space_runs() {
    assert_eq!(scan(" "), (Token::Trivia, ""));
    assert_eq!(scan(" \t\r\n x "), (Token::Trivia, "x "));
    assert_eq!(scan("\n\n"), (Token::Trivia, ""));
    assert_eq!(scan("\t//"), (Token::Trivia, "//"));
}

#[test]
fn other_characters_are_unknown() {
    assert_eq!(scan("æ"), (Token::Unknown('æ'), ""));
    assert_eq!(scan("好x"), (Token::Unknown('好'), "x"));
    assert_eq!(scan("¾ "), (Token::Unknown('¾'), " "));
    assert_eq!(scan("@a"), (Token::Unknown('@'), "a"));
    assert_eq!(scan("#"), (Token::Unknown('#'), ""));
    assert_eq!(scan("\u{0}"), (Token::Unknown('\u{0}'), ""));
    assert_eq!(scan("\u{1F600}!"), (Token::Unknown('\u{1F600}'), "!"));
    assert_eq!(scan("\u{b}"), (Token::Unknown('\u{b}'), ""));
}

#[test]
fn number_with_tag_and_width() {
    assert_eq!(consume_number("2u3o"), (number("2", 'u', "3"), "o"));
    assert_eq!(consume_number("2.4f44po"), (number("2.4", 'f', "44"), "po"));
    assert_eq!(consume_number("7i"), (number("7", 'i', ""), ""));
    assert_eq!(consume_number("7u;"), (number("7", 'u', ""), ";"));
    assert_eq!(consume_number("1f32"), (number("1", 'f', "32"), ""));
    assert_eq!(consume_number("2ux"), (number("2", 'u', ""), "x"));
    assert_eq!(consume_number("3i32i32"), (number("3", 'i', "32"), "i32"));
}

#[test]
fn number_without_tag() {
    assert_eq!(consume_number("92No"), (number("92", 'i', ""), "No"));
    assert_eq!(consume_number("2.4"), (number("2.4", 'f', ""), ""));
    assert_eq!(consume_number("0"), (number("0", 'i', ""), ""));
    assert_eq!(consume_number("10."), (number("10.", 'f', ""), ""));
    assert_eq!(consume_number("5 u"), (number("5", 'i', ""), " u"));
    assert_eq!(consume_number("5x3"), (number("5", 'i', ""), "x3"));
}

#[test]
fn number_with_exponent() {
    assert_eq!(consume_number("1e5"), (number("1e5", 'i', ""), ""));
    assert_eq!(consume_number("1E5;"), (number("1E5", 'i', ""), ";"));
    assert_eq!(consume_number("1e-5"), (number("1e-5", 'i', ""), ""));
    assert_eq!(consume_number("1.5e-3f"), (number("1.5e-3", 'f', ""), ""));
    assert_eq!(consume_number("1.5e+3"), (number("1.5e", 'f', ""), "+3"));
    assert_eq!(consume_number("1e"), (number("1e", 'i', ""), ""));
    assert_eq!(consume_number("1ee5"), (number("1ee5", 'i', ""), ""));
    assert_eq!(consume_number("1ee-5"), (number("1ee-5", 'i', ""), ""));
    assert_eq!(consume_number("1e5-2"), (number("1e5", 'i', ""), "-2"));
    assert_eq!(consume_number("1e--2"), (number("1e-", 'i', ""), "-2"));
    assert_eq!(consume_number("1e.5"), (number("1e.5", 'f', ""), ""));
}

#[test]
fn number_core_is_kept_as_written() {
    assert_eq!(consume_number("1.2.3"), (number("1.2.3", 'f', ""), ""));
    assert_eq!(consume_number("..1"), (number("..1", 'f', ""), ""));
    assert_eq!(consume_number("-1-2"), (number("-1", 'i', ""), "-2"));
    assert_eq!(consume_number("1--2"), (number("1", 'i', ""), "--2"));
    assert_eq!(consume_number("-e5"), (number("-e5", 'i', ""), ""));
}

#[test]
fn number_on_other_text_has_an_empty_core() {
    assert_eq!(consume_number(""), (number("", 'i', ""), ""));
    assert_eq!(consume_number("abc"), (number("", 'i', ""), "abc"));
    assert_eq!(consume_number("e5"), (number("", 'i', ""), "e5"));
    assert_eq!(consume_number("u8"), (number("", 'u', "8"), ""));
    assert_eq!(consume_number("好"), (number("", 'i', ""), "好"));
}

#[test]
fn consume_any_splits_after_the_run() {
    assert_eq!(consume_any("aab", |c| c == 'a'), ("aa", "b"));
    assert_eq!(consume_any("aaa", |c| c == 'a'), ("aaa", ""));
    assert_eq!(consume_any("baa", |c| c == 'a'), ("", "baa"));
    assert_eq!(consume_any("", |c| c == 'a'), ("", ""));
    assert_eq!(consume_any("æøå1好", |c| !c.is_ascii()), ("æøå", "1好"));
    assert_eq!(consume_any("好好", |_| true), ("好好", ""));
}

#[test]
fn consume_str_strips_a_prefix() {
    assert_eq!(_consume_str("hello world", "hello"), Some(" world"));
    assert_eq!(_consume_str("hello", "hello"), Some(""));
    assert_eq!(_consume_str("hello", ""), Some("hello"));
    assert_eq!(_consume_str("", ""), Some(""));
    assert_eq!(_consume_str("hell", "hello"), None);
    assert_eq!(_consume_str("help", "hello"), None);
    assert_eq!(_consume_str("", "a"), None);
    assert_eq!(_consume_str("æøå", "æø"), Some("å"));
    assert_eq!(_consume_str("æøå", "ø"), None);
}

#[test]
fn contains_char_finds_any_character() {
    assert!(contains_char("1.5", '.'));
    assert!(!contains_char("15", '.'));
    assert!(!contains_char("", '.'));
    assert!(contains_char("a好b", '好'));
    assert!(!contains_char("a好b", 'æ'));
}

#[test]
fn str_eq_compares_texts() {
    assert!(str_eq("", ""));
    assert!(str_eq("abc", "abc"));
    assert!(!str_eq("abc", "abd"));
    assert!(!str_eq("abc", "ab"));
    assert!(!str_eq("", "a"));
    assert!(str_eq("好æ", "好æ"));
    assert!(!str_eq("好æ", "好ø"));
}

#[test]
fn tokens_compare_by_kind_and_payload() {
    assert_eq!(Token::Word("a"), Token::Word("a"));
    assert_ne!(Token::Word("a"), Token::Word("b"));
    assert_ne!(Token::Word("a"), Token::String("a"));
    assert_ne!(Token::String("a"), Token::UnterminatedString("a"));
    assert_ne!(Token::Paren('<'), Token::Paren('>'));
    assert_ne!(Token::Paren('<'), Token::Operation('<'));
    assert_ne!(Token::DoubleParen('['), Token::Paren('['));
    assert_ne!(Token::ShiftOperation('<'), Token::LogicalOperation('<'));
    assert_ne!(Token::Separator(':'), Token::DoubleColon);
    assert_ne!(Token::Trivia, Token::End);
    assert_eq!(Token::Arrow, Token::Arrow);
    assert_eq!(number("1", 'u', "8"), number("1", 'u', "8"));
    assert_ne!(number("1", 'u', "8"), number("2", 'u', "8"));
    assert_ne!(number("1", 'u', "8"), number("1", 'i', "8"));
    assert_ne!(number("1", 'u', "8"), number("1", 'u', ""));
    assert_ne!(Token::Unknown('æ'), Token::Unknown('ø'));
}
