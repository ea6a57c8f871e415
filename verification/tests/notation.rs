use froglang_core::lexer::Lexer;
use froglang_core::notation::escape_str;
use froglang_core::tokens::Token;

fn lex_one(src: &str) -> Token {
    let (tokens, errors) = Lexer::new(src).collect_errors();
    assert!(errors.is_empty(), "{}: {:?}", src, errors);
    assert_eq!(tokens.len(), 1, "{}: {:?}", src, tokens);
    tokens.into_iter().next().unwrap().item
}

#[test]
fn strings_round_trip_through_the_lexer() {
    for s in ["", "hi", "a\"b", "a\\b", "tab\there", "nl\n", "\u{7}", "\u{1b}[0m", "é 🐸", "\u{7f}"] {
        match lex_one(&escape_str(s)) {
            Token::String(t) => assert_eq!(s, t, "{:?}", escape_str(s)),
            other => panic!("{:?}: {:?}", escape_str(s), other),
        }
    }
}

#[test]
fn infinity_and_nan_are_words() {
    assert_eq!(lex_one("inf"), Token::Inf);
    assert_eq!(lex_one("nan"), Token::Nan);
}

#[test]
fn what_a_float_prints_as_is_one_token() {
    for f in [0.0, 1.0, 0.1 + 0.2, 1e100, 1e-300, f64::MAX, f64::MIN_POSITIVE] {
        let text = format!("{:?}", f);
        match lex_one(&text) {
            Token::Float(s) => assert_eq!(f, s.parse::<f64>().unwrap(), "{}", text),
            other => panic!("{}: {:?}", text, other),
        }
    }
}

#[test]
fn control_characters_are_escaped_by_number() {
    assert_eq!(escape_str("\u{7}"), "\"\\u{7}\"");
    assert_eq!(escape_str("\u{9f}"), "\"\\u{9f}\"");
    assert_eq!(escape_str("é"), "\"é\"");
    assert_eq!(escape_str("a\"\\\t\n"), "\"a\\\"\\\\\\t\\n\"");
}
