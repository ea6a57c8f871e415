use froglang_core::lexer::{Lexer, LexerError};
use froglang_core::tokens::{Position, Span, Spanned, Token};

fn lex_and_collect(input: &str) -> (Vec<Spanned<Token>>, Vec<Spanned<LexerError>>) {
    let mut lexer = Lexer::new(input);
    lexer.collect_errors()
}

fn items(spans: Vec<Spanned<Token>>) -> Vec<Token> {
    spans.into_iter().map(|s| s.item).collect()
}

fn float(t: &Token) -> f64 {
    match t {
        Token::Float(s) => s.parse::<f64>().unwrap(),
        other => panic!("{:?}", other),
    }
}

fn id(s: &str) -> Token {
    Token::Identifier(s.to_string())
}

#[test]
fn test_identifiers() {
    let input = "foo bar_baz _qux";
    let (spans, errors) = lex_and_collect(input);
    assert!(errors.is_empty());
    let tokens = items(spans);
    assert_eq!(
        tokens,
        vec![
            Token::Identifier("foo".to_string()),
            Token::Identifier("bar_baz".to_string()),
            Token::Identifier("_qux".to_string()),
        ]
    );
}

#[test]
fn test_identifier_and_keyword() {
    let input = "if foo then baz else bux";
    let (spans, errors) = lex_and_collect(input);
    assert!(errors.is_empty());
    let tokens = items(spans);
    assert_eq!(
        tokens,
        vec![
            Token::If,
            Token::Identifier("foo".to_string()),
            Token::Then,
            Token::Identifier("baz".to_string()),
            Token::Else,
            Token::Identifier("bux".to_string()),
        ]
    );
}

#[test]
fn test_numbers() {
    let input = "42 3.14 0.123 100.0";
    let (spans, errors) = lex_and_collect(input);
    assert!(errors.is_empty());
    let tokens = items(spans);
    assert_eq!(tokens.len(), 4);
    assert_eq!(tokens[0], Token::Int(42));
    assert_eq!(float(&tokens[1]), 3.14);
    assert_eq!(float(&tokens[2]), 0.123);
    assert_eq!(float(&tokens[3]), 100.0);
}

#[test]
fn test_unary_minus() {
    let input = "42 -34";
    let (spans, errors) = lex_and_collect(input);
    assert!(errors.is_empty());
    assert_eq!(spans[0].item, Token::Int(42));
    assert_eq!(spans[0].span, Span { start: Position { line: 0, col: 0 }, end: Position { line: 0, col: 2 } });
    assert_eq!(spans[1].item, Token::Minus);
    assert_eq!(spans[1].span, Span { start: Position { line: 0, col: 3 }, end: Position { line: 0, col: 4 } });
    assert_eq!(spans[2].item, Token::Int(34));
    assert_eq!(spans[2].span, Span { start: Position { line: 0, col: 4 }, end: Position { line: 0, col: 6 } });
}

#[test]
fn test_strings() {
    let input = r#""hello" "world" "with spaces""#;
    let (spans, errors) = lex_and_collect(input);
    assert!(errors.is_empty());
    let tokens = items(spans);
    assert_eq!(
        tokens,
        vec![
            Token::String("hello".to_string()),
            Token::String("world".to_string()),
            Token::String("with spaces".to_string()),
        ]
    );
}

#[test]
fn test_comments() {
    let input = "// This is a comment\nfoo // Another comment";
    let (spans, errors) = lex_and_collect(input);
    assert!(errors.is_empty());
    let tokens = items(spans);
    assert_eq!(tokens, vec![Token::Newline, Token::Identifier("foo".to_string())]);
}

#[test]
fn test_error_unexpected_character() {
    let input = "foo @ bar";
    let (spans, errors) = lex_and_collect(input);
    assert_eq!(spans.len(), 2);
    assert_eq!(errors.len(), 1);
    assert_eq!(errors[0].item, LexerError::UnexpectedCharacter);
    println!("{:#?}", errors[0].span);
    assert!(matches!(
        errors[0].span,
        Span { start: Position { line: 0, col: 4 }, end: Position { line: 0, col: 5 } }
    ))
}

#[test]
fn test_mixed_operators() {
    let input = "foo+-bar";
    let (spans, errors) = lex_and_collect(input);
    println!("{:?}", spans);
    println!("{:?}", errors);
}

#[test]
fn test_error_unterminated_string() {
    let input = "\"unterminated";
    let (spans, errors) = lex_and_collect(input);
    assert!(spans.is_empty());
    assert_eq!(errors.len(), 1);
    assert!(matches!(errors[0].item, LexerError::UnterminatedString));
}

#[test]
fn test_error_invalid_number() {
    let input = "123.456.789";
    let (spans, errors) = lex_and_collect(input);
    assert!(spans.is_empty());
    assert_eq!(errors.len(), 1);
    assert!(matches!(errors[0].item, LexerError::InvalidNumber));
}

#[test]
fn test_multiple_errors() {
    let input = r#"valid_token @ 123.456.789 "unterminated "#;
    let (spans, errors) = lex_and_collect(input);
    println!("{:?}", spans);
    println!("{:?}", errors);
    assert_eq!(spans.len(), 1);
    assert_eq!(errors.len(), 3);
    assert!(matches!(errors[0].item, LexerError::UnexpectedCharacter));
    assert!(matches!(errors[1].item, LexerError::InvalidNumber));
    assert!(matches!(errors[2].item, LexerError::UnterminatedString));
}

#[test]
fn test_span_information() {
    let input = "fou  bar\nbaz";
    let (spans, errors) = lex_and_collect(input);
    assert!(errors.is_empty());
    assert_eq!(spans[0].span.start, Position { line: 0, col: 0 });
    assert_eq!(spans[0].span.end, Position { line: 0, col: 3 });
    assert_eq!(spans[1].span.start, Position { line: 0, col: 5 });
    assert_eq!(spans[1].span.end, Position { line: 0, col: 8 });
    assert_eq!(spans[2].item, Token::Newline);
    assert_eq!(spans[3].span.start, Position { line: 1, col: 0 });
    assert_eq!(spans[3].span.end, Position { line: 1, col: 3 });
}

#[test]
fn test_whitespace_handling() {
    let input = "  foo \n\n\n  bar  ";
    let (spans, errors) = lex_and_collect(input);
    assert!(errors.is_empty());
    let tokens = items(spans);
    assert_eq!(
        tokens,
        vec![Token::Identifier("foo".to_string()), Token::Newline, Token::Identifier("bar".to_string())]
    );
}

#[test]
fn test_comparison_operators() {
    let input = "= == < <= > >=";
    let (spans, errors) = lex_and_collect(input);
    assert!(errors.is_empty());
    let tokens = items(spans);
    assert_eq!(tokens, vec![Token::Assign, Token::EqEq, Token::Lt, Token::LtEq, Token::Gt, Token::GtEq]);
}

#[test]
fn test_operators_in_expressions() {
    let input = "a = 5\nb == c\nx < y\np <= q\nr > s\nt >= u";
    let (spans, errors) = lex_and_collect(input);
    assert!(errors.is_empty());
    let tokens = items(spans);
    assert_eq!(
        tokens,
        vec![
            id("a"),
            Token::Assign,
            Token::Int(5),
            Token::Newline,
            id("b"),
            Token::EqEq,
            id("c"),
            Token::Newline,
            id("x"),
            Token::Lt,
            id("y"),
            Token::Newline,
            id("p"),
            Token::LtEq,
            id("q"),
            Token::Newline,
            id("r"),
            Token::Gt,
            id("s"),
            Token::Newline,
            id("t"),
            Token::GtEq,
            id("u"),
        ]
    );
}

#[test]
fn test_operator_spans() {
    let input = "a = b == c < d <= e > f >= g";
    let (spans, errors) = lex_and_collect(input);
    assert!(errors.is_empty());
    assert_eq!(spans[1].span, Span::new((0, 2), (0, 3)));
    assert_eq!(spans[3].span, Span::new((0, 6), (0, 8)));
    assert_eq!(spans[5].span, Span::new((0, 11), (0, 12)));
    assert_eq!(spans[7].span, Span::new((0, 15), (0, 17)));
    assert_eq!(spans[9].span, Span::new((0, 20), (0, 21)));
    assert_eq!(spans[11].span, Span::new((0, 24), (0, 26)));
    assert_eq!(spans[1].item, Token::Assign);
    assert_eq!(spans[3].item, Token::EqEq);
    assert_eq!(spans[5].item, Token::Lt);
    assert_eq!(spans[7].item, Token::LtEq);
    assert_eq!(spans[9].item, Token::Gt);
    assert_eq!(spans[11].item, Token::GtEq);
}

#[test]
fn letters_beyond_ascii_make_names() {
    let (spans, errors) = lex_and_collect("größe nñ1");
    assert!(errors.is_empty());
    assert_eq!(items(spans), vec![id("größe"), id("nñ1")]);
}

#[test]
fn a_symbol_beyond_ascii_is_no_letter() {
    let (spans, errors) = lex_and_collect("a × b");
    assert_eq!(items(spans), vec![id("a"), id("b")]);
    assert_eq!(errors.len(), 1);
    assert_eq!(errors[0].item, LexerError::UnexpectedCharacter);
}

#[test]
fn spaces_beyond_ascii_are_skipped() {
    let (spans, errors) = lex_and_collect("a\u{a0}\u{2003}b");
    assert!(errors.is_empty());
    assert_eq!(items(spans), vec![id("a"), id("b")]);
}

#[test]
fn numerals_beyond_ascii_continue_names() {
    let (spans, errors) = lex_and_collect("x²");
    assert!(errors.is_empty());
    assert_eq!(items(spans), vec![id("x²")]);
}

#[test]
fn escapes_in_strings() {
    let (spans, errors) = lex_and_collect(r#""a\tb\n\"\\ \u{1F438} \u{zz} \q""#);
    assert!(errors.is_empty());
    assert_eq!(items(spans), vec![Token::String("a\tb\n\"\\ 🐸 u{zz} q".to_string())]);
}

#[test]
fn a_surrogate_is_no_character() {
    let (spans, errors) = lex_and_collect(r#""\u{D800}""#);
    assert!(errors.is_empty());
    assert_eq!(items(spans), vec![Token::String("u{D800}".to_string())]);
}

#[test]
fn a_range_is_no_float() {
    let (spans, errors) = lex_and_collect("0..5");
    assert!(errors.is_empty());
    assert_eq!(items(spans), vec![Token::Int(0), Token::DotDot, Token::Int(5)]);
}

#[test]
fn exponents_make_floats() {
    let (spans, errors) = lex_and_collect("1e3 2.5e-2");
    assert!(errors.is_empty());
    let tokens = items(spans);
    assert_eq!(float(&tokens[0]), 1000.0);
    assert_eq!(float(&tokens[1]), 0.025);
}

#[test]
fn an_integer_that_does_not_fit_is_invalid() {
    let (spans, errors) = lex_and_collect("9223372036854775807 9223372036854775808");
    assert_eq!(items(spans), vec![Token::Int(9223372036854775807)]);
    assert_eq!(errors.len(), 1);
    assert_eq!(errors[0].item, LexerError::InvalidNumber);
}

#[test]
fn messages_of_lexer_errors() {
    assert_eq!(LexerError::UnexpectedCharacter.message(), "unexpected character");
    assert_eq!(LexerError::UnterminatedString.message(), "unterminated string literal");
    assert_eq!(LexerError::InvalidNumber.message(), "invalid number literal");
}

#[test]
fn the_end_is_a_token_that_repeats() {
    let mut lexer = Lexer::new("a");
    assert_eq!(lexer.next_token().unwrap().item, id("a"));
    assert_eq!(lexer.next_token().unwrap().item, Token::EOF);
    assert_eq!(lexer.next_token().unwrap().item, Token::EOF);
}

#[test]
fn positions_go_forward() {
    let mut lexer = Lexer::new("let x = \"a\nb\" // c\ny");
    let mut last = lexer.current_pos();
    loop {
        let t = lexer.next_token().unwrap();
        let here = lexer.current_pos();
        assert!(here.line > last.line || (here.line == last.line && here.col >= last.col));
        last = here;
        if t.item == Token::EOF {
            return;
        }
    }
}

#[test]
fn an_exponent_is_ascii_digits_with_a_minus_at_most() {
    let float = |s: &str| Token::Float(s.to_string());
    let zeros = |n: usize| "0".repeat(n);
    assert_eq!(items(lex_and_collect("1e100").0), vec![float(&format!("1{}", zeros(100)))]);
    assert_eq!(items(lex_and_collect("1e-7").0), vec![float(&format!("0.{}1", zeros(6)))]);
    assert_eq!(items(lex_and_collect("1e+5").0), vec![Token::Int(1), id("e"), Token::Plus, Token::Int(5)]);
    assert_eq!(items(lex_and_collect("1e\u{663}").0), vec![Token::Int(1), id("e\u{663}")]);
}

#[test]
fn nothing_follows_the_end() {
    let mut lexer = Lexer::new("a + \"b");
    let (tokens, errors) = lexer.collect_errors();
    assert_eq!((tokens.len(), errors.len()), (2, 1));
    let (tokens, errors) = lexer.collect_errors();
    assert!(tokens.is_empty() && errors.is_empty());
    assert_eq!(lexer.next_token().unwrap().item, Token::EOF);
}

#[test]
fn a_sign_is_no_part_of_a_float() {
    let (spans, errors) = lex_and_collect("-2.5");
    assert!(errors.is_empty());
    let tokens = items(spans);
    assert_eq!(tokens, vec![Token::Minus, Token::Float("2.5".to_string())]);
    assert_eq!(float(&tokens[1]), 2.5);
}

#[test]
fn a_float_is_its_number() {
    let shown = |src: &str| {
        let (spans, errors) = lex_and_collect(src);
        assert!(errors.is_empty());
        items(spans)[0].show()
    };
    assert_eq!(shown("1.50"), "1.5");
    assert_eq!(shown("100.0"), "100");
    assert_eq!(shown("0.0"), "0");
    assert_eq!(shown("007.25"), "7.25");
    assert_eq!(shown("0.001"), "0.001");
    assert_eq!(shown("2.5e-2"), "0.025");
    assert_eq!(shown("1.25e1"), "12.5");
    assert_eq!(shown("12e3"), "12000");
    assert_eq!(shown("1e999999999999999999999999999999999999"), "inf");
    assert_eq!(shown("1e-999999999999999999999999999999999999"), "0");
    for text in ["3.14", "0.1", "1e22", "1e100", "6.02214076e23", "1e-7", "123456.789", "0.3e-10", "9007199254740993.0"] {
        let f = text.parse::<f64>().unwrap();
        if text.len() < 15 {
            assert_eq!(shown(text), format!("{}", f));
        }
        assert_eq!(shown(text).parse::<f64>().unwrap(), f);
    }
    assert_eq!(items(lex_and_collect("1.0").0), items(lex_and_collect("1.00").0));
    assert_ne!(items(lex_and_collect("1.0").0), items(lex_and_collect("1.01").0));
}
