use froglang_core::diagnostics::render_span;
use froglang_core::tokens::{Position, Span};

fn span(sl: u32, sc: u32, el: u32, ec: u32) -> Span {
    Span { start: Position { line: sl, col: sc }, end: Position { line: el, col: ec } }
}

#[test]
fn renders_the_offending_line_with_a_caret_under_the_span() {
    let src = "let x = 1\nlet y = x + z\n";
    let out = render_span("<repl>", src, span(1, 12, 1, 13), "unknown name 'z'");
    assert_eq!(
        out,
        "error: unknown name 'z'\n  --> <repl>:2:13\n  |\n2 | let y = x + z\n  |             ^"
    );
}

#[test]
fn multi_column_span_gets_a_matching_caret_width() {
    let src = "foo + bar\n";
    let out = render_span("f.frog", src, span(0, 0, 0, 3), "type mismatch");
    assert!(out.contains("1 | foo + bar"), "{out}");
    assert!(out.ends_with("^^^"), "{out}");
}

#[test]
fn a_span_past_the_end_of_source_does_not_panic() {
    let out = render_span("<repl>", "", span(4, 0, 4, 1), "oops");
    assert!(out.contains("5 | "), "{out}");
}

#[test]
fn a_gutter_is_as_wide_as_its_number() {
    let src = "a\nb\nc\nd\ne\nf\ng\nh\ni\nj k\n";
    let out = render_span("f", src, span(9, 2, 9, 3), "m");
    assert_eq!(out, "error: m\n   --> f:10:3\n   |\n10 | j k\n   |   ^");
}

#[test]
fn an_empty_span_still_gets_a_caret() {
    let out = render_span("f", "ab\r\n", span(0, 1, 0, 1), "m");
    assert_eq!(out, "error: m\n  --> f:1:2\n  |\n1 | ab\n  |  ^");
}
