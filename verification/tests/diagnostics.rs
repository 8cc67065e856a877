use querybinder::error::{highlight_span_in_line, render_error, ParseError};
use querybinder::Span;

#[test]
fn highlight_single_byte_span() {
    let input = b"SELECT * FROM t;\nfoo";
    let out = highlight_span_in_line("test.sql", input, Span { start: 7, end: 8 });
    assert_eq!(out, "--> test.sql:1:7\n  |\n1 | SELECT * FROM t;\n  |        ^\n");
}

#[test]
fn underline_is_clamped_to_the_line() {
    // The span runs over the newline; the underline must stop at the
    // line's end instead of spilling onto the next line.
    let input = b"abc\ndef";
    let out = highlight_span_in_line("f", input, Span { start: 0, end: 7 });
    assert_eq!(out, "--> f:1:0\n  |\n1 | abc\n  | ^~~\n");
}

#[test]
fn zero_length_span_still_gets_one_mark() {
    let input = b"abc";
    let out = highlight_span_in_line("f", input, Span { start: 1, end: 1 });
    assert_eq!(out, "--> f:1:1\n  |\n1 | abc\n  |  ^\n");
}

#[test]
fn span_on_second_line() {
    let input = b"a\nbcd";
    let out = highlight_span_in_line("f", input, Span { start: 2, end: 3 });
    assert_eq!(out, "--> f:2:0\n  |\n2 | bcd\n  | ^\n");
}

#[test]
fn gutter_width_follows_the_line_number() {
    // Eleven newlines put the span on line 12; the gutter grows to two
    // columns and the padding rows follow it.
    let mut input: Vec<u8> = Vec::new();
    for _ in 0..11 {
        input.extend_from_slice(b"a\n");
    }
    input.push(b'b');
    let start = input.len() - 1;
    let out = highlight_span_in_line("f", &input, Span { start, end: start + 1 });
    assert_eq!(out, "--> f:12:0\n   |\n12 | b\n   | ^\n");
}

#[test]
fn column_counts_bytes_not_display_width() {
    // The column is the byte offset in the line: the two-byte character
    // makes the caret column 3 even though it displays at 2.
    let input = "h\u{e9}llo".as_bytes();
    let out = highlight_span_in_line("f", input, Span { start: 3, end: 4 });
    assert_eq!(out, "--> f:1:3\n  |\n1 | h\u{e9}llo\n  |    ^\n");
}

#[test]
fn invalid_utf8_line_is_rendered_lossily() {
    let input = b"\xffx";
    let out = highlight_span_in_line("f", input, Span { start: 1, end: 2 });
    assert_eq!(out, "--> f:1:1\n  |\n1 | \u{fffd}x\n  |  ^\n");
}

#[test]
fn render_error_with_note_and_hint() {
    let input = b"abc";
    let err = ParseError {
        span: Span { start: 0, end: 1 },
        message: "Boom",
        note: Some(("look here", Some(Span { start: 2, end: 3 }))),
        hint: Some("fix it"),
    };
    let out = render_error(&err, "x", input);
    let expected = "Error: Boom\n--> x:1:0\n  |\n1 | abc\n  | ^\n\
                    Note: look here\n--> x:1:2\n  |\n1 | abc\n  |   ^\n\
                    Hint: fix it\n";
    assert_eq!(out, expected);
}

#[test]
fn render_error_without_note_or_hint() {
    let input = b"abc";
    let err = ParseError::new(Span { start: 1, end: 2 }, "Plain");
    let out = render_error(&err, "f", input);
    assert_eq!(out, "Error: Plain\n--> f:1:1\n  |\n1 | abc\n  |  ^\n");
}

#[test]
fn out_of_bounds_span_is_clamped_not_fatal() {
    let input = b"short";
    let err = ParseError::new(Span { start: 50, end: 60 }, "Off the end");
    let out = render_error(&err, "f", input);
    // The span is clamped to the end of the buffer before rendering.
    assert_eq!(out, "Error: Off the end\n--> f:1:5\n  |\n1 | short\n  |      ^\n");
}

#[test]
fn span_resolution() {
    let input = b"hello world";
    let s = Span { start: 0, end: 5 };
    assert_eq!(s.resolve(input), "hello");
    assert_eq!(s.len(), 5);
    assert_eq!(s.try_resolve(input), Some("hello"));
    // Out of bounds and invalid UTF-8 both yield None.
    assert_eq!(Span { start: 0, end: 100 }.try_resolve(input), None);
    assert_eq!(Span { start: 1, end: 2 }.try_resolve(b"\xff\xff"), None);
}

#[test]
fn parse_error_renders_a_full_report() {
    let input = b"-- @query \nSELECT 1;";
    let err = querybinder::parse::parse(input).expect_err("parse should fail");
    let out = render_error(&err, "queries.sql", input);
    let expected = "Error: Expected a name for the query after '@query'.\n\
                    --> queries.sql:1:9\n  |\n1 | -- @query \n  |          ^\n";
    assert_eq!(out, expected);
}
