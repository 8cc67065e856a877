use querybinder::is_ascii_identifier;
use querybinder::lex_sql::{Lexer, Token, TokenKind};
use querybinder::Span;

fn lex(input: &[u8]) -> Vec<Token> {
    Lexer::new(input).run()
}

#[test]
fn identifier_bytes() {
    assert!(is_ascii_identifier(b'a'));
    assert!(is_ascii_identifier(b'Z'));
    assert!(is_ascii_identifier(b'0'));
    assert!(is_ascii_identifier(b'_'));
    assert!(!is_ascii_identifier(b'-'));
    assert!(!is_ascii_identifier(b' '));
    assert!(!is_ascii_identifier(b'@'));
}

#[test]
fn simple_statement_tokens() {
    let tokens = lex(b"SELECT 1;");
    let kinds: Vec<TokenKind> = tokens.iter().map(|t| t.kind).collect();
    assert_eq!(
        kinds,
        vec![
            TokenKind::Ident,
            TokenKind::Space,
            TokenKind::Ident,
            TokenKind::Semicolon,
            TokenKind::Eof,
        ]
    );
    assert_eq!(tokens[0].span, Span { start: 0, end: 6 });
    assert_eq!(tokens[3].span, Span { start: 8, end: 9 });
}

#[test]
fn tokens_tile_the_input() {
    let input = b"-- doc\nSELECT 'a;b' /* c */ FROM t;\n\xf0bad";
    let tokens = lex(input);
    assert!(!tokens.is_empty());
    assert_eq!(tokens[0].span.start, 0);
    for w in tokens.windows(2) {
        assert_eq!(w[0].span.end, w[1].span.start);
    }
    let last = tokens.last().unwrap();
    assert_eq!(last.kind, TokenKind::Eof);
    assert_eq!(last.span, Span { start: input.len(), end: input.len() });
}

#[test]
fn doc_comment_stops_at_newline() {
    let tokens = lex(b"--x\nrest");
    assert_eq!(tokens[0].kind, TokenKind::CommentDoc);
    assert_eq!(tokens[0].span, Span { start: 0, end: 3 });
    assert_eq!(tokens[1].kind, TokenKind::Space);
}

#[test]
fn block_comment_is_one_token() {
    let tokens = lex(b"/* hi -- there */;");
    assert_eq!(tokens[0].kind, TokenKind::Comment);
    assert_eq!(tokens[0].span, Span { start: 0, end: 17 });
    assert_eq!(tokens[1].kind, TokenKind::Semicolon);
}

#[test]
fn unterminated_block_comment_is_invalid() {
    let tokens = lex(b"/* oops");
    assert_eq!(tokens[0].kind, TokenKind::Invalid);
    assert_eq!(tokens[0].span, Span { start: 0, end: 7 });
    assert_eq!(tokens[1].kind, TokenKind::Eof);
}

#[test]
fn string_literal_token() {
    let tokens = lex(b"'a b;c'");
    assert_eq!(tokens[0].kind, TokenKind::StrLit);
    assert_eq!(tokens[0].span, Span { start: 0, end: 7 });
}

#[test]
fn unterminated_string_is_invalid() {
    let tokens = lex(b"'oops");
    assert_eq!(tokens[0].kind, TokenKind::Invalid);
    assert_eq!(tokens[0].span, Span { start: 0, end: 5 });
}

#[test]
fn lone_dash_and_slash_are_other() {
    let tokens = lex(b"- /x");
    let kinds: Vec<TokenKind> = tokens.iter().map(|t| t.kind).collect();
    assert_eq!(
        kinds,
        vec![
            TokenKind::Other,
            TokenKind::Space,
            TokenKind::Other,
            TokenKind::Ident,
            TokenKind::Eof,
        ]
    );
}

#[test]
fn lexer_consumes_arbitrary_bytes() {
    let mut input: Vec<u8> = Vec::new();
    for b in 0..=255u8 {
        input.push(b);
    }
    let tokens = lex(&input);
    let last = tokens.last().unwrap();
    assert_eq!(last.kind, TokenKind::Eof);
    assert_eq!(last.span.end, input.len());
    for w in tokens.windows(2) {
        assert_eq!(w[0].span.end, w[1].span.start);
    }
}
