//! The SQL-level lexer.
//!
//! It tokenizes the whole input buffer into an ordered token stream that
//! covers every byte and is terminated by an explicit end-of-input token.
//! Invalid or unterminated constructs become an explicit `Invalid` token;
//! the scan itself never fails, whatever bytes it is given.

use vstd::prelude::*;

verus! {

use crate::{Span, is_ident_byte, is_ascii_identifier};
use crate::{B_TAB, B_NL, B_CR, B_SPACE, B_QUOTE, B_STAR, B_MINUS, B_SLASH, B_SEMI};

/// The kind tag of one SQL-level token.
#[derive(Copy, Clone, Debug, PartialEq, Eq, Structural)]
pub enum TokenKind {
    /// A run of whitespace bytes.
    Space,
    /// A run of identifier bytes (also covers numeric literals).
    Ident,
    /// A single-quoted string literal, quotes included.
    StrLit,
    /// A statement terminator `;`.
    Semicolon,
    /// A doc comment: `--` through the end of its line, newline excluded.
    /// Doc comments are kept distinct from ordinary comments because they
    /// are the candidates for annotation blocks.
    CommentDoc,
    /// An ordinary block comment `/* ... */`.
    Comment,
    /// Any other single byte.
    Other,
    /// An unterminated string literal or block comment; it runs to the end
    /// of the input.
    Invalid,
    /// The explicit end-of-input marker; its empty span sits at the end of
    /// the buffer.
    Eof,
}

/// A minimal lexical unit: a kind and the byte range it covers.
#[derive(Copy, Clone, Debug, PartialEq, Eq, Structural)]
pub struct Token {
    pub kind: TokenKind,
    pub span: Span,
}

/// True for the bytes that count as whitespace.
pub open spec fn is_space_byte(ch: u8) -> bool {
    ch == B_SPACE || ch == B_TAB || ch == B_NL || ch == B_CR
}

/// What the bytes under a token of each kind look like.
pub open spec fn token_wf(t: Token, input: Seq<u8>) -> bool {
    &&& t.span.valid(input.len() as int)
    &&& match t.kind {
        TokenKind::Space => forall|i: int|
            t.span.start <= i < t.span.end ==> is_space_byte(#[trigger] input[i]),
        TokenKind::Ident => forall|i: int|
            t.span.start <= i < t.span.end ==> is_ident_byte(#[trigger] input[i]),
        TokenKind::StrLit => t.span.spec_len() >= 2 && input[t.span.start as int] == B_QUOTE
            && input[t.span.end - 1] == B_QUOTE,
        TokenKind::Semicolon => t.span.spec_len() == 1 && input[t.span.start as int] == B_SEMI,
        TokenKind::CommentDoc => {
            &&& t.span.spec_len() >= 2
            &&& input[t.span.start as int] == B_MINUS
            &&& input[t.span.start + 1] == B_MINUS
            &&& forall|i: int| t.span.start <= i < t.span.end ==> #[trigger] input[i] != B_NL
            &&& (t.span.end == input.len() || input[t.span.end as int] == B_NL)
        },
        TokenKind::Comment => t.span.spec_len() >= 4 && input[t.span.start as int] == B_SLASH
            && input[t.span.start + 1] == B_STAR && input[t.span.end - 2] == B_STAR
            && input[t.span.end - 1] == B_SLASH,
        TokenKind::Other => t.span.spec_len() == 1,
        TokenKind::Invalid => t.span.start < t.span.end && t.span.end == input.len(),
        TokenKind::Eof => t.span.start == input.len() && t.span.end == input.len(),
    }
}

/// Maximal munch: no token stops where it could have gone on. A
/// whitespace or identifier run is not followed by a byte of its own
/// class, a string literal holds no inner quote, a block comment closes
/// at its first `*/`, a catch-all byte opens no other token, and an
/// `Invalid` token really is an unterminated literal or comment.
pub open spec fn token_maximal(t: Token, input: Seq<u8>) -> bool {
    match t.kind {
        TokenKind::Space => t.span.end == input.len() || !is_space_byte(
            input[t.span.end as int],
        ),
        TokenKind::Ident => t.span.end == input.len() || !is_ident_byte(
            input[t.span.end as int],
        ),
        TokenKind::StrLit => forall|i: int|
            t.span.start + 1 <= i < t.span.end - 1 ==> #[trigger] input[i] != B_QUOTE,
        TokenKind::Semicolon => true,
        TokenKind::CommentDoc => true,
        TokenKind::Comment => forall|i: int|
            t.span.start + 2 <= i < t.span.end - 2 ==> !(#[trigger] input[i] == B_STAR && input[i
                + 1] == B_SLASH),
        TokenKind::Other => {
            let b = input[t.span.start as int];
            &&& !is_space_byte(b)
            &&& !is_ident_byte(b)
            &&& b != B_QUOTE
            &&& b != B_SEMI
            &&& (b == B_MINUS ==> t.span.start + 1 == input.len() || input[t.span.start + 1]
                != B_MINUS)
            &&& (b == B_SLASH ==> t.span.start + 1 == input.len() || input[t.span.start + 1]
                != B_STAR)
        },
        TokenKind::Invalid => (input[t.span.start as int] == B_QUOTE && forall|i: int|
            t.span.start + 1 <= i < input.len() ==> #[trigger] input[i] != B_QUOTE) || (input[
            t.span.start as int
        ] == B_SLASH && input[t.span.start + 1] == B_STAR && forall|i: int|
            t.span.start + 2 <= i < input.len() - 1 ==> !(#[trigger] input[i] == B_STAR && input[i
                + 1] == B_SLASH)),
        TokenKind::Eof => true,
    }
}

/// The token stream the lexer guarantees: the tokens tile the whole buffer
/// in order — the first starts at byte 0, each starts where the previous
/// one ends, none but the final end-of-input marker is empty — and each
/// token's bytes match its kind.
pub open spec fn tokens_ok(ts: Seq<Token>, input: Seq<u8>) -> bool {
    &&& ts.len() >= 1
    &&& ts[ts.len() - 1].kind == TokenKind::Eof
    &&& ts[0].span.start == 0
    &&& forall|i: int|
        0 <= i < ts.len() - 1 ==> (#[trigger] ts[i].span).start < ts[i].span.end
    &&& forall|i: int|
        0 <= i < ts.len() - 1 ==> (#[trigger] ts[i].span).end == ts[i + 1].span.start
    &&& forall|i: int| 0 <= i < ts.len() ==> token_wf(#[trigger] ts[i], input)
    &&& forall|i: int| 0 <= i < ts.len() - 1 ==> (#[trigger] ts[i]).kind != TokenKind::Eof
}

/// The SQL lexer: borrows the input buffer and scans it in one pass.
pub struct Lexer<'a> {
    pub input: &'a [u8],
}

impl<'a> Lexer<'a> {
    pub fn new(input: &'a [u8]) -> (r: Lexer<'a>)
        ensures
            r.input@ == input@,
    {
        Lexer { input }
    }

    /// Tokenize the entire buffer.
    ///
    /// This always consumes every byte and always returns a stream that
    /// satisfies `tokens_ok`: the scan terminates on arbitrary input and
    /// represents invalid constructs as `Invalid` tokens instead of
    /// failing.
    pub fn run(self) -> (r: Vec<Token>)
        ensures
            tokens_ok(r@, self.input@),
            forall|i: int| 0 <= i < r@.len() ==> token_maximal(#[trigger] r@[i], self.input@),
    {
        let input = self.input;
        let len = input.len();
        let mut tokens: Vec<Token> = Vec::new();
        let mut pos: usize = 0;
        while pos < len
            invariant
                len == input@.len(),
                pos <= len,
                tokens@.len() == 0 ==> pos == 0,
                tokens@.len() > 0 ==> tokens@[0].span.start == 0,
                tokens@.len() > 0 ==> tokens@[tokens@.len() - 1].span.end == pos,
                forall|i: int|
                    0 <= i < tokens@.len() ==> (#[trigger] tokens@[i].span).start
                        < tokens@[i].span.end,
                forall|i: int|
                    0 <= i < tokens@.len() - 1 ==> (#[trigger] tokens@[i].span).end == tokens@[i
                        + 1].span.start,
                forall|i: int| 0 <= i < tokens@.len() ==> token_wf(#[trigger] tokens@[i], input@),
                forall|i: int|
                    0 <= i < tokens@.len() ==> token_maximal(#[trigger] tokens@[i], input@),
                forall|i: int|
                    0 <= i < tokens@.len() ==> (#[trigger] tokens@[i]).kind != TokenKind::Eof,
            decreases len - pos,
        {
            let b = input[pos];
            let kind: TokenKind;
            let end: usize;
            if b == B_SPACE || b == B_TAB || b == B_NL || b == B_CR {
                kind = TokenKind::Space;
                end = scan_space(input, pos);
            } else if is_ascii_identifier(b) {
                kind = TokenKind::Ident;
                end = scan_ident(input, pos);
            } else if b == B_QUOTE {
                match scan_string(input, pos) {
                    Some(e) => {
                        kind = TokenKind::StrLit;
                        end = e;
                    },
                    None => {
                        kind = TokenKind::Invalid;
                        end = len;
                    },
                }
            } else if b == B_SEMI {
                kind = TokenKind::Semicolon;
                end = pos + 1;
            } else if b == B_MINUS && pos + 1 < len && input[pos + 1] == B_MINUS {
                kind = TokenKind::CommentDoc;
                end = scan_line(input, pos);
            } else if b == B_SLASH && pos + 1 < len && input[pos + 1] == B_STAR {
                match scan_block_comment(input, pos) {
                    Some(e) => {
                        kind = TokenKind::Comment;
                        end = e;
                    },
                    None => {
                        kind = TokenKind::Invalid;
                        end = len;
                    },
                }
            } else {
                kind = TokenKind::Other;
                end = pos + 1;
            }
            tokens.push(Token { kind, span: Span { start: pos, end } });
            pos = end;
        }
        tokens.push(
            Token { kind: TokenKind::Eof, span: Span { start: len, end: len } },
        );
        tokens
    }
}

/// Extend a whitespace run: the first position at or after `start` that
/// does not hold a whitespace byte.
fn scan_space(input: &[u8], start: usize) -> (end: usize)
    requires
        start < input@.len(),
        is_space_byte(input@[start as int]),
    ensures
        start < end <= input@.len(),
        forall|i: int| start <= i < end ==> is_space_byte(#[trigger] input@[i]),
        end == input@.len() || !is_space_byte(input@[end as int]),
{
    let len = input.len();
    let mut end = start + 1;
    while end < len && (input[end] == B_SPACE || input[end] == B_TAB || input[end] == B_NL
        || input[end] == B_CR)
        invariant
            len == input@.len(),
            start < end <= len,
            forall|i: int| start <= i < end ==> is_space_byte(#[trigger] input@[i]),
        decreases len - end,
    {
        end = end + 1;
    }
    end
}

/// Extend an identifier run: the first position at or after `start` that
/// does not hold an identifier byte.
fn scan_ident(input: &[u8], start: usize) -> (end: usize)
    requires
        start < input@.len(),
        is_ident_byte(input@[start as int]),
    ensures
        start < end <= input@.len(),
        forall|i: int| start <= i < end ==> is_ident_byte(#[trigger] input@[i]),
        end == input@.len() || !is_ident_byte(input@[end as int]),
{
    let len = input.len();
    let mut end = start + 1;
    while end < len && is_ascii_identifier(input[end])
        invariant
            len == input@.len(),
            start < end <= len,
            forall|i: int| start <= i < end ==> is_ident_byte(#[trigger] input@[i]),
        decreases len - end,
    {
        end = end + 1;
    }
    end
}

/// Scan a single-quoted string literal starting at the opening quote.
/// Returns the position one past the closing quote, or `None` when the
/// literal is unterminated.
fn scan_string(input: &[u8], start: usize) -> (r: Option<usize>)
    requires
        start < input@.len(),
        input@[start as int] == B_QUOTE,
    ensures
        r is Some ==> start + 2 <= r->Some_0 <= input@.len() && input@[r->Some_0 - 1] == B_QUOTE
            && forall|k: int| start + 1 <= k < r->Some_0 - 1 ==> #[trigger] input@[k] != B_QUOTE,
        r is None ==> forall|k: int| start + 1 <= k < input@.len() ==> #[trigger] input@[k]
            != B_QUOTE,
{
    let len = input.len();
    let mut i = start + 1;
    while i < len && input[i] != B_QUOTE
        invariant
            len == input@.len(),
            start < i <= len,
            forall|k: int| start + 1 <= k < i ==> #[trigger] input@[k] != B_QUOTE,
        decreases len - i,
    {
        i = i + 1;
    }
    if i < len {
        Some(i + 1)
    } else {
        None
    }
}

/// Scan to the end of the line: the position of the next newline at or
/// after `start`, or the end of the input.
fn scan_line(input: &[u8], start: usize) -> (end: usize)
    requires
        start <= input@.len(),
    ensures
        start <= end <= input@.len(),
        forall|i: int| start <= i < end ==> #[trigger] input@[i] != B_NL,
        end == input@.len() || input@[end as int] == B_NL,
{
    let len = input.len();
    let mut end = start;
    while end < len && input[end] != B_NL
        invariant
            len == input@.len(),
            start <= end <= len,
            forall|i: int| start <= i < end ==> #[trigger] input@[i] != B_NL,
        decreases len - end,
    {
        end = end + 1;
    }
    end
}

/// Scan a block comment starting at its `/*`. Returns the position one
/// past the closing `*/`, or `None` when the comment is unterminated.
fn scan_block_comment(input: &[u8], start: usize) -> (r: Option<usize>)
    requires
        start + 1 < input@.len(),
        input@[start as int] == B_SLASH,
        input@[start + 1] == B_STAR,
    ensures
        r is Some ==> start + 4 <= r->Some_0 <= input@.len() && input@[r->Some_0 - 2] == B_STAR
            && input@[r->Some_0 - 1] == B_SLASH && forall|k: int|
            start + 2 <= k < r->Some_0 - 2 ==> !(#[trigger] input@[k] == B_STAR && input@[k + 1]
                == B_SLASH),
        r is None ==> forall|k: int|
            start + 2 <= k < input@.len() - 1 ==> !(#[trigger] input@[k] == B_STAR && input@[k + 1]
                == B_SLASH),
{
    let len = input.len();
    let mut i = start + 2;
    while i < len - 1 && !(input[i] == B_STAR && input[i + 1] == B_SLASH)
        invariant
            len == input@.len(),
            2 <= len,
            start + 2 <= i <= len,
            forall|k: int|
                start + 2 <= k < i ==> !(#[trigger] input@[k] == B_STAR && input@[k + 1]
                    == B_SLASH),
        decreases len - i,
    {
        i = i + 1;
    }
    if i < len - 1 {
        Some(i + 2)
    } else {
        None
    }
}

} // verus!
