//! Parsing for source documents that interleave verbatim SQL text with
//! structured annotations (query name, typed parameters, result type).
//!
//! The pipeline turns a raw byte buffer into a span-annotated document tree:
//! bytes -> SQL lexer -> token stream -> document parser -> `ast::Document`.
//! On failure the parser returns a single `error::ParseError` that points at
//! exact byte offsets of the original buffer, which the diagnostic renderer
//! in `error` turns into a human-readable report.

use vstd::prelude::*;

pub mod ast;
pub mod error;
pub mod lex_annotation;
pub mod lex_sql;
pub mod parse;

verus! {

use vstd::utf8::{valid_utf8, decode_utf8};

// Byte values of the ASCII characters the grammar depends on.
pub const B_TAB: u8 = 9;
pub const B_NL: u8 = 10;
pub const B_CR: u8 = 13;
pub const B_SPACE: u8 = 32;
pub const B_QUOTE: u8 = 39;
pub const B_STAR: u8 = 42;
pub const B_COMMA: u8 = 44;
pub const B_MINUS: u8 = 45;
pub const B_SLASH: u8 = 47;
pub const B_COLON: u8 = 58;
pub const B_SEMI: u8 = 59;
pub const B_GT: u8 = 62;
pub const B_AT: u8 = 64;
pub const B_UNDERSCORE: u8 = 95;
pub const B_0: u8 = 48;
pub const B_9: u8 = 57;
pub const B_UPPER_A: u8 = 65;
pub const B_UPPER_Z: u8 = 90;
pub const B_LOWER_A: u8 = 97;
pub const B_LOWER_Z: u8 = 122;

/// True for the bytes that may occur in an identifier.
///
/// This returns true also for digits, even though identifiers should not
/// start with a digit; rejecting a leading digit is left to later stages.
pub open spec fn is_ident_byte(ch: u8) -> bool {
    (B_LOWER_A <= ch && ch <= B_LOWER_Z) || (B_UPPER_A <= ch && ch <= B_UPPER_Z) || (B_0 <= ch
        && ch <= B_9) || ch == B_UNDERSCORE
}

/// Check if a byte is part of an identifier.
///
/// This returns true also for digits, even though identifiers should not
/// start with a digit.
pub fn is_ascii_identifier(ch: u8) -> (r: bool)
    ensures
        r == is_ident_byte(ch),
{
    (B_LOWER_A <= ch && ch <= B_LOWER_Z) || (B_UPPER_A <= ch && ch <= B_UPPER_Z) || (B_0 <= ch
        && ch <= B_9) || ch == B_UNDERSCORE
}

/// A half-open byte range `[start, end)` into the source buffer.
#[derive(Copy, Clone, Debug, PartialEq, Eq, Structural)]
pub struct Span {
    pub start: usize,
    pub end: usize,
}

impl Span {
    /// A span is valid for a buffer when it lies within the buffer's bounds.
    pub open spec fn valid(self, len: int) -> bool {
        self.start <= self.end && self.end <= len
    }

    /// The bytes of the buffer that this span covers.
    pub open spec fn bytes_of(self, input: Seq<u8>) -> Seq<u8> {
        input.subrange(self.start as int, self.end as int)
    }

    pub open spec fn spec_len(self) -> int {
        self.end - self.start
    }

    /// The number of bytes this span covers.
    pub fn len(&self) -> (r: usize)
        requires
            self.start <= self.end,
        ensures
            r == self.spec_len(),
    {
        self.end - self.start
    }

    /// Return the slice from the input that this span spans.
    ///
    /// The spanned bytes must be valid UTF-8; `try_resolve` is the total
    /// variant for callers that cannot guarantee that.
    pub fn resolve<'a>(&self, input: &'a [u8]) -> (r: &'a str)
        requires
            self.valid(input@.len() as int),
            valid_utf8(self.bytes_of(input@)),
        ensures
            r@ == decode_utf8(self.bytes_of(input@)),
    {
        match bytes_as_str(&input[self.start..self.end]) {
            Some(s) => s,
            None => unreached(),
        }
    }

    /// Return the slice from the input that this span spans, or `None` when
    /// the span is out of bounds or does not cover valid UTF-8.
    pub fn try_resolve<'a>(&self, input: &'a [u8]) -> (r: Option<&'a str>)
        ensures
            r is Some <==> (self.valid(input@.len() as int) && valid_utf8(
                self.bytes_of(input@),
            )),
            r is Some ==> r->Some_0@ == decode_utf8(self.bytes_of(input@)),
    {
        if self.start <= self.end && self.end <= input.len() {
            bytes_as_str(&input[self.start..self.end])
        } else {
            None
        }
    }
}

/// Relies on `core::str::from_utf8`: it succeeds exactly on valid UTF-8 and
/// returns the string slice over the same bytes.
#[verifier::external_body]
fn bytes_as_str(bytes: &[u8]) -> (r: Option<&str>)
    ensures
        r is Some <==> valid_utf8(bytes@),
        r is Some ==> r->Some_0@ == decode_utf8(bytes@),
{
    core::str::from_utf8(bytes).ok()
}

} // verus!
