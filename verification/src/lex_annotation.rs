//! The annotation-level lexer.
//!
//! It tokenizes the contents of one annotation comment line — handed to it
//! by the document parser as a byte sub-range — into directive tokens. The
//! sub-range carries file-absolute offsets, so every span this lexer emits
//! resolves against the original buffer, never against the sub-range.

use vstd::prelude::*;

verus! {

use crate::{Span, is_ident_byte, is_ascii_identifier};
use crate::{B_TAB, B_CR, B_SPACE, B_COMMA, B_MINUS, B_COLON, B_GT, B_AT};
use crate::error::{ParseError, PResult};

/// The kind tag of one annotation-level token.
#[derive(Copy, Clone, Debug, PartialEq, Eq, Structural)]
pub enum AnnTokenKind {
    /// The `@` that opens a directive.
    At,
    /// An identifier or type name.
    Ident,
    /// The `:` between a parameter name and its type.
    Colon,
    /// The `->` that opens the result-type clause.
    Arrow,
    /// The `,` between parameter pairs.
    Comma,
}

/// One annotation-level token: a kind and the byte range it covers, as
/// file-absolute offsets into the original buffer.
#[derive(Copy, Clone, Debug, PartialEq, Eq, Structural)]
pub struct AnnToken {
    pub kind: AnnTokenKind,
    pub span: Span,
}

/// What the bytes under an annotation token of each kind look like.
pub open spec fn ann_token_wf(t: AnnToken, input: Seq<u8>) -> bool {
    &&& t.span.valid(input.len() as int)
    &&& t.span.start < t.span.end
    &&& match t.kind {
        AnnTokenKind::At => t.span.spec_len() == 1 && input[t.span.start as int] == B_AT,
        AnnTokenKind::Ident => forall|i: int|
            t.span.start <= i < t.span.end ==> is_ident_byte(#[trigger] input[i]),
        AnnTokenKind::Colon => t.span.spec_len() == 1 && input[t.span.start as int] == B_COLON,
        AnnTokenKind::Arrow => t.span.spec_len() == 2 && input[t.span.start as int] == B_MINUS
            && input[t.span.start + 1] == B_GT,
        AnnTokenKind::Comma => t.span.spec_len() == 1 && input[t.span.start as int] == B_COMMA,
    }
}

/// True for the bytes the annotation lexer skips between tokens.
pub open spec fn is_blank_byte(ch: u8) -> bool {
    ch == B_SPACE || ch == B_TAB || ch == B_CR
}

/// The stream the annotation lexer guarantees: each token is well-formed,
/// lies within the sub-range it was asked to scan, and the tokens appear
/// in strictly increasing source order.
pub open spec fn ann_tokens_ok(ts: Seq<AnnToken>, input: Seq<u8>, content: Span) -> bool {
    &&& forall|i: int| 0 <= i < ts.len() ==> ann_token_wf(#[trigger] ts[i], input)
    &&& forall|i: int|
        0 <= i < ts.len() ==> content.start <= (#[trigger] ts[i]).span.start && ts[i].span.end
            <= content.end
    &&& forall|i: int|
        0 <= i < ts.len() - 1 ==> (#[trigger] ts[i]).span.end <= ts[i + 1].span.start
}

/// The first position in `[pos, end)` that holds a non-blank byte, or
/// `end` when there is none. Opaque: proofs reveal it where a scan steps.
#[verifier::opaque]
pub open spec fn first_content_byte(input: Seq<u8>, pos: int, end: int) -> int
    decreases end - pos,
{
    if pos >= end {
        end
    } else if is_blank_byte(input[pos]) {
        first_content_byte(input, pos + 1, end)
    } else {
        pos
    }
}

/// The tokens cover every non-blank byte of the sub-range: the first
/// token starts at the sub-range's first non-blank byte, each later token
/// starts at the first non-blank byte after its predecessor, and after
/// the last token only blanks remain. Opaque: callers carry it as a fact
/// without paying for its unfolding.
#[verifier::opaque]
pub open spec fn ann_tokens_cover(ts: Seq<AnnToken>, input: Seq<u8>, content: Span) -> bool {
    &&& (ts.len() == 0 ==> first_content_byte(input, content.start as int, content.end as int)
        == content.end)
    &&& (ts.len() > 0 ==> first_content_byte(input, content.start as int, content.end as int)
        == ts[0].span.start)
    &&& (ts.len() > 0 ==> first_content_byte(
        input,
        ts[ts.len() - 1].span.end as int,
        content.end as int,
    ) == content.end)
    &&& forall|i: int|
        0 <= i < ts.len() - 1 ==> first_content_byte(
            input,
            (#[trigger] ts[i]).span.end as int,
            content.end as int,
        ) == ts[i + 1].span.start
}

/// Maximal munch for the annotation lexer: two identifier tokens never
/// touch, so one identifier cannot be split across tokens (with the cover
/// and the token shapes, a split would put the second piece, an
/// identifier token, directly at the first piece's end). Opaque as the
/// cover is.
#[verifier::opaque]
pub open spec fn ann_idents_maximal(ts: Seq<AnnToken>) -> bool {
    forall|i: int|
        0 <= i < ts.len() - 1 ==> !((#[trigger] ts[i]).kind == AnnTokenKind::Ident && ts[i
            + 1].kind == AnnTokenKind::Ident && ts[i + 1].span.start == ts[i].span.end)
}

/// The byte on which the annotation lexer fails: it opens no token.
pub open spec fn ann_error_byte(b: u8, at: int, content: Span, input: Seq<u8>) -> bool {
    &&& !is_blank_byte(b)
    &&& !is_ident_byte(b)
    &&& b != B_AT
    &&& b != B_COLON
    &&& b != B_COMMA
    &&& (b == B_MINUS ==> at + 1 >= content.end || input[at + 1] != B_GT)
}

/// Tokenize the contents of one annotation comment line.
///
/// Whitespace is skipped; any byte that opens no token is a
/// malformed-annotation error whose span lands on exactly that byte.
#[verifier::rlimit(100)]
#[verifier::spinoff_prover]
pub fn lex_annotation(input: &[u8], content: Span) -> (r: PResult<Vec<AnnToken>>)
    requires
        content.valid(input@.len() as int),
    ensures
        r is Ok ==> ann_tokens_ok(r->Ok_0@, input@, content),
        r is Ok ==> ann_tokens_cover(r->Ok_0@, input@, content),
        r is Ok ==> ann_idents_maximal(r->Ok_0@),
        r is Err ==> r->Err_0.span.valid(input@.len() as int) && content.start
            <= r->Err_0.span.start && r->Err_0.span.end <= content.end,
        r is Err ==> r->Err_0.span.spec_len() == 1 && ann_error_byte(
            input@[r->Err_0.span.start as int],
            r->Err_0.span.start as int,
            content,
            input@,
        ),
{
    let mut ts: Vec<AnnToken> = Vec::new();
    let mut pos: usize = content.start;
    while pos < content.end
        invariant
            content.valid(input@.len() as int),
            content.start <= pos <= content.end,
            forall|i: int| 0 <= i < ts@.len() ==> ann_token_wf(#[trigger] ts@[i], input@),
            forall|i: int|
                0 <= i < ts@.len() ==> content.start <= (#[trigger] ts@[i]).span.start
                    && ts@[i].span.end <= pos,
            forall|i: int|
                0 <= i < ts@.len() - 1 ==> (#[trigger] ts@[i]).span.end <= ts@[i + 1].span.start,
            forall|i: int|
                0 <= i < ts@.len() - 1 ==> !((#[trigger] ts@[i]).kind == AnnTokenKind::Ident
                    && ts@[i + 1].kind == AnnTokenKind::Ident && ts@[i + 1].span.start
                    == ts@[i].span.end),
            ts@.len() > 0 && ts@[ts@.len() - 1].kind == AnnTokenKind::Ident ==> (ts@[ts@.len()
                - 1].span.end == content.end || !is_ident_byte(
                input@[ts@[ts@.len() - 1].span.end as int],
            )),
            ts@.len() == 0 ==> first_content_byte(input@, content.start as int, content.end as int)
                == first_content_byte(input@, pos as int, content.end as int),
            ts@.len() > 0 ==> first_content_byte(input@, content.start as int, content.end as int)
                == ts@[0].span.start,
            ts@.len() > 0 ==> first_content_byte(
                input@,
                ts@[ts@.len() - 1].span.end as int,
                content.end as int,
            ) == first_content_byte(input@, pos as int, content.end as int),
            forall|i: int|
                0 <= i < ts@.len() - 1 ==> first_content_byte(
                    input@,
                    (#[trigger] ts@[i]).span.end as int,
                    content.end as int,
                ) == ts@[i + 1].span.start,
        decreases content.end - pos,
    {
        let b = input[pos];
        if b == B_SPACE || b == B_TAB || b == B_CR {
            proof {
                assert(first_content_byte(input@, pos as int, content.end as int)
                    == first_content_byte(input@, pos + 1, content.end as int)) by {
                    reveal_with_fuel(first_content_byte, 2);
                }
            }
            pos = pos + 1;
        } else {
            let kind: AnnTokenKind;
            let end: usize;
            if is_ascii_identifier(b) {
                kind = AnnTokenKind::Ident;
                end = scan_ident_to(input, pos, content.end);
            } else if b == B_AT {
                kind = AnnTokenKind::At;
                end = pos + 1;
            } else if b == B_COLON {
                kind = AnnTokenKind::Colon;
                end = pos + 1;
            } else if b == B_COMMA {
                kind = AnnTokenKind::Comma;
                end = pos + 1;
            } else if b == B_MINUS && pos + 1 < content.end && input[pos + 1] == B_GT {
                kind = AnnTokenKind::Arrow;
                end = pos + 2;
            } else {
                return Err(
                    ParseError::new(
                        Span { start: pos, end: pos + 1 },
                        "Unexpected character in annotation.",
                    ),
                );
            }
            let tok = AnnToken { kind, span: Span { start: pos, end } };
            let ghost ts0 = ts@;
            ts.push(tok);
            proof {
                assert(ts@ =~= ts0.push(tok));
                assert(forall|i: int| 0 <= i < ts0.len() ==> #[trigger] ts@[i] == ts0[i]);
                assert(ts@[ts@.len() - 1] == tok);
                if ts0.len() > 0 {
                    assert(ts@[0] == ts0[0]);
                }
                assert(first_content_byte(input@, pos as int, content.end as int)
                    == pos as int) by {
                    reveal_with_fuel(first_content_byte, 2);
                }
                assert(ann_token_wf(tok, input@));
                assert forall|i: int|
                    0 <= i < ts@.len() - 1 implies !((#[trigger] ts@[i]).kind
                    == AnnTokenKind::Ident && ts@[i + 1].kind == AnnTokenKind::Ident && ts@[i
                    + 1].span.start == ts@[i].span.end) by {
                    if i < ts0.len() - 1 {
                        assert(ts@[i] == ts0[i]);
                        assert(ts@[i + 1] == ts0[i + 1]);
                    } else {
                        assert(ts@[i] == ts0[ts0.len() - 1]);
                        assert(ts@[i + 1] == tok);
                    }
                }
                if ts0.len() > 0 {
                    assert(first_content_byte(
                        input@,
                        ts0[ts0.len() - 1].span.end as int,
                        content.end as int,
                    ) == pos as int);
                }
                assert forall|i: int| 0 <= i < ts@.len() - 1 implies first_content_byte(
                    input@,
                    (#[trigger] ts@[i]).span.end as int,
                    content.end as int,
                ) == ts@[i + 1].span.start by {
                    if i < ts0.len() - 1 {
                        assert(ts@[i] == ts0[i]);
                        assert(ts@[i + 1] == ts0[i + 1]);
                    } else {
                        assert(ts@[i] == ts0[ts0.len() - 1]);
                        assert(ts@[i + 1] == tok);
                    }
                }
            }
            pos = end;
        }
    }
    proof {
        assert(first_content_byte(input@, pos as int, content.end as int) == content.end) by {
            reveal_with_fuel(first_content_byte, 1);
        }
        assert(ann_tokens_cover(ts@, input@, content)) by {
            reveal(ann_tokens_cover);
        }
        assert(ann_idents_maximal(ts@)) by {
            reveal(ann_idents_maximal);
        }
    }
    Ok(ts)
}

/// Extend an identifier run, staying within `limit`.
fn scan_ident_to(input: &[u8], start: usize, limit: usize) -> (end: usize)
    requires
        start < limit <= input@.len(),
        is_ident_byte(input@[start as int]),
    ensures
        start < end <= limit,
        forall|i: int| start <= i < end ==> is_ident_byte(#[trigger] input@[i]),
        end == limit || !is_ident_byte(input@[end as int]),
{
    let mut end = start + 1;
    while end < limit && is_ascii_identifier(input[end])
        invariant
            limit <= input@.len(),
            start < end <= limit,
            forall|i: int| start <= i < end ==> is_ident_byte(#[trigger] input@[i]),
        decreases limit - end,
    {
        end = end + 1;
    }
    end
}

} // verus!
