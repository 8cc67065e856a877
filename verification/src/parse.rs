//! The document parser.
//!
//! It drives the SQL lexer's token stream, slices annotation comment lines
//! out of the buffer for the annotation lexer, and assembles the document:
//! a run of doc-comment lines that carries a `@query` directive, followed
//! by a SQL statement, becomes one `Query` section; everything else is
//! passed through as `Verbatim` sections. The first error aborts the parse.

use vstd::prelude::*;

verus! {

use crate::{Span, B_TAB, B_CR, B_SPACE, B_AT, B_MINUS, B_SEMI};
use crate::ast::{Document, Section, Query, Annotation, Parameter, sections_tile, spans_ident};
use crate::lex_sql::{Token, TokenKind, Lexer, tokens_ok, token_maximal};
use crate::lex_annotation::{AnnToken, AnnTokenKind, lex_annotation, ann_tokens_ok, first_content_byte};
use crate::error::{ParseError, PResult};

/// The byte offset where the token at `idx` starts, taking the end of the
/// buffer for the final end-of-input token.
pub open spec fn tok_start(ts: Seq<Token>, input: Seq<u8>, idx: int) -> int {
    if idx < ts.len() - 1 {
        ts[idx].span.start as int
    } else {
        input.len() as int
    }
}

/// In a well-formed token stream the spans appear in source order.
pub proof fn lemma_token_order(ts: Seq<Token>, input: Seq<u8>, a: int, b: int)
    requires
        tokens_ok(ts, input),
        0 <= a <= b < ts.len(),
    ensures
        ts[a].span.start <= ts[b].span.start,
        ts[a].span.end <= ts[b].span.end,
        a < b ==> ts[a].span.end <= ts[b].span.start,
    decreases b - a,
{
    if a < b {
        assert(ts[a].span.end == ts[a + 1].span.start);
        lemma_token_order(ts, input, a + 1, b);
    }
}

/// In a well-formed annotation token stream the spans appear in strictly
/// increasing source order.
pub proof fn lemma_ann_order(ts: Seq<AnnToken>, input: Seq<u8>, content: Span, a: int, b: int)
    requires
        ann_tokens_ok(ts, input, content),
        0 <= a <= b < ts.len(),
    ensures
        ts[a].span.start <= ts[b].span.start,
        ts[a].span.end <= ts[b].span.end,
        a < b ==> ts[a].span.end <= ts[b].span.start,
    decreases b - a,
{
    if a < b {
        assert(ts[a].span.end <= ts[a + 1].span.start);
        lemma_ann_order(ts, input, content, a + 1, b);
    }
}

/// Appending a section whose extent starts exactly where the previous
/// sections end keeps the sections tiling the buffer's prefix.
proof fn lemma_tile_push(ss: Seq<Section>, s: Section, hi: int)
    requires
        sections_tile(ss, hi),
        s.spec_span().start == hi,
        hi < s.spec_span().end,
    ensures
        sections_tile(ss.push(s), s.spec_span().end as int),
{
    let ss2 = ss.push(s);
    assert(ss2[ss2.len() - 1] == s);
    if ss.len() > 0 {
        assert(ss2[0] == ss[0]);
    }
    assert forall|i: int| 0 <= i < ss2.len() implies (#[trigger] ss2[i].spec_span()).start
        < ss2[i].spec_span().end by {
        if i < ss.len() {
            assert(ss2[i] == ss[i]);
        }
    }
    assert forall|i: int| 0 <= i < ss2.len() - 1 implies (#[trigger] ss2[i].spec_span()).end
        == ss2[i + 1].spec_span().start by {
        if i < ss.len() - 1 {
            assert(ss2[i] == ss[i]);
            assert(ss2[i + 1] == ss[i + 1]);
        } else {
            assert(ss2[i] == ss[ss.len() - 1]);
            assert(ss2[i + 1] == s);
        }
    }
}

/// Whether a doc-comment line carries a directive: the first byte of its
/// content after the leading whitespace is `@`.
pub open spec fn line_has_directive(input: Seq<u8>, tspan: Span) -> bool {
    let p = first_content_byte(input, tspan.start + 2, tspan.end as int);
    p < tspan.end && input[p] == B_AT
}

/// A token stream with nothing for the parser to reject or assemble: no
/// invalid token, and no doc-comment line that carries a directive. Such
/// a stream always parses, to a document of verbatim text.
pub open spec fn plain_tokens(ts: Seq<Token>, input: Seq<u8>) -> bool {
    forall|i: int|
        0 <= i < ts.len() ==> (#[trigger] ts[i]).kind != TokenKind::Invalid && (ts[i].kind
            == TokenKind::CommentDoc ==> !line_has_directive(input, ts[i].span))
}

/// No two adjacent sections are both verbatim: verbatim text is emitted
/// in maximal pieces, so a directive-free buffer parses to at most one
/// section.
pub open spec fn verbatim_separated(ss: Seq<Section>) -> bool {
    forall|m: int|
        0 <= m < ss.len() - 1 ==> !((#[trigger] ss[m]) is Verbatim && ss[m + 1] is Verbatim)
}

/// Appending a section keeps the sections verbatim-separated when the
/// previous last section and the new one are not both verbatim.
proof fn lemma_sep_push(ss: Seq<Section>, s: Section)
    requires
        verbatim_separated(ss),
        ss.len() == 0 || !(ss[ss.len() - 1] is Verbatim) || !(s is Verbatim),
    ensures
        verbatim_separated(ss.push(s)),
{
    let ss2 = ss.push(s);
    assert forall|m: int|
        0 <= m < ss2.len() - 1 implies !((#[trigger] ss2[m]) is Verbatim && ss2[m
        + 1] is Verbatim) by {
        if m < ss.len() - 1 {
            assert(ss2[m] == ss[m]);
            assert(ss2[m + 1] == ss[m + 1]);
        } else {
            assert(ss2[m] == ss[ss.len() - 1]);
            assert(ss2[m + 1] == s);
        }
    }
}

/// No token lying in `[lo, hi)` is a directive-carrying doc-comment line.
pub open spec fn region_directive_free(ts: Seq<Token>, input: Seq<u8>, lo: int, hi: int) -> bool {
    forall|ti: int|
        0 <= ti < ts.len() && lo <= (#[trigger] ts[ti]).span.start && ts[ti].span.end <= hi
            ==> !(ts[ti].kind == TokenKind::CommentDoc && line_has_directive(input, ts[ti].span))
}

/// An empty region holds no token but the end-of-input marker.
proof fn lemma_region_empty(ts: Seq<Token>, input: Seq<u8>, lo: int)
    requires
        tokens_ok(ts, input),
    ensures
        region_directive_free(ts, input, lo, lo),
{
    assert forall|ti: int|
        0 <= ti < ts.len() && lo <= (#[trigger] ts[ti]).span.start && ts[ti].span.end <= lo
            implies !(ts[ti].kind == TokenKind::CommentDoc && line_has_directive(
        input,
        ts[ti].span,
    )) by {
        if ti < ts.len() - 1 {
            assert(ts[ti].span.start < ts[ti].span.end);
        }
    }
}

/// A directive-free region grows by one token that is no directive line.
proof fn lemma_region_extend_one(ts: Seq<Token>, input: Seq<u8>, lo: int, i: int)
    requires
        tokens_ok(ts, input),
        0 <= i < ts.len() - 1,
        lo <= ts[i].span.start,
        region_directive_free(ts, input, lo, ts[i].span.start as int),
        !(ts[i].kind == TokenKind::CommentDoc && line_has_directive(input, ts[i].span)),
    ensures
        region_directive_free(ts, input, lo, ts[i].span.end as int),
{
    assert forall|ti: int|
        0 <= ti < ts.len() && lo <= (#[trigger] ts[ti]).span.start && ts[ti].span.end
            <= ts[i].span.end implies !(ts[ti].kind == TokenKind::CommentDoc
        && line_has_directive(input, ts[ti].span)) by {
        if ti < i {
            lemma_token_order(ts, input, ti, i);
        } else if ti > i {
            lemma_token_order(ts, input, i, ti);
            if ti < ts.len() - 1 {
                assert(ts[ti].span.start < ts[ti].span.end);
            }
        }
    }
}

/// A directive-free region grows over a range of tokens none of which is
/// a directive line.
proof fn lemma_region_extend_range(ts: Seq<Token>, input: Seq<u8>, lo: int, i: int, j: int)
    requires
        tokens_ok(ts, input),
        0 <= i <= j <= ts.len() - 1,
        lo <= tok_start(ts, input, i),
        region_directive_free(ts, input, lo, tok_start(ts, input, i)),
        forall|k: int|
            i <= k < j ==> !((#[trigger] ts[k]).kind == TokenKind::CommentDoc
                && line_has_directive(input, ts[k].span)),
    ensures
        region_directive_free(ts, input, lo, tok_start(ts, input, j)),
    decreases j - i,
{
    if i < j {
        assert(tok_start(ts, input, i) == ts[i].span.start);
        lemma_region_extend_one(ts, input, lo, i);
        assert(ts[i].span.end == tok_start(ts, input, i + 1));
        lemma_token_order(ts, input, i, i + 1);
        lemma_region_extend_range(ts, input, lo, i + 1, j);
    }
}

/// Every verbatim section's extent is free of directive-carrying doc
/// lines: annotated text never hides inside pass-through text.
pub open spec fn verbatim_directive_free(ss: Seq<Section>, ts: Seq<Token>, input: Seq<u8>) -> bool {
    forall|m: int|
        0 <= m < ss.len() && (#[trigger] ss[m]) is Verbatim ==> region_directive_free(
            ts,
            input,
            ss[m].spec_span().start as int,
            ss[m].spec_span().end as int,
        )
}

/// Appending a verbatim section over a directive-free region, or any
/// query section, keeps the sections' verbatim extents directive-free.
proof fn lemma_vdf_push(ss: Seq<Section>, s: Section, ts: Seq<Token>, input: Seq<u8>)
    requires
        verbatim_directive_free(ss, ts, input),
        s is Verbatim ==> region_directive_free(
            ts,
            input,
            s.spec_span().start as int,
            s.spec_span().end as int,
        ),
    ensures
        verbatim_directive_free(ss.push(s), ts, input),
{
    let ss2 = ss.push(s);
    assert(ss2[ss2.len() - 1] == s);
    assert forall|m: int| 0 <= m < ss2.len() && (#[trigger] ss2[m]) is Verbatim implies
        region_directive_free(
        ts,
        input,
        ss2[m].spec_span().start as int,
        ss2[m].spec_span().end as int,
    ) by {
        if m < ss.len() {
            assert(ss2[m] == ss[m]);
        }
    }
}

/// A query section's witness in the token stream: a directive-carrying
/// doc-comment line inside the section's extent whose content holds the
/// annotation's name. Opaque: callers carry it as a fact per section.
#[verifier::opaque]
pub open spec fn query_has_directive(q: Query, ts: Seq<Token>, input: Seq<u8>) -> bool {
    exists|ti: int|
        {
            &&& 0 <= ti < ts.len()
            &&& (#[trigger] ts[ti]).kind == TokenKind::CommentDoc
            &&& line_has_directive(input, ts[ti].span)
            &&& q.span.start <= ts[ti].span.start
            &&& ts[ti].span.end <= q.span.end
            &&& ts[ti].span.start + 2 <= q.annotation.name.start
            &&& q.annotation.name.end <= ts[ti].span.end
        }
}

/// The trigger-friendly statement that the token at `idx` is a doc
/// comment, which pins the shape of its span.
pub open spec fn token_is_doc(ts: Seq<Token>, input: Seq<u8>, idx: int) -> bool {
    &&& 0 <= idx < ts.len()
    &&& ts[idx].kind == TokenKind::CommentDoc
    &&& ts[idx].span.spec_len() >= 2
    &&& ts[idx].span.valid(input.len() as int)
}

/// The document parser: borrows the input buffer and the token stream the
/// SQL lexer produced for it.
pub struct Parser<'a> {
    pub input: &'a [u8],
    pub tokens: &'a [Token],
}

impl<'a> Parser<'a> {
    pub fn new(input: &'a [u8], tokens: &'a [Token]) -> (r: Parser<'a>)
        ensures
            r.input@ == input@,
            r.tokens@ == tokens@,
    {
        Parser { input, tokens }
    }

    /// Parse the whole document from the token stream.
    ///
    /// On success the returned sections tile the entire buffer in source
    /// order — concatenating their extents reproduces the input — and
    /// every query section is well-formed: its doc lines, annotation name,
    /// parameters (in source order), result type and body stand at
    /// strictly increasing source positions inside the section's extent.
    /// On failure the single returned error points into the buffer.
    #[verifier::loop_isolation(false)]
    #[verifier::rlimit(100)]
    #[verifier::spinoff_prover]
    pub fn parse_document(&self) -> (r: PResult<Document>)
        requires
            tokens_ok(self.tokens@, self.input@),
        ensures
            r is Ok ==> sections_tile(r->Ok_0.sections@, self.input@.len() as int),
            r is Ok ==> forall|i: int|
                0 <= i < r->Ok_0.sections@.len() ==> (#[trigger] r->Ok_0.sections@[i]).wf(
                    self.input@.len() as int,
                ),
            r is Ok ==> forall|i: int|
                0 <= i < r->Ok_0.sections@.len() ==> (#[trigger] r->Ok_0.sections@[i]).content_ok(
                    self.input@,
                ),
            r is Ok ==> forall|i: int|
                0 <= i < r->Ok_0.sections@.len() ==> ((#[trigger] r->Ok_0.sections@[i]) matches
                    Section::Query(q) ==> query_has_directive(q, self.tokens@, self.input@)),
            r is Ok ==> verbatim_separated(r->Ok_0.sections@),
            r is Ok ==> verbatim_directive_free(r->Ok_0.sections@, self.tokens@, self.input@),
            r is Err ==> r->Err_0.span.valid(self.input@.len() as int),
            plain_tokens(self.tokens@, self.input@) ==> r is Ok,
    {
        let ghost ts = self.tokens@;
        let ghost inp = self.input@;
        let len = self.input.len();
        let nreal = self.tokens.len() - 1;
        let mut sections: Vec<Section> = Vec::new();
        let mut vstart: usize = 0;
        let mut i: usize = 0;
        proof {
            lemma_region_empty(ts, inp, 0);
        }
        while i < nreal
            invariant
                i <= nreal,
                vstart <= tok_start(ts, inp, i as int),
                sections_tile(sections@, vstart as int),
                forall|m: int|
                    0 <= m < sections@.len() ==> (#[trigger] sections@[m]).wf(len as int),
                forall|m: int|
                    0 <= m < sections@.len() ==> (#[trigger] sections@[m]).content_ok(inp),
                forall|m: int|
                    0 <= m < sections@.len() ==> ((#[trigger] sections@[m]) matches Section::Query(
                        q,
                    ) ==> query_has_directive(q, ts, inp)),
                verbatim_separated(sections@),
                sections@.len() > 0 ==> sections@[sections@.len() - 1] is Query,
                verbatim_directive_free(sections@, ts, inp),
                region_directive_free(ts, inp, vstart as int, tok_start(ts, inp, i as int)),
            decreases nreal - i,
        {
            let t = self.tokens[i];
            if t.kind == TokenKind::Invalid {
                proof {
                    assert(!plain_tokens(ts, inp)) by {
                        if plain_tokens(ts, inp) {
                            assert(ts[i as int].kind != TokenKind::Invalid);
                        }
                    }
                }
                return Err(ParseError::new(t.span, "Invalid or unterminated token."));
            } else if t.kind == TokenKind::CommentDoc {
                let (j, last_doc, dir) = self.scan_doc_run(i);
                if dir == nreal {
                    // No directive: the run is ordinary verbatim text.
                    proof {
                        lemma_token_order(ts, inp, i as int, j as int);
                        lemma_region_extend_range(ts, inp, vstart as int, i as int, j as int);
                    }
                    i = j;
                } else {
                    proof {
                        assert(!plain_tokens(ts, inp)) by {
                            if plain_tokens(ts, inp) {
                                assert(ts[dir as int].kind == TokenKind::CommentDoc
                                    ==> !line_has_directive(inp, ts[dir as int].span));
                            }
                        }
                    }
                    let (q, next) = match self.parse_query(i, dir, last_doc, j) {
                        Ok(v) => v,
                        Err(e) => {
                            return Err(e);
                        },
                    };
                    if vstart < q.span.start {
                        let vspan = Span { start: vstart, end: q.span.start };
                        proof {
                            lemma_tile_push(sections@, Section::Verbatim(vspan), vstart as int);
                            lemma_sep_push(sections@, Section::Verbatim(vspan));
                            assert(q.span.start == tok_start(ts, inp, i as int));
                            lemma_vdf_push(sections@, Section::Verbatim(vspan), ts, inp);
                        }
                        sections.push(Section::Verbatim(vspan));
                    }
                    proof {
                        lemma_tile_push(sections@, Section::Query(q), q.span.start as int);
                        lemma_sep_push(sections@, Section::Query(q));
                        lemma_vdf_push(sections@, Section::Query(q), ts, inp);
                        lemma_region_empty(ts, inp, q.span.end as int);
                    }
                    let qspan_end = q.span.end;
                    sections.push(Section::Query(q));
                    vstart = qspan_end;
                    i = next;
                }
            } else {
                proof {
                    lemma_token_order(ts, inp, i as int, (i + 1) as int);
                    lemma_region_extend_one(ts, inp, vstart as int, i as int);
                    assert(ts[i as int].span.end == tok_start(ts, inp, i + 1));
                }
                i = i + 1;
            }
        }
        if vstart < len {
            let vspan = Span { start: vstart, end: len };
            proof {
                lemma_tile_push(sections@, Section::Verbatim(vspan), vstart as int);
                lemma_sep_push(sections@, Section::Verbatim(vspan));
                lemma_vdf_push(sections@, Section::Verbatim(vspan), ts, inp);
            }
            sections.push(Section::Verbatim(vspan));
        }
        Ok(Document { sections })
    }

    /// Scan the contiguous run of doc-comment lines that starts at token
    /// `i` (whitespace between the lines stays in the run). Returns the
    /// index one past the run, the index of the run's last doc-comment
    /// line, and the index of the first line that carries a directive
    /// marker — or the index of the end-of-input token when none does.
    #[verifier::loop_isolation(false)]
    #[verifier::rlimit(50)]
    fn scan_doc_run(&self, i: usize) -> (r: (usize, usize, usize))
        requires
            tokens_ok(self.tokens@, self.input@),
            i < self.tokens@.len() - 1,
            self.tokens@[i as int].kind == TokenKind::CommentDoc,
        ensures
            ({
                let (j, last_doc, dir) = r;
                &&& i < j <= self.tokens@.len() - 1
                &&& i <= last_doc < j
                &&& self.tokens@[last_doc as int].kind == TokenKind::CommentDoc
                &&& (dir == self.tokens@.len() - 1 || (i <= dir && dir <= last_doc
                    && self.tokens@[dir as int].kind == TokenKind::CommentDoc
                    && line_has_directive(self.input@, self.tokens@[dir as int].span)))
                &&& (dir == self.tokens@.len() - 1 ==> forall|k: int|
                    i <= k < j ==> !((#[trigger] self.tokens@[k]).kind == TokenKind::CommentDoc
                        && line_has_directive(self.input@, self.tokens@[k].span)))
            }),
    {
        let ghost ts = self.tokens@;
        let ghost inp = self.input@;
        let nreal = self.tokens.len() - 1;
        let mut j = i + 1;
        let mut last_doc = i;
        while j < nreal && (self.tokens[j].kind == TokenKind::CommentDoc || self.tokens[j].kind
            == TokenKind::Space)
            invariant
                i < j <= nreal,
                i <= last_doc < j,
                ts[last_doc as int].kind == TokenKind::CommentDoc,
                forall|m: int|
                    last_doc < m < j ==> (#[trigger] ts[m]).kind != TokenKind::CommentDoc,
            decreases nreal - j,
        {
            if self.tokens[j].kind == TokenKind::CommentDoc {
                last_doc = j;
            }
            j = j + 1;
        }
        // Find the first line of the run that carries a directive.
        let mut dir = nreal;
        let mut k = i;
        while k < j
            invariant
                i <= k <= j,
                j <= nreal,
                i <= last_doc < j,
                forall|m: int|
                    last_doc < m < j ==> (#[trigger] ts[m]).kind != TokenKind::CommentDoc,
                dir == nreal || (i <= dir && dir <= last_doc && ts[dir as int].kind
                    == TokenKind::CommentDoc && line_has_directive(inp, ts[dir as int].span)),
                dir == nreal ==> forall|m: int|
                    i <= m < k ==> !((#[trigger] ts[m]).kind == TokenKind::CommentDoc
                        && line_has_directive(inp, ts[m].span)),
            decreases j - k,
        {
            if dir == nreal && self.tokens[k].kind == TokenKind::CommentDoc {
                proof {
                    assert(token_is_doc(ts, inp, k as int));
                }
                if has_directive_marker(self.input, self.tokens[k].span) {
                    dir = k;
                }
            }
            k = k + 1;
        }
        (j, last_doc, dir)
    }

    /// Parse one query: the doc lines of the run in `[i, dir)`, the
    /// directive line at `dir`, the parameter and result-type lines up to
    /// `last_doc`, and the statement that starts at `j`. Returns the query
    /// and the token index at which scanning resumes.
    #[verifier::loop_isolation(false)]
    #[verifier::rlimit(100)]
    #[verifier::spinoff_prover]
    fn parse_query(&self, i: usize, dir: usize, last_doc: usize, j: usize) -> (r: PResult<
        (Query, usize),
    >)
        requires
            tokens_ok(self.tokens@, self.input@),
            i <= dir <= last_doc,
            last_doc < j <= self.tokens@.len() - 1,
            self.tokens@[i as int].kind == TokenKind::CommentDoc,
            self.tokens@[dir as int].kind == TokenKind::CommentDoc,
            self.tokens@[last_doc as int].kind == TokenKind::CommentDoc,
            line_has_directive(self.input@, self.tokens@[dir as int].span),
        ensures
            r is Ok ==> r->Ok_0.0.wf(self.input@.len() as int),
            r is Ok ==> r->Ok_0.0.content_ok(self.input@),
            r is Ok ==> query_has_directive(r->Ok_0.0, self.tokens@, self.input@),
            r is Ok ==> r->Ok_0.0.span.start == self.tokens@[i as int].span.start,
            r is Ok ==> i < r->Ok_0.1 <= self.tokens@.len() - 1,
            r is Ok ==> r->Ok_0.0.span.end == tok_start(
                self.tokens@,
                self.input@,
                r->Ok_0.1 as int,
            ),
            r is Err ==> r->Err_0.span.valid(self.input@.len() as int),
    {
        let ghost ts = self.tokens@;
        let ghost inp = self.input@;
        let docs = self.collect_docs(i, dir);
        let dtok = self.tokens[dir];
        proof {
            assert(token_is_doc(ts, inp, dir as int));
        }
        let name = match parse_directive_line(self.input, dtok.span) {
            Ok(v) => v,
            Err(e) => {
                return Err(e);
            },
        };
        let (params, rt) = match self.parse_annotation_lines(dir, last_doc, j, name) {
            Ok(v) => v,
            Err(e) => {
                return Err(e);
            },
        };
        if j >= self.tokens.len() - 1 {
            return Err(
                ParseError::new(dtok.span, "Expected a SQL statement after the annotation."),
            );
        }
        let (body_end, next) = match self.parse_statement(j) {
            Ok(v) => v,
            Err(e) => {
                return Err(e);
            },
        };
        proof {
            lemma_token_order(ts, inp, i as int, dir as int);
            lemma_token_order(ts, inp, dir as int, j as int);
        }
        let body = Span { start: self.tokens[j].span.start, end: body_end };
        let q = Query {
            span: Span { start: self.tokens[i].span.start, end: body_end },
            docs,
            annotation: Annotation { name, parameters: params, result_type: rt },
            body,
        };
        proof {
            assert(query_has_directive(q, ts, inp)) by {
                reveal(query_has_directive);
                assert((ts[dir as int].kind == TokenKind::CommentDoc) && line_has_directive(
                    inp,
                    ts[dir as int].span,
                ) && q.span.start <= ts[dir as int].span.start && ts[dir as int].span.end
                    <= q.span.end && ts[dir as int].span.start + 2 <= q.annotation.name.start
                    && q.annotation.name.end <= ts[dir as int].span.end);
            }
        }
        Ok((q, next))
    }

    /// Collect the plain doc lines of the run, the tokens in `[i, dir)`,
    /// each stripped of its leading `--` but otherwise verbatim.
    #[verifier::loop_isolation(false)]
    #[verifier::rlimit(100)]
    #[verifier::spinoff_prover]
    fn collect_docs(&self, i: usize, dir: usize) -> (docs: Vec<Span>)
        requires
            tokens_ok(self.tokens@, self.input@),
            i <= dir < self.tokens@.len(),
        ensures
            forall|m: int|
                0 <= m < docs@.len() ==> (#[trigger] docs@[m]).valid(self.input@.len() as int),
            forall|m: int|
                0 <= m < docs@.len() ==> self.tokens@[i as int].span.start <= (
                #[trigger] docs@[m]).start,
            forall|m: int|
                0 <= m < docs@.len() ==> (#[trigger] docs@[m]).end <= self.tokens@[
                    dir as int
                ].span.start,
            forall|m1: int, m2: int|
                0 <= m1 < m2 < docs@.len() ==> (#[trigger] docs@[m1]).end <= (
                #[trigger] docs@[m2]).start,
            forall|m: int|
                0 <= m < docs@.len() ==> 2 <= (#[trigger] docs@[m]).start && self.input@[
                    docs@[m].start - 2
                ] == B_MINUS && self.input@[docs@[m].start - 1] == B_MINUS,
    {
        let ghost ts = self.tokens@;
        let ghost inp = self.input@;
        let mut docs: Vec<Span> = Vec::new();
        let mut k = i;
        while k < dir
            invariant
                i <= k <= dir,
                forall|m: int|
                    0 <= m < docs@.len() ==> (#[trigger] docs@[m]).valid(inp.len() as int),
                forall|m: int|
                    0 <= m < docs@.len() ==> ts[i as int].span.start <= (
                    #[trigger] docs@[m]).start,
                forall|m: int|
                    0 <= m < docs@.len() ==> (#[trigger] docs@[m]).end <= ts[k as int].span.start,
                forall|m1: int, m2: int|
                    0 <= m1 < m2 < docs@.len() ==> (#[trigger] docs@[m1]).end <= (
                    #[trigger] docs@[m2]).start,
                forall|m: int|
                    0 <= m < docs@.len() ==> 2 <= (#[trigger] docs@[m]).start && inp[
                        docs@[m].start - 2
                    ] == B_MINUS && inp[docs@[m].start - 1] == B_MINUS,
            decreases dir - k,
        {
            let t = self.tokens[k];
            proof {
                lemma_token_order(ts, inp, i as int, k as int);
                lemma_token_order(ts, inp, k as int, (k + 1) as int);
            }
            if t.kind == TokenKind::CommentDoc {
                proof {
                    assert(token_is_doc(ts, inp, k as int));
                }
                docs.push(Span { start: t.span.start + 2, end: t.span.end });
            }
            k = k + 1;
        }
        docs
    }

    /// Parse the annotation lines after the directive: zero or more
    /// parameter lines, then exactly one `-> ResultType` line, which must
    /// be the last line of the run. Returns the parameters in source order
    /// and the result type span.
    #[verifier::rlimit(100)]
    #[verifier::spinoff_prover]
    fn parse_annotation_lines(&self, dir: usize, last_doc: usize, j: usize, name: Span) -> (r:
        PResult<(Vec<Parameter>, Span)>)
        requires
            tokens_ok(self.tokens@, self.input@),
            dir <= last_doc < j <= self.tokens@.len() - 1,
            self.tokens@[dir as int].kind == TokenKind::CommentDoc,
            self.tokens@[last_doc as int].kind == TokenKind::CommentDoc,
            name.valid(self.input@.len() as int),
            name.end <= self.tokens@[dir as int].span.end,
        ensures
            r is Ok ==> ({
                let params = r->Ok_0.0@;
                let rt = r->Ok_0.1;
                &&& forall|m: int|
                    0 <= m < params.len() ==> {
                        let p = #[trigger] params[m];
                        &&& p.wf(self.input@.len() as int)
                        &&& name.end <= p.ident.start
                        &&& p.type_.end <= rt.start
                    }
                &&& forall|m1: int, m2: int|
                    0 <= m1 < m2 < params.len() ==> (#[trigger] params[m1]).type_.end <= (
                    #[trigger] params[m2]).ident.start
                &&& rt.valid(self.input@.len() as int)
                &&& spans_ident(rt, self.input@)
                &&& name.end <= rt.start
                &&& rt.end <= tok_start(self.tokens@, self.input@, j as int)
            }),
            r is Err ==> r->Err_0.span.valid(self.input@.len() as int),
    {
        let ghost ts = self.tokens@;
        let ghost inp = self.input@;
        let len = self.input.len();
        let mut params: Vec<Parameter> = Vec::new();
        let mut result_type: Option<Span> = None;
        let mut k2 = dir + 1;
        while k2 < j
            invariant
                ts == self.tokens@,
                inp == self.input@,
                len == inp.len(),
                tokens_ok(ts, inp),
                dir <= last_doc < j <= ts.len() - 1,
                ts[dir as int].kind == TokenKind::CommentDoc,
                name.valid(len as int),
                name.end <= ts[dir as int].span.end,
                dir < k2 <= j,
                forall|m: int| 0 <= m < params@.len() ==> (#[trigger] params@[m]).wf(len as int),
                forall|m: int|
                    0 <= m < params@.len() ==> name.end <= (#[trigger] params@[m]).ident.start,
                forall|m: int|
                    0 <= m < params@.len() ==> (#[trigger] params@[m]).type_.end <= tok_start(
                        ts,
                        inp,
                        k2 as int,
                    ),
                forall|m1: int, m2: int|
                    0 <= m1 < m2 < params@.len() ==> (#[trigger] params@[m1]).type_.end <= (
                    #[trigger] params@[m2]).ident.start,
                match result_type {
                    Some(rt) => {
                        &&& rt.valid(len as int)
                        &&& spans_ident(rt, inp)
                        &&& name.end <= rt.start
                        &&& rt.end <= tok_start(ts, inp, k2 as int)
                        &&& forall|m: int|
                            0 <= m < params@.len() ==> (#[trigger] params@[m]).type_.end
                                <= rt.start
                    },
                    None => true,
                },
            decreases j - k2,
        {
            let t = self.tokens[k2];
            proof {
                lemma_token_order(ts, inp, dir as int, k2 as int);
                lemma_token_order(ts, inp, k2 as int, (k2 + 1) as int);
            }
            if t.kind == TokenKind::CommentDoc {
                proof {
                    assert(token_is_doc(ts, inp, k2 as int));
                }
                if result_type.is_some() {
                    return Err(
                        ParseError::new(
                            t.span,
                            "Unexpected annotation line after the result type.",
                        ),
                    );
                }
                let content_k = Span { start: t.span.start + 2, end: t.span.end };
                let ann_k = match lex_annotation(self.input, content_k) {
                    Ok(v) => v,
                    Err(e) => {
                        return Err(e);
                    },
                };
                if ann_k.len() >= 1 && ann_k[0].kind == AnnTokenKind::Arrow {
                    let rt_here = match parse_result_line(self.input, &ann_k, content_k) {
                        Ok(v) => v,
                        Err(e) => {
                            return Err(e);
                        },
                    };
                    result_type = Some(rt_here);
                } else {
                    match parse_param_line(self.input, &ann_k, content_k, &mut params) {
                        Ok(()) => {},
                        Err(e) => {
                            return Err(e);
                        },
                    }
                }
            }
            k2 = k2 + 1;
        }
        match result_type {
            Some(rt) => Ok((params, rt)),
            None => {
                let d_end = self.tokens[last_doc].span.end;
                Err(
                    ParseError::new(
                        Span { start: d_end, end: d_end },
                        "Expected '-> ResultType' to end the annotation.",
                    ),
                )
            },
        }
    }

    /// Consume the SQL statement that starts at token `j`: everything up
    /// to and including its `;` terminator, or to the end of the input
    /// when no terminator follows. Returns the byte offset one past the
    /// statement and the token index at which scanning resumes.
    #[verifier::loop_isolation(false)]
    #[verifier::rlimit(50)]
    fn parse_statement(&self, j: usize) -> (r: PResult<(usize, usize)>)
        requires
            tokens_ok(self.tokens@, self.input@),
            j < self.tokens@.len() - 1,
        ensures
            r is Ok ==> ({
                let body_end = r->Ok_0.0;
                let next = r->Ok_0.1;
                &&& j < next <= self.tokens@.len() - 1
                &&& self.tokens@[j as int].span.start < body_end
                &&& body_end <= self.input@.len()
                &&& body_end == tok_start(self.tokens@, self.input@, next as int)
                &&& (body_end == self.input@.len() || self.input@[body_end - 1] == B_SEMI)
            }),
            r is Err ==> r->Err_0.span.valid(self.input@.len() as int),
    {
        let ghost ts = self.tokens@;
        let ghost inp = self.input@;
        let nreal = self.tokens.len() - 1;
        let mut e = j;
        while e < nreal && self.tokens[e].kind != TokenKind::Semicolon
            invariant
                j <= e <= nreal,
            decreases nreal - e,
        {
            if self.tokens[e].kind == TokenKind::Invalid {
                return Err(
                    ParseError::new(self.tokens[e].span, "Invalid or unterminated token."),
                );
            }
            e = e + 1;
        }
        proof {
            lemma_token_order(ts, inp, j as int, e as int);
            if e < nreal {
                lemma_token_order(ts, inp, e as int, (e + 1) as int);
            }
        }
        if e < nreal {
            proof {
                assert(tokens_ok(ts, inp));
                assert(ts[e as int].kind == TokenKind::Semicolon);
            }
            Ok((self.tokens[e].span.end, e + 1))
        } else {
            Ok((self.input.len(), nreal))
        }
    }
}

/// Parse the directive line `-- @query <name>` whose doc-comment token
/// covers `line`. Returns the span of the query's name.
#[verifier::loop_isolation(false)]
#[verifier::rlimit(50)]
fn parse_directive_line(input: &[u8], line: Span) -> (r: PResult<Span>)
    requires
        line.valid(input@.len() as int),
        line.spec_len() >= 2,
    ensures
        r is Ok ==> r->Ok_0.valid(input@.len() as int) && line.start + 2 <= r->Ok_0.start
            && r->Ok_0.end <= line.end,
        r is Ok ==> spans_ident(r->Ok_0, input@),
        r is Err ==> r->Err_0.span.valid(input@.len() as int),
{
    let ghost inp = input@;
    let content = Span { start: line.start + 2, end: line.end };
    let ann = match lex_annotation(input, content) {
        Ok(v) => v,
        Err(e) => {
            return Err(e);
        },
    };
    if ann.len() == 0 || ann[0].kind != AnnTokenKind::At {
        return Err(ParseError::new(line, "Expected '@' to start an annotation directive."));
    }
    if ann.len() < 2 || ann[1].kind != AnnTokenKind::Ident || !span_is_query(input, ann[1].span) {
        let at_end = ann[0].span.end;
        return Err(
            ParseError::new(
                Span { start: at_end, end: at_end },
                "Expected 'query' directive after '@'.",
            ),
        );
    }
    if ann.len() < 3 || ann[2].kind != AnnTokenKind::Ident {
        let q_end = ann[1].span.end;
        return Err(
            ParseError::new(
                Span { start: q_end, end: q_end },
                "Expected a name for the query after '@query'.",
            ),
        );
    }
    if ann.len() > 3 {
        return Err(ParseError::new(ann[3].span, "Unexpected token after the query name."));
    }
    proof {
        lemma_ann_order(ann@, inp, content, 2, 2);
    }
    Ok(ann[2].span)
}

/// Parse one `-> ResultType` annotation line. Returns the span of the
/// result type.
fn parse_result_line(input: &[u8], ann: &Vec<AnnToken>, content: Span) -> (r: PResult<Span>)
    requires
        content.valid(input@.len() as int),
        ann_tokens_ok(ann@, input@, content),
        ann@.len() >= 1,
    ensures
        r is Ok ==> r->Ok_0.valid(input@.len() as int) && spans_ident(r->Ok_0, input@)
            && content.start <= r->Ok_0.start && r->Ok_0.end <= content.end,
        r is Err ==> r->Err_0.span.valid(input@.len() as int),
{
    let ghost inp = input@;
    if ann.len() < 2 || ann[1].kind != AnnTokenKind::Ident {
        let a_end = ann[0].span.end;
        return Err(
            ParseError::new(
                Span { start: a_end, end: a_end },
                "Expected a result type after '->'.",
            ),
        );
    }
    if ann.len() > 2 {
        return Err(ParseError::new(ann[2].span, "Unexpected token after the result type."));
    }
    proof {
        lemma_ann_order(ann@, inp, content, 1, 1);
    }
    Ok(ann[1].span)
}

/// Parse one `name: Type (, name: Type)*` annotation line, appending the
/// parameters in source order.
#[verifier::loop_isolation(false)]
#[verifier::rlimit(100)]
#[verifier::spinoff_prover]
fn parse_param_line(
    input: &[u8],
    ann: &Vec<AnnToken>,
    content: Span,
    params: &mut Vec<Parameter>,
) -> (r: PResult<()>)
    requires
        content.valid(input@.len() as int),
        ann_tokens_ok(ann@, input@, content),
    ensures
        r is Ok ==> final(params)@.len() > old(params)@.len(),
        forall|m: int|
            0 <= m < old(params)@.len() ==> #[trigger] final(params)@[m] == old(params)@[m],
        final(params)@.len() >= old(params)@.len(),
        r is Ok ==> forall|m: int|
            old(params)@.len() <= m < final(params)@.len() ==> {
                let p = #[trigger] final(params)@[m];
                &&& p.wf(input@.len() as int)
                &&& content.start <= p.ident.start
                &&& p.type_.end <= content.end
            },
        r is Ok ==> forall|m1: int, m2: int|
            old(params)@.len() <= m1 < m2 < final(params)@.len() ==> (
            #[trigger] final(params)@[m1]).type_.end <= (#[trigger] final(params)@[m2]).ident.start,
        r is Err ==> r->Err_0.span.valid(input@.len() as int),
{
    let ghost inp = input@;
    let ghost old_len = params@.len();
    let n = ann.len();
    if n == 0 {
        return Err(
            ParseError::new(
                Span { start: content.start, end: content.start },
                "Expected a parameter or '->' in the annotation.",
            ),
        );
    }
    if ann[0].kind != AnnTokenKind::Ident {
        return Err(ParseError::new(ann[0].span, "Expected a parameter name."));
    }
    if n < 2 || ann[1].kind != AnnTokenKind::Colon {
        let p_end = ann[0].span.end;
        return Err(
            ParseError::new(
                Span { start: p_end, end: p_end },
                "Expected ':' after the parameter name.",
            ),
        );
    }
    if n < 3 || ann[2].kind != AnnTokenKind::Ident {
        let c_end = ann[1].span.end;
        return Err(
            ParseError::new(Span { start: c_end, end: c_end }, "Expected a type after ':'."),
        );
    }
    proof {
        lemma_ann_order(ann@, inp, content, 0, 2);
    }
    params.push(Parameter { ident: ann[0].span, type_: ann[2].span });
    let mut m: usize = 3;
    while m < n
        invariant
            3 <= m <= n,
            params@.len() > old_len,
            forall|k: int| 0 <= k < old_len ==> #[trigger] params@[k] == old(params)@[k],
            forall|k: int|
                old_len <= k < params@.len() ==> {
                    let p = #[trigger] params@[k];
                    &&& p.wf(inp.len() as int)
                    &&& content.start <= p.ident.start
                    &&& p.type_.end <= content.end
                },
            forall|k1: int, k2: int|
                old_len <= k1 < k2 < params@.len() ==> (#[trigger] params@[k1]).type_.end <= (
                #[trigger] params@[k2]).ident.start,
            params@[params@.len() - 1].type_ == ann@[m - 1].span,
        decreases n - m,
    {
        if ann[m].kind != AnnTokenKind::Comma {
            return Err(ParseError::new(ann[m].span, "Expected ',' between parameters."));
        }
        if m + 1 >= n || ann[m + 1].kind != AnnTokenKind::Ident {
            let c_end = ann[m].span.end;
            return Err(
                ParseError::new(
                    Span { start: c_end, end: c_end },
                    "Expected a parameter after ','.",
                ),
            );
        }
        if m + 2 >= n || ann[m + 2].kind != AnnTokenKind::Colon {
            let p_end = ann[m + 1].span.end;
            return Err(
                ParseError::new(
                    Span { start: p_end, end: p_end },
                    "Expected ':' after the parameter name.",
                ),
            );
        }
        if m + 3 >= n || ann[m + 3].kind != AnnTokenKind::Ident {
            let c_end = ann[m + 2].span.end;
            return Err(
                ParseError::new(
                    Span { start: c_end, end: c_end },
                    "Expected a type after ':'.",
                ),
            );
        }
        proof {
            lemma_ann_order(ann@, inp, content, m - 1, (m + 1) as int);
            lemma_ann_order(ann@, inp, content, (m + 1) as int, (m + 3) as int);
        }
        params.push(Parameter { ident: ann[m + 1].span, type_: ann[m + 3].span });
        m = m + 4;
    }
    Ok(())
}

/// Whether a doc-comment line's content opens with a directive marker:
/// its first byte after the leading whitespace is `@`.
fn has_directive_marker(input: &[u8], tspan: Span) -> (r: bool)
    requires
        tspan.valid(input@.len() as int),
        tspan.spec_len() >= 2,
    ensures
        r == line_has_directive(input@, tspan),
{
    let mut pos = tspan.start + 2;
    while pos < tspan.end && (input[pos] == B_SPACE || input[pos] == B_TAB || input[pos] == B_CR)
        invariant
            tspan.start + 2 <= pos <= tspan.end,
            tspan.end <= input@.len(),
            first_content_byte(input@, tspan.start + 2, tspan.end as int) == first_content_byte(
                input@,
                pos as int,
                tspan.end as int,
            ),
        decreases tspan.end - pos,
    {
        proof {
            assert(first_content_byte(input@, pos as int, tspan.end as int)
                == first_content_byte(input@, pos + 1, tspan.end as int)) by {
                reveal_with_fuel(first_content_byte, 2);
            }
        }
        pos = pos + 1;
    }
    proof {
        assert(first_content_byte(input@, pos as int, tspan.end as int) == (
        if pos < tspan.end {
            pos as int
        } else {
            tspan.end as int
        })) by {
            reveal_with_fuel(first_content_byte, 1);
        }
    }
    pos < tspan.end && input[pos] == B_AT
}

/// Whether the spanned bytes are exactly the directive keyword `query`.
fn span_is_query(input: &[u8], s: Span) -> (r: bool)
    requires
        s.valid(input@.len() as int),
{
    // The byte values spell "query".
    s.end - s.start == 5 && input[s.start] == 113 && input[s.start + 1] == 117 && input[s.start
        + 2] == 101 && input[s.start + 3] == 114 && input[s.start + 4] == 121
}

/// Run the whole pipeline on a buffer: tokenize it with the SQL lexer and
/// parse the token stream into a document.
///
/// This terminates on every input; an input the grammar rejects comes back
/// as a `ParseError` pointing into the buffer, never as a panic.
pub fn parse(input: &[u8]) -> (r: PResult<Document>)
    ensures
        r is Ok ==> sections_tile(r->Ok_0.sections@, input@.len() as int),
        r is Ok ==> forall|i: int|
            0 <= i < r->Ok_0.sections@.len() ==> (#[trigger] r->Ok_0.sections@[i]).wf(
                input@.len() as int,
            ),
        r is Ok ==> forall|i: int|
            0 <= i < r->Ok_0.sections@.len() ==> (#[trigger] r->Ok_0.sections@[i]).content_ok(
                input@,
            ),
        r is Ok ==> verbatim_separated(r->Ok_0.sections@),
        r is Err ==> r->Err_0.span.valid(input@.len() as int),
        exists|ts: Seq<Token>|
            {
                &&& #[trigger] tokens_ok(ts, input@)
                &&& forall|i: int| 0 <= i < ts.len() ==> token_maximal(#[trigger] ts[i], input@)
                &&& (plain_tokens(ts, input@) ==> r is Ok)
                &&& (r is Ok ==> verbatim_directive_free(r->Ok_0.sections@, ts, input@))
                &&& (r is Ok ==> forall|m: int|
                    0 <= m < r->Ok_0.sections@.len() ==> ((#[trigger] r->Ok_0.sections@[m])
                        matches Section::Query(q) ==> query_has_directive(q, ts, input@)))
            },
{
    let lexer = Lexer::new(input);
    let tokens = lexer.run();
    let parser = Parser::new(input, tokens.as_slice());
    let r = parser.parse_document();
    proof {
        assert(tokens_ok(tokens@, input@) && (forall|i: int|
            0 <= i < tokens@.len() ==> token_maximal(#[trigger] tokens@[i], input@)) && (
        plain_tokens(tokens@, input@) ==> r is Ok) && (r is Ok ==> verbatim_directive_free(
            r->Ok_0.sections@,
            tokens@,
            input@,
        )) && (r is Ok ==> forall|m: int|
            0 <= m < r->Ok_0.sections@.len() ==> ((#[trigger] r->Ok_0.sections@[m]) matches
                Section::Query(q) ==> query_has_directive(q, tokens@, input@))));
    }
    r
}

} // verus!
