//! The document tree produced by the parser.
//!
//! Every node carries `Span`s into the original buffer instead of owned
//! text; a node is resolved against that buffer when its text is needed.

use vstd::prelude::*;

verus! {

use crate::{Span, is_ident_byte, B_MINUS, B_SEMI};

/// A typed parameter of a query: `ident: type_`.
#[derive(Debug)]
pub struct Parameter {
    pub ident: Span,
    pub type_: Span,
}

/// The structured directive that documents a query: its name, its
/// parameters in source order, and its result type.
#[derive(Debug)]
pub struct Annotation {
    pub name: Span,
    pub parameters: Vec<Parameter>,
    pub result_type: Span,
}

/// An annotated query: leading doc-comment lines, the annotation, and the
/// SQL statement that follows the annotation block.
///
/// `span` is the full extent of the section, from the first doc-comment
/// line through the end of the statement.
#[derive(Debug)]
pub struct Query {
    pub span: Span,
    pub docs: Vec<Span>,
    pub annotation: Annotation,
    pub body: Span,
}

/// One piece of the document: either SQL text passed through unchanged, or
/// an annotated query.
#[derive(Debug)]
pub enum Section {
    Verbatim(Span),
    Query(Query),
}

/// The parse result: the document's sections in source order.
#[derive(Debug)]
pub struct Document {
    pub sections: Vec<Section>,
}

impl Section {
    /// The full extent of this section in the source buffer.
    pub open spec fn spec_span(self) -> Span {
        match self {
            Section::Verbatim(s) => s,
            Section::Query(q) => q.span,
        }
    }
}

impl Parameter {
    /// The parameter's spans are in bounds and the identifier precedes the
    /// type.
    pub open spec fn wf(self, len: int) -> bool {
        &&& self.ident.valid(len)
        &&& self.type_.valid(len)
        &&& self.ident.end <= self.type_.start
    }
}

impl Annotation {
    /// The annotation's spans are in bounds and laid out in source order:
    /// the name first, then each parameter (identifier before type, and the
    /// parameters themselves in strictly left-to-right source positions),
    /// then the result type.
    pub open spec fn wf(self, len: int) -> bool {
        &&& self.name.valid(len)
        &&& self.result_type.valid(len)
        &&& forall|j: int|
            0 <= j < self.parameters@.len() ==> (#[trigger] self.parameters@[j]).wf(len)
        &&& forall|j: int|
            0 <= j < self.parameters@.len() ==> self.name.end <= (
            #[trigger] self.parameters@[j]).ident.start
        &&& forall|j: int|
            0 <= j < self.parameters@.len() ==> (#[trigger] self.parameters@[j]).type_.end
                <= self.result_type.start
        &&& forall|j: int, k: int|
            0 <= j < k < self.parameters@.len() ==> (#[trigger] self.parameters@[j]).type_.end <= (
            #[trigger] self.parameters@[k]).ident.start
        &&& self.name.end <= self.result_type.start
    }
}

impl Query {
    /// The query's sub-spans are in bounds and in source order within the
    /// query's full extent: doc lines, then the annotation, then the body,
    /// whose end is the end of the section.
    pub open spec fn wf(self, len: int) -> bool {
        &&& self.span.valid(len)
        &&& self.span.start < self.span.end
        &&& self.annotation.wf(len)
        &&& self.body.valid(len)
        &&& forall|j: int| 0 <= j < self.docs@.len() ==> (#[trigger] self.docs@[j]).valid(len)
        &&& forall|j: int|
            0 <= j < self.docs@.len() ==> self.span.start <= (#[trigger] self.docs@[j]).start
        &&& forall|j: int|
            0 <= j < self.docs@.len() ==> (#[trigger] self.docs@[j]).end
                <= self.annotation.name.start
        &&& forall|j: int, k: int|
            0 <= j < k < self.docs@.len() ==> (#[trigger] self.docs@[j]).end <= (
            #[trigger] self.docs@[k]).start
        &&& self.span.start <= self.annotation.name.start
        &&& self.annotation.result_type.end <= self.body.start
        &&& self.body.start < self.body.end
        &&& self.body.end == self.span.end
    }
}

impl Section {
    /// The section's spans are in bounds; a query section is well-formed.
    pub open spec fn wf(self, len: int) -> bool {
        match self {
            Section::Verbatim(s) => s.valid(len) && s.start < s.end,
            Section::Query(q) => q.wf(len),
        }
    }
}

/// True when every byte the span covers is an identifier byte and the
/// span is not empty.
pub open spec fn spans_ident(s: Span, input: Seq<u8>) -> bool {
    &&& s.start < s.end
    &&& forall|k: int| s.start <= k < s.end ==> is_ident_byte(#[trigger] input[k])
}

impl Annotation {
    /// What the annotation's spans cover: the name and the result type
    /// are nonempty identifier text.
    pub open spec fn content_ok(self, input: Seq<u8>) -> bool {
        &&& spans_ident(self.name, input)
        &&& spans_ident(self.result_type, input)
    }
}

impl Query {
    /// What the query's spans cover: the annotation's text, a body that
    /// ends at its `;` terminator or at the end of the input, and doc
    /// lines that each sit immediately after their `--` marker.
    pub open spec fn content_ok(self, input: Seq<u8>) -> bool {
        &&& self.annotation.content_ok(input)
        &&& (self.body.end == input.len() || input[self.body.end - 1] == B_SEMI)
        &&& forall|j: int|
            0 <= j < self.docs@.len() ==> {
                let d = #[trigger] self.docs@[j];
                &&& 2 <= d.start
                &&& input[d.start - 2] == B_MINUS
                &&& input[d.start - 1] == B_MINUS
            }
    }
}

impl Section {
    /// What the section's spans cover; a verbatim section claims nothing.
    pub open spec fn content_ok(self, input: Seq<u8>) -> bool {
        match self {
            Section::Verbatim(_) => true,
            Section::Query(q) => q.content_ok(input),
        }
    }
}

/// The sections' extents partition `[0, hi)`: the first starts at 0, each
/// starts where the previous one ends, none is empty, and the last ends at
/// `hi`. An empty sequence of sections is the parse of an empty buffer.
pub open spec fn sections_tile(ss: Seq<Section>, hi: int) -> bool {
    &&& (ss.len() == 0 ==> hi == 0)
    &&& (ss.len() > 0 ==> ss[0].spec_span().start == 0)
    &&& (ss.len() > 0 ==> ss[ss.len() - 1].spec_span().end == hi)
    &&& forall|i: int|
        0 <= i < ss.len() ==> (#[trigger] ss[i].spec_span()).start < ss[i].spec_span().end
    &&& forall|i: int|
        0 <= i < ss.len() - 1 ==> (#[trigger] ss[i].spec_span()).end == ss[i
            + 1].spec_span().start
}

/// The bytes of the sections' extents, concatenated in order.
pub open spec fn sections_bytes(ss: Seq<Section>, input: Seq<u8>) -> Seq<u8>
    decreases ss.len(),
{
    if ss.len() == 0 {
        Seq::empty()
    } else {
        sections_bytes(ss.drop_last(), input) + ss.last().spec_span().bytes_of(input)
    }
}

/// Round trip: when the sections tile the buffer, concatenating the bytes
/// each section spans — a verbatim section's span, and a query section's
/// full span covering docs, annotation and body — reproduces the buffer
/// byte for byte.
pub proof fn lemma_sections_roundtrip(ss: Seq<Section>, input: Seq<u8>)
    requires
        sections_tile(ss, input.len() as int),
        forall|i: int| 0 <= i < ss.len() ==> (#[trigger] ss[i]).spec_span().valid(
            input.len() as int,
        ),
    ensures
        sections_bytes(ss, input) == input,
{
    lemma_sections_prefix(ss, input, input.len() as int);
    assert(sections_bytes(ss, input) =~= input);
}

/// Helper for the round-trip lemma: sections that tile `[0, hi)` of a
/// buffer concatenate to the buffer's first `hi` bytes.
proof fn lemma_sections_prefix(ss: Seq<Section>, input: Seq<u8>, hi: int)
    requires
        0 <= hi <= input.len(),
        sections_tile(ss, hi),
        forall|i: int| 0 <= i < ss.len() ==> (#[trigger] ss[i]).spec_span().valid(
            input.len() as int,
        ),
    ensures
        sections_bytes(ss, input) == input.subrange(0, hi),
    decreases ss.len(),
{
    if ss.len() == 0 {
        assert(sections_bytes(ss, input) =~= input.subrange(0, hi));
    } else {
        let head = ss.drop_last();
        let last = ss.last();
        let mid = last.spec_span().start as int;
        assert(sections_tile(head, mid)) by {
            if head.len() > 0 {
                assert(ss[ss.len() - 2].spec_span().end == ss[ss.len() - 1].spec_span().start);
            }
        }
        lemma_sections_prefix(head, input, mid);
        assert(sections_bytes(ss, input) =~= input.subrange(0, hi));
    }
}

} // verus!
