//! The error shape shared by the whole pipeline, and the diagnostic
//! renderer that turns an error into a human-readable report.

use vstd::prelude::*;

verus! {

use crate::{Span, B_NL};
use vstd::utf8::{valid_utf8, decode_utf8};
use vstd::string::StringExecFns;

/// A source-located error: every error of the pipeline carries exactly one
/// primary span, a static message, and an optional note (itself optionally
/// source-located) and hint.
pub trait Error {
    /// The source location of the error.
    spec fn spec_span(&self) -> Span;

    /// The error message.
    spec fn spec_message(&self) -> Seq<char>;

    /// The optional note, with its optional source location.
    spec fn spec_note(&self) -> Option<(Seq<char>, Option<Span>)>;

    /// The optional hint.
    spec fn spec_hint(&self) -> Option<Seq<char>>;

    /// The source location of the error.
    fn span(&self) -> (r: Span)
        ensures
            r == self.spec_span(),
    ;

    /// The error message.
    ///
    ///  * Shorter is better.
    ///  * Simpler is better (no jargon).
    ///  * The expected thing goes first, the actual thing goes second.
    fn message(&self) -> (r: &str)
        ensures
            r@ == self.spec_message(),
    ;

    /// Optionally, a note about the error.
    ///
    /// For example, an unmatched parenthesis can point to the opening
    /// paren.
    fn note(&self) -> (r: Option<(&str, Option<Span>)>)
        ensures
            r is Some <==> self.spec_note() is Some,
            r is Some ==> r->Some_0.0@ == self.spec_note()->Some_0.0 && r->Some_0.1
                == self.spec_note()->Some_0.1,
    ;

    /// Optionally, a hint on how to fix the problem.
    fn hint(&self) -> (r: Option<&str>)
        ensures
            r is Some <==> self.spec_hint() is Some,
            r is Some ==> r->Some_0@ == self.spec_hint()->Some_0,
    ;
}

/// The error that aborts a document parse. Construction allocates
/// nothing: the message, note and hint are static strings.
#[derive(Copy, Clone, Debug)]
pub struct ParseError {
    pub span: Span,
    pub message: &'static str,
    pub note: Option<(&'static str, Option<Span>)>,
    pub hint: Option<&'static str>,
}

impl ParseError {
    /// An error with a message and a primary span, and nothing else.
    pub fn new(span: Span, message: &'static str) -> (r: ParseError)
        ensures
            r.span == span,
            r.message@ == message@,
            r.note is None,
            r.hint is None,
    {
        ParseError { span, message, note: None, hint: None }
    }
}

impl Error for ParseError {
    open spec fn spec_span(&self) -> Span {
        self.span
    }

    open spec fn spec_message(&self) -> Seq<char> {
        self.message@
    }

    open spec fn spec_note(&self) -> Option<(Seq<char>, Option<Span>)> {
        match self.note {
            None => None,
            Some((n, s)) => Some((n@, s)),
        }
    }

    open spec fn spec_hint(&self) -> Option<Seq<char>> {
        match self.hint {
            None => None,
            Some(h) => Some(h@),
        }
    }

    fn span(&self) -> (r: Span) {
        self.span
    }

    fn message(&self) -> (r: &str) {
        self.message
    }

    fn note(&self) -> (r: Option<(&str, Option<Span>)>) {
        match self.note {
            None => None,
            Some((n, s)) => Some((n, s)),
        }
    }

    fn hint(&self) -> (r: Option<&str>) {
        match self.hint {
            None => None,
            Some(h) => Some(h),
        }
    }
}

/// A parse result, either the parsed value, or a parse error.
pub type PResult<T> = Result<T, ParseError>;

/// How many newlines the buffer holds strictly before position `p`.
pub open spec fn count_newlines(input: Seq<u8>, p: int) -> int
    decreases p,
{
    if p <= 0 {
        0
    } else {
        count_newlines(input, p - 1) + if input[p - 1] == B_NL {
            1int
        } else {
            0int
        }
    }
}

/// The 1-based number of the line that holds position `pos`.
pub open spec fn spec_line_number(input: Seq<u8>, pos: int) -> int {
    1 + count_newlines(input, pos)
}

/// The start of the line that holds `pos`: one past the nearest newline
/// before `pos`, or the start of the buffer.
pub open spec fn spec_line_start(input: Seq<u8>, pos: int) -> int
    decreases pos,
{
    if pos <= 0 {
        0
    } else if input[pos - 1] == B_NL {
        pos
    } else {
        spec_line_start(input, pos - 1)
    }
}

/// The end of the line that starts at or contains `from`: the position of
/// the next newline at or after `from`, or the end of the buffer.
pub open spec fn spec_line_end(input: Seq<u8>, from: int) -> int
    decreases input.len() - from,
{
    if from >= input.len() {
        input.len() as int
    } else if input[from] == B_NL {
        from
    } else {
        spec_line_end(input, from + 1)
    }
}

proof fn lemma_line_start_props(input: Seq<u8>, pos: int)
    requires
        0 <= pos <= input.len(),
    ensures
        0 <= spec_line_start(input, pos) <= pos,
        forall|k: int|
            spec_line_start(input, pos) <= k < pos ==> #[trigger] input[k] != B_NL,
    decreases pos,
{
    if pos > 0 && input[pos - 1] != B_NL {
        lemma_line_start_props(input, pos - 1);
    }
}

proof fn lemma_line_end_props(input: Seq<u8>, from: int)
    requires
        0 <= from <= input.len(),
    ensures
        from <= spec_line_end(input, from) <= input.len(),
        forall|k: int|
            from <= k < spec_line_end(input, from) ==> #[trigger] input[k] != B_NL,
        spec_line_end(input, from) == input.len() || input[spec_line_end(input, from)] == B_NL,
    decreases input.len() - from,
{
    if from < input.len() && input[from] != B_NL {
        lemma_line_end_props(input, from + 1);
    }
}

/// The length of the caret-and-tilde underline for a span: the span's
/// length clamped to what remains of its line, but never zero.
pub open spec fn spec_mark_len(input: Seq<u8>, span: Span) -> int {
    let ls = spec_line_start(input, span.start as int);
    let le = spec_line_end(input, ls);
    vstd::math::max(1, vstd::math::min(span.spec_len(), le - span.start))
}

/// Underline clamping: the underline is never empty — a zero-length span
/// still gets one mark — and it never runs past either the span or the end
/// of the span's line, except for that single degenerate mark.
pub proof fn lemma_underline_clamped(input: Seq<u8>, span: Span)
    requires
        span.valid(input.len() as int),
    ensures
        ({
            let ls = spec_line_start(input, span.start as int);
            let le = spec_line_end(input, ls);
            let m = spec_mark_len(input, span);
            &&& 1 <= m
            &&& m <= span.spec_len() || m == 1
            &&& span.start + m <= le || m == 1
        }),
{
    let ls = spec_line_start(input, span.start as int);
    lemma_line_start_props(input, span.start as int);
    lemma_line_end_props(input, ls);
}

/// The digit character of one decimal digit.
pub open spec fn digit_char(d: nat) -> char {
    if d == 0 {
        '0'
    } else if d == 1 {
        '1'
    } else if d == 2 {
        '2'
    } else if d == 3 {
        '3'
    } else if d == 4 {
        '4'
    } else if d == 5 {
        '5'
    } else if d == 6 {
        '6'
    } else if d == 7 {
        '7'
    } else if d == 8 {
        '8'
    } else {
        '9'
    }
}

/// The decimal digits of `n`, most significant first.
pub open spec fn dec_digits(n: nat) -> Seq<char>
    decreases n,
{
    if n < 10 {
        seq![digit_char(n)]
    } else {
        dec_digits(n / 10).push(digit_char(n % 10))
    }
}

/// `n` copies of one character.
pub open spec fn repeat_char(c: char, n: nat) -> Seq<char> {
    Seq::new(n, |i| c)
}

/// The rendered highlight block for a span: a `file:line:column` header
/// and the span's source line with a caret-and-tilde underline beneath it,
/// the column counted in bytes from the line's start.
pub open spec fn spec_highlight(fname: Seq<char>, input: Seq<u8>, span: Span) -> Seq<char> {
    let ls = spec_line_start(input, span.start as int);
    let le = spec_line_end(input, ls);
    let line = spec_line_number(input, span.start as int);
    let col = span.start - ls;
    let num = dec_digits(line as nat);
    let pad = repeat_char(' ', num.len());
    let content = lossy_of(input.subrange(ls, le));
    let marks = spec_mark_len(input, span);
    "--> "@ + fname + ":"@ + num + ":"@ + dec_digits(col as nat) + "\n"@ + pad + " |\n"@ + num
        + " | "@ + content + "\n"@ + pad + " | "@ + repeat_char(' ', col as nat) + "^"@
        + repeat_char('~', (marks - 1) as nat) + "\n"@
}

/// The full rendered report for an error: the message, the highlight of
/// its span, and the optional note (with its own highlight) and hint.
/// Spans are clamped to the buffer before they are highlighted.
pub open spec fn spec_render(
    span: Span,
    msg: Seq<char>,
    note: Option<(Seq<char>, Option<Span>)>,
    hint: Option<Seq<char>>,
    fname: Seq<char>,
    input: Seq<u8>,
) -> Seq<char> {
    let base = "Error: "@ + msg + "\n"@ + spec_highlight(
        fname,
        input,
        spec_clamp(span, input.len() as int),
    );
    let with_note = match note {
        None => base,
        Some((n, os)) => {
            let b2 = base + "Note: "@ + n + "\n"@;
            match os {
                None => b2,
                Some(ns) => b2 + spec_highlight(fname, input, spec_clamp(ns, input.len() as int)),
            }
        },
    };
    match hint {
        None => with_note,
        Some(h) => with_note + "Hint: "@ + h + "\n"@,
    }
}

/// A span forced into the buffer's bounds.
pub open spec fn spec_clamp(s: Span, len: int) -> Span {
    let st = vstd::math::min(s.start as int, len);
    let en = if (s.end as int) < st {
        st
    } else {
        vstd::math::min(s.end as int, len)
    };
    Span { start: st as usize, end: en as usize }
}

/// Force a span into the buffer's bounds. Out-of-bounds spans reaching
/// the diagnostic printer are a caller error; they are defended against
/// here instead of being rendered out of the buffer.
fn clamp_span(s: Span, len: usize) -> (r: Span)
    ensures
        r == spec_clamp(s, len as int),
        r.valid(len as int),
{
    let st = if s.start < len {
        s.start
    } else {
        len
    };
    let en0 = if s.end < len {
        s.end
    } else {
        len
    };
    let en = if en0 < st {
        st
    } else {
        en0
    };
    Span { start: st, end: en }
}

/// Render the highlight block for a span: locate the span's line by
/// scanning for the surrounding newlines, then emit the
/// `--> file:line:column` header, the line itself, and a caret-and-tilde
/// underline whose length is the span's, clamped to the line's end and
/// never zero.
#[verifier::loop_isolation(false)]
#[verifier::rlimit(100)]
#[verifier::spinoff_prover]
pub fn highlight_span_in_line(fname: &str, input: &[u8], span: Span) -> (r: String)
    requires
        span.valid(input@.len() as int),
        input@.len() < usize::MAX,
    ensures
        r@ == spec_highlight(fname@, input@, span),
{
    let ghost inp = input@;
    let len = input.len();

    // Locate the line that contains the span.
    let mut line: usize = 1;
    let mut line_start: usize = 0;
    let mut i: usize = 0;
    while i < span.start
        invariant
            i <= span.start,
            line == spec_line_number(inp, i as int),
            line <= i + 1,
            line_start == spec_line_start(inp, i as int),
            line_start <= i,
        decreases span.start - i,
    {
        if input[i] == B_NL {
            line = line + 1;
            line_start = i + 1;
        }
        i = i + 1;
    }
    let mut line_end: usize = line_start;
    while line_end < len && input[line_end] != B_NL
        invariant
            line_start <= line_end <= len,
            spec_line_end(inp, line_start as int) == spec_line_end(inp, line_end as int),
            forall|k: int| line_start <= k < line_end ==> #[trigger] inp[k] != B_NL,
        decreases len - line_end,
    {
        line_end = line_end + 1;
    }
    proof {
        lemma_line_start_props(inp, span.start as int);
        assert(line_end >= span.start) by {
            if line_end < span.start {
                assert(inp[line_end as int] == B_NL);
            }
        }
    }

    // The underline length: the span's, clamped to the line, never zero.
    let span_len = span.end - span.start;
    let remaining = line_end - span.start;
    let mut marks = span_len;
    if remaining < marks {
        marks = remaining;
    }
    if marks == 0 {
        marks = 1;
    }
    let col = span.start - line_start;
    let numlen = dec_len(line);

    let mut r = String::new();
    r.append("--> ");
    r.append(fname);
    r.append(":");
    push_dec(&mut r, line);
    r.append(":");
    push_dec(&mut r, col);
    r.append("\n");
    push_spaces(&mut r, numlen);
    r.append(" |\n");
    push_dec(&mut r, line);
    r.append(" | ");
    let content = bytes_lossy(&input[line_start..line_end]);
    r.append(content.as_str());
    r.append("\n");
    push_spaces(&mut r, numlen);
    r.append(" | ");
    push_spaces(&mut r, col);
    r.append("^");
    push_tildes(&mut r, marks - 1);
    r.append("\n");
    proof {
        assert(r@ =~= spec_highlight(fname@, inp, span));
    }
    r
}

/// Render the full report for an error: `Error:` with the message, the
/// highlight of the error's span, then the optional note — highlighted
/// too when it carries a span — and the optional hint. Rendering cannot
/// fail; spans are clamped to the buffer at entry.
#[verifier::rlimit(50)]
pub fn render_error<E: Error>(err: &E, fname: &str, input: &[u8]) -> (r: String)
    requires
        input@.len() < usize::MAX,
    ensures
        r@ == spec_render(
            err.spec_span(),
            err.spec_message(),
            err.spec_note(),
            err.spec_hint(),
            fname@,
            input@,
        ),
{
    let mut r = String::new();
    r.append("Error: ");
    r.append(err.message());
    r.append("\n");
    let span = clamp_span(err.span(), input.len());
    let h = highlight_span_in_line(fname, input, span);
    r.append(h.as_str());
    match err.note() {
        Some((note, opt_note_span)) => {
            r.append("Note: ");
            r.append(note);
            r.append("\n");
            match opt_note_span {
                Some(ns) => {
                    let ns2 = clamp_span(ns, input.len());
                    let h2 = highlight_span_in_line(fname, input, ns2);
                    r.append(h2.as_str());
                },
                None => {},
            }
        },
        None => {},
    }
    match err.hint() {
        Some(hint) => {
            r.append("Hint: ");
            r.append(hint);
            r.append("\n");
        },
        None => {},
    }
    proof {
        assert(r@ =~= spec_render(
            err.spec_span(),
            err.spec_message(),
            err.spec_note(),
            err.spec_hint(),
            fname@,
            input@,
        ));
    }
    r
}

/// The number of decimal digits of `n`.
fn dec_len(n: usize) -> (r: usize)
    ensures
        r == dec_digits(n as nat).len(),
        1 <= r,
    decreases n,
{
    if n < 10 {
        1
    } else {
        proof {
            assert(n / 10 < n && n / 10 + 1 < n) by (nonlinear_arith)
                requires
                    n >= 10,
            ;
            lemma_dec_digits_len((n / 10) as nat);
        }
        1 + dec_len(n / 10)
    }
}

proof fn lemma_dec_digits_len(n: nat)
    ensures
        dec_digits(n).len() <= n + 1,
    decreases n,
{
    if n >= 10 {
        assert(n / 10 < n) by (nonlinear_arith)
            requires
                n >= 10,
        ;
        lemma_dec_digits_len(n / 10);
    }
}

/// Append the decimal digits of `n`.
fn push_dec(s: &mut String, n: usize)
    ensures
        final(s)@ == old(s)@ + dec_digits(n as nat),
    decreases n,
{
    if n >= 10 {
        proof {
            assert(n / 10 < n) by (nonlinear_arith)
                requires
                    n >= 10,
            ;
        }
        push_dec(s, n / 10);
    }
    let d = n % 10;
    if d == 0 {
        s.append("0");
        proof {
            reveal_strlit("0");
            assert(("0")@ =~= seq![digit_char((n % 10) as nat)]);
        }
    } else if d == 1 {
        s.append("1");
        proof {
            reveal_strlit("1");
            assert(("1")@ =~= seq![digit_char((n % 10) as nat)]);
        }
    } else if d == 2 {
        s.append("2");
        proof {
            reveal_strlit("2");
            assert(("2")@ =~= seq![digit_char((n % 10) as nat)]);
        }
    } else if d == 3 {
        s.append("3");
        proof {
            reveal_strlit("3");
            assert(("3")@ =~= seq![digit_char((n % 10) as nat)]);
        }
    } else if d == 4 {
        s.append("4");
        proof {
            reveal_strlit("4");
            assert(("4")@ =~= seq![digit_char((n % 10) as nat)]);
        }
    } else if d == 5 {
        s.append("5");
        proof {
            reveal_strlit("5");
            assert(("5")@ =~= seq![digit_char((n % 10) as nat)]);
        }
    } else if d == 6 {
        s.append("6");
        proof {
            reveal_strlit("6");
            assert(("6")@ =~= seq![digit_char((n % 10) as nat)]);
        }
    } else if d == 7 {
        s.append("7");
        proof {
            reveal_strlit("7");
            assert(("7")@ =~= seq![digit_char((n % 10) as nat)]);
        }
    } else if d == 8 {
        s.append("8");
        proof {
            reveal_strlit("8");
            assert(("8")@ =~= seq![digit_char((n % 10) as nat)]);
        }
    } else {
        s.append("9");
        proof {
            reveal_strlit("9");
            assert(("9")@ =~= seq![digit_char((n % 10) as nat)]);
        }
    }
    proof {
        if n >= 10 {
            assert(dec_digits(n as nat) =~= dec_digits((n as nat) / 10) + seq![
                digit_char((n as nat) % 10),
            ]);
        } else {
            assert(dec_digits(n as nat) =~= seq![digit_char(n as nat)]);
        }
        assert(final(s)@ =~= old(s)@ + dec_digits(n as nat));
    }
}

/// Append `n` spaces.
fn push_spaces(s: &mut String, n: usize)
    ensures
        final(s)@ == old(s)@ + repeat_char(' ', n as nat),
{
    let ghost base = s@;
    let mut k: usize = 0;
    proof {
        assert(s@ =~= base + repeat_char(' ', 0nat));
    }
    while k < n
        invariant
            k <= n,
            s@ == base + repeat_char(' ', k as nat),
        decreases n - k,
    {
        s.append(" ");
        proof {
            reveal_strlit(" ");
            assert(base + repeat_char(' ', (k + 1) as nat) =~= (base + repeat_char(
                ' ',
                k as nat,
            )) + (" ")@);
        }
        k = k + 1;
    }
}

/// Append `n` tildes.
fn push_tildes(s: &mut String, n: usize)
    ensures
        final(s)@ == old(s)@ + repeat_char('~', n as nat),
{
    let ghost base = s@;
    let mut k: usize = 0;
    proof {
        assert(s@ =~= base + repeat_char('~', 0nat));
    }
    while k < n
        invariant
            k <= n,
            s@ == base + repeat_char('~', k as nat),
        decreases n - k,
    {
        s.append("~");
        proof {
            reveal_strlit("~");
            assert(base + repeat_char('~', (k + 1) as nat) =~= (base + repeat_char(
                '~',
                k as nat,
            )) + ("~")@);
        }
        k = k + 1;
    }
}

/// What `String::from_utf8_lossy` returns for a byte sequence: a function
/// of the bytes alone.
pub uninterp spec fn lossy_of(bytes: Seq<u8>) -> Seq<char>;

/// Relies on `String::from_utf8_lossy`: the result depends on the bytes
/// alone, bytes that are valid UTF-8 decode exactly, and a newline in the
/// result can only come from a newline byte (invalid sequences become
/// U+FFFD, never a newline).
#[verifier::external_body]
fn bytes_lossy(bytes: &[u8]) -> (r: String)
    ensures
        r@ == lossy_of(bytes@),
        valid_utf8(bytes@) ==> r@ == decode_utf8(bytes@),
        (forall|i: int| 0 <= i < bytes@.len() ==> bytes@[i] != B_NL) ==> (forall|i: int|
            0 <= i < r@.len() ==> r@[i] != '\n'),
{
    String::from_utf8_lossy(bytes).into_owned()
}

} // verus!
