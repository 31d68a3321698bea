use vstd::prelude::*;
use vstd::string::StringSliceAdditionalSpecFns;
use vstd::utf8::{decode_utf8, encode_utf8, is_char_boundary, valid_utf8};
use crate::span::Span;
use crate::text::{line_end, lemma_line_end_bounds, owned};

verus! {

/// Extracted source line with highlight positions for rendering error underlines.
#[derive(Debug, Clone, PartialEq, Eq)]
pub struct SourceLine {
    /// 1-based line number.
    pub line_number: usize,
    /// The full source line with trailing newline trimmed.
    pub line_text: String,
    /// Column where the underline starts (0-based, for spacing).
    pub highlight_start: usize,
    /// Column where the underline ends (0-based).
    pub highlight_end: usize,
}

/// The offset where the line holding offset `i` begins: just after the last newline before
/// `i`, or 0.
pub open spec fn line_begin(s: Seq<u8>, i: int) -> int
    decreases i,
{
    if i <= 0 || i > s.len() {
        0
    } else if s[i - 1] == 0x0a {
        i
    } else {
        line_begin(s, i - 1)
    }
}

pub proof fn lemma_line_begin_bounds(s: Seq<u8>, i: int)
    requires
        0 <= i <= s.len(),
    ensures
        0 <= line_begin(s, i) <= i,
    decreases i,
{
    if i > 0 && s[i - 1] != 0x0a {
        lemma_line_begin_bounds(s, i - 1);
    }
}

/// A character boundary of valid UTF-8 stays one in a prefix cut at a later boundary.
pub proof fn lemma_boundary_in_prefix(s: Seq<u8>, k: int, j: int)
    requires
        valid_utf8(s),
        0 <= j <= k <= s.len(),
        is_char_boundary(s, k),
        is_char_boundary(s, j),
    ensures
        valid_utf8(s.subrange(0, k)),
        is_char_boundary(s.subrange(0, k), j),
{
    vstd::utf8::valid_utf8_split(s, k);
    let p = s.subrange(0, k);
    if j < k {
        vstd::utf8::is_char_boundary_iff_not_is_continuation_byte(s, j);
        vstd::utf8::is_char_boundary_iff_not_is_continuation_byte(p, j);
        assert(p[j] == s[j]);
    } else {
        vstd::utf8::is_char_boundary_start_end_of_seq(p);
        assert(p.len() == k);
    }
}

/// In valid UTF-8, the offset just after an ASCII byte is a character boundary.
pub proof fn lemma_after_ascii_is_boundary(s: Seq<u8>, b: int)
    requires
        valid_utf8(s),
        0 < b <= s.len(),
        s[b - 1] < 0x80,
    ensures
        is_char_boundary(s, b),
    decreases s.len(),
{
    let w = vstd::utf8::length_of_first_scalar(s);
    let rest = vstd::utf8::pop_first_scalar(s);
    assert(vstd::utf8::valid_first_scalar(s) && valid_utf8(rest));
    assert(1 <= w <= s.len());
    assert(rest.len() == s.len() - w);
    assert(is_char_boundary(s, b) == is_char_boundary(rest, b - w));
    if b - 1 >= w {
        assert(rest[b - 1 - w] == s[b - 1]);
        lemma_after_ascii_is_boundary(rest, b - w);
    } else if b - 1 >= 1 {
        assert(vstd::utf8::is_continuation_byte(s[b - 1]));
    } else {
        assert(w == 1);
        assert(is_char_boundary(rest, 0));
    }
}

/// The line holding an offset begins and ends at character boundaries.
pub proof fn lemma_line_bounds_are_boundaries(s: Seq<u8>, i: int)
    requires
        valid_utf8(s),
        0 <= i <= s.len(),
    ensures
        is_char_boundary(s, line_begin(s, i)),
        is_char_boundary(s, line_end(s, i)),
    decreases i,
{
    vstd::utf8::is_char_boundary_start_end_of_seq(s);
    lemma_line_end_bounds(s, i);
    lemma_line_begin_bounds(s, i);
    if i > 0 && s[i - 1] == 0x0a {
        lemma_after_ascii_is_boundary(s, i);
    } else if i > 0 {
        lemma_line_bounds_are_boundaries(s, i - 1);
        assert(line_begin(s, i) == line_begin(s, i - 1));
    }
    lemma_line_end_boundary(s, i);
}

proof fn lemma_line_end_boundary(s: Seq<u8>, i: int)
    requires
        valid_utf8(s),
        0 <= i <= s.len(),
    ensures
        is_char_boundary(s, line_end(s, i)),
    decreases s.len() - i,
{
    vstd::utf8::is_char_boundary_start_end_of_seq(s);
    if i < s.len() {
        if s[i] == 0x0a {
            if i > 0 {
                vstd::utf8::is_char_boundary_iff_not_is_continuation_byte(s, i);
            }
        } else {
            lemma_line_end_boundary(s, i + 1);
        }
    }
}

/// Where the text of the line holding offset `i` ends: before its newline, and before a carriage
/// return that precedes the newline or the end of the source.
pub open spec fn text_end(s: Seq<u8>, i: int) -> int {
    let b = line_begin(s, i);
    let e = line_end(s, i);
    if e > b && s[e - 1] == 0x0d {
        e - 1
    } else {
        e
    }
}

/// Whether `r` is the source line for `span` in the bytes `s`: the line number, the line's text
/// without its line ending, and the underline from the span's start to its end, or to the end of
/// the line's text when the span runs onto later lines.
pub open spec fn line_for(r: SourceLine, s: Seq<u8>, span: Span) -> bool {
    let b = line_begin(s, span.start.offset as int);
    let t = text_end(s, span.start.offset as int);
    &&& r.line_number == span.start.line
    &&& r.line_text@ == decode_utf8(s.subrange(b, t))
    &&& r.highlight_start == span.start.offset - b
    &&& r.highlight_end == if span.end.line == span.start.line {
        span.end.offset - b
    } else {
        t - b
    }
}

/// The underline of a span that runs onto later lines ends with the text of its first line: it
/// is exactly as long as that text in bytes, never past it; and the text is a stretch of the
/// source, no longer than it.
pub proof fn multi_line_highlight_ends_at_line_end(r: SourceLine, s: Seq<u8>, span: Span)
    requires
        valid_utf8(s),
        span.start.offset <= s.len(),
        span.end.line != span.start.line,
        line_for(r, s, span),
    ensures
        r.highlight_end == encode_utf8(r.line_text@).len(),
        r.highlight_end <= s.len(),
{
    let i = span.start.offset as int;
    lemma_line_begin_bounds(s, i);
    lemma_line_end_bounds(s, i);
    lemma_line_bounds_are_boundaries(s, i);
    let b = line_begin(s, i);
    let t = text_end(s, i);
    let e = line_end(s, i);
    if t < e {
        vstd::utf8::is_char_boundary_iff_not_is_continuation_byte(s, t);
    }
    assert(is_char_boundary(s, t));
    vstd::utf8::valid_utf8_split(s, t);
    let head = s.subrange(0, t);
    lemma_boundary_in_prefix(s, t, b);
    vstd::utf8::valid_utf8_split(head, b);
    assert(head.subrange(b, t) =~= s.subrange(b, t));
    vstd::utf8::decode_utf8_encode_utf8(s.subrange(b, t));
}

proof fn lemma_line_begin_shape(s: Seq<u8>, i: int)
    requires
        0 <= i <= s.len(),
    ensures
        line_begin(s, i) == 0 || s[line_begin(s, i) - 1] == 0x0a,
        forall|j: int| line_begin(s, i) <= j < i ==> s[j] != 0x0a,
    decreases i,
{
    lemma_line_begin_bounds(s, i);
    if i > 0 && s[i - 1] != 0x0a {
        lemma_line_begin_shape(s, i - 1);
    }
}

proof fn lemma_line_end_shape(s: Seq<u8>, i: int)
    requires
        0 <= i <= s.len(),
    ensures
        line_end(s, i) == s.len() || s[line_end(s, i)] == 0x0a,
        forall|j: int| i <= j < line_end(s, i) ==> s[j] != 0x0a,
    decreases s.len() - i,
{
    lemma_line_end_bounds(s, i);
    if i < s.len() && s[i] != 0x0a {
        lemma_line_end_shape(s, i + 1);
    }
}

/// The extracted line is the source line holding the span's start: its text is the stretch of
/// the source that begins at the returned offset, after the last newline before the start (or at the start of the
/// source), holds no newline, and stops at the end of the source, at a newline, or at a carriage
/// return that ends the line; the underline starts at the span's start, counted from the line's
/// beginning; and the line number is the span's.
pub proof fn source_line_is_the_line(r: SourceLine, s: Seq<u8>, span: Span) -> (b: int)
    requires
        valid_utf8(s),
        span.start.offset <= s.len(),
        line_for(r, s, span),
    ensures
        ({
            let n = encode_utf8(r.line_text@).len() as int;
            &&& 0 <= b <= span.start.offset
            &&& b + n <= s.len()
            &&& (b == 0 || s[b - 1] == 0x0a)
            &&& (forall|j: int| b <= j < span.start.offset ==> s[j] != 0x0a)
            &&& encode_utf8(r.line_text@) == s.subrange(b, b + n)
            &&& (forall|j: int| b <= j < b + n ==> s[j] != 0x0a)
            &&& (b + n == s.len() || s[b + n] == 0x0a || (s[b + n] == 0x0d && (b + n + 1 == s.len() || s[b + n + 1] == 0x0a)))
            &&& r.highlight_start == span.start.offset - b
        }),
        r.line_number == span.start.line,
{
    let i = span.start.offset as int;
    lemma_line_begin_shape(s, i);
    lemma_line_end_shape(s, i);
    lemma_line_begin_bounds(s, i);
    lemma_line_end_bounds(s, i);
    lemma_line_bounds_are_boundaries(s, i);
    let b = line_begin(s, i);
    let t = text_end(s, i);
    let e = line_end(s, i);
    if t < e {
        vstd::utf8::is_char_boundary_iff_not_is_continuation_byte(s, t);
    }
    vstd::utf8::valid_utf8_split(s, t);
    let head = s.subrange(0, t);
    lemma_boundary_in_prefix(s, t, b);
    vstd::utf8::valid_utf8_split(head, b);
    assert(head.subrange(b, t) =~= s.subrange(b, t));
    vstd::utf8::decode_utf8_encode_utf8(s.subrange(b, t));
    let n = encode_utf8(r.line_text@).len() as int;
    assert(n == t - b);
    assert(forall|j: int| b <= j < b + n ==> s[j] != 0x0a);
    assert(b + n == s.len() || s[b + n] == 0x0a || (s[b + n] == 0x0d && (b + n + 1 == s.len() || s[b + n + 1] == 0x0a)));
    b
}

/// Extracts a source line and highlight positions from the original source text for a given span.
///
/// For spans that cross multiple lines, the highlight extends to the end of the first line.
pub fn extract_source_line(source: &str, span: Span) -> (r: SourceLine)
    requires
        span.start.offset <= source.spec_bytes().len(),
        span.end.line == span.start.line ==> span.end.offset >= line_begin(source.spec_bytes(), span.start.offset as int),
    ensures
        line_for(r, source.spec_bytes(), span),
        span.end.line != span.start.line ==> r.highlight_end == encode_utf8(r.line_text@).len(),
        encode_utf8(r.line_text@).len() <= source.spec_bytes().len(),
{
    let bytes = source.as_bytes();
    let ghost s = bytes@;
    proof {
        lemma_line_begin_bounds(s, span.start.offset as int);
        lemma_line_end_bounds(s, span.start.offset as int);
        vstd::utf8::encode_utf8_valid_utf8(source@);
        lemma_line_bounds_are_boundaries(s, span.start.offset as int);
    }
    let mut line_start = span.start.offset;
    while line_start > 0 && bytes[line_start - 1] != 0x0a
        invariant
            line_start <= span.start.offset <= s.len(),
            bytes@ == s,
            line_begin(s, line_start as int) == line_begin(s, span.start.offset as int),
        decreases line_start,
    {
        line_start = line_start - 1;
    }
    let mut line_stop = span.start.offset;
    while line_stop < bytes.len() && bytes[line_stop] != 0x0a
        invariant
            span.start.offset <= line_stop <= s.len(),
            bytes@ == s,
            line_end(s, line_stop as int) == line_end(s, span.start.offset as int),
        decreases s.len() - line_stop,
    {
        line_stop = line_stop + 1;
    }
    if line_stop > line_start && bytes[line_stop - 1] == 0x0d {
        proof {
            vstd::utf8::encode_utf8_valid_utf8(source@);
            vstd::utf8::is_char_boundary_iff_not_is_continuation_byte(s, line_stop - 1);
        }
        line_stop = line_stop - 1;
    }
    assert(line_stop as int == text_end(s, span.start.offset as int));
    let (head, _) = source.split_at(line_stop);
    proof {
        vstd::utf8::encode_utf8_valid_utf8(source@);
        vstd::utf8::valid_utf8_split(s, line_stop as int);
        assert(head.spec_bytes() =~= s.subrange(0, line_stop as int));
        vstd::utf8::encode_utf8_valid_utf8(head@);
        lemma_boundary_in_prefix(s, line_stop as int, line_start as int);
    }
    let (_, text) = head.split_at(line_start);
    proof {
        vstd::utf8::encode_utf8_decode_utf8(text@);
        assert(text.spec_bytes() =~= s.subrange(line_start as int, line_stop as int));
    }
    let line_text = owned(text);
    assert(encode_utf8(line_text@) == s.subrange(line_start as int, line_stop as int));
    let highlight_start = span.start.offset - line_start;
    let highlight_end = if span.end.line == span.start.line {
        span.end.offset - line_start
    } else {
        line_stop - line_start
    };
    SourceLine { line_number: span.start.line, line_text, highlight_start, highlight_end }
}

} // verus!
