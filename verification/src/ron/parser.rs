use vstd::prelude::*;
use crate::error::{RonErrorKind, RonParseError, SpecRonErrorKind, SpecRonParseError};
use crate::number::{Decimal, decimal_of_literal, digits_value, digit_values};
use crate::span::{Position, Span, Spanned};
use vstd::string::StringSliceAdditionalSpecFns;
use crate::text::{is_ws, is_digit, is_alpha, is_ident_start, is_ident_continue, ident_end, skip_ws, line_end, pos_at, line_at, column_at, bytes_as_chars, lemma_skip_ws_bounds, lemma_ident_end_bounds, lemma_line_column_bounds, lemma_line_end_bounds, byte_is_ws, byte_is_digit, byte_is_alpha, byte_is_ident_continue, push_char, owned, copy_string, str_eq, text_of_bytes, text_from_bytes};
use super::{RonStruct, RonValue, SpecRonStruct, SpecRonValue, list_view, pairs_view, fields_view, spanned_view, lemma_list_view_push, lemma_pairs_view_push, lemma_fields_view_push, lemma_views_empty};

verus! {

// ===========================================================================
// The grammar, as functions of the source bytes `s` and an offset
// ===========================================================================

pub open spec fn span_of(s: Seq<u8>, a: int, b: int) -> Span {
    Span { start: pos_at(s, a), end: pos_at(s, b) }
}

/// The text `'c'`.
pub open spec fn quoted(b: u8) -> Seq<char> {
    seq!['\'', b as char, '\'']
}

pub open spec fn unexpected(s: Seq<u8>, a: int, b: int, expected: Seq<char>, found: Seq<char>) -> SpecRonParseError {
    SpecRonParseError {
        span: span_of(s, a, b),
        kind: SpecRonErrorKind::UnexpectedToken { expected, found },
    }
}

/// Expecting byte `c` at offset `i`: the offset after it, or the error.
pub open spec fn expect_at(s: Seq<u8>, i: int, c: u8) -> Result<int, SpecRonParseError> {
    if 0 <= i < s.len() && s[i] == c {
        Ok(i + 1)
    } else if 0 <= i < s.len() {
        Err(unexpected(s, i, i + 1, quoted(c), quoted(s[i])))
    } else {
        Err(unexpected(s, i, i, quoted(c), "end of input"@))
    }
}

/// An identifier at offset `i`: its text and span, and the offset after it.
pub open spec fn identifier_at(s: Seq<u8>, i: int) -> Result<(Spanned<Seq<char>>, int), SpecRonParseError> {
    if 0 <= i < s.len() && is_ident_start(s[i]) {
        let e = ident_end(s, i);
        Ok((Spanned { value: bytes_as_chars(s.subrange(i, e)), span: span_of(s, i, e) }, e))
    } else if 0 <= i < s.len() {
        Err(unexpected(s, i, i + 1, "identifier"@, quoted(s[i])))
    } else {
        Err(unexpected(s, i, i, "identifier"@, "end of input"@))
    }
}

/// The character that the escape `\b` stands for inside a string literal.
pub open spec fn escaped(b: u8) -> u8 {
    if b == 0x6e {
        0x0a
    } else if b == 0x74 {
        0x09
    } else {
        b
    }
}

/// The rest of a string literal opened at `start`, from offset `i`: the bytes of its contents
/// (each escape replaced by the byte it stands for) and the offset after the closing quote.
pub open spec fn string_rest(s: Seq<u8>, start: int, i: int) -> Result<(Seq<u8>, int), SpecRonParseError>
    decreases s.len() - i,
{
    if i < 0 || i >= s.len() {
        Err(SpecRonParseError { span: span_of(s, start, i), kind: SpecRonErrorKind::UnterminatedString })
    } else if s[i] == 0x22 {
        Ok((Seq::empty(), i + 1))
    } else if s[i] == 0x5c {
        if i + 1 >= s.len() {
            Err(SpecRonParseError { span: span_of(s, start, i + 1), kind: SpecRonErrorKind::UnterminatedString })
        } else {
            match string_rest(s, start, i + 2) {
                Ok((t, e)) => Ok((seq![escaped(s[i + 1])] + t, e)),
                Err(x) => Err(x),
            }
        }
    } else {
        match string_rest(s, start, i + 1) {
            Ok((t, e)) => Ok((seq![s[i]] + t, e)),
            Err(x) => Err(x),
        }
    }
}

/// Scanning a number from `i`: digits and at most one point. The end offset and the offset of
/// the point (negative when there is none).
pub open spec fn number_scan(s: Seq<u8>, i: int, dot: int) -> (int, int)
    decreases s.len() - i,
{
    if 0 <= i < s.len() && is_digit(s[i]) {
        number_scan(s, i + 1, dot)
    } else if 0 <= i < s.len() && s[i] == 0x2e && dot < 0 {
        number_scan(s, i + 1, i)
    } else {
        (i, dot)
    }
}

/// The value of the decimal digits `d` with the given sign.
pub open spec fn signed_digits(negative: bool, d: Seq<u8>) -> int {
    if negative {
        -(digits_value(digit_values(d)) as int)
    } else {
        digits_value(digit_values(d)) as int
    }
}

/// A number literal starting at `j`.
pub open spec fn number_at(s: Seq<u8>, j: int) -> Result<(Spanned<SpecRonValue>, int), SpecRonParseError> {
    let negative = s[j] == 0x2d;
    let k = if negative {
        j + 1
    } else {
        j
    };
    let (end, dot) = number_scan(s, k, -1);
    let span = span_of(s, j, end);
    if dot >= 0 {
        if end - k > 1 {
            Ok((Spanned {
                value: SpecRonValue::Float(
                    decimal_of_literal(negative, s.subrange(k, dot), s.subrange(dot + 1, end)),
                ),
                span,
            }, end))
        } else {
            Err(SpecRonParseError {
                span,
                kind: SpecRonErrorKind::InvalidNumber { text: bytes_as_chars(s.subrange(j, end)) },
            })
        }
    } else {
        let v = signed_digits(negative, s.subrange(k, end));
        if end > k && i64::MIN <= v <= i64::MAX {
            Ok((Spanned { value: SpecRonValue::Integer(v as i64), span }, end))
        } else {
            Err(SpecRonParseError {
                span,
                kind: SpecRonErrorKind::InvalidNumber { text: bytes_as_chars(s.subrange(j, end)) },
            })
        }
    }
}

/// A value at offset `i` (after skipping whitespace): the spanned value and the offset after it.
pub open spec fn value_at(s: Seq<u8>, i: int) -> Result<(Spanned<SpecRonValue>, int), SpecRonParseError>
    decreases s.len() - i, 2int,
{
    if i < 0 || i > s.len() {
        Err(arbitrary())
    } else {
        let j = skip_ws(s, i);
        proof {
            lemma_skip_ws_bounds(s, i);
        }
        if j >= s.len() {
            Err(unexpected(s, j, j, "value"@, "end of file"@))
        } else if s[j] == 0x22 {
            match string_rest(s, j, j + 1) {
                Ok((t, e)) => Ok((Spanned { value: SpecRonValue::String(text_of_bytes(t)), span: span_of(s, j, e) }, e)),
                Err(x) => Err(x),
            }
        } else if is_digit(s[j]) || s[j] == 0x2d {
            number_at(s, j)
        } else if is_alpha(s[j]) {
            word_at(s, j)
        } else if s[j] == 0x5b {
            list_at(s, j)
        } else if s[j] == 0x7b {
            dict_at(s, j)
        } else if s[j] == 0x28 {
            paren_at(s, j)
        } else {
            Err(unexpected(s, j, j + 1, "value"@, seq![s[j] as char]))
        }
    }
}

pub open spec fn kw_true() -> Seq<u8> {
    seq![0x74u8, 0x72u8, 0x75u8, 0x65u8]
}

pub open spec fn kw_false() -> Seq<u8> {
    seq![0x66u8, 0x61u8, 0x6cu8, 0x73u8, 0x65u8]
}

pub open spec fn kw_none() -> Seq<u8> {
    seq![0x4eu8, 0x6fu8, 0x6eu8, 0x65u8]
}

pub open spec fn kw_some() -> Seq<u8> {
    seq![0x53u8, 0x6fu8, 0x6du8, 0x65u8]
}

/// A word at `j` (which holds a letter): `true`, `false`, `None`, `Some(v)`, a variant with data
/// `Name(v)`, or a bare identifier.
pub open spec fn word_at(s: Seq<u8>, j: int) -> Result<(Spanned<SpecRonValue>, int), SpecRonParseError>
    decreases s.len() - j, 1int,
{
    if j < 0 || j >= s.len() {
        Err(arbitrary())
    } else {
        let e = ident_end(s, j);
        proof {
            lemma_ident_end_bounds(s, j);
        }
        let wb = s.subrange(j, e);
        let word = bytes_as_chars(wb);
        let wspan = span_of(s, j, e);
        if wb == kw_true() {
            Ok((Spanned { value: SpecRonValue::Bool(true), span: wspan }, e))
        } else if wb == kw_false() {
            Ok((Spanned { value: SpecRonValue::Bool(false), span: wspan }, e))
        } else if wb == kw_none() {
            Ok((Spanned { value: SpecRonValue::Option(None), span: wspan }, e))
        } else {
            word_tail(s, j, e)
        }
    }
}

/// What follows a word at `j..e` that is not `true`, `false` or `None`: after whitespace,
/// `Some(v)` or `Name(v)` take a parenthesized value; otherwise the word is a bare identifier.
pub open spec fn word_tail(s: Seq<u8>, j: int, e: int) -> Result<(Spanned<SpecRonValue>, int), SpecRonParseError>
    decreases s.len() - j, 0int,
{
    if j < 0 || e <= j || e > s.len() {
        Err(arbitrary())
    } else {
        let wb = s.subrange(j, e);
        let word = bytes_as_chars(wb);
        let w = skip_ws(s, e);
        proof {
            lemma_skip_ws_bounds(s, e);
        }
        if wb == kw_some() {
            match expect_at(s, w, 0x28) {
                Err(x) => Err(x),
                Ok(o) => match value_at(s, o) {
                    Err(x) => Err(x),
                    Ok((inner, ie)) => match expect_at(s, ie, 0x29) {
                        Err(x) => Err(x),
                        Ok(end) => Ok((
                            Spanned {
                                value: SpecRonValue::Option(Some(Box::new(inner))),
                                span: span_of(s, j, end),
                            },
                            end,
                        )),
                    },
                },
            }
        } else if w < s.len() && s[w] == 0x28 {
            match value_at(s, w + 1) {
                Err(x) => Err(x),
                Ok((inner, ie)) => match expect_at(s, ie, 0x29) {
                    Err(x) => Err(x),
                    Ok(end) => Ok((
                        Spanned {
                            value: SpecRonValue::EnumVariant(word, Box::new(inner)),
                            span: span_of(s, j, end),
                        },
                        end,
                    )),
                },
            }
        } else {
            Ok((Spanned { value: SpecRonValue::Identifier(word), span: span_of(s, j, e) }, w))
        }
    }
}

/// A list opened at `j`.
pub open spec fn list_at(s: Seq<u8>, j: int) -> Result<(Spanned<SpecRonValue>, int), SpecRonParseError>
    decreases s.len() - j, 0int,
{
    if j < 0 || j >= s.len() {
        Err(arbitrary())
    } else {
        match list_items(s, j + 1) {
            Ok((items, e)) => Ok((Spanned { value: SpecRonValue::List(items), span: span_of(s, j, e) }, e)),
            Err(x) => Err(x),
        }
    }
}

/// The elements of a list from offset `i`, and the offset after its closing `]`.
pub open spec fn list_items(s: Seq<u8>, i: int) -> Result<(Seq<Spanned<SpecRonValue>>, int), SpecRonParseError>
    decreases s.len() - i, 3int,
{
    if i < 0 || i > s.len() {
        Err(arbitrary())
    } else {
        let w = skip_ws(s, i);
        proof {
            lemma_skip_ws_bounds(s, i);
        }
        if w < s.len() && s[w] == 0x5d {
            Ok((Seq::empty(), w + 1))
        } else {
            match value_at(s, w) {
                Err(x) => Err(x),
                Ok((v, e)) => if w < e <= s.len() {
                    let w2 = skip_ws(s, e);
                    proof {
                        lemma_skip_ws_bounds(s, e);
                    }
                    let next = if w2 < s.len() && s[w2] == 0x2c {
                        w2 + 1
                    } else {
                        w2
                    };
                    match list_items(s, next) {
                        Ok((rest, end)) => Ok((seq![v] + rest, end)),
                        Err(x) => Err(x),
                    }
                } else {
                    Err(arbitrary())
                },
            }
        }
    }
}

/// A map opened at `j`.
pub open spec fn dict_at(s: Seq<u8>, j: int) -> Result<(Spanned<SpecRonValue>, int), SpecRonParseError>
    decreases s.len() - j, 0int,
{
    if j < 0 || j >= s.len() {
        Err(arbitrary())
    } else {
        match dict_entries(s, j + 1) {
            Ok((items, e)) => Ok((Spanned { value: SpecRonValue::Dict(items), span: span_of(s, j, e) }, e)),
            Err(x) => Err(x),
        }
    }
}

/// The entries of a map from offset `i`, and the offset after its closing `}`.
pub open spec fn dict_entries(s: Seq<u8>, i: int) -> Result<
    (Seq<(Spanned<SpecRonValue>, Spanned<SpecRonValue>)>, int),
    SpecRonParseError,
>
    decreases s.len() - i, 3int,
{
    if i < 0 || i > s.len() {
        Err(arbitrary())
    } else {
        let w = skip_ws(s, i);
        proof {
            lemma_skip_ws_bounds(s, i);
        }
        if w < s.len() && s[w] == 0x7d {
            Ok((Seq::empty(), w + 1))
        } else {
            match value_at(s, w) {
                Err(x) => Err(x),
                Ok((k, ke)) => if w < ke <= s.len() {
                    let c = skip_ws(s, ke);
                    proof {
                        lemma_skip_ws_bounds(s, ke);
                    }
                    match expect_at(s, c, 0x3a) {
                        Err(x) => Err(x),
                        Ok(vs) => match value_at(s, vs) {
                            Err(x) => Err(x),
                            Ok((v, ve)) => if vs < ve <= s.len() {
                                let w2 = skip_ws(s, ve);
                                proof {
                                    lemma_skip_ws_bounds(s, ve);
                                }
                                let next = if w2 < s.len() && s[w2] == 0x2c {
                                    w2 + 1
                                } else {
                                    w2
                                };
                                match dict_entries(s, next) {
                                    Ok((rest, end)) => Ok((seq![(k, v)] + rest, end)),
                                    Err(x) => Err(x),
                                }
                            } else {
                                Err(arbitrary())
                            },
                        },
                    }
                } else {
                    Err(arbitrary())
                },
            }
        }
    }
}

/// Whether the parenthesis at `j` opens a struct: it is empty, or its first item is an
/// identifier followed by `:`.
pub open spec fn paren_is_struct(s: Seq<u8>, j: int) -> bool {
    let w = skip_ws(s, j + 1);
    if w < s.len() && s[w] == 0x29 {
        true
    } else {
        match identifier_at(s, w) {
            Ok((_, e)) => {
                let c = skip_ws(s, e);
                c < s.len() && s[c] == 0x3a
            },
            Err(_) => false,
        }
    }
}

/// Whether field `j` has the name of an earlier field.
pub open spec fn named_before(fs: Seq<(Spanned<Seq<char>>, Spanned<SpecRonValue>)>, j: int) -> bool {
    exists|i: int| 0 <= i < j && #[trigger] fs[i].0.value == fs[j].0.value
}

/// The first field from index `k` on that repeats the name of an earlier field, or -1.
pub open spec fn repeated_at(fs: Seq<(Spanned<Seq<char>>, Spanned<SpecRonValue>)>, k: int) -> int
    decreases fs.len() - k,
{
    if k < 0 || k >= fs.len() {
        -1
    } else if named_before(fs, k) {
        k
    } else {
        repeated_at(fs, k + 1)
    }
}

/// A struct value built from fields read between offsets `j` and `e`, or the error for its first
/// repeated field name, reported at that field's name.
pub open spec fn struct_value(
    s: Seq<u8>,
    j: int,
    fields: Seq<(Spanned<Seq<char>>, Spanned<SpecRonValue>)>,
    close: Span,
    e: int,
) -> Result<(Spanned<SpecRonValue>, int), SpecRonParseError> {
    let d = repeated_at(fields, 0);
    if 0 <= d < fields.len() {
        Err(SpecRonParseError {
            span: fields[d].0.span,
            kind: SpecRonErrorKind::DuplicateField { field_name: fields[d].0.value },
        })
    } else {
        Ok((
            Spanned {
                value: SpecRonValue::Struct(SpecRonStruct { fields, close_span: close }),
                span: span_of(s, j, e),
            },
            e,
        ))
    }
}

/// Finds the first field that repeats the name of an earlier field (see [`repeated_at`]).
pub fn first_repeated(fs: &Vec<(Spanned<String>, Spanned<RonValue>)>) -> (r: Option<usize>)
    ensures
        match r {
            Some(d) => d < fs@.len() && d as int == repeated_at(fields_view(fs@), 0),
            None => repeated_at(fields_view(fs@), 0) == -1,
        },
{
    let ghost fv = fields_view(fs@);
    let mut j: usize = 0;
    while j < fs.len()
        invariant
            j <= fs@.len(),
            fv == fields_view(fs@),
            fv.len() == fs@.len(),
            repeated_at(fv, 0) == repeated_at(fv, j as int),
        decreases fs@.len() - j,
    {
        let mut i: usize = 0;
        let mut hit = false;
        while i < j && !hit
            invariant
                i <= j < fs@.len(),
                fv == fields_view(fs@),
                fv.len() == fs@.len(),
                hit ==> named_before(fv, j as int),
                !hit ==> forall|k: int| 0 <= k < i ==> fv[k].0.value != fv[j as int].0.value,
            decreases j - i,
        {
            assert(fv[i as int].0.value == fs@[i as int].0.value@);
            assert(fv[j as int].0.value == fs@[j as int].0.value@);
            if str_eq(fs[i].0.value.as_str(), fs[j].0.value.as_str()) {
                hit = true;
                assert(fv[i as int].0.value == fv[j as int].0.value);
            }
            i = i + 1;
        }
        if hit {
            return Some(j);
        }
        assert(!named_before(fv, j as int));
        j = j + 1;
    }
    None
}

/// A struct or tuple opened at `j`.
pub open spec fn paren_at(s: Seq<u8>, j: int) -> Result<(Spanned<SpecRonValue>, int), SpecRonParseError>
    decreases s.len() - j, 0int,
{
    if j < 0 || j >= s.len() {
        Err(arbitrary())
    } else if paren_is_struct(s, j) {
        match struct_fields(s, j, j + 1) {
            Ok((fields, close, e)) => struct_value(s, j, fields, close, e),
            Err(x) => Err(x),
        }
    } else {
        match tuple_items(s, j + 1) {
            Ok((items, e)) => Ok((Spanned { value: SpecRonValue::Tuple(items), span: span_of(s, j, e) }, e)),
            Err(x) => Err(x),
        }
    }
}

/// The fields of a struct opened at `start`, read from offset `i`: the fields, the span of the
/// closing `)`, and the offset after it.
pub open spec fn struct_fields(s: Seq<u8>, start: int, i: int) -> Result<
    (Seq<(Spanned<Seq<char>>, Spanned<SpecRonValue>)>, Span, int),
    SpecRonParseError,
>
    decreases s.len() - i, 3int,
{
    if i < 0 || i > s.len() {
        Err(arbitrary())
    } else {
        let w = skip_ws(s, i);
        proof {
            lemma_skip_ws_bounds(s, i);
        }
        if w < s.len() && s[w] == 0x29 {
            Ok((Seq::empty(), span_of(s, w, w + 1), w + 1))
        } else {
            match identifier_at(s, w) {
                Err(x) => Err(x),
                Ok((name, ne)) => {
                    proof {
                        lemma_ident_end_bounds(s, w);
                        lemma_skip_ws_bounds(s, ne);
                    }
                    let c = skip_ws(s, ne);
                    match expect_at(s, c, 0x3a) {
                        Err(x) => Err(x),
                        Ok(vs) => {
                            proof {
                                lemma_skip_ws_bounds(s, vs);
                            }
                            let vs2 = skip_ws(s, vs);
                            match value_at(s, vs2) {
                                Err(x) => Err(x),
                                Ok((v, ve)) => if w < ve <= s.len() {
                                    let w2 = skip_ws(s, ve);
                                    proof {
                                        lemma_skip_ws_bounds(s, ve);
                                    }
                                    if w2 >= s.len() {
                                        Err(unexpected(s, start, w2, "character"@, "end of file"@))
                                    } else {
                                        let next = if s[w2] == 0x2c {
                                            w2 + 1
                                        } else {
                                            w2
                                        };
                                        match struct_fields(s, start, next) {
                                            Ok((rest, close, end)) => Ok((seq![(name, v)] + rest, close, end)),
                                            Err(x) => Err(x),
                                        }
                                    }
                                } else {
                                    Err(arbitrary())
                                },
                            }
                        },
                    }
                },
            }
        }
    }
}

/// The elements of a tuple from offset `i`, and the offset after its closing `)`.
pub open spec fn tuple_items(s: Seq<u8>, i: int) -> Result<(Seq<Spanned<SpecRonValue>>, int), SpecRonParseError>
    decreases s.len() - i, 3int,
{
    if i < 0 || i > s.len() {
        Err(arbitrary())
    } else {
        let w = skip_ws(s, i);
        proof {
            lemma_skip_ws_bounds(s, i);
        }
        if w < s.len() && s[w] == 0x29 {
            Ok((Seq::empty(), w + 1))
        } else {
            match value_at(s, w) {
                Err(x) => Err(x),
                Ok((v, e)) => if w < e <= s.len() {
                    let w2 = skip_ws(s, e);
                    proof {
                        lemma_skip_ws_bounds(s, e);
                    }
                    let next = if w2 < s.len() && s[w2] == 0x2c {
                        w2 + 1
                    } else {
                        w2
                    };
                    match tuple_items(s, next) {
                        Ok((rest, end)) => Ok((seq![v] + rest, end)),
                        Err(x) => Err(x),
                    }
                } else {
                    Err(arbitrary())
                },
            }
        }
    }
}


// ===========================================================================
// Byte and string helpers
// ===========================================================================

/// Whether `bytes[a..b]` spells `lit`.
pub fn range_equals(bytes: &[u8], a: usize, b: usize, lit: &Vec<u8>) -> (r: bool)
    requires
        a <= b <= bytes@.len(),
    ensures
        r == (bytes@.subrange(a as int, b as int) == lit@),
{
    if b - a != lit.len() {
        return false;
    }
    let mut i: usize = 0;
    while i < lit.len()
        invariant
            a <= b <= bytes@.len(),
            b - a == lit@.len(),
            i <= lit@.len(),
            bytes@.subrange(a as int, a + i) == lit@.subrange(0, i as int),
        decreases lit@.len() - i,
    {
        if bytes[a + i] != lit[i] {
            assert(bytes@.subrange(a as int, b as int)[i as int] != lit@[i as int]);
            return false;
        }
        assert(bytes@.subrange(a as int, a + i + 1) =~= bytes@.subrange(a as int, a + i).push(bytes@[a + i]));
        assert(lit@.subrange(0, i + 1) =~= lit@.subrange(0, i as int).push(lit@[i as int]));
        i = i + 1;
    }
    assert(lit@.subrange(0, lit@.len() as int) =~= lit@);
    true
}

/// The string whose characters are the bytes `bytes[a..b]`, one character per byte.
pub fn chars_from_bytes(bytes: &[u8], a: usize, b: usize) -> (r: String)
    requires
        a <= b <= bytes@.len(),
    ensures
        r@ == bytes_as_chars(bytes@.subrange(a as int, b as int)),
{
    let mut out = String::new();
    let mut i = a;
    while i < b
        invariant
            a <= i <= b <= bytes@.len(),
            out@ == bytes_as_chars(bytes@.subrange(a as int, i as int)),
        decreases b - i,
    {
        push_char(&mut out, bytes[i] as char);
        assert(bytes_as_chars(bytes@.subrange(a as int, i + 1)) =~= bytes_as_chars(bytes@.subrange(a as int, i as int)).push(bytes@[i as int] as char));
        i = i + 1;
    }
    out
}

/// The text `'c'` for byte `b`.
pub fn quoted_text(b: u8) -> (r: String)
    ensures
        r@ == quoted(b),
{
    let mut out = String::new();
    push_char(&mut out, '\'');
    push_char(&mut out, b as char);
    push_char(&mut out, '\'');
    assert(out@ =~= quoted(b));
    out
}

/// The integer written by the digits `bytes[k..end]` with the given sign, if it fits in `i64`.
pub fn parse_i64(bytes: &[u8], negative: bool, k: usize, end: usize) -> (r: Option<i64>)
    requires
        k <= end <= bytes@.len(),
        forall|q: int| k <= q < end ==> is_digit(#[trigger] bytes@[q]),
    ensures
        r == if end > k && i64::MIN <= signed_digits(negative, bytes@.subrange(k as int, end as int)) <= i64::MAX {
            Some(signed_digits(negative, bytes@.subrange(k as int, end as int)) as i64)
        } else {
            None::<i64>
        },
{
    if end == k {
        return None;
    }
    let ghost full = bytes@.subrange(k as int, end as int);
    let mut acc: i128 = 0;
    let mut q = k;
    while q < end
        invariant
            k <= q <= end <= bytes@.len(),
            forall|x: int| k <= x < end ==> is_digit(#[trigger] bytes@[x]),
            full == bytes@.subrange(k as int, end as int),
            acc as int == signed_digits(negative, bytes@.subrange(k as int, q as int)),
            i64::MIN <= acc <= i64::MAX,
        decreases end - q,
    {
        let d = (bytes[q] - 48) as i128;
        let ghost pre = bytes@.subrange(k as int, q as int);
        let ghost pre1 = bytes@.subrange(k as int, q + 1);
        assert(pre1 =~= pre.push(bytes@[q as int]));
        assert(digit_values(pre1) =~= digit_values(pre).push((bytes@[q as int] - 48) as u8));
        assert(digit_values(pre1).drop_last() =~= digit_values(pre));
        assert(digits_value(digit_values(pre1)) == digits_value(digit_values(pre)) * 10 + d);
        let next: i128 = if negative {
            acc * 10 - d
        } else {
            acc * 10 + d
        };
        assert(next as int == signed_digits(negative, pre1));
        if next < i64::MIN as i128 || next > i64::MAX as i128 {
            proof {
                let rest = bytes@.subrange(q + 1, end as int);
                assert(pre1 + rest =~= full);
                assert(digit_values(pre1 + rest) =~= digit_values(pre1) + digit_values(rest));
                crate::number::lemma_digits_split(digit_values(pre1), digit_values(rest));
                crate::number::lemma_pow10_pos(rest.len());
                let a = digits_value(digit_values(pre1));
                let m = crate::number::pow10(rest.len());
                assert(a * m >= a) by (nonlinear_arith)
                    requires
                        m >= 1,
                ;
            }
            return None;
        }
        acc = next;
        q = q + 1;
    }
    Some(acc as i64)
}

// ===========================================================================
// The parser
// ===========================================================================

/// Whether an exec parse result agrees with the grammar's outcome `g`, the parser having
/// stopped at offset `end`.
pub open spec fn agrees<T: View>(
    r: Result<T, RonParseError>,
    g: Result<(T::V, int), SpecRonParseError>,
    end: int,
) -> bool {
    match g {
        Ok((v, e)) => r is Ok && r->Ok_0@ == v && end == e,
        Err(x) => r is Err && r->Err_0@ == x,
    }
}

/// A cursor over RON source bytes that tracks line and column as it advances.
pub struct Parser<'a> {
    /// The source bytes.
    pub bytes: &'a [u8],
    /// Byte offset of the next unread byte.
    pub offset: usize,
    /// Line of the next unread byte (1-based).
    pub line: usize,
    /// Column of the next unread byte (1-based).
    pub column: usize,
}

impl<'a> Parser<'a> {
    /// The cursor is within the source and its line and column are those of its offset.
    pub open spec fn wf(&self) -> bool {
        &&& self.bytes@.len() < usize::MAX
        &&& self.offset <= self.bytes@.len()
        &&& self.line as int == line_at(self.bytes@, self.offset as int)
        &&& self.column as int == column_at(self.bytes@, self.offset as int)
    }

    /// A parser at the start of `source`.
    pub fn new(source: &'a str) -> (p: Self)
        requires
            source.spec_bytes().len() < usize::MAX,
        ensures
            p.wf(),
            p.bytes@ == source.spec_bytes(),
            p.offset == 0,
    {
        Parser { bytes: source.as_bytes(), offset: 0, line: 1, column: 1 }
    }

    /// The current position.
    pub fn position(&self) -> (p: Position)
        requires
            self.wf(),
        ensures
            p == pos_at(self.bytes@, self.offset as int),
    {
        proof {
            lemma_line_column_bounds(self.bytes@, self.offset as int);
        }
        Position { offset: self.offset, line: self.line, column: self.column }
    }

    /// The next byte, if any.
    pub fn peek(&self) -> (r: Option<u8>)
        ensures
            r == if self.offset < self.bytes@.len() {
                Some(self.bytes@[self.offset as int])
            } else {
                None::<u8>
            },
    {
        if self.offset < self.bytes.len() {
            Some(self.bytes[self.offset])
        } else {
            None
        }
    }

    /// Moves past the next byte, if any, keeping line and column in step.
    pub fn advance(&mut self)
        requires
            old(self).wf(),
        ensures
            final(self).wf(),
            final(self).bytes == old(self).bytes,
            final(self).offset == if old(self).offset < old(self).bytes@.len() {
                old(self).offset + 1
            } else {
                old(self).offset as int
            },
    {
        if self.offset < self.bytes.len() {
            proof {
                lemma_line_column_bounds(self.bytes@, self.offset as int);
            }
            if self.bytes[self.offset] == 0x0a {
                self.column = 1;
                self.line = self.line + 1;
            } else {
                self.column = self.column + 1;
            }
            self.offset = self.offset + 1;
        }
    }

    /// Moves past whitespace and `//` line comments.
    pub fn skip_whitespace(&mut self)
        requires
            old(self).wf(),
        ensures
            final(self).wf(),
            final(self).bytes == old(self).bytes,
            final(self).offset == skip_ws(old(self).bytes@, old(self).offset as int),
    {
        let ghost s = self.bytes@;
        let ghost start = self.offset as int;
        loop
            invariant
                self.wf(),
                self.bytes@ == s,
                self.bytes == old(self).bytes,
                start <= self.offset,
                start == old(self).offset,
                s == old(self).bytes@,
                skip_ws(s, self.offset as int) == skip_ws(s, start),
            decreases s.len() - self.offset,
        {
            match self.peek() {
                Some(b) => {
                    if byte_is_ws(b) {
                        self.advance();
                    } else if b == 0x2f && self.offset + 1 < self.bytes.len() && self.bytes[self.offset + 1] == 0x2f {
                        let ghost i = self.offset as int;
                        assert(line_end(s, i) == line_end(s, i + 1));
                        assert(line_end(s, i + 1) == line_end(s, i + 2));
                        proof {
                            lemma_line_end_bounds(s, i + 2);
                        }
                        loop
                            invariant
                                self.wf(),
                                self.bytes@ == s,
                                self.bytes == old(self).bytes,
                                i <= self.offset,
                                line_end(s, self.offset as int) == line_end(s, i),
                                line_end(s, i) >= i + 2,
                            ensures
                                self.wf(),
                                self.bytes@ == s,
                                self.bytes == old(self).bytes,
                                i <= self.offset,
                                line_end(s, self.offset as int) == line_end(s, i),
                                line_end(s, self.offset as int) == self.offset,
                                line_end(s, i) >= i + 2,
                            decreases s.len() - self.offset,
                        {
                            match self.peek() {
                                Some(c) => {
                                    if c == 0x0a {
                                        break;
                                    }
                                    self.advance();
                                },
                                None => {
                                    break;
                                },
                            }
                        }
                    } else {
                        return;
                    }
                },
                None => {
                    assert(skip_ws(s, self.offset as int) == self.offset);
                    return;
                },
            }
        }
    }

    fn error_at(&self, start: Position, expected: String, found: String) -> (e: RonParseError)
        requires
            self.wf(),
        ensures
            e.span == (Span { start, end: pos_at(self.bytes@, self.offset as int) }),
            e.kind@ == (SpecRonErrorKind::UnexpectedToken { expected: expected@, found: found@ }),
    {
        let end = self.position();
        RonParseError { span: Span { start, end }, kind: RonErrorKind::UnexpectedToken { expected, found } }
    }

    /// Consumes the byte `expected`, or reports what stands there instead.
    pub fn expect_char(&mut self, expected: u8) -> (r: Result<(), RonParseError>)
        requires
            old(self).wf(),
        ensures
            final(self).wf(),
            final(self).bytes == old(self).bytes,
            match expect_at(old(self).bytes@, old(self).offset as int, expected) {
                Ok(e) => r is Ok && final(self).offset == e,
                Err(x) => r is Err && r->Err_0@ == x,
            },
    {
        let start = self.position();
        match self.peek() {
            Some(b) => {
                if b == expected {
                    self.advance();
                    Ok(())
                } else {
                    self.advance();
                    Err(self.error_at(start, quoted_text(expected), quoted_text(b)))
                }
            },
            None => {
                Err(self.error_at(start, quoted_text(expected), owned("end of input")))
            },
        }
    }

    /// Reads an identifier: a letter or `_`, then letters, digits and `_`.
    pub fn parse_identifier(&mut self) -> (r: Result<Spanned<String>, RonParseError>)
        requires
            old(self).wf(),
        ensures
            final(self).wf(),
            final(self).bytes == old(self).bytes,
            agrees(r, identifier_at(old(self).bytes@, old(self).offset as int), final(self).offset as int),
    {
        let ghost s = self.bytes@;
        let start = self.position();
        let first = start.offset;
        match self.peek() {
            Some(b) => {
                if !(byte_is_alpha(b) || b == 0x5f) {
                    self.advance();
                    return Err(self.error_at(start, owned("identifier"), quoted_text(b)));
                }
            },
            None => {
                return Err(self.error_at(start, owned("identifier"), owned("end of input")));
            },
        }
        loop
            invariant
                self.wf(),
                self.bytes@ == s,
                self.bytes == old(self).bytes,
                first <= self.offset,
                first == old(self).offset,
                ident_end(s, self.offset as int) == ident_end(s, first as int),
            ensures
                self.wf(),
                self.bytes@ == s,
                self.bytes == old(self).bytes,
                first <= self.offset,
                self.offset == ident_end(s, first as int),
            decreases s.len() - self.offset,
        {
            match self.peek() {
                Some(c) => {
                    if byte_is_ident_continue(c) {
                        self.advance();
                    } else {
                        break;
                    }
                },
                None => {
                    break;
                },
            }
        }
        let end = self.position();
        let text = chars_from_bytes(self.bytes, first, self.offset);
        Ok(Spanned { value: text, span: Span { start, end } })
    }
}

impl<'a> Parser<'a> {
    /// Parses one value after optional whitespace.
    pub fn parse_value(&mut self) -> (r: Result<Spanned<RonValue>, RonParseError>)
        requires
            old(self).wf(),
        ensures
            final(self).wf(),
            final(self).bytes == old(self).bytes,
            agrees(r, value_at(old(self).bytes@, old(self).offset as int), final(self).offset as int),
            r is Ok ==> final(self).offset > old(self).offset,
        decreases old(self).bytes@.len() - old(self).offset, 2int,
    {
        let ghost s = self.bytes@;
        let ghost i = self.offset as int;
        proof {
            lemma_skip_ws_bounds(s, i);
        }
        self.skip_whitespace();
        let start = self.position();
        match self.peek() {
            None => {
                let f = owned("end of file");
                Err(self.error_at(start, owned("value"), f))
            },
            Some(b) => {
                if b == 0x22 {
                    self.parse_string()
                } else if byte_is_digit(b) || b == 0x2d {
                    self.parse_number()
                } else if byte_is_alpha(b) {
                    self.parse_word()
                } else if b == 0x5b {
                    self.parse_list()
                } else if b == 0x7b {
                    self.parse_dict()
                } else if b == 0x28 {
                    self.parse_paren()
                } else {
                    self.advance();
                    let mut f = String::new();
                    push_char(&mut f, b as char);
                    assert(f@ =~= seq![b as char]);
                    Err(self.error_at(start, owned("value"), f))
                }
            },
        }
    }

    fn parse_string(&mut self) -> (r: Result<Spanned<RonValue>, RonParseError>)
        requires
            old(self).wf(),
            old(self).offset < old(self).bytes@.len(),
            old(self).bytes@[old(self).offset as int] == 0x22,
        ensures
            final(self).wf(),
            final(self).bytes == old(self).bytes,
            agrees(
                r,
                match string_rest(old(self).bytes@, old(self).offset as int, old(self).offset + 1) {
                    Ok((t, e)) => Ok((
                        Spanned {
                            value: SpecRonValue::String(text_of_bytes(t)),
                            span: span_of(old(self).bytes@, old(self).offset as int, e),
                        },
                        e,
                    )),
                    Err(x) => Err(x),
                },
                final(self).offset as int,
            ),
            r is Ok ==> final(self).offset > old(self).offset,
    {
        let ghost s = self.bytes@;
        let j = self.offset;
        let start = self.position();
        self.advance();
        let mut content: Vec<u8> = Vec::new();
        loop
            invariant
                self.wf(),
                self.bytes@ == s,
                self.bytes == old(self).bytes,
                s == old(self).bytes@,
                j == old(self).offset,
                start == pos_at(s, j as int),
                j < self.offset <= s.len(),
                match string_rest(s, j as int, self.offset as int) {
                    Ok((t, e)) => string_rest(s, j as int, j + 1) == Ok::<(Seq<u8>, int), SpecRonParseError>((content@ + t, e)),
                    Err(x) => string_rest(s, j as int, j + 1) == Err::<(Seq<u8>, int), SpecRonParseError>(x),
                },
            decreases s.len() - self.offset,
        {
            let ghost i = self.offset as int;
            match self.peek() {
                Some(b) => {
                    if b == 0x22 {
                        self.advance();
                        assert(content@ + Seq::<u8>::empty() =~= content@);
                        let end = self.position();
                        let text = text_from_bytes(content.as_slice());
                        return Ok(Spanned { value: RonValue::String(text), span: Span { start, end } });
                    } else if b == 0x5c {
                        self.advance();
                        match self.peek() {
                            Some(c) => {
                                let ch: u8 = if c == 0x6e {
                                    0x0a
                                } else if c == 0x74 {
                                    0x09
                                } else {
                                    c
                                };
                                assert(ch == escaped(c));
                                let ghost before = content@;
                                content.push(ch);
                                self.advance();
                                proof {
                                    match string_rest(s, j as int, i + 2) {
                                        Ok((t, e)) => {
                                            assert(before + (seq![ch] + t) =~= content@ + t);
                                        },
                                        Err(x) => {},
                                    }
                                }
                            },
                            None => {
                                let end = self.position();
                                return Err(RonParseError { span: Span { start, end }, kind: RonErrorKind::UnterminatedString });
                            },
                        }
                    } else {
                        let ghost before = content@;
                        content.push(b);
                        self.advance();
                        proof {
                            match string_rest(s, j as int, i + 1) {
                                Ok((t, e)) => {
                                    assert(before + (seq![b] + t) =~= content@ + t);
                                },
                                Err(x) => {},
                            }
                        }
                    }
                },
                None => {
                    let end = self.position();
                    return Err(RonParseError { span: Span { start, end }, kind: RonErrorKind::UnterminatedString });
                },
            }
        }
    }

    fn parse_number(&mut self) -> (r: Result<Spanned<RonValue>, RonParseError>)
        requires
            old(self).wf(),
            old(self).offset < old(self).bytes@.len(),
            is_digit(old(self).bytes@[old(self).offset as int]) || old(self).bytes@[old(self).offset as int] == 0x2d,
        ensures
            final(self).wf(),
            final(self).bytes == old(self).bytes,
            agrees(r, number_at(old(self).bytes@, old(self).offset as int), final(self).offset as int),
            r is Ok ==> final(self).offset > old(self).offset,
    {
        let ghost s = self.bytes@;
        let j = self.offset;
        let start = self.position();
        let negative = self.bytes[j] == 0x2d;
        if negative {
            self.advance();
        }
        let k = self.offset;
        let mut has_dot = false;
        let mut dot: usize = 0;
        loop
            invariant
                self.wf(),
                self.bytes@ == s,
                self.bytes == old(self).bytes,
                s == old(self).bytes@,
                k <= self.offset <= s.len(),
                k == if negative { j + 1 } else { j as int },
                has_dot ==> k <= dot < self.offset && s[dot as int] == 0x2e,
                forall|q: int| k <= q < self.offset && !(has_dot && q == dot) ==> is_digit(#[trigger] s[q]),
                number_scan(s, self.offset as int, if has_dot { dot as int } else { -1 }) == number_scan(s, k as int, -1),
            ensures
                self.wf(),
                self.bytes@ == s,
                self.bytes == old(self).bytes,
                k <= self.offset <= s.len(),
                has_dot ==> k <= dot < self.offset && s[dot as int] == 0x2e,
                forall|q: int| k <= q < self.offset && !(has_dot && q == dot) ==> is_digit(#[trigger] s[q]),
                number_scan(s, k as int, -1) == (self.offset as int, if has_dot { dot as int } else { -1 }),
            decreases s.len() - self.offset,
        {
            match self.peek() {
                Some(c) => {
                    if byte_is_digit(c) {
                        self.advance();
                    } else if c == 0x2e && !has_dot {
                        dot = self.offset;
                        has_dot = true;
                        self.advance();
                    } else {
                        break;
                    }
                },
                None => {
                    break;
                },
            }
        }
        let end = self.offset;
        let end_pos = self.position();
        let span = Span { start, end: end_pos };
        if has_dot {
            if end - k > 1 {
                let d = Decimal::from_literal(negative, self.bytes, k, dot, dot + 1, end);
                Ok(Spanned { value: RonValue::Float(d), span })
            } else {
                let text = chars_from_bytes(self.bytes, j, end);
                Err(RonParseError { span, kind: RonErrorKind::InvalidNumber { text } })
            }
        } else {
            match parse_i64(self.bytes, negative, k, end) {
                Some(n) => Ok(Spanned { value: RonValue::Integer(n), span }),
                None => {
                    let text = chars_from_bytes(self.bytes, j, end);
                    Err(RonParseError { span, kind: RonErrorKind::InvalidNumber { text } })
                },
            }
        }
    }
}

impl<'a> Parser<'a> {
    #[verifier::rlimit(40)]
    fn parse_word(&mut self) -> (r: Result<Spanned<RonValue>, RonParseError>)
        requires
            old(self).wf(),
            old(self).offset < old(self).bytes@.len(),
            is_alpha(old(self).bytes@[old(self).offset as int]),
        ensures
            final(self).wf(),
            final(self).bytes == old(self).bytes,
            agrees(r, word_at(old(self).bytes@, old(self).offset as int), final(self).offset as int),
            r is Ok ==> final(self).offset > old(self).offset,
        decreases old(self).bytes@.len() - old(self).offset, 1int,
    {
        let ghost s = self.bytes@;
        let j = self.offset;
        let start = self.position();
        proof {
            lemma_ident_end_bounds(s, j as int);
        }
        let id = match self.parse_identifier() {
            Ok(x) => x,
            Err(e) => {
                return Err(e);
            },
        };
        let e = self.offset;
        if range_equals(self.bytes, j, e, &vec![0x74u8, 0x72u8, 0x75u8, 0x65u8]) {
            return Ok(Spanned { value: RonValue::Bool(true), span: id.span });
        }
        if range_equals(self.bytes, j, e, &vec![0x66u8, 0x61u8, 0x6cu8, 0x73u8, 0x65u8]) {
            return Ok(Spanned { value: RonValue::Bool(false), span: id.span });
        }
        if range_equals(self.bytes, j, e, &vec![0x4eu8, 0x6fu8, 0x6eu8, 0x65u8]) {
            return Ok(Spanned { value: RonValue::Option(None), span: id.span });
        }
        proof {
            assert(ident_end(s, j as int) == ident_end(s, j + 1));
            lemma_ident_end_bounds(s, j + 1);
        }
        self.parse_word_tail(start, id)
    }

    #[verifier::rlimit(40)]
    fn parse_word_tail(&mut self, start: Position, id: Spanned<String>) -> (r: Result<Spanned<RonValue>, RonParseError>)
        requires
            old(self).wf(),
            start.offset < old(self).offset,
            start == pos_at(old(self).bytes@, start.offset as int),
            id@ == (Spanned {
                value: bytes_as_chars(old(self).bytes@.subrange(start.offset as int, old(self).offset as int)),
                span: span_of(old(self).bytes@, start.offset as int, old(self).offset as int),
            }),
        ensures
            final(self).wf(),
            final(self).bytes == old(self).bytes,
            agrees(r, word_tail(old(self).bytes@, start.offset as int, old(self).offset as int), final(self).offset as int),
            r is Ok ==> final(self).offset > start.offset,
        decreases old(self).bytes@.len() - start.offset, 0int,
    {
        let ghost s = self.bytes@;
        let j = start.offset;
        let e = self.offset;
        proof {
            lemma_skip_ws_bounds(s, e as int);
        }
        self.skip_whitespace();
        if range_equals(self.bytes, j, e, &vec![0x53u8, 0x6fu8, 0x6du8, 0x65u8]) {
            match self.expect_char(0x28) {
                Ok(()) => {},
                Err(x) => {
                    return Err(x);
                },
            }
            let inner = match self.parse_value() {
                Ok(v) => v,
                Err(x) => {
                    return Err(x);
                },
            };
            match self.expect_char(0x29) {
                Ok(()) => {},
                Err(x) => {
                    return Err(x);
                },
            }
            let end = self.position();
            return Ok(
                Spanned { value: RonValue::Option(Some(Box::new(inner))), span: Span { start, end } },
            );
        }
        if self.peek() == Some(0x28u8) {
            self.advance();
            let inner = match self.parse_value() {
                Ok(v) => v,
                Err(x) => {
                    return Err(x);
                },
            };
            match self.expect_char(0x29) {
                Ok(()) => {},
                Err(x) => {
                    return Err(x);
                },
            }
            let end = self.position();
            return Ok(
                Spanned { value: RonValue::EnumVariant(id.value, Box::new(inner)), span: Span { start, end } },
            );
        }
        Ok(Spanned { value: RonValue::Identifier(id.value), span: id.span })
    }

    fn parse_list(&mut self) -> (r: Result<Spanned<RonValue>, RonParseError>)
        requires
            old(self).wf(),
            old(self).offset < old(self).bytes@.len(),
            old(self).bytes@[old(self).offset as int] == 0x5b,
        ensures
            final(self).wf(),
            final(self).bytes == old(self).bytes,
            agrees(r, list_at(old(self).bytes@, old(self).offset as int), final(self).offset as int),
            r is Ok ==> final(self).offset > old(self).offset,
        decreases old(self).bytes@.len() - old(self).offset, 0int,
    {
        let ghost s = self.bytes@;
        let j = self.offset;
        let start = self.position();
        self.advance();
        let mut elements: Vec<Spanned<RonValue>> = Vec::new();
        proof {
            lemma_views_empty();
            assert(Seq::<Spanned<SpecRonValue>>::empty() + Seq::<Spanned<SpecRonValue>>::empty() =~= Seq::<Spanned<SpecRonValue>>::empty());
        }
        loop
            invariant
                self.wf(),
                self.bytes@ == s,
                self.bytes == old(self).bytes,
                s == old(self).bytes@,
                j == old(self).offset,
                start == pos_at(s, j as int),
                j < self.offset <= s.len(),
                match list_items(s, self.offset as int) {
                    Ok((rest, e)) => list_items(s, j + 1) == Ok::<(Seq<Spanned<SpecRonValue>>, int), SpecRonParseError>((list_view(elements@) + rest, e)),
                    Err(x) => list_items(s, j + 1) == Err::<(Seq<Spanned<SpecRonValue>>, int), SpecRonParseError>(x),
                },
            decreases s.len() - self.offset,
        {
            let ghost i = self.offset as int;
            proof {
                lemma_skip_ws_bounds(s, i);
            }
            self.skip_whitespace();
            if self.peek() == Some(0x5du8) {
                self.advance();
                let end = self.position();
                assert(list_view(elements@) + Seq::<Spanned<SpecRonValue>>::empty() =~= list_view(elements@));
                return Ok(Spanned { value: RonValue::List(elements), span: Span { start, end } });
            }
            let ghost w = self.offset as int;
            let v = match self.parse_value() {
                Ok(v) => v,
                Err(x) => {
                    return Err(x);
                },
            };
            let ghost e = self.offset as int;
            proof {
                lemma_skip_ws_bounds(s, e);
            }
            let ghost before = elements@;
            elements.push(v);
            self.skip_whitespace();
            if self.peek() == Some(0x2cu8) {
                self.advance();
            }
            proof {
                lemma_list_view_push(before, v);
                match list_items(s, self.offset as int) {
                    Ok((rest, end)) => {
                        assert(list_view(before) + (seq![spanned_view(v)] + rest) =~= list_view(elements@) + rest);
                    },
                    Err(x) => {},
                }
            }
        }
    }

    fn parse_dict(&mut self) -> (r: Result<Spanned<RonValue>, RonParseError>)
        requires
            old(self).wf(),
            old(self).offset < old(self).bytes@.len(),
            old(self).bytes@[old(self).offset as int] == 0x7b,
        ensures
            final(self).wf(),
            final(self).bytes == old(self).bytes,
            agrees(r, dict_at(old(self).bytes@, old(self).offset as int), final(self).offset as int),
            r is Ok ==> final(self).offset > old(self).offset,
        decreases old(self).bytes@.len() - old(self).offset, 0int,
    {
        let ghost s = self.bytes@;
        let j = self.offset;
        let start = self.position();
        self.advance();
        let mut entries: Vec<(Spanned<RonValue>, Spanned<RonValue>)> = Vec::new();
        proof {
            lemma_views_empty();
        }
        loop
            invariant
                self.wf(),
                self.bytes@ == s,
                self.bytes == old(self).bytes,
                s == old(self).bytes@,
                j == old(self).offset,
                start == pos_at(s, j as int),
                j < self.offset <= s.len(),
                match dict_entries(s, self.offset as int) {
                    Ok((rest, e)) => dict_entries(s, j + 1) == Ok::<(Seq<(Spanned<SpecRonValue>, Spanned<SpecRonValue>)>, int), SpecRonParseError>((pairs_view(entries@) + rest, e)),
                    Err(x) => dict_entries(s, j + 1) == Err::<(Seq<(Spanned<SpecRonValue>, Spanned<SpecRonValue>)>, int), SpecRonParseError>(x),
                },
            decreases s.len() - self.offset,
        {
            let ghost i = self.offset as int;
            proof {
                lemma_skip_ws_bounds(s, i);
            }
            self.skip_whitespace();
            if self.peek() == Some(0x7du8) {
                self.advance();
                let end = self.position();
                assert(pairs_view(entries@) + Seq::<(Spanned<SpecRonValue>, Spanned<SpecRonValue>)>::empty() =~= pairs_view(entries@));
                return Ok(Spanned { value: RonValue::Dict(entries), span: Span { start, end } });
            }
            let key = match self.parse_value() {
                Ok(v) => v,
                Err(x) => {
                    return Err(x);
                },
            };
            let ghost ke = self.offset as int;
            proof {
                lemma_skip_ws_bounds(s, ke);
            }
            self.skip_whitespace();
            match self.expect_char(0x3a) {
                Ok(()) => {},
                Err(x) => {
                    return Err(x);
                },
            }
            let value = match self.parse_value() {
                Ok(v) => v,
                Err(x) => {
                    return Err(x);
                },
            };
            let ghost ve = self.offset as int;
            proof {
                lemma_skip_ws_bounds(s, ve);
            }
            let ghost before = entries@;
            let ghost pair = (key, value);
            entries.push((key, value));
            self.skip_whitespace();
            if self.peek() == Some(0x2cu8) {
                self.advance();
            }
            proof {
                lemma_pairs_view_push(before, pair);
                match dict_entries(s, self.offset as int) {
                    Ok((rest, end)) => {
                        assert(pairs_view(before) + (seq![(spanned_view(pair.0), spanned_view(pair.1))] + rest) =~= pairs_view(entries@) + rest);
                    },
                    Err(x) => {},
                }
            }
        }
    }

    fn parse_paren(&mut self) -> (r: Result<Spanned<RonValue>, RonParseError>)
        requires
            old(self).wf(),
            old(self).offset < old(self).bytes@.len(),
            old(self).bytes@[old(self).offset as int] == 0x28,
        ensures
            final(self).wf(),
            final(self).bytes == old(self).bytes,
            agrees(r, paren_at(old(self).bytes@, old(self).offset as int), final(self).offset as int),
            r is Ok ==> final(self).offset > old(self).offset,
        decreases old(self).bytes@.len() - old(self).offset, 1int,
    {
        let ghost s = self.bytes@;
        let j = self.offset;
        let start = self.position();
        let saved = (self.offset, self.line, self.column);
        self.advance();
        self.skip_whitespace();
        let is_struct = if self.peek() == Some(0x29u8) {
            true
        } else {
            match self.parse_identifier() {
                Ok(_) => {
                    self.skip_whitespace();
                    self.peek() == Some(0x3au8)
                },
                Err(_) => false,
            }
        };
        assert(is_struct == paren_is_struct(s, j as int));
        self.offset = saved.0;
        self.line = saved.1;
        self.column = saved.2;
        self.advance();
        if is_struct {
            let r = self.parse_struct_fields(start);
            match r {
                Ok(v) => {
                    let found = match &v.value {
                        RonValue::Struct(st) => first_repeated(&st.fields),
                        _ => None,
                    };
                    match found {
                        None => Ok(v),
                        Some(d) => {
                            let (name, kind) = match &v.value {
                                RonValue::Struct(st) => (st.fields[d].0.span, RonErrorKind::DuplicateField { field_name: copy_string(&st.fields[d].0.value) }),
                                _ => (v.span, RonErrorKind::UnterminatedString),
                            };
                            Err(RonParseError { span: name, kind })
                        },
                    }
                },
                Err(e) => Err(e),
            }
        } else {
            self.parse_tuple_items(start)
        }
    }

    fn parse_struct_fields(&mut self, start: Position) -> (r: Result<Spanned<RonValue>, RonParseError>)
        requires
            old(self).wf(),
            0 < old(self).offset <= old(self).bytes@.len(),
            start == pos_at(old(self).bytes@, old(self).offset - 1),
        ensures
            final(self).wf(),
            final(self).bytes == old(self).bytes,
            agrees(
                r,
                match struct_fields(old(self).bytes@, old(self).offset - 1, old(self).offset as int) {
                    Ok((fields, close, e)) => Ok((
                        Spanned {
                            value: SpecRonValue::Struct(SpecRonStruct { fields, close_span: close }),
                            span: span_of(old(self).bytes@, old(self).offset - 1, e),
                        },
                        e,
                    )),
                    Err(x) => Err(x),
                },
                final(self).offset as int,
            ),
            r is Ok ==> final(self).offset >= old(self).offset,
        decreases old(self).bytes@.len() - old(self).offset + 1, 0int,
    {
        let ghost s = self.bytes@;
        let ghost j = self.offset - 1;
        let mut fields: Vec<(Spanned<String>, Spanned<RonValue>)> = Vec::new();
        proof {
            lemma_views_empty();
        }
        loop
            invariant
                self.wf(),
                self.bytes@ == s,
                self.bytes == old(self).bytes,
                s == old(self).bytes@,
                j == old(self).offset - 1,
                start == pos_at(s, j),
                j < self.offset <= s.len(),
                match struct_fields(s, j, self.offset as int) {
                    Ok((rest, close, e)) => struct_fields(s, j, j + 1) == Ok::<(Seq<(Spanned<Seq<char>>, Spanned<SpecRonValue>)>, Span, int), SpecRonParseError>((fields_view(fields@) + rest, close, e)),
                    Err(x) => struct_fields(s, j, j + 1) == Err::<(Seq<(Spanned<Seq<char>>, Spanned<SpecRonValue>)>, Span, int), SpecRonParseError>(x),
                },
            decreases s.len() - self.offset,
        {
            let ghost i = self.offset as int;
            proof {
                lemma_skip_ws_bounds(s, i);
            }
            self.skip_whitespace();
            if self.peek() == Some(0x29u8) {
                let close_start = self.position();
                self.advance();
                let close_end = self.position();
                let close_span = Span { start: close_start, end: close_end };
                assert(fields_view(fields@) + Seq::<(Spanned<Seq<char>>, Spanned<SpecRonValue>)>::empty() =~= fields_view(fields@));
                return Ok(
                    Spanned {
                        value: RonValue::Struct(RonStruct { fields, close_span }),
                        span: Span { start, end: close_end },
                    },
                );
            }
            let ghost w = self.offset as int;
            let name = match self.parse_identifier() {
                Ok(v) => v,
                Err(x) => {
                    return Err(x);
                },
            };
            proof {
                lemma_ident_end_bounds(s, w);
                lemma_skip_ws_bounds(s, self.offset as int);
            }
            self.skip_whitespace();
            match self.expect_char(0x3a) {
                Ok(()) => {},
                Err(x) => {
                    return Err(x);
                },
            }
            proof {
                lemma_skip_ws_bounds(s, self.offset as int);
            }
            self.skip_whitespace();
            let value = match self.parse_value() {
                Ok(v) => v,
                Err(x) => {
                    return Err(x);
                },
            };
            let ghost ve = self.offset as int;
            proof {
                lemma_skip_ws_bounds(s, ve);
            }
            let ghost before = fields@;
            let ghost pair = (name, value);
            fields.push((name, value));
            self.skip_whitespace();
            match self.peek() {
                Some(c) => {
                    if c == 0x2c {
                        self.advance();
                    }
                },
                None => {
                    let here = self.position();
                    return Err(RonParseError {
                        span: Span { start, end: here },
                        kind: RonErrorKind::UnexpectedToken {
                            expected: owned("character"),
                            found: owned("end of file"),
                        },
                    });
                },
            }
            proof {
                lemma_fields_view_push(before, pair);
                match struct_fields(s, j, self.offset as int) {
                    Ok((rest, close, end)) => {
                        assert(fields_view(before) + (seq![(pair.0@, spanned_view(pair.1))] + rest) =~= fields_view(fields@) + rest);
                    },
                    Err(x) => {},
                }
            }
        }
    }

    fn parse_tuple_items(&mut self, start: Position) -> (r: Result<Spanned<RonValue>, RonParseError>)
        requires
            old(self).wf(),
            0 < old(self).offset <= old(self).bytes@.len(),
            start == pos_at(old(self).bytes@, old(self).offset - 1),
        ensures
            final(self).wf(),
            final(self).bytes == old(self).bytes,
            agrees(
                r,
                match tuple_items(old(self).bytes@, old(self).offset as int) {
                    Ok((items, e)) => Ok((
                        Spanned {
                            value: SpecRonValue::Tuple(items),
                            span: span_of(old(self).bytes@, old(self).offset - 1, e),
                        },
                        e,
                    )),
                    Err(x) => Err(x),
                },
                final(self).offset as int,
            ),
            r is Ok ==> final(self).offset >= old(self).offset,
        decreases old(self).bytes@.len() - old(self).offset + 1, 0int,
    {
        let ghost s = self.bytes@;
        let ghost j = self.offset - 1;
        let mut elements: Vec<Spanned<RonValue>> = Vec::new();
        proof {
            lemma_views_empty();
        }
        loop
            invariant
                self.wf(),
                self.bytes@ == s,
                self.bytes == old(self).bytes,
                s == old(self).bytes@,
                j == old(self).offset - 1,
                start == pos_at(s, j),
                j < self.offset <= s.len(),
                match tuple_items(s, self.offset as int) {
                    Ok((rest, e)) => tuple_items(s, j + 1) == Ok::<(Seq<Spanned<SpecRonValue>>, int), SpecRonParseError>((list_view(elements@) + rest, e)),
                    Err(x) => tuple_items(s, j + 1) == Err::<(Seq<Spanned<SpecRonValue>>, int), SpecRonParseError>(x),
                },
            decreases s.len() - self.offset,
        {
            let ghost i = self.offset as int;
            proof {
                lemma_skip_ws_bounds(s, i);
            }
            self.skip_whitespace();
            if self.peek() == Some(0x29u8) {
                self.advance();
                let end = self.position();
                assert(list_view(elements@) + Seq::<Spanned<SpecRonValue>>::empty() =~= list_view(elements@));
                return Ok(Spanned { value: RonValue::Tuple(elements), span: Span { start, end } });
            }
            let v = match self.parse_value() {
                Ok(v) => v,
                Err(x) => {
                    return Err(x);
                },
            };
            let ghost e = self.offset as int;
            proof {
                lemma_skip_ws_bounds(s, e);
            }
            let ghost before = elements@;
            elements.push(v);
            self.skip_whitespace();
            if self.peek() == Some(0x2cu8) {
                self.advance();
            }
            proof {
                lemma_list_view_push(before, v);
                match tuple_items(s, self.offset as int) {
                    Ok((rest, end)) => {
                        assert(list_view(before) + (seq![spanned_view(v)] + rest) =~= list_view(elements@) + rest);
                    },
                    Err(x) => {},
                }
            }
        }
    }
}

/// A whole RON document: one value, then nothing but whitespace and comments up to the end.
/// Anything else after the value is an unexpected token where end of input was expected.
pub open spec fn document(s: Seq<u8>) -> Result<Spanned<SpecRonValue>, SpecRonParseError> {
    match value_at(s, 0) {
        Err(x) => Err(x),
        Ok((v, e)) => {
            let t = skip_ws(s, e);
            if 0 <= t < s.len() {
                Err(unexpected(s, t, t + 1, "end of input"@, quoted(s[t])))
            } else {
                Ok(v)
            }
        },
    }
}

/// Parses a RON data source string into a spanned value tree.
///
/// Returns a [`RonParseError`] if the source contains syntax errors, text after the value among
/// them.
pub fn parse_ron(source: &str) -> (r: Result<Spanned<RonValue>, RonParseError>)
    requires
        source.spec_bytes().len() < usize::MAX,
    ensures
        agrees_document(r, document(source.spec_bytes())),
{
    let mut parser = Parser::new(source);
    let v = match parser.parse_value() {
        Ok(v) => v,
        Err(e) => {
            return Err(e);
        },
    };
    proof {
        lemma_skip_ws_bounds(parser.bytes@, parser.offset as int);
    }
    parser.skip_whitespace();
    let start = parser.position();
    match parser.peek() {
        None => Ok(v),
        Some(b) => {
            parser.advance();
            Err(parser.error_at(start, owned("end of input"), quoted_text(b)))
        },
    }
}

/// Whether a parse result is the outcome that the grammar gives for a whole document.
pub open spec fn agrees_document(
    r: Result<Spanned<RonValue>, RonParseError>,
    g: Result<Spanned<SpecRonValue>, SpecRonParseError>,
) -> bool {
    match g {
        Ok(v) => r is Ok && r->Ok_0@ == v,
        Err(x) => r is Err && r->Err_0@ == x,
    }
}

} // verus!
