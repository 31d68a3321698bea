use vstd::prelude::*;
use crate::error::{SpecRonErrorKind, SpecRonParseError, SpecSchemaErrorKind, SpecSchemaParseError};
use crate::number::{DecimalV, decimal_of_int};
use crate::ron::SpecRonValue;
use crate::ron::parser::{expect_at, identifier_at, paren_is_struct, quoted, span_of, value_at};
use crate::span::{Span, Spanned};
use crate::text::{is_alpha, skip_ws, lemma_skip_ws_bounds, lemma_ident_end_bounds, ident_end};
use super::{CompareOp, SpecEnumDef, SpecFieldAnnotation, SpecFieldDef, SpecRequire, SpecSchema, SpecSchemaType, SpecStructDef};

verus! {

// ===========================================================================
// Texts used in error messages
// ===========================================================================

/// One character as it appears inside a debug-quoted string.
pub open spec fn escape_char(c: char) -> Seq<char> {
    if c == '"' {
        seq!['\\', '"']
    } else if c == '\\' {
        seq!['\\', '\\']
    } else if c == '\n' {
        seq!['\\', 'n']
    } else if c == '\t' {
        seq!['\\', 't']
    } else if c == '\r' {
        seq!['\\', 'r']
    } else {
        seq![c]
    }
}

pub open spec fn escape_chars(s: Seq<char>) -> Seq<char>
    decreases s.len(),
{
    if s.len() == 0 {
        Seq::empty()
    } else {
        escape_chars(s.drop_last()) + escape_char(s.last())
    }
}

/// A string written in double quotes with `"`, `\`, newline, tab and carriage return escaped.
pub open spec fn debug_quoted(s: Seq<char>) -> Seq<char> {
    seq!['"'] + escape_chars(s) + seq!['"']
}

/// The text of a RON parse error kind, in the style of its derived debug form.
pub open spec fn ron_kind_text(k: SpecRonErrorKind) -> Seq<char> {
    match k {
        SpecRonErrorKind::UnexpectedToken { expected, found } => "UnexpectedToken { expected: "@
            + debug_quoted(expected) + ", found: "@ + debug_quoted(found) + " }"@,
        SpecRonErrorKind::UnterminatedString => "UnterminatedString"@,
        SpecRonErrorKind::DuplicateField { field_name } => "DuplicateField { field_name: "@
            + debug_quoted(field_name) + " }"@,
        SpecRonErrorKind::InvalidNumber { text } => "InvalidNumber { text: "@ + debug_quoted(text)
            + " }"@,
    }
}

/// The text of a schema type, in the style of its derived debug form (a nested struct is
/// abbreviated).
pub open spec fn type_debug_text(t: SpecSchemaType) -> Seq<char>
    decreases t,
{
    match t {
        SpecSchemaType::String => "String"@,
        SpecSchemaType::Integer => "Integer"@,
        SpecSchemaType::Float => "Float"@,
        SpecSchemaType::Bool => "Bool"@,
        SpecSchemaType::Option(b) => "Option("@ + type_debug_text(*b) + ")"@,
        SpecSchemaType::List(b) => "List("@ + type_debug_text(*b) + ")"@,
        SpecSchemaType::EnumRef(n) => "EnumRef("@ + debug_quoted(n) + ")"@,
        SpecSchemaType::AliasRef(n) => "AliasRef("@ + debug_quoted(n) + ")"@,
        SpecSchemaType::Dict(k, v) => "Map("@ + type_debug_text(*k) + ", "@ + type_debug_text(*v) + ")"@,
        SpecSchemaType::Tuple(ts) => "Tuple(["@ + types_debug_text(ts, ts.len() as int) + "])"@,
        SpecSchemaType::Struct(_) => "Struct(StructDef { .. })"@,
    }
}

/// The debug texts of the first `n` types, separated by `, `.
pub open spec fn types_debug_text(ts: Seq<SpecSchemaType>, n: int) -> Seq<char>
    decreases ts, n,
{
    if n <= 0 || n > ts.len() {
        Seq::empty()
    } else if n == 1 {
        type_debug_text(ts[0])
    } else {
        types_debug_text(ts, n - 1) + ", "@ + type_debug_text(ts[n - 1])
    }
}

/// The name of the kind of a RON value.
pub open spec fn value_kind_text(v: SpecRonValue) -> Seq<char> {
    match v {
        SpecRonValue::String(_) => "String"@,
        SpecRonValue::Integer(_) => "Integer"@,
        SpecRonValue::Float(_) => "Float"@,
        SpecRonValue::Bool(_) => "Bool"@,
        SpecRonValue::Option(_) => "Option"@,
        SpecRonValue::Identifier(_) => "Identifier"@,
        SpecRonValue::EnumVariant(_, _) => "EnumVariant"@,
        SpecRonValue::List(_) => "List"@,
        SpecRonValue::Dict(_) => "Map"@,
        SpecRonValue::Tuple(_) => "Tuple"@,
        SpecRonValue::Struct(_) => "Struct"@,
    }
}

// ===========================================================================
// Errors
// ===========================================================================

pub open spec fn token_error(span: Span, expected: Seq<char>, found: Seq<char>) -> SpecSchemaParseError {
    SpecSchemaParseError { span, kind: SpecSchemaErrorKind::UnexpectedToken { expected, found } }
}

pub open spec fn schema_unexpected(s: Seq<u8>, a: int, b: int, expected: Seq<char>, found: Seq<char>) -> SpecSchemaParseError {
    token_error(span_of(s, a, b), expected, found)
}

/// A token error of the RON scanner, reported as a schema error.
pub open spec fn as_schema_error(e: SpecRonParseError) -> SpecSchemaParseError {
    match e.kind {
        SpecRonErrorKind::UnexpectedToken { expected, found } => token_error(e.span, expected, found),
        _ => arbitrary(),
    }
}

/// A RON value error inside a schema, reported against what was being read.
pub open spec fn value_error(e: SpecRonParseError, what: Seq<char>) -> SpecSchemaParseError {
    token_error(e.span, what, ron_kind_text(e.kind))
}

/// A RON value at offset `i`, as the data parser reads it.
pub closed spec fn ron_value_at(s: Seq<u8>, i: int) -> Result<(Spanned<SpecRonValue>, int), SpecRonParseError> {
    value_at(s, i)
}

pub proof fn lemma_ron_value_at(s: Seq<u8>, i: int)
    ensures
        ron_value_at(s, i) == value_at(s, i),
{
}

pub open spec fn sexpect(s: Seq<u8>, i: int, c: u8) -> Result<int, SpecSchemaParseError> {
    match expect_at(s, i, c) {
        Ok(e) => Ok(e),
        Err(x) => Err(as_schema_error(x)),
    }
}

pub open spec fn sident(s: Seq<u8>, i: int) -> Result<(Spanned<Seq<char>>, int), SpecSchemaParseError> {
    match identifier_at(s, i) {
        Ok(r) => Ok(r),
        Err(x) => Err(as_schema_error(x)),
    }
}

// ===========================================================================
// Types
// ===========================================================================

/// Whether a type may be a map key: `String`, `Integer` or an enum reference.
pub open spec fn is_key_type(t: SpecSchemaType) -> bool {
    t is String || t is Integer || t is EnumRef
}

/// A type at offset `i` (after whitespace).
pub open spec fn type_at(s: Seq<u8>, i: int) -> Result<(Spanned<SpecSchemaType>, int), SpecSchemaParseError>
    decreases s.len() - i, 2int,
{
    if i < 0 || i > s.len() {
        Err(arbitrary())
    } else {
        let w = skip_ws(s, i);
        proof {
            lemma_skip_ws_bounds(s, i);
        }
        if w >= s.len() {
            Err(schema_unexpected(s, w, w, "type"@, "end of input"@))
        } else if s[w] == 0x5b {
            list_type_at(s, w)
        } else if s[w] == 0x7b {
            dict_type_at(s, w)
        } else if s[w] == 0x28 {
            if paren_is_struct(s, w) {
                match struct_at(s, w) {
                    Err(x) => Err(x),
                    Ok((sd, end)) => Ok((Spanned { value: SpecSchemaType::Struct(sd), span: span_of(s, w, end) }, end)),
                }
            } else {
                match tuple_type_at(s, w) {
                    Err(x) => Err(x),
                    Ok((ts, end)) => Ok((Spanned { value: SpecSchemaType::Tuple(ts), span: span_of(s, w, end) }, end)),
                }
            }
        } else if is_alpha(s[w]) {
            named_type_at(s, w)
        } else {
            Err(schema_unexpected(s, w, w + 1, "type"@, quoted(s[w])))
        }
    }
}

/// A list type `[T]` whose `[` stands at offset `w`.
pub open spec fn list_type_at(s: Seq<u8>, w: int) -> Result<(Spanned<SpecSchemaType>, int), SpecSchemaParseError>
    decreases s.len() - w, 1int,
{
    if w < 0 || w >= s.len() {
        Err(arbitrary())
    } else {
        let a = skip_ws(s, w + 1);
        proof {
            lemma_skip_ws_bounds(s, w + 1);
        }
        match type_at(s, a) {
            Err(x) => Err(x),
            Ok((inner, ie)) => match sexpect(s, skip_ws(s, ie), 0x5d) {
                Err(x) => Err(x),
                Ok(end) => Ok((
                    Spanned { value: SpecSchemaType::List(Box::new(inner.value)), span: span_of(s, w, end) },
                    end,
                )),
            },
        }
    }
}

/// A map type `{K: V}` whose `{` stands at offset `w`.
pub open spec fn dict_type_at(s: Seq<u8>, w: int) -> Result<(Spanned<SpecSchemaType>, int), SpecSchemaParseError>
    decreases s.len() - w, 1int,
{
    if w < 0 || w >= s.len() {
        Err(arbitrary())
    } else {
        let a = skip_ws(s, w + 1);
        proof {
            lemma_skip_ws_bounds(s, w + 1);
        }
        match type_at(s, a) {
            Err(x) => Err(x),
            Ok((k, ke)) => if !is_key_type(k.value) {
                Err(SpecSchemaParseError {
                    span: k.span,
                    kind: SpecSchemaErrorKind::InvalidMapKeyType { found: type_debug_text(k.value) },
                })
            } else {
                match sexpect(s, skip_ws(s, ke), 0x3a) {
                    Err(x) => Err(x),
                    Ok(o) => if w < o <= s.len() {
                        let a2 = skip_ws(s, o);
                        proof {
                            lemma_skip_ws_bounds(s, o);
                        }
                        match type_at(s, a2) {
                            Err(x) => Err(x),
                            Ok((v, ve)) => match sexpect(s, skip_ws(s, ve), 0x7d) {
                                Err(x) => Err(x),
                                Ok(end) => Ok((
                                    Spanned {
                                        value: SpecSchemaType::Dict(Box::new(k.value), Box::new(v.value)),
                                        span: span_of(s, w, end),
                                    },
                                    end,
                                )),
                            },
                        }
                    } else {
                        Err(arbitrary())
                    },
                }
            },
        }
    }
}

/// A named type (a primitive, `Option(T)` or a reference) whose first letter stands at `w`.
pub open spec fn named_type_at(s: Seq<u8>, w: int) -> Result<(Spanned<SpecSchemaType>, int), SpecSchemaParseError>
    decreases s.len() - w, 1int,
{
    if w < 0 || w >= s.len() {
        Err(arbitrary())
    } else {
        match sident(s, w) {
            Err(x) => Err(x),
            Ok((id, e)) => {
                if id.value == "String"@ {
                    Ok((Spanned { value: SpecSchemaType::String, span: id.span }, e))
                } else if id.value == "Integer"@ {
                    Ok((Spanned { value: SpecSchemaType::Integer, span: id.span }, e))
                } else if id.value == "Float"@ {
                    Ok((Spanned { value: SpecSchemaType::Float, span: id.span }, e))
                } else if id.value == "Bool"@ {
                    Ok((Spanned { value: SpecSchemaType::Bool, span: id.span }, e))
                } else if id.value == "Option"@ {
                    if w < e <= s.len() {
                        option_type_at(s, w, e)
                    } else {
                        Err(arbitrary())
                    }
                } else {
                    Ok((Spanned { value: SpecSchemaType::EnumRef(id.value), span: id.span }, e))
                }
            },
        }
    }
}

/// The rest of `Option(T)` after the word `Option`, which spans `w..e`.
pub open spec fn option_type_at(s: Seq<u8>, w: int, e: int) -> Result<(Spanned<SpecSchemaType>, int), SpecSchemaParseError>
    decreases s.len() - e, 3int,
{
    if e < 0 || e > s.len() {
        Err(arbitrary())
    } else {
        proof {
            lemma_skip_ws_bounds(s, e);
        }
        match sexpect(s, skip_ws(s, e), 0x28) {
            Err(x) => Err(x),
            Ok(o) => if e < o <= s.len() {
                let a = skip_ws(s, o);
                proof {
                    lemma_skip_ws_bounds(s, o);
                }
                match type_at(s, a) {
                    Err(x) => Err(x),
                    Ok((inner, ie)) => match sexpect(s, skip_ws(s, ie), 0x29) {
                        Err(x) => Err(x),
                        Ok(end) => Ok((
                            Spanned { value: SpecSchemaType::Option(Box::new(inner.value)), span: span_of(s, w, end) },
                            end,
                        )),
                    },
                }
            } else {
                Err(arbitrary())
            },
        }
    }
}

/// A tuple type `(T, T, ...)` at offset `i`: the element types and the offset after `)`.
pub open spec fn tuple_type_at(s: Seq<u8>, i: int) -> Result<(Seq<SpecSchemaType>, int), SpecSchemaParseError>
    decreases s.len() - i, 1int,
{
    if i < 0 || i > s.len() {
        Err(arbitrary())
    } else {
        proof {
            lemma_skip_ws_bounds(s, i);
        }
        match sexpect(s, skip_ws(s, i), 0x28) {
            Err(x) => Err(x),
            Ok(o) => if i < o <= s.len() {
                tuple_types(s, o)
            } else {
                Err(arbitrary())
            },
        }
    }
}

pub open spec fn tuple_types(s: Seq<u8>, i: int) -> Result<(Seq<SpecSchemaType>, int), SpecSchemaParseError>
    decreases s.len() - i, 3int,
{
    if i < 0 || i > s.len() {
        Err(arbitrary())
    } else {
        let w = skip_ws(s, i);
        proof {
            lemma_skip_ws_bounds(s, i);
        }
        if w < s.len() && s[w] == 0x29 {
            Ok((Seq::empty(), w + 1))
        } else {
            match type_at(s, w) {
                Err(x) => Err(x),
                Ok((t, te)) => if w < te <= s.len() {
                    let w2 = skip_ws(s, te);
                    proof {
                        lemma_skip_ws_bounds(s, te);
                    }
                    let next = if w2 < s.len() && s[w2] == 0x2c {
                        w2 + 1
                    } else {
                        w2
                    };
                    match tuple_types(s, next) {
                        Err(x) => Err(x),
                        Ok((rest, end)) => Ok((seq![t.value] + rest, end)),
                    }
                } else {
                    Err(arbitrary())
                },
            }
        }
    }
}

// ===========================================================================
// Annotations
// ===========================================================================

/// An annotation: one on the next field, or a cross-field constraint on the struct.
pub enum SpecAnnotation {
    Field(Spanned<SpecFieldAnnotation>),
    Require(Spanned<SpecRequire>),
}

/// A number argument: an integer or decimal literal.
pub open spec fn number_arg(s: Seq<u8>, a: int) -> Result<(DecimalV, int), SpecSchemaParseError> {
    match ron_value_at(s, a) {
        Err(x) => Err(value_error(x, "annotation argument"@)),
        Ok((v, e)) => match v.value {
            SpecRonValue::Integer(n) => Ok((decimal_of_int(n as int), e)),
            SpecRonValue::Float(d) => Ok((d, e)),
            _ => Err(token_error(v.span, "number"@, value_kind_text(v.value))),
        },
    }
}

/// A length argument: an integer that is not negative.
pub open spec fn length_arg(s: Seq<u8>, a: int) -> Result<(usize, int), SpecSchemaParseError> {
    match ron_value_at(s, a) {
        Err(x) => Err(value_error(x, "annotation argument"@)),
        Ok((v, e)) => match v.value {
            SpecRonValue::Integer(n) => if 0 <= n && n <= usize::MAX {
                Ok((n as usize, e))
            } else {
                Err(token_error(v.span, "non-negative integer"@, "negative integer"@))
            },
            _ => Err(token_error(v.span, "non-negative integer"@, value_kind_text(v.value))),
        },
    }
}

/// A string argument.
pub open spec fn string_arg(s: Seq<u8>, a: int) -> Result<(Seq<char>, int), SpecSchemaParseError> {
    match ron_value_at(s, a) {
        Err(x) => Err(value_error(x, "annotation argument"@)),
        Ok((v, e)) => match v.value {
            SpecRonValue::String(t) => Ok((t, e)),
            _ => Err(token_error(v.span, "string"@, value_kind_text(v.value))),
        },
    }
}

/// A comparison operator at offset `c`.
pub open spec fn operator_at(s: Seq<u8>, c: int) -> Result<(CompareOp, int), SpecSchemaParseError> {
    let two = 0 <= c && c + 1 < s.len() && s[c + 1] == 0x3d;
    if 0 <= c < s.len() && s[c] == 0x3c {
        if two {
            Ok((CompareOp::Le, c + 2))
        } else {
            Ok((CompareOp::Lt, c + 1))
        }
    } else if 0 <= c < s.len() && s[c] == 0x3e {
        if two {
            Ok((CompareOp::Ge, c + 2))
        } else {
            Ok((CompareOp::Gt, c + 1))
        }
    } else if 0 <= c < s.len() && s[c] == 0x3d && two {
        Ok((CompareOp::Eq, c + 2))
    } else if 0 <= c < s.len() && s[c] == 0x21 && two {
        Ok((CompareOp::Ne, c + 2))
    } else if 0 <= c < s.len() {
        Err(schema_unexpected(s, c, c + 1, "comparison operator"@, quoted(s[c])))
    } else {
        Err(schema_unexpected(s, c, c, "comparison operator"@, "end of input"@))
    }
}

/// The closing `)` of an annotation whose argument ended at `e`; the annotation spans from `w`.
pub open spec fn close_annotation(s: Seq<u8>, e: int) -> Result<int, SpecSchemaParseError> {
    sexpect(s, skip_ws(s, e), 0x29)
}

/// An annotation starting with `@` at offset `w`.
#[verifier::opaque]
pub open spec fn annotation_at(s: Seq<u8>, w: int) -> Result<(SpecAnnotation, int), SpecSchemaParseError> {
    match sident(s, w + 1) {
        Err(x) => Err(x),
        Ok((name, ne)) => match sexpect(s, skip_ws(s, ne), 0x28) {
            Err(x) => Err(x),
            Ok(o) => {
                let a = skip_ws(s, o);
                if name.value == "range"@ {
                    match number_arg(s, a) {
                        Err(x) => Err(x),
                        Ok((lo, e1)) => match sexpect(s, skip_ws(s, e1), 0x2c) {
                            Err(x) => Err(x),
                            Ok(o2) => match number_arg(s, skip_ws(s, o2)) {
                                Err(x) => Err(x),
                                Ok((hi, e2)) => match close_annotation(s, e2) {
                                    Err(x) => Err(x),
                                    Ok(end) => Ok((
                                        SpecAnnotation::Field(Spanned { value: SpecFieldAnnotation::Range(lo, hi), span: span_of(s, w, end) }),
                                        end,
                                    )),
                                },
                            },
                        },
                    }
                } else if name.value == "min_length"@ || name.value == "max_length"@ {
                    match length_arg(s, a) {
                        Err(x) => Err(x),
                        Ok((n, e1)) => match close_annotation(s, e1) {
                            Err(x) => Err(x),
                            Ok(end) => Ok((
                                SpecAnnotation::Field(Spanned {
                                    value: if name.value == "min_length"@ {
                                        SpecFieldAnnotation::MinLength(n)
                                    } else {
                                        SpecFieldAnnotation::MaxLength(n)
                                    },
                                    span: span_of(s, w, end),
                                }),
                                end,
                            )),
                        },
                    }
                } else if name.value == "pattern"@ {
                    match string_arg(s, a) {
                        Err(x) => Err(x),
                        Ok((p, e1)) => match close_annotation(s, e1) {
                            Err(x) => Err(x),
                            Ok(end) => Ok((
                                SpecAnnotation::Field(Spanned { value: SpecFieldAnnotation::Pattern(p), span: span_of(s, w, end) }),
                                end,
                            )),
                        },
                    }
                } else if name.value == "require"@ {
                    match sident(s, a) {
                        Err(x) => Err(x),
                        Ok((l, le)) => match operator_at(s, skip_ws(s, le)) {
                            Err(x) => Err(x),
                            Ok((op, oe)) => match sident(s, skip_ws(s, oe)) {
                                Err(x) => Err(x),
                                Ok((r, re)) => match close_annotation(s, re) {
                                    Err(x) => Err(x),
                                    Ok(end) => Ok((
                                        SpecAnnotation::Require(Spanned {
                                            value: SpecRequire { left: l.value, op, right: r.value },
                                            span: span_of(s, w, end),
                                        }),
                                        end,
                                    )),
                                },
                            },
                        },
                    }
                } else {
                    Err(token_error(name.span, "annotation"@, name.value))
                }
            },
        },
    }
}

// ===========================================================================
// Fields and structs
// ===========================================================================

/// A field `name: Type` with an optional `= default`, at offset `i`, carrying the annotations
/// written before it.
pub open spec fn field_at(s: Seq<u8>, i: int, anns: Seq<Spanned<SpecFieldAnnotation>>) -> Result<(SpecFieldDef, int), SpecSchemaParseError>
    decreases s.len() - i, 1int,
{
    if i < 0 || i > s.len() {
        Err(arbitrary())
    } else {
        let w = skip_ws(s, i);
        proof {
            lemma_skip_ws_bounds(s, i);
        }
        match sident(s, w) {
            Err(x) => Err(x),
            Ok((name, ne)) => match sexpect(s, skip_ws(s, ne), 0x3a) {
                Err(x) => Err(x),
                Ok(o) => if w < o <= s.len() {
                    let a = skip_ws(s, o);
                    proof {
                        lemma_skip_ws_bounds(s, o);
                    }
                    match type_at(s, a) {
                        Err(x) => Err(x),
                        Ok((t, te)) => field_default(s, skip_ws(s, te), name, t, anns),
                    }
                } else {
                    Err(arbitrary())
                },
            },
        }
    }
}

/// The end of a field whose type is followed by offset `d`: an optional `= default`.
pub open spec fn field_default(
    s: Seq<u8>,
    d: int,
    name: Spanned<Seq<char>>,
    t: Spanned<SpecSchemaType>,
    anns: Seq<Spanned<SpecFieldAnnotation>>,
) -> Result<(SpecFieldDef, int), SpecSchemaParseError> {
    if 0 <= d < s.len() && s[d] == 0x3d {
        match ron_value_at(s, skip_ws(s, d + 1)) {
            Err(x) => Err(value_error(x, "default value"@)),
            Ok((v, ve)) => Ok((SpecFieldDef { name, type_: t, default: Some(v), annotations: anns }, ve)),
        }
    } else {
        Ok((SpecFieldDef { name, type_: t, default: None, annotations: anns }, d))
    }
}

/// A struct `( fields )` at offset `i`.
pub open spec fn struct_at(s: Seq<u8>, i: int) -> Result<(SpecStructDef, int), SpecSchemaParseError>
    decreases s.len() - i, 1int,
{
    if i < 0 || i > s.len() {
        Err(arbitrary())
    } else {
        proof {
            lemma_skip_ws_bounds(s, i);
        }
        match sexpect(s, skip_ws(s, i), 0x28) {
            Err(x) => Err(x),
            Ok(o) => if i < o <= s.len() {
                struct_of(struct_items(s, o, Seq::empty()))
            } else {
                Err(arbitrary())
            },
        }
    }
}

/// The items of a struct from offset `i`, with `pending` annotations waiting for their field:
/// the fields, the cross-field constraints, and the offset after the closing `)`.
#[verifier::opaque]
pub open spec fn struct_items(s: Seq<u8>, i: int, pending: Seq<Spanned<SpecFieldAnnotation>>) -> Result<
    (Seq<SpecFieldDef>, Seq<Spanned<SpecRequire>>, int),
    SpecSchemaParseError,
>
    decreases s.len() - i, 3int,
{
    if i < 0 || i > s.len() {
        Err(arbitrary())
    } else {
        let w = skip_ws(s, i);
        proof {
            lemma_skip_ws_bounds(s, i);
        }
        if w >= s.len() {
            Err(schema_unexpected(s, w, w, ")"@, "end of file"@))
        } else if s[w] == 0x29 {
            if pending.len() > 0 {
                Err(schema_unexpected(s, w, w + 1, "field"@, quoted(s[w])))
            } else {
                Ok((Seq::empty(), Seq::empty(), w + 1))
            }
        } else if s[w] == 0x40 {
            annotation_item(s, w, pending)
        } else {
            field_item(s, w, pending)
        }
    }
}

/// The items of a struct from an annotation at offset `w` on.
#[verifier::opaque]
pub open spec fn annotation_item(s: Seq<u8>, w: int, pending: Seq<Spanned<SpecFieldAnnotation>>) -> Result<
    (Seq<SpecFieldDef>, Seq<Spanned<SpecRequire>>, int),
    SpecSchemaParseError,
>
    decreases s.len() - w, 2int,
{
    match annotation_at(s, w) {
        Err(x) => Err(x),
        Ok((ann, ae)) => if w < ae <= s.len() {
            match ann {
                SpecAnnotation::Require(r) => match struct_items(s, ae, pending) {
                    Err(x) => Err(x),
                    Ok((fs, rs, end)) => Ok((fs, seq![r] + rs, end)),
                },
                SpecAnnotation::Field(fa) => struct_items(s, ae, pending.push(fa)),
            }
        } else {
            Err(arbitrary())
        },
    }
}

/// The items of a struct from a field at offset `w` on.
#[verifier::opaque]
pub open spec fn field_item(s: Seq<u8>, w: int, pending: Seq<Spanned<SpecFieldAnnotation>>) -> Result<
    (Seq<SpecFieldDef>, Seq<Spanned<SpecRequire>>, int),
    SpecSchemaParseError,
>
    decreases s.len() - w, 2int,
{
    if w < 0 || w > s.len() {
        Err(arbitrary())
    } else {
        match field_at(s, w, pending) {
            Err(x) => Err(x),
            Ok((f, fe)) => if w < fe <= s.len() {
                let w2 = skip_ws(s, fe);
                proof {
                    lemma_skip_ws_bounds(s, fe);
                }
                let next = if w2 < s.len() && s[w2] == 0x2c {
                    w2 + 1
                } else {
                    w2
                };
                match struct_items(s, next, Seq::empty()) {
                    Err(x) => Err(x),
                    Ok((fs, rs, end)) => Ok((seq![f] + fs, rs, end)),
                }
            } else {
                Err(arbitrary())
            },
        }
    }
}

pub type Items = Result<(Seq<SpecFieldDef>, Seq<Spanned<SpecRequire>>, int), SpecSchemaParseError>;

/// Whether field `j` has the name of an earlier field.
pub open spec fn field_named_before(fs: Seq<SpecFieldDef>, j: int) -> bool {
    exists|i: int| 0 <= i < j && #[trigger] fs[i].name.value == fs[j].name.value
}

/// The first field from index `k` on that repeats the name of an earlier field, or -1.
pub open spec fn field_repeated_at(fs: Seq<SpecFieldDef>, k: int) -> int
    decreases fs.len() - k,
{
    if k < 0 || k >= fs.len() {
        -1
    } else if field_named_before(fs, k) {
        k
    } else {
        field_repeated_at(fs, k + 1)
    }
}

/// A struct from its items; a field named twice is refused at its second name.
pub open spec fn struct_of(r: Items) -> Result<(SpecStructDef, int), SpecSchemaParseError> {
    match r {
        Err(x) => Err(x),
        Ok((fields, anns, end)) => {
            let d = field_repeated_at(fields, 0);
            if 0 <= d < fields.len() {
                Err(SpecSchemaParseError {
                    span: fields[d].name.span,
                    kind: SpecSchemaErrorKind::DuplicateField { field_name: fields[d].name.value },
                })
            } else {
                Ok((SpecStructDef { fields, annotations: anns }, end))
            }
        },
    }
}

/// Items with fields and constraints already read put in front.
pub open spec fn items_after(fields: Seq<SpecFieldDef>, reqs: Seq<Spanned<SpecRequire>>, r: Items) -> Items {
    match r {
        Err(x) => Err(x),
        Ok((fs, rs, end)) => Ok((fields + fs, reqs + rs, end)),
    }
}

pub proof fn lemma_items_after_empty(r: Items)
    ensures
        items_after(Seq::empty(), Seq::empty(), r) == r,
{
    match r {
        Err(_) => {},
        Ok((fs, rs, end)) => {
            assert(Seq::<SpecFieldDef>::empty() + fs =~= fs);
            assert(Seq::<Spanned<SpecRequire>>::empty() + rs =~= rs);
        },
    }
}

pub proof fn lemma_items_after_assoc(
    f1: Seq<SpecFieldDef>,
    r1: Seq<Spanned<SpecRequire>>,
    f2: Seq<SpecFieldDef>,
    r2: Seq<Spanned<SpecRequire>>,
    x: Items,
)
    ensures
        items_after(f1, r1, items_after(f2, r2, x)) == items_after(f1 + f2, r1 + r2, x),
{
    match x {
        Err(_) => {},
        Ok((fs, rs, end)) => {
            assert(f1 + (f2 + fs) =~= (f1 + f2) + fs);
            assert(r1 + (r2 + rs) =~= (r1 + r2) + rs);
        },
    }
}

/// No items are read from outside the text.
pub proof fn lemma_items_outside(s: Seq<u8>, i: int, pending: Seq<Spanned<SpecFieldAnnotation>>)
    requires
        i < 0 || i > s.len(),
    ensures
        struct_items(s, i, pending) is Err,
{
    reveal(struct_items);
}

pub proof fn lemma_items_end(s: Seq<u8>, c: int, pending: Seq<Spanned<SpecFieldAnnotation>>)
    requires
        0 <= c <= s.len(),
        skip_ws(s, c) >= s.len() || s[skip_ws(s, c)] == 0x29,
    ensures
        struct_items(s, c, pending) == if skip_ws(s, c) >= s.len() {
            Err::<(Seq<SpecFieldDef>, Seq<Spanned<SpecRequire>>, int), SpecSchemaParseError>(schema_unexpected(s, skip_ws(s, c), skip_ws(s, c), ")"@, "end of file"@))
        } else if pending.len() > 0 {
            Err(schema_unexpected(s, skip_ws(s, c), skip_ws(s, c) + 1, "field"@, quoted(0x29)))
        } else {
            Ok((Seq::empty(), Seq::empty(), skip_ws(s, c) + 1))
        },
{
    reveal(struct_items);
}

pub proof fn lemma_items_annotation(s: Seq<u8>, c: int, pending: Seq<Spanned<SpecFieldAnnotation>>)
    requires
        0 <= c <= s.len(),
        skip_ws(s, c) < s.len(),
        s[skip_ws(s, c)] == 0x40,
    ensures
        struct_items(s, c, pending) == match annotation_at(s, skip_ws(s, c)) {
            Err(x) => Err(x),
            Ok((ann, ae)) => if skip_ws(s, c) < ae <= s.len() {
                match ann {
                    SpecAnnotation::Require(r) => items_after(Seq::empty(), seq![r], struct_items(s, ae, pending)),
                    SpecAnnotation::Field(fa) => struct_items(s, ae, pending.push(fa)),
                }
            } else {
                Err(arbitrary())
            },
        },
{
    reveal(struct_items);
    reveal(annotation_item);
    match annotation_at(s, skip_ws(s, c)) {
        Err(x) => {},
        Ok((ann, ae)) => {
            match ann {
                SpecAnnotation::Require(r) => {
                    match struct_items(s, ae, pending) {
                        Err(_) => {},
                        Ok((fs, rs, end)) => {
                            assert(Seq::<SpecFieldDef>::empty() + fs =~= fs);
                        },
                    }
                },
                SpecAnnotation::Field(fa) => {},
            }
        },
    }
}

pub proof fn lemma_items_field(s: Seq<u8>, c: int, pending: Seq<Spanned<SpecFieldAnnotation>>)
    requires
        0 <= c <= s.len(),
        skip_ws(s, c) < s.len(),
        s[skip_ws(s, c)] != 0x40,
        s[skip_ws(s, c)] != 0x29,
    ensures
        struct_items(s, c, pending) == match field_at(s, skip_ws(s, c), pending) {
            Err(x) => Err(x),
            Ok((f, fe)) => if skip_ws(s, c) < fe <= s.len() {
                let w2 = skip_ws(s, fe);
                let next = if w2 < s.len() && s[w2] == 0x2c {
                    w2 + 1
                } else {
                    w2
                };
                items_after(seq![f], Seq::empty(), struct_items(s, next, Seq::empty()))
            } else {
                Err(arbitrary())
            },
        },
{
    reveal(struct_items);
    reveal(field_item);
    lemma_skip_ws_bounds(s, c);
    match field_at(s, skip_ws(s, c), pending) {
        Err(x) => {},
        Ok((f, fe)) => {
            if skip_ws(s, c) < fe <= s.len() {
                let w2 = skip_ws(s, fe);
                let next = if w2 < s.len() && s[w2] == 0x2c {
                    w2 + 1
                } else {
                    w2
                };
                match struct_items(s, next, Seq::empty()) {
                    Err(_) => {},
                    Ok((fs, rs, end)) => {
                        assert(Seq::<Spanned<SpecRequire>>::empty() + rs =~= rs);
                    },
                }
            }
        },
    }
}

// ===========================================================================
// Enums, aliases, imports and the whole schema
// ===========================================================================

/// Records a variant: a name already present has its data replaced in place, a new name is
/// appended.
pub open spec fn insert_variant(
    vs: Seq<(Seq<char>, Option<SpecSchemaType>)>,
    name: Seq<char>,
    data: Option<SpecSchemaType>,
) -> Seq<(Seq<char>, Option<SpecSchemaType>)> {
    if exists|k: int| 0 <= k < vs.len() && #[trigger] vs[k].0 == name {
        let k = choose|k: int| 0 <= k < vs.len() && #[trigger] vs[k].0 == name;
        vs.update(k, (name, data))
    } else {
        vs.push((name, data))
    }
}

/// The optional data type `(T)` of a variant, looked for at offset `d`, and the offset after it.
#[verifier::opaque]
pub open spec fn variant_data_at(s: Seq<u8>, d: int) -> Result<(Option<SpecSchemaType>, int), SpecSchemaParseError> {
    if 0 <= d < s.len() && s[d] == 0x28 {
        match type_at(s, skip_ws(s, d + 1)) {
            Err(x) => Err(x),
            Ok((t, te)) => match sexpect(s, skip_ws(s, te), 0x29) {
                Err(x) => Err(x),
                Ok(after) => Ok((Some(t.value), after)),
            },
        }
    } else {
        Ok((None, d))
    }
}

/// The optional data type of a variant, as `variant_data_at` reads it.
pub proof fn lemma_variant_data(s: Seq<u8>, d: int)
    ensures
        variant_data_at(s, d) == if 0 <= d < s.len() && s[d] == 0x28 {
            match type_at(s, skip_ws(s, d + 1)) {
                Err(x) => Err(x),
                Ok((t, te)) => match sexpect(s, skip_ws(s, te), 0x29) {
                    Err(x) => Err(x),
                    Ok(after) => Ok((Some(t.value), after)),
                },
            }
        } else {
            Ok::<(Option<SpecSchemaType>, int), SpecSchemaParseError>((None, d))
        },
{
    reveal(variant_data_at);
}

/// Whether a variant of the given name is among `vs`.
pub open spec fn variant_named(vs: Seq<(Seq<char>, Option<SpecSchemaType>)>, name: Seq<char>) -> bool {
    exists|k: int| 0 <= k < vs.len() && #[trigger] vs[k].0 == name
}

/// The variants of enum `en` from offset `i`, appended to `acc`, and the offset after `}`; a
/// variant named twice is refused at its second name.
pub open spec fn variants_at(s: Seq<u8>, en: Seq<char>, i: int, acc: Seq<(Seq<char>, Option<SpecSchemaType>)>) -> Result<
    (Seq<(Seq<char>, Option<SpecSchemaType>)>, int),
    SpecSchemaParseError,
>
    decreases s.len() - i,
{
    if i < 0 || i > s.len() {
        Err(arbitrary())
    } else {
        let w = skip_ws(s, i);
        proof {
            lemma_skip_ws_bounds(s, i);
        }
        if w >= s.len() {
            Err(schema_unexpected(s, w, w, "}"@, "end of file"@))
        } else if s[w] == 0x7d {
            Ok((acc, w + 1))
        } else {
            match sident(s, w) {
                Err(x) => Err(x),
                Ok((v, ve)) => {
                    proof {
                        lemma_ident_end_bounds(s, w);
                        lemma_skip_ws_bounds(s, ve);
                    }
                    let d = skip_ws(s, ve);
                    match variant_data_at(s, d) {
                        Err(x) => Err(x),
                        Ok((dt, after)) => if w < after <= s.len() {
                            let w2 = skip_ws(s, after);
                            proof {
                                lemma_skip_ws_bounds(s, after);
                            }
                            let next = if w2 < s.len() && s[w2] == 0x2c {
                                w2 + 1
                            } else {
                                w2
                            };
                            if variant_named(acc, v.value) {
                                Err(SpecSchemaParseError {
                                    span: v.span,
                                    kind: SpecSchemaErrorKind::DuplicateVariant { enum_name: en, variant: v.value },
                                })
                            } else {
                                variants_at(s, en, next, acc.push((v.value, dt)))
                            }
                        } else {
                            Err(arbitrary())
                        },
                    }
                },
            }
        }
    }
}

/// An enum definition `enum Name { ... }` at offset `i`.
pub open spec fn enum_def_at(s: Seq<u8>, i: int) -> Result<(SpecEnumDef, int), SpecSchemaParseError> {
    match sident(s, skip_ws(s, i)) {
        Err(x) => Err(x),
        Ok((kw, ke)) => if kw.value != "enum"@ {
            Err(token_error(kw.span, "\"enum\""@, kw.value))
        } else {
            match sident(s, skip_ws(s, ke)) {
                Err(x) => Err(x),
                Ok((name, ne)) => match sexpect(s, skip_ws(s, ne), 0x7b) {
                    Err(x) => Err(x),
                    Ok(o) => match variants_at(s, name.value, o, Seq::empty()) {
                        Err(x) => Err(x),
                        Ok((vs, end)) => Ok((SpecEnumDef { name: name.value, variants: vs }, end)),
                    },
                },
            }
        }
    }
}

/// An alias definition `type Name = T` at offset `i` (the keyword is taken as read).
pub open spec fn alias_def_at(s: Seq<u8>, i: int) -> Result<((Seq<char>, Spanned<SpecSchemaType>), int), SpecSchemaParseError> {
    match sident(s, skip_ws(s, i)) {
        Err(x) => Err(x),
        Ok((_, ke)) => match sident(s, skip_ws(s, ke)) {
            Err(x) => Err(x),
            Ok((name, ne)) => match sexpect(s, skip_ws(s, ne), 0x3d) {
                Err(x) => Err(x),
                Ok(o) => match type_at(s, skip_ws(s, o)) {
                    Err(x) => Err(x),
                    Ok((t, te)) => Ok(((name.value, t), te)),
                },
            },
        },
    }
}

/// Whether the word at `i` is the keyword `import`.
pub open spec fn at_import(s: Seq<u8>, i: int) -> bool {
    match identifier_at(s, i) {
        Ok((id, _)) => id.value == "import"@,
        Err(_) => false,
    }
}

/// The `import "path"` statements from offset `i`, collected into `acc`, and the offset after them.
pub open spec fn imports_at(s: Seq<u8>, i: int, acc: Seq<Spanned<Seq<char>>>) -> Result<(Seq<Spanned<Seq<char>>>, int), SpecSchemaParseError>
    decreases s.len() - i,
{
    if i < 0 || i > s.len() || !at_import(s, i) {
        Ok((acc, i))
    } else {
        let ke = ident_end(s, i);
        proof {
            lemma_ident_end_bounds(s, i);
            lemma_skip_ws_bounds(s, ke);
        }
        match ron_value_at(s, skip_ws(s, ke)) {
            Err(x) => Err(value_error(x, "import path string"@)),
            Ok((v, ve)) => match v.value {
                SpecRonValue::String(p) => if i < ve <= s.len() {
                    proof {
                        lemma_skip_ws_bounds(s, ve);
                    }
                    imports_at(s, skip_ws(s, ve), acc.push(Spanned { value: p, span: span_of(s, i, ve) }))
                } else {
                    Err(arbitrary())
                },
                _ => Err(token_error(v.span, "import path string"@, value_kind_text(v.value))),
            },
        }
    }
}

pub open spec fn has_enum(enums: Seq<SpecEnumDef>, name: Seq<char>) -> bool {
    exists|k: int| 0 <= k < enums.len() && #[trigger] enums[k].name == name
}

pub open spec fn has_alias(aliases: Seq<(Seq<char>, Spanned<SpecSchemaType>)>, name: Seq<char>) -> bool {
    exists|k: int| 0 <= k < aliases.len() && #[trigger] aliases[k].0 == name
}

/// The enum and alias definitions from offset `i`, collected after `enums` and `aliases`.
pub open spec fn defs_at(
    s: Seq<u8>,
    i: int,
    enums: Seq<SpecEnumDef>,
    aliases: Seq<(Seq<char>, Spanned<SpecSchemaType>)>,
) -> Result<(Seq<SpecEnumDef>, Seq<(Seq<char>, Spanned<SpecSchemaType>)>), SpecSchemaParseError>
    decreases s.len() - i,
{
    if i < 0 || i > s.len() {
        Err(arbitrary())
    } else {
        let w = skip_ws(s, i);
        proof {
            lemma_skip_ws_bounds(s, i);
        }
        if w >= s.len() {
            Ok((enums, aliases))
        } else {
            match sident(s, w) {
                Err(x) => Err(x),
                Ok((kw, _)) => if kw.value == "enum"@ {
                    match enum_def_at(s, w) {
                        Err(x) => Err(x),
                        Ok((ed, ee)) => if has_enum(enums, ed.name) {
                            Err(SpecSchemaParseError {
                                span: span_of(s, ee, ee),
                                kind: SpecSchemaErrorKind::DuplicateEnum { name: ed.name },
                            })
                        } else if w < ee <= s.len() {
                            defs_at(s, ee, enums.push(ed), aliases)
                        } else {
                            Err(arbitrary())
                        },
                    }
                } else if kw.value == "type"@ {
                    match alias_def_at(s, w) {
                        Err(x) => Err(x),
                        Ok(((name, t), te)) => if has_alias(aliases, name) {
                            Err(SpecSchemaParseError {
                                span: t.span,
                                kind: SpecSchemaErrorKind::DuplicateAlias { name },
                            })
                        } else if w < te <= s.len() {
                            defs_at(s, te, enums, aliases.push((name, t)))
                        } else {
                            Err(arbitrary())
                        },
                    }
                } else {
                    Err(token_error(kw.span, "\"enum\" or \"type\""@, kw.value))
                },
            }
        }
    }
}

/// No two enums share a name, no two type aliases share a name, and within each enum no two
/// variants share a name.
pub open spec fn names_distinct(enums: Seq<SpecEnumDef>, aliases: Seq<(Seq<char>, Spanned<SpecSchemaType>)>) -> bool {
    &&& forall|a: int, b: int| 0 <= a < b < enums.len() ==> #[trigger] enums[a].name != #[trigger] enums[b].name
    &&& forall|a: int, b: int| 0 <= a < b < aliases.len() ==> #[trigger] aliases[a].0 != #[trigger] aliases[b].0
    &&& forall|k: int| 0 <= k < enums.len() ==> super::parser::distinct_variants(#[trigger] enums[k].variants)
}

/// The variants read by `variants_at` have distinct names, given that those already read have.
pub proof fn lemma_variants_distinct(s: Seq<u8>, en: Seq<char>, i: int, acc: Seq<(Seq<char>, Option<SpecSchemaType>)>)
    requires
        super::parser::distinct_variants(acc),
    ensures
        variants_at(s, en, i, acc) is Ok ==> super::parser::distinct_variants(variants_at(s, en, i, acc)->Ok_0.0),
    decreases s.len() - i,
{
    if 0 <= i <= s.len() {
        let w = skip_ws(s, i);
        lemma_skip_ws_bounds(s, i);
        if w < s.len() && s[w] != 0x7d {
            match sident(s, w) {
                Ok((v, ve)) => {
                    lemma_ident_end_bounds(s, w);
                    lemma_skip_ws_bounds(s, ve);
                    let d = skip_ws(s, ve);
                    match variant_data_at(s, d) {
                        Ok((dt, after)) => {
                            if w < after <= s.len() && !variant_named(acc, v.value) {
                                let w2 = skip_ws(s, after);
                                lemma_skip_ws_bounds(s, after);
                                let next = if w2 < s.len() && s[w2] == 0x2c {
                                    w2 + 1
                                } else {
                                    w2
                                };
                                let acc2 = acc.push((v.value, dt));
                                assert forall|j: int, k: int| 0 <= j < k < acc2.len() implies #[trigger] acc2[j].0 != #[trigger] acc2[k].0 by {
                                    if k == acc.len() {
                                        assert(acc2[j] == acc[j]);
                                        assert(!(acc[j].0 == v.value));
                                    } else {
                                        assert(acc2[j] == acc[j] && acc2[k] == acc[k]);
                                    }
                                }
                                lemma_variants_distinct(s, en, next, acc2);
                            }
                        },
                        Err(_) => {},
                    }
                },
                Err(_) => {},
            }
        }
    }
}

/// The definitions read by `defs_at` keep their names distinct, given that those already read
/// have them distinct.
pub proof fn lemma_defs_distinct(
    s: Seq<u8>,
    i: int,
    enums: Seq<SpecEnumDef>,
    aliases: Seq<(Seq<char>, Spanned<SpecSchemaType>)>,
)
    requires
        names_distinct(enums, aliases),
    ensures
        defs_at(s, i, enums, aliases) is Ok ==> names_distinct(defs_at(s, i, enums, aliases)->Ok_0.0, defs_at(s, i, enums, aliases)->Ok_0.1),
    decreases s.len() - i,
{
    if 0 <= i <= s.len() {
        let w = skip_ws(s, i);
        lemma_skip_ws_bounds(s, i);
        if w < s.len() {
            match sident(s, w) {
                Ok((kw, _)) => {
                    if kw.value == "enum"@ {
                        match enum_def_at(s, w) {
                            Ok((ed, ee)) => {
                                match sident(s, skip_ws(s, w)) {
                                    Ok((_, ke)) => {
                                        match sident(s, skip_ws(s, ke)) {
                                            Ok((nm, ne)) => {
                                                match sexpect(s, skip_ws(s, ne), 0x7b) {
                                                    Ok(o) => {
                                                        lemma_variants_distinct(s, nm.value, o, Seq::empty());
                                                    },
                                                    Err(_) => {},
                                                }
                                            },
                                            Err(_) => {},
                                        }
                                    },
                                    Err(_) => {},
                                }
                                if w < ee <= s.len() && !has_enum(enums, ed.name) {
                                    let e2 = enums.push(ed);
                                    assert forall|a: int, b: int| 0 <= a < b < e2.len() implies #[trigger] e2[a].name != #[trigger] e2[b].name by {
                                        if b == enums.len() {
                                            assert(e2[a] == enums[a]);
                                            assert(!(enums[a].name == ed.name));
                                        } else {
                                            assert(e2[a] == enums[a] && e2[b] == enums[b]);
                                        }
                                    }
                                    assert forall|k: int| 0 <= k < e2.len() implies super::parser::distinct_variants(#[trigger] e2[k].variants) by {
                                        if k < enums.len() {
                                            assert(e2[k] == enums[k]);
                                        }
                                    }
                                    lemma_defs_distinct(s, ee, e2, aliases);
                                }
                            },
                            Err(_) => {},
                        }
                    } else if kw.value == "type"@ {
                        match alias_def_at(s, w) {
                            Ok(((name, t), te)) => {
                                if w < te <= s.len() && !has_alias(aliases, name) {
                                    let a2 = aliases.push((name, t));
                                    assert forall|a: int, b: int| 0 <= a < b < a2.len() implies #[trigger] a2[a].0 != #[trigger] a2[b].0 by {
                                        if b == aliases.len() {
                                            assert(a2[a] == aliases[a]);
                                            assert(!(aliases[a].0 == name));
                                        } else {
                                            assert(a2[a] == aliases[a] && a2[b] == aliases[b]);
                                        }
                                    }
                                    lemma_defs_distinct(s, te, enums, a2);
                                }
                            },
                            Err(_) => {},
                        }
                    }
                },
                Err(_) => {},
            }
        }
    }
}

/// The schema text before its checks: imports, root struct and definitions.
pub open spec fn schema_parts(s: Seq<u8>) -> Result<
    (Seq<Spanned<Seq<char>>>, SpecStructDef, Seq<SpecEnumDef>, Seq<(Seq<char>, Spanned<SpecSchemaType>)>),
    SpecSchemaParseError,
> {
    match imports_at(s, skip_ws(s, 0), Seq::empty()) {
        Err(x) => Err(x),
        Ok((imports, ia)) => {
            let root: Result<(SpecStructDef, int), SpecSchemaParseError> = if ia < s.len() && s[ia] == 0x28 {
                struct_at(s, ia)
            } else {
                Ok((SpecStructDef { fields: Seq::empty(), annotations: Seq::empty() }, ia))
            };
            match root {
                Err(x) => Err(x),
                Ok((r, re)) => match defs_at(s, re, Seq::empty(), Seq::empty()) {
                    Err(x) => Err(x),
                    Ok((enums, aliases)) => Ok((imports, r, enums, aliases)),
                },
            }
        },
    }
}

} // verus!
