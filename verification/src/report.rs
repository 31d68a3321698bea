use vstd::prelude::*;
use vstd::string::StringSliceAdditionalSpecFns;
use crate::diagnostic::{SourceLine, extract_source_line, line_begin, line_for};
use crate::error::{ErrorKind, SpecErrorKind, SpecValidationError, SpecWarning, SpecWarningKind, ValidationError, Warning, WarningKind, strings_view};
use crate::number::{Decimal, decimal_text};
use crate::text::{append_str, copy_string, line_end, owned, push_char};
use crate::validate::{index_text, validate, validation, errs_view, warns_view};
use crate::error::{RonParseError, SpecRonParseError};
use crate::ron::parser::{parse_ron, document};
use crate::schema::Schema;
use crate::schema::grammar::ron_kind_text;
use crate::schema::parser::ron_kind_string;
use crate::span::Span;

verus! {

// ===========================================================================
// Report entries
// ===========================================================================

/// A line/column position.
#[derive(Debug, Clone, Copy, PartialEq, Eq)]
pub struct JsonPosition {
    pub line: usize,
    pub column: usize,
}

/// Source location range.
#[derive(Debug, Clone, Copy, PartialEq, Eq)]
pub struct JsonSpan {
    pub start: JsonPosition,
    pub end: JsonPosition,
}

/// A single error or warning entry of a machine-readable report.
#[derive(Debug, PartialEq, Eq)]
pub struct JsonError {
    pub code: String,
    pub severity: String,
    pub path: String,
    pub message: String,
    pub line: usize,
    pub column: usize,
    pub span: JsonSpan,
}

// ===========================================================================
// Texts
// ===========================================================================

/// The short code of an error kind.
pub open spec fn code_of(k: SpecErrorKind) -> Seq<char> {
    match k {
        SpecErrorKind::MissingField { .. } => "missing-field"@,
        SpecErrorKind::UnknownField { .. } => "unknown-field"@,
        SpecErrorKind::TypeMismatch { .. } => "type-mismatch"@,
        SpecErrorKind::InvalidEnumVariant { .. } => "invalid-variant"@,
        SpecErrorKind::InvalidOptionValue { .. } => "invalid-option"@,
        SpecErrorKind::InvalidListElement { .. } => "invalid-element"@,
        SpecErrorKind::ExpectedStruct { .. } => "expected-struct"@,
        SpecErrorKind::ExpectedList { .. } => "expected-list"@,
        SpecErrorKind::ExpectedOption { .. } => "expected-option"@,
        SpecErrorKind::InvalidVariantData { .. } => "invalid-variant-data"@,
        SpecErrorKind::ExpectedMap { .. } => "expected-map"@,
        SpecErrorKind::InvalidMapKey { .. } => "invalid-map-key"@,
        SpecErrorKind::InvalidMapValue { .. } => "invalid-map-value"@,
        SpecErrorKind::ExpectedTuple { .. } => "expected-tuple"@,
        SpecErrorKind::TupleLengthMismatch { .. } => "tuple-length"@,
        SpecErrorKind::InvalidTupleElement { .. } => "invalid-tuple-element"@,
        SpecErrorKind::ValueOutOfRange { .. } => "value-out-of-range"@,
        SpecErrorKind::LengthTooShort { .. } => "length-too-short"@,
        SpecErrorKind::LengthTooLong { .. } => "length-too-long"@,
        SpecErrorKind::PatternMismatch { .. } => "pattern-mismatch"@,
        SpecErrorKind::CrossFieldViolation { .. } => "cross-field-violation"@,
        SpecErrorKind::UnresolvedType { .. } => "unresolved-type"@,
    }
}

/// The first `n` names, separated by `, `.
pub open spec fn joined(names: Seq<Seq<char>>, n: int) -> Seq<char>
    decreases n,
{
    if n <= 0 || n > names.len() {
        Seq::empty()
    } else if n == 1 {
        names[0]
    } else {
        joined(names, n - 1) + ", "@ + names[n - 1]
    }
}

pub open spec fn field_prefix(path: Seq<char>) -> Seq<char> {
    "field `"@ + path + "`: "@
}

/// The message line of an error.
pub open spec fn message_of(e: SpecValidationError) -> Seq<char> {
    let fp = field_prefix(e.path);
    match e.kind {
        SpecErrorKind::MissingField { field_name } => "missing required field `"@ + field_name + "`"@,
        SpecErrorKind::UnknownField { field_name } => "field `"@ + field_name + "` is not defined in the schema"@,
        SpecErrorKind::TypeMismatch { expected, found } => fp + "expected "@ + expected + ", found "@ + found,
        SpecErrorKind::InvalidEnumVariant { enum_name, variant, valid } => fp + "`"@ + variant + "` is not a valid "@
            + enum_name + " variant, expected one of: "@ + joined(valid, valid.len() as int),
        SpecErrorKind::InvalidOptionValue { expected, found } => fp + "expected "@ + expected + ", found "@ + found,
        SpecErrorKind::InvalidListElement { index, expected, found } => fp + "element "@ + index_text(index as int)
            + " expected "@ + expected + ", found "@ + found,
        SpecErrorKind::ExpectedStruct { found } => fp + "expected struct, found "@ + found,
        SpecErrorKind::ExpectedList { found } => fp + "expected list, found "@ + found,
        SpecErrorKind::ExpectedOption { found } => fp + "expected Some(...) or None, found "@ + found,
        SpecErrorKind::InvalidVariantData { enum_name, variant, expected, found } => fp + "variant `"@ + enum_name
            + "::"@ + variant + "` expected "@ + expected + ", found "@ + found,
        SpecErrorKind::ExpectedMap { found } => fp + "expected map, found "@ + found,
        SpecErrorKind::InvalidMapKey { key, expected, found } => fp + "map key "@ + key + " expected "@ + expected
            + ", found "@ + found,
        SpecErrorKind::InvalidMapValue { key, expected, found } => "field `"@ + e.path + "`["@ + key + "]: expected "@
            + expected + ", found "@ + found,
        SpecErrorKind::ExpectedTuple { found } => fp + "expected tuple, found "@ + found,
        SpecErrorKind::TupleLengthMismatch { expected, found } => fp + "expected "@ + index_text(expected as int)
            + " elements, found "@ + index_text(found as int),
        SpecErrorKind::InvalidTupleElement { index, expected, found } => fp + "element "@ + index_text(index as int)
            + " expected "@ + expected + ", found "@ + found,
        SpecErrorKind::ValueOutOfRange { min, max, found, .. } => fp + "value "@ + decimal_text(found)
            + " is out of range ["@ + decimal_text(min) + ", "@ + decimal_text(max) + "]"@,
        SpecErrorKind::LengthTooShort { min, found, .. } => fp + "length "@ + index_text(found as int)
            + " is less than the minimum "@ + index_text(min as int),
        SpecErrorKind::LengthTooLong { max, found, .. } => fp + "length "@ + index_text(found as int)
            + " is more than the maximum "@ + index_text(max as int),
        SpecErrorKind::PatternMismatch { pattern, .. } => fp + "value does not match pattern `"@ + pattern + "`"@,
        SpecErrorKind::CrossFieldViolation { constraint } => "constraint `"@ + constraint + "` is not met"@,
        SpecErrorKind::UnresolvedType { name } => fp + "type `"@ + name + "` cannot be resolved"@,
    }
}

/// The label under the underlined source of an error.
pub open spec fn label_of(k: SpecErrorKind) -> Seq<char> {
    match k {
        SpecErrorKind::MissingField { field_name } => "struct ends here without field `"@ + field_name + "`"@,
        SpecErrorKind::UnknownField { .. } => "unknown field"@,
        SpecErrorKind::TypeMismatch { expected, .. } => "expected "@ + expected,
        SpecErrorKind::InvalidEnumVariant { valid, .. } => "expected one of: "@ + joined(valid, valid.len() as int),
        SpecErrorKind::InvalidOptionValue { expected, .. } => "expected "@ + expected,
        SpecErrorKind::InvalidListElement { expected, .. } => "expected "@ + expected,
        SpecErrorKind::ExpectedStruct { .. } => "expected struct"@,
        SpecErrorKind::ExpectedList { .. } => "expected list"@,
        SpecErrorKind::ExpectedOption { .. } => "expected Some(...) or None"@,
        SpecErrorKind::InvalidVariantData { expected, .. } => "expected "@ + expected,
        SpecErrorKind::ExpectedMap { .. } => "expected map"@,
        SpecErrorKind::InvalidMapKey { expected, .. } => "expected "@ + expected,
        SpecErrorKind::InvalidMapValue { expected, .. } => "expected "@ + expected,
        SpecErrorKind::ExpectedTuple { .. } => "expected tuple"@,
        SpecErrorKind::TupleLengthMismatch { expected, .. } => "expected "@ + index_text(expected as int) + " elements"@,
        SpecErrorKind::InvalidTupleElement { expected, .. } => "expected "@ + expected,
        SpecErrorKind::ValueOutOfRange { min, max, .. } => "expected a value in ["@ + decimal_text(min) + ", "@
            + decimal_text(max) + "]"@,
        SpecErrorKind::LengthTooShort { min, .. } => "expected at least "@ + index_text(min as int),
        SpecErrorKind::LengthTooLong { max, .. } => "expected at most "@ + index_text(max as int),
        SpecErrorKind::PatternMismatch { pattern, .. } => "expected a match for `"@ + pattern + "`"@,
        SpecErrorKind::CrossFieldViolation { .. } => "constraint not met"@,
        SpecErrorKind::UnresolvedType { .. } => "unresolved type"@,
    }
}

/// The message line of a warning.
pub open spec fn warning_message_of(w: SpecWarning) -> Seq<char> {
    match w.kind {
        SpecWarningKind::FieldOrderMismatch { field_name, expected_after } => "field `"@ + field_name
            + "` comes before `"@ + expected_after + "`, unlike the schema"@,
    }
}

/// `n` copies of a character.
pub open spec fn repeat(c: char, n: nat) -> Seq<char> {
    Seq::new(n, |i: int| c)
}

// ===========================================================================
// Executable texts
// ===========================================================================

fn usize_text(n: usize) -> (r: String)
    ensures
        r@ == index_text(n as int),
{
    Decimal::from_u64(n as u64).to_text()
}

fn join_names(names: &Vec<String>) -> (r: String)
    ensures
        r@ == joined(strings_view(names@), names@.len() as int),
{
    let ghost nv = strings_view(names@);
    let mut out = String::new();
    let mut k: usize = 0;
    while k < names.len()
        invariant
            k <= names@.len(),
            nv == strings_view(names@),
            out@ == joined(nv, k as int),
        decreases names@.len() - k,
    {
        if k > 0 {
            append_str(&mut out, ", ");
        }
        append_str(&mut out, names[k].as_str());
        assert(nv[k as int] == names@[k as int]@);
        k = k + 1;
        assert(out@ =~= joined(nv, k as int));
    }
    out
}

/// Maps an error kind to its short error code for display.
pub fn error_code(kind: &ErrorKind) -> (r: &'static str)
    ensures
        r@ == code_of(kind@),
{
    match kind {
        ErrorKind::MissingField { .. } => "missing-field",
        ErrorKind::UnknownField { .. } => "unknown-field",
        ErrorKind::TypeMismatch { .. } => "type-mismatch",
        ErrorKind::InvalidEnumVariant { .. } => "invalid-variant",
        ErrorKind::InvalidOptionValue { .. } => "invalid-option",
        ErrorKind::InvalidListElement { .. } => "invalid-element",
        ErrorKind::ExpectedStruct { .. } => "expected-struct",
        ErrorKind::ExpectedList { .. } => "expected-list",
        ErrorKind::ExpectedOption { .. } => "expected-option",
        ErrorKind::InvalidVariantData { .. } => "invalid-variant-data",
        ErrorKind::ExpectedMap { .. } => "expected-map",
        ErrorKind::InvalidMapKey { .. } => "invalid-map-key",
        ErrorKind::InvalidMapValue { .. } => "invalid-map-value",
        ErrorKind::ExpectedTuple { .. } => "expected-tuple",
        ErrorKind::TupleLengthMismatch { .. } => "tuple-length",
        ErrorKind::InvalidTupleElement { .. } => "invalid-tuple-element",
        ErrorKind::ValueOutOfRange { .. } => "value-out-of-range",
        ErrorKind::LengthTooShort { .. } => "length-too-short",
        ErrorKind::LengthTooLong { .. } => "length-too-long",
        ErrorKind::PatternMismatch { .. } => "pattern-mismatch",
        ErrorKind::CrossFieldViolation { .. } => "cross-field-violation",
        ErrorKind::UnresolvedType { .. } => "unresolved-type",
    }
}

/// The short code of a warning kind.
pub fn warning_code(kind: &WarningKind) -> (r: &'static str)
    ensures
        r@ == "field-order"@,
{
    match kind {
        WarningKind::FieldOrderMismatch { .. } => "field-order",
    }
}

/// Produces the human-readable message line for an error.
pub fn error_message(error: &ValidationError) -> (r: String)
    ensures
        r@ == message_of(error@),
{
    let mut out = String::new();
    let path = error.path.as_str();
    match &error.kind {
        ErrorKind::MissingField { field_name } => {
            append_str(&mut out, "missing required field `");
            append_str(&mut out, field_name.as_str());
            append_str(&mut out, "`");
        },
        ErrorKind::UnknownField { field_name } => {
            append_str(&mut out, "field `");
            append_str(&mut out, field_name.as_str());
            append_str(&mut out, "` is not defined in the schema");
        },
        ErrorKind::InvalidMapValue { key, expected, found } => {
            append_str(&mut out, "field `");
            append_str(&mut out, path);
            append_str(&mut out, "`[");
            append_str(&mut out, key.as_str());
            append_str(&mut out, "]: expected ");
            append_str(&mut out, expected.as_str());
            append_str(&mut out, ", found ");
            append_str(&mut out, found.as_str());
        },
        ErrorKind::CrossFieldViolation { constraint } => {
            append_str(&mut out, "constraint `");
            append_str(&mut out, constraint.as_str());
            append_str(&mut out, "` is not met");
        },
        other => {
            append_str(&mut out, "field `");
            append_str(&mut out, path);
            append_str(&mut out, "`: ");
            match other {
                ErrorKind::TypeMismatch { expected, found } | ErrorKind::InvalidOptionValue { expected, found } => {
                    append_str(&mut out, "expected ");
                    append_str(&mut out, expected.as_str());
                    append_str(&mut out, ", found ");
                    append_str(&mut out, found.as_str());
                },
                ErrorKind::InvalidEnumVariant { enum_name, variant, valid } => {
                    append_str(&mut out, "`");
                    append_str(&mut out, variant.as_str());
                    append_str(&mut out, "` is not a valid ");
                    append_str(&mut out, enum_name.as_str());
                    append_str(&mut out, " variant, expected one of: ");
                    let j = join_names(valid);
                    append_str(&mut out, j.as_str());
                },
                ErrorKind::InvalidListElement { index, expected, found } | ErrorKind::InvalidTupleElement { index, expected, found } => {
                    append_str(&mut out, "element ");
                    let t = usize_text(*index);
                    append_str(&mut out, t.as_str());
                    append_str(&mut out, " expected ");
                    append_str(&mut out, expected.as_str());
                    append_str(&mut out, ", found ");
                    append_str(&mut out, found.as_str());
                },
                ErrorKind::ExpectedStruct { found } => {
                    append_str(&mut out, "expected struct, found ");
                    append_str(&mut out, found.as_str());
                },
                ErrorKind::ExpectedList { found } => {
                    append_str(&mut out, "expected list, found ");
                    append_str(&mut out, found.as_str());
                },
                ErrorKind::ExpectedOption { found } => {
                    append_str(&mut out, "expected Some(...) or None, found ");
                    append_str(&mut out, found.as_str());
                },
                ErrorKind::InvalidVariantData { enum_name, variant, expected, found } => {
                    append_str(&mut out, "variant `");
                    append_str(&mut out, enum_name.as_str());
                    append_str(&mut out, "::");
                    append_str(&mut out, variant.as_str());
                    append_str(&mut out, "` expected ");
                    append_str(&mut out, expected.as_str());
                    append_str(&mut out, ", found ");
                    append_str(&mut out, found.as_str());
                },
                ErrorKind::ExpectedMap { found } => {
                    append_str(&mut out, "expected map, found ");
                    append_str(&mut out, found.as_str());
                },
                ErrorKind::InvalidMapKey { key, expected, found } => {
                    append_str(&mut out, "map key ");
                    append_str(&mut out, key.as_str());
                    append_str(&mut out, " expected ");
                    append_str(&mut out, expected.as_str());
                    append_str(&mut out, ", found ");
                    append_str(&mut out, found.as_str());
                },
                ErrorKind::ExpectedTuple { found } => {
                    append_str(&mut out, "expected tuple, found ");
                    append_str(&mut out, found.as_str());
                },
                ErrorKind::TupleLengthMismatch { expected, found } => {
                    append_str(&mut out, "expected ");
                    let a = usize_text(*expected);
                    append_str(&mut out, a.as_str());
                    append_str(&mut out, " elements, found ");
                    let b = usize_text(*found);
                    append_str(&mut out, b.as_str());
                },
                ErrorKind::ValueOutOfRange { min, max, found, .. } => {
                    append_str(&mut out, "value ");
                    let f = found.to_text();
                    append_str(&mut out, f.as_str());
                    append_str(&mut out, " is out of range [");
                    let a = min.to_text();
                    append_str(&mut out, a.as_str());
                    append_str(&mut out, ", ");
                    let b = max.to_text();
                    append_str(&mut out, b.as_str());
                    append_str(&mut out, "]");
                },
                ErrorKind::LengthTooShort { min, found, .. } => {
                    append_str(&mut out, "length ");
                    let f = usize_text(*found);
                    append_str(&mut out, f.as_str());
                    append_str(&mut out, " is less than the minimum ");
                    let m = usize_text(*min);
                    append_str(&mut out, m.as_str());
                },
                ErrorKind::LengthTooLong { max, found, .. } => {
                    append_str(&mut out, "length ");
                    let f = usize_text(*found);
                    append_str(&mut out, f.as_str());
                    append_str(&mut out, " is more than the maximum ");
                    let m = usize_text(*max);
                    append_str(&mut out, m.as_str());
                },
                ErrorKind::PatternMismatch { pattern, .. } => {
                    append_str(&mut out, "value does not match pattern `");
                    append_str(&mut out, pattern.as_str());
                    append_str(&mut out, "`");
                },
                ErrorKind::UnresolvedType { name } => {
                    append_str(&mut out, "type `");
                    append_str(&mut out, name.as_str());
                    append_str(&mut out, "` cannot be resolved");
                },
                _ => {},
            }
        },
    }
    assert(out@ =~= message_of(error@));
    out
}

/// Short label for the underline beneath the source line.
pub fn underline_label(kind: &ErrorKind) -> (r: String)
    ensures
        r@ == label_of(kind@),
{
    let mut out = String::new();
    match kind {
        ErrorKind::MissingField { field_name } => {
            append_str(&mut out, "struct ends here without field `");
            append_str(&mut out, field_name.as_str());
            append_str(&mut out, "`");
        },
        ErrorKind::UnknownField { .. } => append_str(&mut out, "unknown field"),
        ErrorKind::TypeMismatch { expected, .. } | ErrorKind::InvalidOptionValue { expected, .. }
        | ErrorKind::InvalidListElement { expected, .. } | ErrorKind::InvalidVariantData { expected, .. }
        | ErrorKind::InvalidMapKey { expected, .. } | ErrorKind::InvalidMapValue { expected, .. }
        | ErrorKind::InvalidTupleElement { expected, .. } => {
            append_str(&mut out, "expected ");
            append_str(&mut out, expected.as_str());
        },
        ErrorKind::InvalidEnumVariant { valid, .. } => {
            append_str(&mut out, "expected one of: ");
            let j = join_names(valid);
            append_str(&mut out, j.as_str());
        },
        ErrorKind::ExpectedStruct { .. } => append_str(&mut out, "expected struct"),
        ErrorKind::ExpectedList { .. } => append_str(&mut out, "expected list"),
        ErrorKind::ExpectedOption { .. } => append_str(&mut out, "expected Some(...) or None"),
        ErrorKind::ExpectedMap { .. } => append_str(&mut out, "expected map"),
        ErrorKind::ExpectedTuple { .. } => append_str(&mut out, "expected tuple"),
        ErrorKind::TupleLengthMismatch { expected, .. } => {
            append_str(&mut out, "expected ");
            let a = usize_text(*expected);
            append_str(&mut out, a.as_str());
            append_str(&mut out, " elements");
        },
        ErrorKind::ValueOutOfRange { min, max, .. } => {
            append_str(&mut out, "expected a value in [");
            let a = min.to_text();
            append_str(&mut out, a.as_str());
            append_str(&mut out, ", ");
            let b = max.to_text();
            append_str(&mut out, b.as_str());
            append_str(&mut out, "]");
        },
        ErrorKind::LengthTooShort { min, .. } => {
            append_str(&mut out, "expected at least ");
            let m = usize_text(*min);
            append_str(&mut out, m.as_str());
        },
        ErrorKind::LengthTooLong { max, .. } => {
            append_str(&mut out, "expected at most ");
            let m = usize_text(*max);
            append_str(&mut out, m.as_str());
        },
        ErrorKind::PatternMismatch { pattern, .. } => {
            append_str(&mut out, "expected a match for `");
            append_str(&mut out, pattern.as_str());
            append_str(&mut out, "`");
        },
        ErrorKind::CrossFieldViolation { .. } => append_str(&mut out, "constraint not met"),
        ErrorKind::UnresolvedType { .. } => append_str(&mut out, "unresolved type"),
    }
    assert(out@ =~= label_of(kind@));
    out
}

/// The message line of a warning.
pub fn warning_message(warning: &Warning) -> (r: String)
    ensures
        r@ == warning_message_of(warning@),
{
    let mut out = String::new();
    match &warning.kind {
        WarningKind::FieldOrderMismatch { field_name, expected_after } => {
            append_str(&mut out, "field `");
            append_str(&mut out, field_name.as_str());
            append_str(&mut out, "` comes before `");
            append_str(&mut out, expected_after.as_str());
            append_str(&mut out, "`, unlike the schema");
        },
    }
    assert(out@ =~= warning_message_of(warning@));
    out
}

fn push_repeat(out: &mut String, c: char, n: usize)
    ensures
        final(out)@ == old(out)@ + repeat(c, n as nat),
{
    let mut k: usize = 0;
    while k < n
        invariant
            k <= n,
            out@ == old(out)@ + repeat(c, k as nat),
        decreases n - k,
    {
        push_char(out, c);
        k = k + 1;
        assert(out@ =~= old(out)@ + repeat(c, k as nat));
    }
}

fn json_span(span: crate::span::Span) -> (r: JsonSpan)
    ensures
        r == (JsonSpan {
            start: JsonPosition { line: span.start.line, column: span.start.column },
            end: JsonPosition { line: span.end.line, column: span.end.column },
        }),
{
    JsonSpan {
        start: JsonPosition { line: span.start.line, column: span.start.column },
        end: JsonPosition { line: span.end.line, column: span.end.column },
    }
}

/// Converts a validation error into a report entry.
pub fn to_json_error(error: &ValidationError) -> (r: JsonError)
    ensures
        r.code@ == code_of(error@.kind),
        r.severity@ == "error"@,
        r.path@ == error@.path,
        r.message@ == message_of(error@),
        r.line == error.span.start.line,
        r.column == error.span.start.column,
        r.span == (JsonSpan {
            start: JsonPosition { line: error.span.start.line, column: error.span.start.column },
            end: JsonPosition { line: error.span.end.line, column: error.span.end.column },
        }),
{
    JsonError {
        code: owned(error_code(&error.kind)),
        severity: owned("error"),
        path: copy_string(&error.path),
        message: error_message(error),
        line: error.span.start.line,
        column: error.span.start.column,
        span: json_span(error.span),
    }
}

/// Converts a warning into a report entry.
pub fn to_json_warning(warning: &Warning) -> (r: JsonError)
    ensures
        r.code@ == "field-order"@,
        r.severity@ == "warning"@,
        r.path@ == warning@.path,
        r.message@ == warning_message_of(warning@),
        r.line == warning.span.start.line,
        r.column == warning.span.start.column,
        r.span == (JsonSpan {
            start: JsonPosition { line: warning.span.start.line, column: warning.span.start.column },
            end: JsonPosition { line: warning.span.end.line, column: warning.span.end.column },
        }),
{
    JsonError {
        code: owned(warning_code(&warning.kind)),
        severity: owned("warning"),
        path: copy_string(&warning.path),
        message: warning_message(warning),
        line: warning.span.start.line,
        column: warning.span.start.column,
        span: json_span(warning.span),
    }
}

/// The rustc-style rendering of an error: a header with code and location, the message, the
/// source line, and an underline with its label.
pub open spec fn rendered(e: SpecValidationError, file: Seq<char>, line: SourceLine) -> Seq<char> {
    let n = index_text(line.line_number as int);
    let width: nat = if line.highlight_end > line.highlight_start {
        (line.highlight_end - line.highlight_start) as nat
    } else {
        1
    };
    "error["@ + code_of(e.kind) + "] at "@ + file + ":"@ + index_text(e.span.start.line as int) + ":"@
        + index_text(e.span.start.column as int) + "\n    "@ + message_of(e) + "\n  "@ + n + " │ "@
        + line.line_text@ + "\n  "@ + repeat(' ', n.len()) + " │ "@ + repeat(' ', line.highlight_start as nat)
        + repeat('^', width) + " "@ + label_of(e.kind)
}

/// Formats a single validation error in rustc-style output.
pub fn format_error(error: &ValidationError, source: &str, file_path: &str) -> (r: String)
    requires
        error.span.start.offset <= source.spec_bytes().len(),
        error.span.end.line == error.span.start.line ==> error.span.end.offset >= line_begin(
            source.spec_bytes(),
            error.span.start.offset as int,
        ),
    ensures
        exists|line: SourceLine|
            #![trigger rendered(error@, file_path@, line)]
            line_for(line, source.spec_bytes(), error.span) && r@ == rendered(error@, file_path@, line),
{
    let sl = extract_source_line(source, error.span);
    let mut out = String::new();
    append_str(&mut out, "error[");
    append_str(&mut out, error_code(&error.kind));
    append_str(&mut out, "] at ");
    append_str(&mut out, file_path);
    append_str(&mut out, ":");
    let l = usize_text(error.span.start.line);
    append_str(&mut out, l.as_str());
    append_str(&mut out, ":");
    let c = usize_text(error.span.start.column);
    append_str(&mut out, c.as_str());
    append_str(&mut out, "\n    ");
    let m = error_message(error);
    append_str(&mut out, m.as_str());
    append_str(&mut out, "\n  ");
    let n = usize_text(sl.line_number);
    append_str(&mut out, n.as_str());
    append_str(&mut out, " │ ");
    append_str(&mut out, sl.line_text.as_str());
    append_str(&mut out, "\n  ");
    let nlen = crate::text::chars_of(n.as_str()).len();
    push_repeat(&mut out, ' ', nlen);
    append_str(&mut out, " │ ");
    push_repeat(&mut out, ' ', sl.highlight_start);
    let width = if sl.highlight_end > sl.highlight_start {
        sl.highlight_end - sl.highlight_start
    } else {
        1
    };
    push_repeat(&mut out, '^', width);
    append_str(&mut out, " ");
    let label = underline_label(&error.kind);
    append_str(&mut out, label.as_str());
    assert(out@ =~= rendered(error@, file_path@, sl));
    out
}

/// The rendering of a warning: a header with code and location, then the message.
pub open spec fn rendered_warning(w: SpecWarning, file: Seq<char>) -> Seq<char> {
    "warning["@ + "field-order"@ + "] at "@ + file + ":"@ + index_text(w.span.start.line as int) + ":"@ + index_text(
        w.span.start.column as int,
    ) + "\n    "@ + warning_message_of(w)
}

/// Formats a single warning: its code and location, then its message.
pub fn format_warning(warning: &Warning, file_path: &str) -> (r: String)
    ensures
        r@ == rendered_warning(warning@, file_path@),
{
    let mut out = String::new();
    append_str(&mut out, "warning[");
    append_str(&mut out, warning_code(&warning.kind));
    append_str(&mut out, "] at ");
    append_str(&mut out, file_path);
    append_str(&mut out, ":");
    let l = usize_text(warning.span.start.line);
    append_str(&mut out, l.as_str());
    append_str(&mut out, ":");
    let c = usize_text(warning.span.start.column);
    append_str(&mut out, c.as_str());
    append_str(&mut out, "\n    ");
    let m = warning_message(warning);
    append_str(&mut out, m.as_str());
    assert(out@ =~= rendered_warning(warning@, file_path@));
    out
}

// ===========================================================================
// Reports on whole files
// ===========================================================================

/// The machine-readable results for one data file.
#[derive(Debug, PartialEq, Eq)]
pub struct FileReport {
    pub file: String,
    pub errors: Vec<JsonError>,
    pub warnings: Vec<JsonError>,
}

/// Whether an entry places itself at a span: its line and column are the span's start.
pub open spec fn placed_at(j: JsonError, span: Span) -> bool {
    &&& j.line == span.start.line
    &&& j.column == span.start.column
    &&& j.span == (JsonSpan {
        start: JsonPosition { line: span.start.line, column: span.start.column },
        end: JsonPosition { line: span.end.line, column: span.end.column },
    })
}

/// Whether an entry reports a validation error.
pub open spec fn entry_of_error(j: JsonError, e: SpecValidationError) -> bool {
    &&& j.code@ == code_of(e.kind)
    &&& j.severity@ == "error"@
    &&& j.path@ == e.path
    &&& j.message@ == message_of(e)
    &&& placed_at(j, e.span)
}

/// Whether an entry reports a warning.
pub open spec fn entry_of_warning(j: JsonError, w: SpecWarning) -> bool {
    &&& j.code@ == "field-order"@
    &&& j.severity@ == "warning"@
    &&& j.path@ == w.path
    &&& j.message@ == warning_message_of(w)
    &&& placed_at(j, w.span)
}

/// Whether an entry reports a data file that does not parse.
pub open spec fn entry_of_parse_error(j: JsonError, e: SpecRonParseError) -> bool {
    &&& j.code@ == "parse"@
    &&& j.severity@ == "error"@
    &&& j.path@ == Seq::<char>::empty()
    &&& j.message@ == ron_kind_text(e.kind)
    &&& placed_at(j, e.span)
}

/// The entry for a data file that does not parse.
pub fn parse_error_entry(e: &RonParseError) -> (r: JsonError)
    ensures
        entry_of_parse_error(r, e@),
{
    JsonError {
        code: owned("parse"),
        severity: owned("error"),
        path: String::new(),
        message: ron_kind_string(&e.kind),
        line: e.span.start.line,
        column: e.span.start.column,
        span: json_span(e.span),
    }
}

/// Parses a data file's source and validates it against a schema, giving the file's results:
/// one parse error entry when the source does not parse, else an entry for each validation
/// error and each warning, in the order found.
pub fn check_source(schema: &Schema, source: &str, display_path: &str) -> (r: FileReport)
    requires
        source.spec_bytes().len() < usize::MAX,
    ensures
        r.file@ == display_path@,
        match document(source.spec_bytes()) {
            Err(e) => r.errors@.len() == 1 && entry_of_parse_error(r.errors@[0], e) && r.warnings@.len() == 0,
            Ok(v) => {
                let rep = validation(schema@, v);
                &&& r.errors@.len() == rep.errors.len()
                &&& forall|i: int| 0 <= i < rep.errors.len() ==> entry_of_error(#[trigger] r.errors@[i], rep.errors[i])
                &&& r.warnings@.len() == rep.warnings.len()
                &&& forall|i: int| 0 <= i < rep.warnings.len() ==> entry_of_warning(#[trigger] r.warnings@[i], rep.warnings[i])
            },
        },
{
    let file = owned(display_path);
    let value = match parse_ron(source) {
        Ok(v) => v,
        Err(e) => {
            let entry = parse_error_entry(&e);
            let mut errors: Vec<JsonError> = Vec::new();
            errors.push(entry);
            return FileReport { file, errors, warnings: Vec::new() };
        },
    };
    let result = validate(schema, &value);
    let ghost rep = validation(schema@, value@);
    let mut errors: Vec<JsonError> = Vec::new();
    let mut k: usize = 0;
    while k < result.errors.len()
        invariant
            k <= result.errors@.len(),
            errs_view(result.errors@) == rep.errors,
            errors@.len() == k,
            forall|i: int| 0 <= i < k ==> entry_of_error(#[trigger] errors@[i], rep.errors[i]),
        decreases result.errors@.len() - k,
    {
        let entry = to_json_error(&result.errors[k]);
        assert(rep.errors[k as int] == result.errors@[k as int]@);
        errors.push(entry);
        k = k + 1;
    }
    let mut warnings: Vec<JsonError> = Vec::new();
    let mut j: usize = 0;
    while j < result.warnings.len()
        invariant
            j <= result.warnings@.len(),
            warns_view(result.warnings@) == rep.warnings,
            warnings@.len() == j,
            forall|i: int| 0 <= i < j ==> entry_of_warning(#[trigger] warnings@[i], rep.warnings[i]),
        decreases result.warnings@.len() - j,
    {
        let entry = to_json_warning(&result.warnings[j]);
        assert(rep.warnings[j as int] == result.warnings@[j as int]@);
        warnings.push(entry);
        j = j + 1;
    }
    FileReport { file, errors, warnings }
}

} // verus!
