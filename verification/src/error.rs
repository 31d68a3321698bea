use vstd::prelude::*;
use crate::number::{Decimal, DecimalV};
use crate::span::Span;

verus! {

/// Specific kinds of errors that can occur when parsing a `.ronschema` file.
#[derive(Debug, PartialEq, Eq)]
pub enum SchemaErrorKind {
    /// A type name was not recognized.
    UnknownType { name: String, suggestion: Option<String> },
    /// A type references an enum that is never defined in the schema.
    UnresolvedEnum { name: String },
    /// The same enum name is defined more than once.
    DuplicateEnum { name: String },
    /// The same variant appears more than once within an enum definition.
    DuplicateVariant { enum_name: String, variant: String },
    /// The same field name appears more than once within a struct definition.
    DuplicateField { field_name: String },
    /// The same type alias name is defined more than once.
    DuplicateAlias { name: String },
    /// A type alias references itself, directly or indirectly.
    RecursiveAlias { name: String },
    /// A `PascalCase` name could not be resolved to an enum or type alias.
    UnresolvedType { name: String },
    /// A map key type is not valid (must be `String`, `Integer`, or an enum type).
    InvalidMapKeyType { found: String },
    /// A syntax error: the parser met a token it did not expect.
    UnexpectedToken { expected: String, found: String },
    /// A default value does not match its field's declared type.
    InvalidDefault { field_name: String, expected: String, found: String },
    /// An import path could not be loaded.
    UnresolvedImport { path: String, reason: String },
    /// An import chain leads back to a schema that is already being imported.
    CircularImport { path: String },
    /// An imported schema failed to parse.
    ImportParseError { path: String, inner: Box<SchemaErrorKind> },
    /// An imported type name collides with one already defined.
    ImportNameCollision { name: String, import_path: String },
}

/// Specific kinds of errors that can occur when parsing a `.ron` data file.
#[derive(Debug, PartialEq, Eq)]
pub enum RonErrorKind {
    /// A syntax error: the parser met a token it did not expect.
    UnexpectedToken { expected: String, found: String },
    /// A string literal is missing its closing quote.
    UnterminatedString,
    /// The same field name appears more than once within a struct.
    DuplicateField { field_name: String },
    /// A numeric literal could not be parsed as a valid number.
    InvalidNumber { text: String },
}

/// Specific kinds of validation errors produced when RON data does not match a schema.
#[derive(Debug, PartialEq, Eq)]
pub enum ErrorKind {
    /// A required field defined in the schema is absent from the data.
    MissingField { field_name: String },
    /// The data contains a field not defined in the schema.
    UnknownField { field_name: String },
    /// A value exists but has the wrong type.
    TypeMismatch { expected: String, found: String },
    /// A bare identifier does not match any variant of the expected enum.
    InvalidEnumVariant { enum_name: String, variant: String, valid: Vec<String> },
    /// The value inside `Some(...)` has the wrong type.
    InvalidOptionValue { expected: String, found: String },
    /// A list element has the wrong type.
    InvalidListElement { index: usize, expected: String, found: String },
    /// Expected a struct `(...)` but found a non-struct value.
    ExpectedStruct { found: String },
    /// Expected a list `[...]` but found a non-list value.
    ExpectedList { found: String },
    /// Expected `Some(...)` or `None` but found something else.
    ExpectedOption { found: String },
    /// Expected a map `{ ... }` but found a non-map value.
    ExpectedMap { found: String },
    /// A map key has the wrong type.
    InvalidMapKey { key: String, expected: String, found: String },
    /// A map value has the wrong type.
    InvalidMapValue { key: String, expected: String, found: String },
    /// An enum variant's data does not fit: data where none is expected, or none where some is.
    InvalidVariantData { enum_name: String, variant: String, expected: String, found: String },
    /// Expected a tuple `(...)` but found a non-tuple value.
    ExpectedTuple { found: String },
    /// A tuple has the wrong number of elements.
    TupleLengthMismatch { expected: usize, found: usize },
    /// A tuple element has the wrong type.
    InvalidTupleElement { index: usize, expected: String, found: String },
    /// A numeric value lies outside an `@range(min, max)` annotation.
    ValueOutOfRange { field_name: String, min: Decimal, max: Decimal, found: Decimal },
    /// A string or list is shorter than its `@min_length(n)` annotation.
    LengthTooShort { field_name: String, min: usize, found: usize },
    /// A string or list is longer than its `@max_length(n)` annotation.
    LengthTooLong { field_name: String, max: usize, found: usize },
    /// A string does not match its `@pattern("...")` annotation.
    PatternMismatch { field_name: String, pattern: String },
    /// A `@require(a op b)` constraint does not hold.
    CrossFieldViolation { constraint: String },
    /// A type that the schema names cannot be resolved: an enum it does not define, or an alias
    /// that leads back to itself.
    UnresolvedType { name: String },
}

/// Kinds of informational warnings produced during validation.
#[derive(Debug, PartialEq, Eq)]
pub enum WarningKind {
    /// A data field appears before a field that the schema declares ahead of it.
    FieldOrderMismatch { field_name: String, expected_after: String },
}

/// An error produced when parsing a `.ronschema` file fails.
#[derive(Debug, PartialEq, Eq)]
pub struct SchemaParseError {
    /// Source location where the error occurred.
    pub span: Span,
    /// What went wrong.
    pub kind: SchemaErrorKind,
}

/// An error produced when parsing a `.ron` data file fails.
#[derive(Debug, PartialEq, Eq)]
pub struct RonParseError {
    /// Source location where the error occurred.
    pub span: Span,
    /// What went wrong.
    pub kind: RonErrorKind,
}

/// An error produced when RON data does not conform to a schema.
#[derive(Debug, PartialEq, Eq)]
pub struct ValidationError {
    /// Dot/bracket field path to the problematic value (e.g., `"cost.generic"`).
    pub path: String,
    /// Source location of the problematic value in the data file.
    pub span: Span,
    /// What went wrong.
    pub kind: ErrorKind,
}

/// A warning produced when RON data is valid but unusual.
#[derive(Debug, PartialEq, Eq)]
pub struct Warning {
    /// Field path of the value the warning is about.
    pub path: String,
    /// Source location in the data file.
    pub span: Span,
    /// What the warning is about.
    pub kind: WarningKind,
}

/// Everything validation found: errors (the data is valid iff there are none) and warnings.
#[derive(Debug, PartialEq, Eq)]
pub struct ValidationResult {
    /// All validation errors, in the order they were found.
    pub errors: Vec<ValidationError>,
    /// All warnings, in the order they were found.
    pub warnings: Vec<Warning>,
}

// ---------------------------------------------------------------------------
// Mathematical content
// ---------------------------------------------------------------------------

pub enum SpecSchemaErrorKind {
    UnknownType { name: Seq<char>, suggestion: Option<Seq<char>> },
    UnresolvedEnum { name: Seq<char> },
    DuplicateEnum { name: Seq<char> },
    DuplicateVariant { enum_name: Seq<char>, variant: Seq<char> },
    DuplicateField { field_name: Seq<char> },
    DuplicateAlias { name: Seq<char> },
    RecursiveAlias { name: Seq<char> },
    UnresolvedType { name: Seq<char> },
    InvalidMapKeyType { found: Seq<char> },
    UnexpectedToken { expected: Seq<char>, found: Seq<char> },
    InvalidDefault { field_name: Seq<char>, expected: Seq<char>, found: Seq<char> },
    UnresolvedImport { path: Seq<char>, reason: Seq<char> },
    CircularImport { path: Seq<char> },
    ImportParseError { path: Seq<char>, inner: Box<SpecSchemaErrorKind> },
    ImportNameCollision { name: Seq<char>, import_path: Seq<char> },
}

pub enum SpecRonErrorKind {
    UnexpectedToken { expected: Seq<char>, found: Seq<char> },
    UnterminatedString,
    DuplicateField { field_name: Seq<char> },
    InvalidNumber { text: Seq<char> },
}

pub enum SpecErrorKind {
    MissingField { field_name: Seq<char> },
    UnknownField { field_name: Seq<char> },
    TypeMismatch { expected: Seq<char>, found: Seq<char> },
    InvalidEnumVariant { enum_name: Seq<char>, variant: Seq<char>, valid: Seq<Seq<char>> },
    InvalidOptionValue { expected: Seq<char>, found: Seq<char> },
    InvalidListElement { index: usize, expected: Seq<char>, found: Seq<char> },
    ExpectedStruct { found: Seq<char> },
    ExpectedList { found: Seq<char> },
    ExpectedOption { found: Seq<char> },
    ExpectedMap { found: Seq<char> },
    InvalidMapKey { key: Seq<char>, expected: Seq<char>, found: Seq<char> },
    InvalidMapValue { key: Seq<char>, expected: Seq<char>, found: Seq<char> },
    InvalidVariantData {
        enum_name: Seq<char>,
        variant: Seq<char>,
        expected: Seq<char>,
        found: Seq<char>,
    },
    ExpectedTuple { found: Seq<char> },
    TupleLengthMismatch { expected: usize, found: usize },
    InvalidTupleElement { index: usize, expected: Seq<char>, found: Seq<char> },
    ValueOutOfRange { field_name: Seq<char>, min: DecimalV, max: DecimalV, found: DecimalV },
    LengthTooShort { field_name: Seq<char>, min: usize, found: usize },
    LengthTooLong { field_name: Seq<char>, max: usize, found: usize },
    PatternMismatch { field_name: Seq<char>, pattern: Seq<char> },
    CrossFieldViolation { constraint: Seq<char> },
    UnresolvedType { name: Seq<char> },
}

pub enum SpecWarningKind {
    FieldOrderMismatch { field_name: Seq<char>, expected_after: Seq<char> },
}

pub struct SpecSchemaParseError {
    pub span: Span,
    pub kind: SpecSchemaErrorKind,
}

pub struct SpecRonParseError {
    pub span: Span,
    pub kind: SpecRonErrorKind,
}

pub struct SpecValidationError {
    pub path: Seq<char>,
    pub span: Span,
    pub kind: SpecErrorKind,
}

pub struct SpecWarning {
    pub path: Seq<char>,
    pub span: Span,
    pub kind: SpecWarningKind,
}

pub open spec fn option_string_view(o: Option<String>) -> Option<Seq<char>> {
    match o {
        Some(s) => Some(s@),
        None => None,
    }
}

pub open spec fn strings_view(v: Seq<String>) -> Seq<Seq<char>> {
    v.map_values(|s: String| s@)
}

impl View for SchemaErrorKind {
    type V = SpecSchemaErrorKind;

    open spec fn view(&self) -> SpecSchemaErrorKind
        decreases self,
    {
        match self {
            SchemaErrorKind::UnknownType { name, suggestion } => SpecSchemaErrorKind::UnknownType {
                name: name@,
                suggestion: option_string_view(*suggestion),
            },
            SchemaErrorKind::UnresolvedEnum { name } => SpecSchemaErrorKind::UnresolvedEnum {
                name: name@,
            },
            SchemaErrorKind::DuplicateEnum { name } => SpecSchemaErrorKind::DuplicateEnum {
                name: name@,
            },
            SchemaErrorKind::DuplicateVariant { enum_name, variant } =>
                SpecSchemaErrorKind::DuplicateVariant { enum_name: enum_name@, variant: variant@ },
            SchemaErrorKind::DuplicateField { field_name } => SpecSchemaErrorKind::DuplicateField {
                field_name: field_name@,
            },
            SchemaErrorKind::DuplicateAlias { name } => SpecSchemaErrorKind::DuplicateAlias {
                name: name@,
            },
            SchemaErrorKind::RecursiveAlias { name } => SpecSchemaErrorKind::RecursiveAlias {
                name: name@,
            },
            SchemaErrorKind::UnresolvedType { name } => SpecSchemaErrorKind::UnresolvedType {
                name: name@,
            },
            SchemaErrorKind::InvalidMapKeyType { found } =>
                SpecSchemaErrorKind::InvalidMapKeyType { found: found@ },
            SchemaErrorKind::UnexpectedToken { expected, found } =>
                SpecSchemaErrorKind::UnexpectedToken { expected: expected@, found: found@ },
            SchemaErrorKind::InvalidDefault { field_name, expected, found } =>
                SpecSchemaErrorKind::InvalidDefault {
                    field_name: field_name@,
                    expected: expected@,
                    found: found@,
                },
            SchemaErrorKind::UnresolvedImport { path, reason } =>
                SpecSchemaErrorKind::UnresolvedImport { path: path@, reason: reason@ },
            SchemaErrorKind::CircularImport { path } => SpecSchemaErrorKind::CircularImport {
                path: path@,
            },
            SchemaErrorKind::ImportParseError { path, inner } =>
                SpecSchemaErrorKind::ImportParseError {
                    path: path@,
                    inner: Box::new((**inner).view()),
                },
            SchemaErrorKind::ImportNameCollision { name, import_path } =>
                SpecSchemaErrorKind::ImportNameCollision { name: name@, import_path: import_path@ },
        }
    }
}

impl View for RonErrorKind {
    type V = SpecRonErrorKind;

    open spec fn view(&self) -> SpecRonErrorKind {
        match self {
            RonErrorKind::UnexpectedToken { expected, found } => SpecRonErrorKind::UnexpectedToken {
                expected: expected@,
                found: found@,
            },
            RonErrorKind::UnterminatedString => SpecRonErrorKind::UnterminatedString,
            RonErrorKind::DuplicateField { field_name } => SpecRonErrorKind::DuplicateField {
                field_name: field_name@,
            },
            RonErrorKind::InvalidNumber { text } => SpecRonErrorKind::InvalidNumber { text: text@ },
        }
    }
}

impl View for ErrorKind {
    type V = SpecErrorKind;

    open spec fn view(&self) -> SpecErrorKind {
        match self {
            ErrorKind::MissingField { field_name } => SpecErrorKind::MissingField {
                field_name: field_name@,
            },
            ErrorKind::UnknownField { field_name } => SpecErrorKind::UnknownField {
                field_name: field_name@,
            },
            ErrorKind::TypeMismatch { expected, found } => SpecErrorKind::TypeMismatch {
                expected: expected@,
                found: found@,
            },
            ErrorKind::InvalidEnumVariant { enum_name, variant, valid } =>
                SpecErrorKind::InvalidEnumVariant {
                    enum_name: enum_name@,
                    variant: variant@,
                    valid: strings_view(valid@),
                },
            ErrorKind::InvalidOptionValue { expected, found } => SpecErrorKind::InvalidOptionValue {
                expected: expected@,
                found: found@,
            },
            ErrorKind::InvalidListElement { index, expected, found } =>
                SpecErrorKind::InvalidListElement { index: *index, expected: expected@, found: found@ },
            ErrorKind::ExpectedStruct { found } => SpecErrorKind::ExpectedStruct { found: found@ },
            ErrorKind::ExpectedList { found } => SpecErrorKind::ExpectedList { found: found@ },
            ErrorKind::ExpectedOption { found } => SpecErrorKind::ExpectedOption { found: found@ },
            ErrorKind::ExpectedMap { found } => SpecErrorKind::ExpectedMap { found: found@ },
            ErrorKind::InvalidMapKey { key, expected, found } => SpecErrorKind::InvalidMapKey {
                key: key@,
                expected: expected@,
                found: found@,
            },
            ErrorKind::InvalidMapValue { key, expected, found } => SpecErrorKind::InvalidMapValue {
                key: key@,
                expected: expected@,
                found: found@,
            },
            ErrorKind::InvalidVariantData { enum_name, variant, expected, found } =>
                SpecErrorKind::InvalidVariantData {
                    enum_name: enum_name@,
                    variant: variant@,
                    expected: expected@,
                    found: found@,
                },
            ErrorKind::ExpectedTuple { found } => SpecErrorKind::ExpectedTuple { found: found@ },
            ErrorKind::TupleLengthMismatch { expected, found } =>
                SpecErrorKind::TupleLengthMismatch { expected: *expected, found: *found },
            ErrorKind::InvalidTupleElement { index, expected, found } =>
                SpecErrorKind::InvalidTupleElement { index: *index, expected: expected@, found: found@ },
            ErrorKind::ValueOutOfRange { field_name, min, max, found } =>
                SpecErrorKind::ValueOutOfRange {
                    field_name: field_name@,
                    min: min@,
                    max: max@,
                    found: found@,
                },
            ErrorKind::LengthTooShort { field_name, min, found } => SpecErrorKind::LengthTooShort {
                field_name: field_name@,
                min: *min,
                found: *found,
            },
            ErrorKind::LengthTooLong { field_name, max, found } => SpecErrorKind::LengthTooLong {
                field_name: field_name@,
                max: *max,
                found: *found,
            },
            ErrorKind::PatternMismatch { field_name, pattern } => SpecErrorKind::PatternMismatch {
                field_name: field_name@,
                pattern: pattern@,
            },
            ErrorKind::CrossFieldViolation { constraint } => SpecErrorKind::CrossFieldViolation {
                constraint: constraint@,
            },
            ErrorKind::UnresolvedType { name } => SpecErrorKind::UnresolvedType {
                name: name@,
            },
        }
    }
}

impl View for WarningKind {
    type V = SpecWarningKind;

    open spec fn view(&self) -> SpecWarningKind {
        match self {
            WarningKind::FieldOrderMismatch { field_name, expected_after } =>
                SpecWarningKind::FieldOrderMismatch {
                    field_name: field_name@,
                    expected_after: expected_after@,
                },
        }
    }
}

impl View for SchemaParseError {
    type V = SpecSchemaParseError;

    open spec fn view(&self) -> SpecSchemaParseError {
        SpecSchemaParseError { span: self.span, kind: self.kind@ }
    }
}

impl View for RonParseError {
    type V = SpecRonParseError;

    open spec fn view(&self) -> SpecRonParseError {
        SpecRonParseError { span: self.span, kind: self.kind@ }
    }
}

impl View for ValidationError {
    type V = SpecValidationError;

    open spec fn view(&self) -> SpecValidationError {
        SpecValidationError { path: self.path@, span: self.span, kind: self.kind@ }
    }
}

impl View for Warning {
    type V = SpecWarning;

    open spec fn view(&self) -> SpecWarning {
        SpecWarning { path: self.path@, span: self.span, kind: self.kind@ }
    }
}

} // verus!
