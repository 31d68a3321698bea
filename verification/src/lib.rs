//! Schema definition and validation for RON (Rusty Object Notation) files.

/// Source location tracking types.
pub mod span;
/// Byte-level scanning facts shared by both parsers, and small string helpers.
pub mod text;
/// Exact decimal numbers.
pub mod number;
/// RON data values and their parser.
pub mod ron;
/// Error and warning types.
pub mod error;
/// Schema types and the schema parser.
pub mod schema;
/// Validation of RON data against a schema.
pub mod validate;
/// Source excerpts for error messages.
pub mod diagnostic;
/// Error messages and report entries.
pub mod report;
/// Schema inference from example data.
pub mod infer;
/// Schemas written back as text.
pub mod format;
/// Import resolution for schema composition.
pub mod resolve;
/// Properties of validation that hold for every schema and every value.
pub mod properties;
/// Formatted schemas read back by the schema parser.
pub mod roundtrip;

pub use span::{Position, Span, Spanned};
pub use schema::{Schema, StructDef, FieldDef, SchemaType, EnumDef, FieldAnnotation, RequireConstraint, CompareOp};
pub use schema::parser::parse_schema;
pub use ron::{RonValue, RonStruct};
pub use ron::parser::parse_ron;
pub use number::Decimal;
pub use validate::validate;
pub use error::{ValidationError, ErrorKind, ValidationResult, Warning, WarningKind, SchemaParseError, SchemaErrorKind, RonParseError, RonErrorKind};
pub use diagnostic::{extract_source_line, SourceLine};
pub use resolve::{SchemaResolver, resolve_imports};
pub use infer::infer_schema;
pub use format::format_schema;
