use vstd::prelude::*;
use vstd::utf8::{encode_utf8, decode_utf8, is_char_boundary};
use crate::error::{SpecErrorKind, SpecValidationError, SpecWarning, SpecWarningKind};
use crate::number::{DecimalV, decimal_of_int, decimal_order, decimal_text};
use crate::ron::{SpecRonValue, SpecRonStruct};
use crate::schema::{CompareOp, SpecEnumDef, SpecFieldAnnotation, SpecFieldDef, SpecRequire, SpecSchema, SpecSchemaType, SpecStructDef};
use crate::schema::check::{SpecAliases, find_alias, find_enum, find_variant, int_text, lookup_enum, lookup_variant, lookup_alias};
use crate::schema::{enums_view, aliases_view};
use crate::span::{Span, Spanned};
use crate::error::{ErrorKind, ValidationError, ValidationResult, Warning, WarningKind, strings_view};
use crate::number::Decimal;
use crate::ron::RonValue;
use crate::schema::{EnumDef, FieldAnnotation, FieldDef, RequireConstraint, Schema, SchemaType, StructDef, variants_view};
use crate::text::{append_str, copy_string, owned, str_eq};
use vstd::string::{StringSliceAdditionalSpecFns, StrSliceExecFns};

verus! {

// ===========================================================================
// Names for what the regular-expression crate computes
// ===========================================================================

/// Whether `regex::Regex::new` accepts the pattern (on the target this crate is built for).
pub uninterp spec fn regex_is_valid(pattern: Seq<char>) -> bool;

/// Whether the compiled pattern matches somewhere in the text (`regex::Regex::is_match`).
pub uninterp spec fn regex_matches(pattern: Seq<char>, text: Seq<char>) -> bool;

#[verifier::external_type_specification]
#[verifier::external_body]
pub struct ExRegex(regex::Regex);

/// A regular expression compiled from a pattern, together with that pattern.
pub struct CompiledPattern {
    regex: regex::Regex,
    pattern: Ghost<Seq<char>>,
}

impl View for CompiledPattern {
    type V = Seq<char>;

    closed spec fn view(&self) -> Seq<char> {
        self.pattern@
    }
}

/// Compiles a pattern with `regex::Regex::new`. Trusted: the call succeeds exactly when
/// [`regex_is_valid`] holds of the pattern, and the compiled value remembers the pattern. The
/// answer depends on the pattern's syntax and on the crate's default size limit, which is
/// measured in the sizes of the crate's internal types: it is fixed for one build, but a pattern
/// close to the limit may compile on a 32-bit target and not on a 64-bit one.
#[verifier::external_body]
fn compile_pattern(pattern: &str) -> (r: Option<CompiledPattern>)
    ensures
        r is Some <==> regex_is_valid(pattern@),
        r is Some ==> r->0@ == pattern@,
{
    match regex::Regex::new(pattern) {
        Ok(regex) => Some(CompiledPattern { regex, pattern: Ghost(pattern@) }),
        Err(_) => None,
    }
}

/// Whether a compiled pattern matches somewhere in `text`, by `regex::Regex::is_match`.
/// Trusted: the answer is [`regex_matches`] of the pattern and the text.
#[verifier::external_body]
fn pattern_matches(re: &CompiledPattern, text: &str) -> (r: bool)
    ensures
        r == regex_matches(re@, text@),
{
    re.regex.is_match(text)
}

// ===========================================================================
// Reports
// ===========================================================================

/// What validating a value produces: errors and warnings in the order found.
pub struct Report {
    pub errors: Seq<SpecValidationError>,
    pub warnings: Seq<SpecWarning>,
}

pub open spec fn no_report() -> Report {
    Report { errors: Seq::empty(), warnings: Seq::empty() }
}

pub open spec fn join(a: Report, b: Report) -> Report {
    Report { errors: a.errors + b.errors, warnings: a.warnings + b.warnings }
}

pub open spec fn error_report(path: Seq<char>, span: Span, kind: SpecErrorKind) -> Report {
    Report { errors: seq![SpecValidationError { path, span, kind }], warnings: Seq::empty() }
}

/// An error as reported at an alias named `name`: a type mismatch about exactly the value at
/// `path` and `span` names the alias as the expected type; any other error is kept.
pub open spec fn named_as(e: SpecValidationError, path: Seq<char>, span: Span, name: Seq<char>) -> SpecValidationError {
    match e.kind {
        SpecErrorKind::TypeMismatch { expected: _, found } => if e.path == path && e.span == span {
            SpecValidationError { path: e.path, span: e.span, kind: SpecErrorKind::TypeMismatch { expected: name, found } }
        } else {
            e
        },
        _ => e,
    }
}

/// Errors as reported at an alias named `name` (see [`named_as`]).
pub open spec fn named_all(es: Seq<SpecValidationError>, path: Seq<char>, span: Span, name: Seq<char>) -> Seq<SpecValidationError> {
    es.map_values(|e: SpecValidationError| named_as(e, path, span, name))
}

/// A report as seen at an alias named `name` (see [`named_as`]).
pub open spec fn name_report(r: Report, path: Seq<char>, span: Span, name: Seq<char>) -> Report {
    Report { errors: named_all(r.errors, path, span, name), warnings: r.warnings }
}

pub open spec fn warnings_report(ws: Seq<SpecWarning>) -> Report {
    Report { errors: Seq::empty(), warnings: ws }
}

// ===========================================================================
// Texts
// ===========================================================================

/// The UTF-8 bytes of a string.
pub open spec fn utf8(s: Seq<char>) -> Seq<u8> {
    encode_utf8(s)
}

/// A value as written in an error message; a string longer than twenty characters is shown by
/// its first twenty characters and `...`.
pub open spec fn describe(v: SpecRonValue) -> Seq<char> {
    match v {
        SpecRonValue::String(s) => if s.len() > 20 {
            "String(\""@ + s.subrange(0, 20) + "...\")"@
        } else {
            "String(\""@ + s + "\")"@
        },
        SpecRonValue::Integer(n) => "Integer("@ + int_text(n) + ")"@,
        SpecRonValue::Float(d) => "Float("@ + decimal_text(d) + ")"@,
        SpecRonValue::Bool(b) => if b {
            "Bool(true)"@
        } else {
            "Bool(false)"@
        },
        SpecRonValue::Option(_) => "Option"@,
        SpecRonValue::Identifier(s) => "Identifier("@ + s + ")"@,
        SpecRonValue::EnumVariant(n, _) => n + "(...)"@,
        SpecRonValue::List(_) => "List"@,
        SpecRonValue::Dict(_) => "Map"@,
        SpecRonValue::Tuple(_) => "Tuple"@,
        SpecRonValue::Struct(_) => "Struct"@,
    }
}

/// A field path: the field name at the root, else the parent path, a dot and the name.
pub open spec fn path_to(parent: Seq<char>, field: Seq<char>) -> Seq<char> {
    if parent.len() == 0 {
        field
    } else {
        parent + "."@ + field
    }
}

/// The decimal text of an index.
pub open spec fn index_text(k: int) -> Seq<char> {
    decimal_text(decimal_of_int(k))
}

/// The names of an enum's variants, in order.
pub open spec fn variant_names(vs: Seq<(Seq<char>, Option<SpecSchemaType>)>) -> Seq<Seq<char>> {
    vs.map_values(|v: (Seq<char>, Option<SpecSchemaType>)| v.0)
}

// ===========================================================================
// Types
// ===========================================================================

/// Validating value `v` against type `t` at `path`; `fuel` bounds the chain of aliases followed
/// without descending into the value.
pub open spec fn check_type(
    t: SpecSchemaType,
    v: Spanned<SpecRonValue>,
    path: Seq<char>,
    enums: Seq<SpecEnumDef>,
    aliases: SpecAliases,
    fuel: nat,
) -> Report
    decreases v, fuel, 1int,
{
    let fresh = aliases.len();
    match t {
        SpecSchemaType::String => if v.value is String {
            no_report()
        } else {
            error_report(path, v.span, SpecErrorKind::TypeMismatch { expected: "String"@, found: describe(v.value) })
        },
        SpecSchemaType::Integer => if v.value is Integer {
            no_report()
        } else {
            error_report(path, v.span, SpecErrorKind::TypeMismatch { expected: "Integer"@, found: describe(v.value) })
        },
        SpecSchemaType::Float => if v.value is Float {
            no_report()
        } else {
            error_report(path, v.span, SpecErrorKind::TypeMismatch { expected: "Float"@, found: describe(v.value) })
        },
        SpecSchemaType::Bool => if v.value is Bool {
            no_report()
        } else {
            error_report(path, v.span, SpecErrorKind::TypeMismatch { expected: "Bool"@, found: describe(v.value) })
        },
        SpecSchemaType::Option(inner) => match v.value {
            SpecRonValue::Option(None) => no_report(),
            SpecRonValue::Option(Some(iv)) => check_type(*inner, *iv, path, enums, aliases, fresh),
            _ => error_report(path, v.span, SpecErrorKind::ExpectedOption { found: describe(v.value) }),
        },
        SpecSchemaType::List(et) => match v.value {
            SpecRonValue::List(els) => check_list(*et, els, 0, path, enums, aliases),
            _ => error_report(path, v.span, SpecErrorKind::ExpectedList { found: describe(v.value) }),
        },
        SpecSchemaType::EnumRef(en) => match find_enum(enums, en, 0) {
            None => error_report(path, v.span, SpecErrorKind::UnresolvedType { name: en }),
            Some(e) => match v.value {
                SpecRonValue::Identifier(var) => match find_variant(e.variants, var, 0) {
                    None => error_report(path, v.span, SpecErrorKind::InvalidEnumVariant {
                        enum_name: en,
                        variant: var,
                        valid: variant_names(e.variants),
                    }),
                    Some(Some(_)) => error_report(path, v.span, SpecErrorKind::InvalidVariantData {
                        enum_name: en,
                        variant: var,
                        expected: "data"@,
                        found: "unit variant"@,
                    }),
                    Some(None) => no_report(),
                },
                SpecRonValue::EnumVariant(var, data) => match find_variant(e.variants, var, 0) {
                    None => error_report(path, v.span, SpecErrorKind::InvalidEnumVariant {
                        enum_name: en,
                        variant: var,
                        valid: variant_names(e.variants),
                    }),
                    Some(None) => error_report(path, v.span, SpecErrorKind::InvalidVariantData {
                        enum_name: en,
                        variant: var,
                        expected: "unit variant"@,
                        found: describe(data.value),
                    }),
                    Some(Some(dt)) => check_type(dt, *data, path, enums, aliases, fresh),
                },
                _ => error_report(path, v.span, SpecErrorKind::TypeMismatch { expected: en, found: describe(v.value) }),
            },
        },
        SpecSchemaType::Dict(kt, vt) => match v.value {
            SpecRonValue::Dict(entries) => check_entries(*kt, *vt, entries, 0, path, enums, aliases),
            _ => error_report(path, v.span, SpecErrorKind::ExpectedMap { found: describe(v.value) }),
        },
        SpecSchemaType::Tuple(ts) => match v.value {
            SpecRonValue::Tuple(els) => if els.len() == ts.len() {
                check_tuple(ts, els, 0, path, enums, aliases)
            } else {
                error_report(path, v.span, SpecErrorKind::TupleLengthMismatch { expected: ts.len() as usize, found: els.len() as usize })
            },
            _ => error_report(path, v.span, SpecErrorKind::ExpectedTuple { found: describe(v.value) }),
        },
        SpecSchemaType::AliasRef(n) => match find_alias(aliases, n, 0) {
            None => no_report(),
            Some(target) => if fuel == 0 {
                error_report(path, v.span, SpecErrorKind::UnresolvedType { name: n })
            } else {
                name_report(check_type(target.value, v, path, enums, aliases, (fuel - 1) as nat), path, v.span, n)
            },
        },
        SpecSchemaType::Struct(sd) => check_struct(sd, v, path, enums, aliases),
    }
}

/// Validating the list elements from index `k` on, at paths `path[i]`.
pub open spec fn check_list(
    et: SpecSchemaType,
    els: Seq<Spanned<SpecRonValue>>,
    k: int,
    path: Seq<char>,
    enums: Seq<SpecEnumDef>,
    aliases: SpecAliases,
) -> Report
    decreases els, els.len() - k, 0int,
{
    if k < 0 || k >= els.len() {
        no_report()
    } else {
        join(
            check_type(et, els[k], path + "["@ + index_text(k) + "]"@, enums, aliases, aliases.len()),
            check_list(et, els, k + 1, path, enums, aliases),
        )
    }
}

/// Validating the tuple elements from index `k` on, at paths `path.i`.
pub open spec fn check_tuple(
    ts: Seq<SpecSchemaType>,
    els: Seq<Spanned<SpecRonValue>>,
    k: int,
    path: Seq<char>,
    enums: Seq<SpecEnumDef>,
    aliases: SpecAliases,
) -> Report
    decreases els, els.len() - k, 0int,
{
    if k < 0 || k >= els.len() || k >= ts.len() {
        no_report()
    } else {
        join(
            check_type(ts[k], els[k], path + "."@ + index_text(k), enums, aliases, aliases.len()),
            check_tuple(ts, els, k + 1, path, enums, aliases),
        )
    }
}

/// Validating the map entries from index `k` on: each key at `path`, each value at
/// `path[key]` with the key described.
pub open spec fn check_entries(
    kt: SpecSchemaType,
    vt: SpecSchemaType,
    entries: Seq<(Spanned<SpecRonValue>, Spanned<SpecRonValue>)>,
    k: int,
    path: Seq<char>,
    enums: Seq<SpecEnumDef>,
    aliases: SpecAliases,
) -> Report
    decreases entries, entries.len() - k, 0int,
{
    if k < 0 || k >= entries.len() {
        no_report()
    } else {
        let key = entries[k].0;
        let here = join(
            check_type(kt, key, path, enums, aliases, aliases.len()),
            check_type(vt, entries[k].1, path + "["@ + describe(key.value) + "]"@, enums, aliases, aliases.len()),
        );
        join(
            here,
            check_entries(kt, vt, entries, k + 1, path, enums, aliases),
        )
    }
}

// ===========================================================================
// Structs
// ===========================================================================

/// The index of the last data field among the first `k` with the given name, or -1.
pub open spec fn data_index(fs: Seq<(Spanned<Seq<char>>, Spanned<SpecRonValue>)>, name: Seq<char>, k: int) -> int
    decreases k,
{
    if k <= 0 || k > fs.len() {
        -1
    } else if fs[k - 1].0.value == name {
        k - 1
    } else {
        data_index(fs, name, k - 1)
    }
}

/// The index of the first schema field with the given name, or -1.
pub open spec fn schema_index(fs: Seq<SpecFieldDef>, name: Seq<char>, k: int) -> int
    decreases fs.len() - k,
{
    if k < 0 || k >= fs.len() {
        -1
    } else if fs[k].name.value == name {
        k
    } else {
        schema_index(fs, name, k + 1)
    }
}

/// Validating a struct value against a struct definition: missing fields, unknown fields, the
/// fields present in both (with their annotations), the order of the data fields, and the
/// cross-field constraints.
pub open spec fn check_struct(
    sd: SpecStructDef,
    v: Spanned<SpecRonValue>,
    path: Seq<char>,
    enums: Seq<SpecEnumDef>,
    aliases: SpecAliases,
) -> Report
    decreases v, 0nat, 0int,
{
    match v.value {
        SpecRonValue::Struct(ds) => join(
            join(
                join(
                    missing_fields(sd.fields, ds.fields, 0, path, ds.close_span),
                    unknown_fields(ds.fields, sd.fields, 0, path),
                ),
                matching_fields(sd.fields, ds.fields, 0, path, enums, aliases),
            ),
            join(
                warnings_report(order_warnings(ds.fields, sd.fields, 0, 0, path)),
                require_report(sd.annotations, 0, sd.fields, ds.fields, path, v.span),
            ),
        ),
        _ => error_report(path, v.span, SpecErrorKind::ExpectedStruct { found: describe(v.value) }),
    }
}

/// Schema fields from index `k` on that have no data field and no default.
pub open spec fn missing_fields(
    sfs: Seq<SpecFieldDef>,
    dfs: Seq<(Spanned<Seq<char>>, Spanned<SpecRonValue>)>,
    k: int,
    path: Seq<char>,
    close: Span,
) -> Report
    decreases sfs.len() - k,
{
    if k < 0 || k >= sfs.len() {
        no_report()
    } else {
        let name = sfs[k].name.value;
        let here = if data_index(dfs, name, dfs.len() as int) < 0 && sfs[k].default is None {
            error_report(path_to(path, name), close, SpecErrorKind::MissingField { field_name: name })
        } else {
            no_report()
        };
        join(here, missing_fields(sfs, dfs, k + 1, path, close))
    }
}

/// Data fields from index `k` on that the schema does not declare.
pub open spec fn unknown_fields(
    dfs: Seq<(Spanned<Seq<char>>, Spanned<SpecRonValue>)>,
    sfs: Seq<SpecFieldDef>,
    k: int,
    path: Seq<char>,
) -> Report
    decreases dfs.len() - k,
{
    if k < 0 || k >= dfs.len() {
        no_report()
    } else {
        let name = dfs[k].0;
        let here = if schema_index(sfs, name.value, 0) < 0 {
            error_report(path_to(path, name.value), name.span, SpecErrorKind::UnknownField { field_name: name.value })
        } else {
            no_report()
        };
        join(here, unknown_fields(dfs, sfs, k + 1, path))
    }
}

/// The schema fields from index `k` on that have data: each value validated against the
/// field's type, then against the field's annotations.
pub open spec fn matching_fields(
    sfs: Seq<SpecFieldDef>,
    dfs: Seq<(Spanned<Seq<char>>, Spanned<SpecRonValue>)>,
    k: int,
    path: Seq<char>,
    enums: Seq<SpecEnumDef>,
    aliases: SpecAliases,
) -> Report
    decreases dfs, sfs.len() - k, 0int,
{
    if k < 0 || k >= sfs.len() {
        no_report()
    } else {
        let f = sfs[k];
        let j = data_index(dfs, f.name.value, dfs.len() as int);
        let here = if 0 <= j < dfs.len() {
            let fp = path_to(path, f.name.value);
            let typed = check_type(f.type_.value, dfs[j].1, fp, enums, aliases, aliases.len());
            if typed.errors.len() == 0 {
                join(typed, annotations_report(f.annotations, 0, fp, dfs[j].1))
            } else {
                typed
            }
        } else {
            no_report()
        };
        join(here, matching_fields(sfs, dfs, k + 1, path, enums, aliases))
    }
}

/// The number a value stands for, when it is an integer or a float.
pub open spec fn numeric(v: SpecRonValue) -> Option<DecimalV> {
    match v {
        SpecRonValue::Integer(n) => Some(decimal_of_int(n as int)),
        SpecRonValue::Float(d) => Some(d),
        _ => None,
    }
}

/// The length of a value, when it is a string (in bytes) or a list.
pub open spec fn length_of(v: SpecRonValue) -> Option<nat> {
    match v {
        SpecRonValue::String(s) => Some(utf8(s).len()),
        SpecRonValue::List(items) => Some(items.len()),
        _ => None,
    }
}

/// The errors of one annotation on a field's value.
pub open spec fn annotation_errors(a: SpecFieldAnnotation, fp: Seq<char>, dv: Spanned<SpecRonValue>) -> Report {
    match a {
        SpecFieldAnnotation::Range(min, max) => match numeric(dv.value) {
            Some(x) => if decimal_order(x, min) < 0 || decimal_order(x, max) > 0 {
                error_report(fp, dv.span, SpecErrorKind::ValueOutOfRange { field_name: fp, min, max, found: x })
            } else {
                no_report()
            },
            None => no_report(),
        },
        SpecFieldAnnotation::MinLength(m) => match length_of(dv.value) {
            Some(l) => if l < m {
                error_report(fp, dv.span, SpecErrorKind::LengthTooShort { field_name: fp, min: m, found: l as usize })
            } else {
                no_report()
            },
            None => no_report(),
        },
        SpecFieldAnnotation::MaxLength(m) => match length_of(dv.value) {
            Some(l) => if l > m {
                error_report(fp, dv.span, SpecErrorKind::LengthTooLong { field_name: fp, max: m, found: l as usize })
            } else {
                no_report()
            },
            None => no_report(),
        },
        SpecFieldAnnotation::Pattern(p) => match dv.value {
            SpecRonValue::String(s) => if regex_is_valid(p) && !regex_matches(p, s) {
                error_report(fp, dv.span, SpecErrorKind::PatternMismatch { field_name: fp, pattern: p })
            } else {
                no_report()
            },
            _ => no_report(),
        },
    }
}

/// The errors of the annotations from index `k` on.
pub open spec fn annotations_report(anns: Seq<Spanned<SpecFieldAnnotation>>, k: int, fp: Seq<char>, dv: Spanned<SpecRonValue>) -> Report
    decreases anns.len() - k,
{
    if k < 0 || k >= anns.len() {
        no_report()
    } else {
        join(annotation_errors(anns[k].value, fp, dv), annotations_report(anns, k + 1, fp, dv))
    }
}

/// Warnings for data fields from index `k` on that come after a field the schema declares
/// later; `last` is the schema index of the furthest field seen so far.
pub open spec fn order_warnings(
    dfs: Seq<(Spanned<Seq<char>>, Spanned<SpecRonValue>)>,
    sfs: Seq<SpecFieldDef>,
    k: int,
    last: int,
    path: Seq<char>,
) -> Seq<SpecWarning>
    decreases dfs.len() - k,
{
    if k < 0 || k >= dfs.len() {
        Seq::empty()
    } else {
        let name = dfs[k].0;
        let si = schema_index(sfs, name.value, 0);
        if si < 0 {
            order_warnings(dfs, sfs, k + 1, last, path)
        } else if si < last {
            seq![SpecWarning {
                path: path_to(path, name.value),
                span: name.span,
                kind: SpecWarningKind::FieldOrderMismatch { field_name: name.value, expected_after: sfs[last].name.value },
            }] + order_warnings(dfs, sfs, k + 1, last, path)
        } else {
            order_warnings(dfs, sfs, k + 1, si, path)
        }
    }
}

/// The default of the last schema field among the first `k` with the given name that has one.
pub open spec fn default_of(sfs: Seq<SpecFieldDef>, name: Seq<char>, k: int) -> Option<SpecRonValue>
    decreases k,
{
    if k <= 0 || k > sfs.len() {
        None
    } else if sfs[k - 1].name.value == name && sfs[k - 1].default is Some {
        Some(sfs[k - 1].default->0.value)
    } else {
        default_of(sfs, name, k - 1)
    }
}

/// The value a constraint reads for a field: the data's, else the schema default.
pub open spec fn field_value(
    sfs: Seq<SpecFieldDef>,
    dfs: Seq<(Spanned<Seq<char>>, Spanned<SpecRonValue>)>,
    name: Seq<char>,
) -> Option<SpecRonValue> {
    let j = data_index(dfs, name, dfs.len() as int);
    if 0 <= j < dfs.len() {
        Some(dfs[j].1.value)
    } else {
        default_of(sfs, name, sfs.len() as int)
    }
}

/// Whether `a op b` holds of two numbers.
pub open spec fn op_holds(op: CompareOp, a: DecimalV, b: DecimalV) -> bool {
    let c = decimal_order(a, b);
    match op {
        CompareOp::Lt => c < 0,
        CompareOp::Le => c <= 0,
        CompareOp::Gt => c > 0,
        CompareOp::Ge => c >= 0,
        CompareOp::Eq => c == 0,
        CompareOp::Ne => c != 0,
    }
}

/// The comparison of two values: defined when both are numbers.
pub open spec fn compare_values(l: SpecRonValue, r: SpecRonValue, op: CompareOp) -> Option<bool> {
    match (numeric(l), numeric(r)) {
        (Some(a), Some(b)) => Some(op_holds(op, a, b)),
        _ => None,
    }
}

pub open spec fn op_text(op: CompareOp) -> Seq<char> {
    match op {
        CompareOp::Lt => "<"@,
        CompareOp::Le => "<="@,
        CompareOp::Gt => ">"@,
        CompareOp::Ge => ">="@,
        CompareOp::Eq => "=="@,
        CompareOp::Ne => "!="@,
    }
}

/// Errors for the cross-field constraints from index `k` on that the values break.
pub open spec fn require_report(
    anns: Seq<Spanned<SpecRequire>>,
    k: int,
    sfs: Seq<SpecFieldDef>,
    dfs: Seq<(Spanned<Seq<char>>, Spanned<SpecRonValue>)>,
    path: Seq<char>,
    span: Span,
) -> Report
    decreases anns.len() - k,
{
    if k < 0 || k >= anns.len() {
        no_report()
    } else {
        let c = anns[k].value;
        let here = match (field_value(sfs, dfs, c.left), field_value(sfs, dfs, c.right)) {
            (Some(l), Some(r)) => if compare_values(l, r, c.op) == Some(false) {
                error_report(path, span, SpecErrorKind::CrossFieldViolation {
                    constraint: c.left + " "@ + op_text(c.op) + " "@ + c.right,
                })
            } else {
                no_report()
            },
            _ => no_report(),
        };
        join(here, require_report(anns, k + 1, sfs, dfs, path, span))
    }
}

/// Validating a value against a whole schema: the root struct, at the empty path.
pub open spec fn validation(schema: SpecSchema, value: Spanned<SpecRonValue>) -> Report {
    check_struct(schema.root, value, Seq::empty(), schema.enums, schema.aliases)
}


// ===========================================================================
// Reports as they are written out
// ===========================================================================

pub open spec fn errs_view(v: Seq<ValidationError>) -> Seq<SpecValidationError> {
    v.map_values(|e: ValidationError| e@)
}

pub open spec fn warns_view(v: Seq<Warning>) -> Seq<SpecWarning> {
    v.map_values(|w: Warning| w@)
}

/// The lists `e1` and `w1` are `e0` and `w0` with the report's errors and warnings appended.
pub open spec fn extends(e0: Seq<ValidationError>, w0: Seq<Warning>, e1: Seq<ValidationError>, w1: Seq<Warning>, r: Report) -> bool {
    errs_view(e1) == errs_view(e0) + r.errors && warns_view(w1) == warns_view(w0) + r.warnings
}

pub proof fn lemma_join_assoc(a: Report, b: Report, c: Report)
    ensures
        join(a, join(b, c)) == join(join(a, b), c),
{
    assert(a.errors + (b.errors + c.errors) =~= (a.errors + b.errors) + c.errors);
    assert(a.warnings + (b.warnings + c.warnings) =~= (a.warnings + b.warnings) + c.warnings);
}

pub proof fn lemma_join_none(a: Report)
    ensures
        join(a, no_report()) == a,
        join(no_report(), a) == a,
{
    assert(a.errors + Seq::empty() =~= a.errors);
    assert(a.warnings + Seq::empty() =~= a.warnings);
    assert(Seq::empty() + a.errors =~= a.errors);
    assert(Seq::empty() + a.warnings =~= a.warnings);
}

pub proof fn lemma_extends_join(
    e0: Seq<ValidationError>,
    w0: Seq<Warning>,
    e1: Seq<ValidationError>,
    w1: Seq<Warning>,
    e2: Seq<ValidationError>,
    w2: Seq<Warning>,
    a: Report,
    b: Report,
)
    requires
        extends(e0, w0, e1, w1, a),
        extends(e1, w1, e2, w2, b),
    ensures
        extends(e0, w0, e2, w2, join(a, b)),
{
    assert(errs_view(e0) + (a.errors + b.errors) =~= (errs_view(e0) + a.errors) + b.errors);
    assert(warns_view(w0) + (a.warnings + b.warnings) =~= (warns_view(w0) + a.warnings) + b.warnings);
}

pub proof fn lemma_extends_none(e: Seq<ValidationError>, w: Seq<Warning>)
    ensures
        extends(e, w, e, w, no_report()),
{
    assert(errs_view(e) + Seq::empty() =~= errs_view(e));
    assert(warns_view(w) + Seq::empty() =~= warns_view(w));
}

/// Whether two spans are the same.
fn same_span(a: Span, b: Span) -> (r: bool)
    ensures
        r == (a == b),
{
    a.start.offset == b.start.offset && a.start.line == b.start.line && a.start.column == b.start.column
        && a.end.offset == b.end.offset && a.end.line == b.end.line && a.end.column == b.end.column
}

/// An error as reported at an alias (see [`named_as`]).
fn named_error(e: ValidationError, path: &String, span: Span, name: &String) -> (r: ValidationError)
    ensures
        r@ == named_as(e@, path@, span, name@),
{
    let here = str_eq(e.path.as_str(), path.as_str()) && same_span(e.span, span);
    match e.kind {
        ErrorKind::TypeMismatch { expected, found } => {
            if here {
                ValidationError { path: e.path, span: e.span, kind: ErrorKind::TypeMismatch { expected: copy_string(name), found } }
            } else {
                ValidationError { path: e.path, span: e.span, kind: ErrorKind::TypeMismatch { expected, found } }
            }
        },
        kind => ValidationError { path: e.path, span: e.span, kind },
    }
}

/// Appends the errors found at an alias, each as reported there (see [`named_as`]).
fn append_named(errors: &mut Vec<ValidationError>, found: Vec<ValidationError>, path: &String, span: Span, name: &String)
    ensures
        errs_view(final(errors)@) == errs_view(old(errors)@)
            + named_all(errs_view(found@), path@, span, name@),
{
    let ghost all = errs_view(found@);
    let mut rest = found;
    let ghost mut k: int = 0;
    while rest.len() > 0
        invariant
            0 <= k <= all.len(),
            errs_view(rest@) == all.subrange(k, all.len() as int),
            errs_view(errors@) == errs_view(old(errors)@) + named_all(all.subrange(0, k), path@, span, name@),
        decreases rest@.len(),
    {
        let ghost before = rest@;
        let e = rest.remove(0);
        proof {
            assert(errs_view(rest@) =~= errs_view(before).subrange(1, errs_view(before).len() as int));
            assert(errs_view(before)[0] == before[0]@);
            assert(errs_view(before)[0] == all[k]);
            assert(e@ == all[k]);
        }
        let n = named_error(e, path, span, name);
        let ghost nv = n@;
        let ghost e_before = errors@;
        push_error(errors, n);
        proof {
            assert(nv == named_as(all[k], path@, span, name@));
            assert(named_all(all.subrange(0, k + 1), path@, span, name@)
                =~= named_all(all.subrange(0, k), path@, span, name@).push(named_as(all[k], path@, span, name@)));
            assert(errs_view(errors@) =~= errs_view(old(errors)@) + named_all(all.subrange(0, k + 1), path@, span, name@));
            k = k + 1;
            assert(all.subrange(k, all.len() as int) =~= errs_view(rest@));
        }
    }
    proof {
        assert(all.subrange(0, k) =~= all);
    }
}

/// Appends one error.
fn push_error(errors: &mut Vec<ValidationError>, e: ValidationError)
    ensures
        errs_view(final(errors)@) == errs_view(old(errors)@) + seq![e@],
{
    let ghost before = errors@;
    let ghost ev = e@;
    errors.push(e);
    assert(errs_view(errors@) =~= errs_view(before) + seq![ev]);
}

/// Appends one error and notes that the warnings are unchanged.
fn report(errors: &mut Vec<ValidationError>, warnings: &Vec<Warning>, e: ValidationError)
    ensures
        errs_view(final(errors)@) == errs_view(old(errors)@) + seq![e@],
        warns_view(warnings@) == warns_view(warnings@) + Seq::<SpecWarning>::empty(),
{
    push_error(errors, e);
    assert(warns_view(warnings@) =~= warns_view(warnings@) + Seq::<SpecWarning>::empty());
}

// ===========================================================================
// Texts
// ===========================================================================

/// Describes a value for an error message (see [`describe`]).
pub fn describe_value(v: &RonValue) -> (r: String)
    ensures
        r@ == describe(v@),
{
    let mut out = String::new();
    match v {
        RonValue::String(s) => {
            let text = s.as_str();
            append_str(&mut out, "String(\"");
            if text.unicode_len() > 20 {
                let head = text.substring_char(0, 20);
                append_str(&mut out, head);
                append_str(&mut out, "...\")");
            } else {
                append_str(&mut out, text);
                append_str(&mut out, "\")");
            }
        },
        RonValue::Integer(n) => {
            append_str(&mut out, "Integer(");
            let x = Decimal::from_i64(*n).to_text();
            append_str(&mut out, x.as_str());
            append_str(&mut out, ")");
        },
        RonValue::Float(d) => {
            append_str(&mut out, "Float(");
            let x = d.to_text();
            append_str(&mut out, x.as_str());
            append_str(&mut out, ")");
        },
        RonValue::Bool(b) => {
            if *b {
                append_str(&mut out, "Bool(true)");
            } else {
                append_str(&mut out, "Bool(false)");
            }
        },
        RonValue::Option(_) => append_str(&mut out, "Option"),
        RonValue::Identifier(s) => {
            append_str(&mut out, "Identifier(");
            append_str(&mut out, s.as_str());
            append_str(&mut out, ")");
        },
        RonValue::EnumVariant(n, _) => {
            append_str(&mut out, n.as_str());
            append_str(&mut out, "(...)");
        },
        RonValue::List(_) => append_str(&mut out, "List"),
        RonValue::Dict(_) => append_str(&mut out, "Map"),
        RonValue::Tuple(_) => append_str(&mut out, "Tuple"),
        RonValue::Struct(_) => append_str(&mut out, "Struct"),
    }
    assert(out@ =~= describe(v@));
    out
}

/// Builds a dot-separated field path: the field name at the root, else `parent.field`.
pub fn build_path(parent: &str, field: &str) -> (r: String)
    ensures
        r@ == path_to(parent@, field@),
{
    if parent.is_empty() {
        owned(field)
    } else {
        let mut out = owned(parent);
        append_str(&mut out, ".");
        append_str(&mut out, field);
        out
    }
}

/// The decimal text of an index.
fn index_string(k: usize) -> (r: String)
    ensures
        r@ == index_text(k as int),
{
    Decimal::from_u64(k as u64).to_text()
}

/// The names of an enum's variants, in order.
fn names_of_variants(vs: &Vec<(String, Option<SchemaType>)>) -> (r: Vec<String>)
    ensures
        strings_view(r@) == variant_names(variants_view(vs@)),
{
    let mut out: Vec<String> = Vec::new();
    let mut k: usize = 0;
    while k < vs.len()
        invariant
            k <= vs@.len(),
            strings_view(out@) == variant_names(variants_view(vs@)).take(k as int),
        decreases vs@.len() - k,
    {
        let ghost before = out@;
        out.push(copy_string(&vs[k].0));
        proof {
            assert(strings_view(out@) =~= strings_view(before).push(vs@[k as int].0@));
            assert(variant_names(variants_view(vs@)).take(k + 1) =~= variant_names(variants_view(vs@)).take(k as int).push(vs@[k as int].0@));
        }
        k = k + 1;
    }
    assert(variant_names(variants_view(vs@)).take(vs@.len() as int) =~= variant_names(variants_view(vs@)));
    out
}

fn error_at(path: &String, span: Span, kind: ErrorKind) -> (r: ValidationError)
    ensures
        r@ == (SpecValidationError { path: path@, span, kind: kind@ }),
{
    ValidationError { path: copy_string(path), span, kind }
}


// ===========================================================================
// Validation
// ===========================================================================

/// The error for a value of the wrong kind, whose message describes the value.
fn kind_error(path: &String, actual: &Spanned<RonValue>, which: u8, expected: &str) -> (r: ValidationError)
    ensures
        r@ == (SpecValidationError {
            path: path@,
            span: actual.span,
            kind: if which == 0 {
                SpecErrorKind::TypeMismatch { expected: expected@, found: describe(actual.value@) }
            } else if which == 1 {
                SpecErrorKind::ExpectedOption { found: describe(actual.value@) }
            } else if which == 2 {
                SpecErrorKind::ExpectedList { found: describe(actual.value@) }
            } else if which == 3 {
                SpecErrorKind::ExpectedMap { found: describe(actual.value@) }
            } else if which == 4 {
                SpecErrorKind::ExpectedTuple { found: describe(actual.value@) }
            } else {
                SpecErrorKind::ExpectedStruct { found: describe(actual.value@) }
            },
        }),
{
    let found = describe_value(&actual.value);
    let kind = if which == 0 {
        ErrorKind::TypeMismatch { expected: owned(expected), found }
    } else if which == 1 {
        ErrorKind::ExpectedOption { found }
    } else if which == 2 {
        ErrorKind::ExpectedList { found }
    } else if which == 3 {
        ErrorKind::ExpectedMap { found }
    } else if which == 4 {
        ErrorKind::ExpectedTuple { found }
    } else {
        ErrorKind::ExpectedStruct { found }
    };
    error_at(path, actual.span, kind)
}

/// Validates a value against a type, appending what it finds (see [`check_type`]).
fn validate_type(
    expected: &SchemaType,
    actual: &Spanned<RonValue>,
    path: &String,
    errors: &mut Vec<ValidationError>,
    warnings: &mut Vec<Warning>,
    enums: &Vec<EnumDef>,
    aliases: &Vec<(String, Spanned<SchemaType>)>,
    fuel: usize,
)
    ensures
        extends(old(errors)@, old(warnings)@, final(errors)@, final(warnings)@,
            check_type(expected@, actual@, path@, enums_view(enums@), aliases_view(aliases@), fuel as nat)),
    decreases actual, fuel, 2int,
{
    let ghost ev = enums_view(enums@);
    let ghost av = aliases_view(aliases@);
    let ghost e0 = errors@;
    let ghost w0 = warnings@;
    let fresh = aliases.len();
    match expected {
        SchemaType::String => {
            let ok = match &actual.value {
                RonValue::String(_) => true,
                _ => false,
            };
            if ok {
                proof {
                    lemma_extends_none(e0, w0);
                }
            } else {
                let e = kind_error(path, actual, 0, "String");
                report(errors, warnings, e);
            }
        },
        SchemaType::Integer => {
            let ok = match &actual.value {
                RonValue::Integer(_) => true,
                _ => false,
            };
            if ok {
                proof {
                    lemma_extends_none(e0, w0);
                }
            } else {
                let e = kind_error(path, actual, 0, "Integer");
                report(errors, warnings, e);
            }
        },
        SchemaType::Float => {
            let ok = match &actual.value {
                RonValue::Float(_) => true,
                _ => false,
            };
            if ok {
                proof {
                    lemma_extends_none(e0, w0);
                }
            } else {
                let e = kind_error(path, actual, 0, "Float");
                report(errors, warnings, e);
            }
        },
        SchemaType::Bool => {
            let ok = match &actual.value {
                RonValue::Bool(_) => true,
                _ => false,
            };
            if ok {
                proof {
                    lemma_extends_none(e0, w0);
                }
            } else {
                let e = kind_error(path, actual, 0, "Bool");
                report(errors, warnings, e);
            }
        },
        SchemaType::Option(inner) => match &actual.value {
            RonValue::Option(None) => {
                proof {
                    lemma_extends_none(e0, w0);
                }
            },
            RonValue::Option(Some(iv)) => {
                validate_type(inner, iv, path, errors, warnings, enums, aliases, fresh);
            },
            _ => {
                let e = kind_error(path, actual, 1, "");
                report(errors, warnings, e);
            },
        },
        SchemaType::List(et) => match &actual.value {
            RonValue::List(els) => {
                validate_list(et, els, actual, path, errors, warnings, enums, aliases);
            },
            _ => {
                let e = kind_error(path, actual, 2, "");
                report(errors, warnings, e);
            },
        },
        SchemaType::EnumRef(en) => {
            let e = match lookup_enum(enums, en) {
                Some(e) => e,
                None => {
                    let kind = ErrorKind::UnresolvedType { name: copy_string(en) };
                    report(errors, warnings, error_at(path, actual.span, kind));
                    return;
                },
            };
            match &actual.value {
                RonValue::Identifier(var) => match lookup_variant(&e.variants, var) {
                    None => {
                        let valid = names_of_variants(&e.variants);
                        let kind = ErrorKind::InvalidEnumVariant { enum_name: copy_string(en), variant: copy_string(var), valid };
                        report(errors, warnings, error_at(path, actual.span, kind));
                    },
                    Some(Some(_)) => {
                        let kind = ErrorKind::InvalidVariantData {
                            enum_name: copy_string(en),
                            variant: copy_string(var),
                            expected: owned("data"),
                            found: owned("unit variant"),
                        };
                        report(errors, warnings, error_at(path, actual.span, kind));
                    },
                    Some(None) => {
                        proof {
                            lemma_extends_none(e0, w0);
                        }
                    },
                },
                RonValue::EnumVariant(var, data) => match lookup_variant(&e.variants, var) {
                    None => {
                        let valid = names_of_variants(&e.variants);
                        let kind = ErrorKind::InvalidEnumVariant { enum_name: copy_string(en), variant: copy_string(var), valid };
                        report(errors, warnings, error_at(path, actual.span, kind));
                    },
                    Some(None) => {
                        let found = describe_value(&data.value);
                        let kind = ErrorKind::InvalidVariantData {
                            enum_name: copy_string(en),
                            variant: copy_string(var),
                            expected: owned("unit variant"),
                            found,
                        };
                        report(errors, warnings, error_at(path, actual.span, kind));
                    },
                    Some(Some(dt)) => {
                        validate_type(dt, data, path, errors, warnings, enums, aliases, fresh);
                    },
                },
                _ => {
                    let e = kind_error(path, actual, 0, en.as_str());
                    report(errors, warnings, e);
                },
            }
        },
        SchemaType::Dict(kt, vt) => match &actual.value {
            RonValue::Dict(entries) => {
                validate_entries(kt, vt, entries, actual, path, errors, warnings, enums, aliases);
            },
            _ => {
                let e = kind_error(path, actual, 3, "");
                report(errors, warnings, e);
            },
        },
        SchemaType::Tuple(ts) => match &actual.value {
            RonValue::Tuple(els) => {
                assert(crate::schema::types_view(ts@).len() == ts@.len());
                assert(crate::ron::list_view(els@).len() == els@.len());
                if els.len() == ts.len() {
                    validate_tuple(ts, els, actual, path, errors, warnings, enums, aliases);
                } else {
                    assert(crate::schema::types_view(ts@).len() == ts@.len());
                    assert(crate::ron::list_view(els@).len() == els@.len());
                    let kind = ErrorKind::TupleLengthMismatch { expected: ts.len(), found: els.len() };
                    report(errors, warnings, error_at(path, actual.span, kind));
                }
            },
            _ => {
                let e = kind_error(path, actual, 4, "");
                report(errors, warnings, e);
            },
        },
        SchemaType::AliasRef(n) => match lookup_alias(aliases, n) {
            None => {
                proof {
                    lemma_extends_none(e0, w0);
                }
            },
            Some(target) => {
                if fuel == 0 {
                    let kind = ErrorKind::UnresolvedType { name: copy_string(n) };
                    report(errors, warnings, error_at(path, actual.span, kind));
                    return;
                }
                let mut sub: Vec<ValidationError> = Vec::new();
                let ghost e1 = errors@;
                validate_type(&target.value, actual, path, &mut sub, warnings, enums, aliases, fuel - 1);
                let ghost inner = check_type(target.value@, actual@, path@, ev, av, (fuel - 1) as nat);
                proof {
                    assert(errs_view(Seq::<ValidationError>::empty()) =~= Seq::<SpecValidationError>::empty());
                    assert(errs_view(sub@) =~= inner.errors);
                }
                append_named(errors, sub, path, actual.span, n);
            },
        },
        SchemaType::Struct(sd) => {
            validate_struct(sd, actual, path, errors, warnings, enums, aliases);
        },
    }
}


/// Validates list elements at paths `path[i]` (see [`check_list`]).
fn validate_list(
    et: &SchemaType,
    els: &Vec<Spanned<RonValue>>,
    actual: &Spanned<RonValue>,
    path: &String,
    errors: &mut Vec<ValidationError>,
    warnings: &mut Vec<Warning>,
    enums: &Vec<EnumDef>,
    aliases: &Vec<(String, Spanned<SchemaType>)>,
)
    requires
        actual.value == RonValue::List(*els),
    ensures
        extends(old(errors)@, old(warnings)@, final(errors)@, final(warnings)@,
            check_list(et@, crate::ron::list_view(els@), 0, path@, enums_view(enums@), aliases_view(aliases@))),
    decreases actual, 0nat, 0int,
{
    let ghost ev = enums_view(enums@);
    let ghost av = aliases_view(aliases@);
    let ghost lv = crate::ron::list_view(els@);
    let ghost total = check_list(et@, lv, 0, path@, ev, av);
    let ghost mut acc = no_report();
    proof {
        lemma_extends_none(errors@, warnings@);
        lemma_join_none(total);
    }
    let mut k: usize = 0;
    while k < els.len()
        invariant
            k <= els@.len(),
            actual.value == RonValue::List(*els),
            lv == crate::ron::list_view(els@),
            ev == enums_view(enums@),
            av == aliases_view(aliases@),
            total == check_list(et@, lv, 0, path@, ev, av),
            total == join(acc, check_list(et@, lv, k as int, path@, ev, av)),
            extends(old(errors)@, old(warnings)@, errors@, warnings@, acc),
        decreases els@.len() - k,
    {
        let mut p = copy_string(path);
        append_str(&mut p, "[");
        let ix = index_string(k);
        append_str(&mut p, ix.as_str());
        append_str(&mut p, "]");
        let ghost e1 = errors@;
        let ghost w1 = warnings@;
        let ghost here = check_type(et@, lv[k as int], p@, ev, av, av.len());
        let ghost rest = check_list(et@, lv, k + 1, path@, ev, av);
        proof {
            assert(p@ == path@ + "["@ + index_text(k as int) + "]"@);
            assert(lv[k as int] == els@[k as int]@);
            vstd::std_specs::vec::axiom_vec_index_decreases(*els, k as int);
            assert(decreases_to!(*actual => actual.value));
            assert(decreases_to!(actual.value => actual.value->List_0));
            lemma_join_assoc(acc, here, rest);
        }
        validate_type(et, &els[k], &p, errors, warnings, enums, aliases, aliases.len());
        proof {
            lemma_extends_join(old(errors)@, old(warnings)@, e1, w1, errors@, warnings@, acc, here);
            acc = join(acc, here);
        }
        k = k + 1;
    }
    proof {
        lemma_join_none(acc);
    }
}

/// Validates tuple elements at paths `path.i` (see [`check_tuple`]).
fn validate_tuple(
    ts: &Vec<SchemaType>,
    els: &Vec<Spanned<RonValue>>,
    actual: &Spanned<RonValue>,
    path: &String,
    errors: &mut Vec<ValidationError>,
    warnings: &mut Vec<Warning>,
    enums: &Vec<EnumDef>,
    aliases: &Vec<(String, Spanned<SchemaType>)>,
)
    requires
        actual.value == RonValue::Tuple(*els),
        els@.len() == ts@.len(),
    ensures
        extends(old(errors)@, old(warnings)@, final(errors)@, final(warnings)@,
            check_tuple(crate::schema::types_view(ts@), crate::ron::list_view(els@), 0, path@, enums_view(enums@), aliases_view(aliases@))),
    decreases actual, 0nat, 0int,
{
    let ghost ev = enums_view(enums@);
    let ghost av = aliases_view(aliases@);
    let ghost lv = crate::ron::list_view(els@);
    let ghost tv = crate::schema::types_view(ts@);
    let ghost total = check_tuple(tv, lv, 0, path@, ev, av);
    let ghost mut acc = no_report();
    proof {
        lemma_extends_none(errors@, warnings@);
        lemma_join_none(total);
    }
    let mut k: usize = 0;
    while k < els.len()
        invariant
            k <= els@.len(),
            els@.len() == ts@.len(),
            actual.value == RonValue::Tuple(*els),
            lv == crate::ron::list_view(els@),
            tv == crate::schema::types_view(ts@),
            ev == enums_view(enums@),
            av == aliases_view(aliases@),
            total == check_tuple(tv, lv, 0, path@, ev, av),
            total == join(acc, check_tuple(tv, lv, k as int, path@, ev, av)),
            extends(old(errors)@, old(warnings)@, errors@, warnings@, acc),
        decreases els@.len() - k,
    {
        let mut p = copy_string(path);
        append_str(&mut p, ".");
        let ix = index_string(k);
        append_str(&mut p, ix.as_str());
        let ghost e1 = errors@;
        let ghost w1 = warnings@;
        let ghost here = check_type(tv[k as int], lv[k as int], p@, ev, av, av.len());
        let ghost rest = check_tuple(tv, lv, k + 1, path@, ev, av);
        proof {
            assert(p@ == path@ + "."@ + index_text(k as int));
            assert(lv[k as int] == els@[k as int]@);
            assert(tv[k as int] == ts@[k as int]@);
            vstd::std_specs::vec::axiom_vec_index_decreases(*els, k as int);
            assert(decreases_to!(*actual => actual.value));
            assert(decreases_to!(actual.value => actual.value->Tuple_0));
            lemma_join_assoc(acc, here, rest);
        }
        validate_type(&ts[k], &els[k], &p, errors, warnings, enums, aliases, aliases.len());
        proof {
            lemma_extends_join(old(errors)@, old(warnings)@, e1, w1, errors@, warnings@, acc, here);
            acc = join(acc, here);
        }
        k = k + 1;
    }
    proof {
        lemma_join_none(acc);
    }
}

/// Validates map entries: keys at `path`, values at `path[key]` (see [`check_entries`]).
fn validate_entries(
    kt: &SchemaType,
    vt: &SchemaType,
    entries: &Vec<(Spanned<RonValue>, Spanned<RonValue>)>,
    actual: &Spanned<RonValue>,
    path: &String,
    errors: &mut Vec<ValidationError>,
    warnings: &mut Vec<Warning>,
    enums: &Vec<EnumDef>,
    aliases: &Vec<(String, Spanned<SchemaType>)>,
)
    requires
        actual.value == RonValue::Dict(*entries),
    ensures
        extends(old(errors)@, old(warnings)@, final(errors)@, final(warnings)@,
            check_entries(kt@, vt@, crate::ron::pairs_view(entries@), 0, path@, enums_view(enums@), aliases_view(aliases@))),
    decreases actual, 0nat, 0int,
{
    let ghost ev = enums_view(enums@);
    let ghost av = aliases_view(aliases@);
    let ghost pv = crate::ron::pairs_view(entries@);
    let ghost total = check_entries(kt@, vt@, pv, 0, path@, ev, av);
    let ghost mut acc = no_report();
    proof {
        lemma_extends_none(errors@, warnings@);
        lemma_join_none(total);
    }
    let mut k: usize = 0;
    while k < entries.len()
        invariant
            k <= entries@.len(),
            actual.value == RonValue::Dict(*entries),
            pv == crate::ron::pairs_view(entries@),
            ev == enums_view(enums@),
            av == aliases_view(aliases@),
            total == check_entries(kt@, vt@, pv, 0, path@, ev, av),
            total == join(acc, check_entries(kt@, vt@, pv, k as int, path@, ev, av)),
            extends(old(errors)@, old(warnings)@, errors@, warnings@, acc),
        decreases entries@.len() - k,
    {
        let key = &entries[k].0;
        let value = &entries[k].1;
        let ghost e1 = errors@;
        let ghost w1 = warnings@;
        let ghost rest = check_entries(kt@, vt@, pv, k + 1, path@, ev, av);
        proof {
            assert(pv[k as int] == (entries@[k as int].0@, entries@[k as int].1@));
            vstd::std_specs::vec::axiom_vec_index_decreases(*entries, k as int);
            assert(decreases_to!(*actual => actual.value));
            assert(decreases_to!(actual.value => actual.value->Dict_0));
            assert(decreases_to!(entries@[k as int] => entries@[k as int].0));
            assert(decreases_to!(entries@[k as int] => entries@[k as int].1));
        }
        let key_desc = describe_value(&key.value);
        let ghost hk = check_type(kt@, key@, path@, ev, av, av.len());
        validate_type(kt, key, path, errors, warnings, enums, aliases, aliases.len());
        let mut p = copy_string(path);
        append_str(&mut p, "[");
        append_str(&mut p, key_desc.as_str());
        append_str(&mut p, "]");
        let ghost e2 = errors@;
        let ghost w2 = warnings@;
        let ghost hv = check_type(vt@, value@, p@, ev, av, av.len());
        validate_type(vt, value, &p, errors, warnings, enums, aliases, aliases.len());
        proof {
            assert(p@ == path@ + "["@ + describe(key.value@) + "]"@);
            lemma_extends_join(e1, w1, e2, w2, errors@, warnings@, hk, hv);
            let here = join(hk, hv);
            let marked = here;
            assert(extends(e1, w1, errors@, warnings@, marked));
            lemma_extends_join(old(errors)@, old(warnings)@, e1, w1, errors@, warnings@, acc, marked);
            lemma_join_assoc(acc, marked, rest);
            acc = join(acc, marked);
        }
        k = k + 1;
    }
    proof {
        lemma_join_none(acc);
    }
}


pub open spec fn dfields_view(v: Seq<(Spanned<String>, Spanned<RonValue>)>) -> Seq<(Spanned<Seq<char>>, Spanned<SpecRonValue>)> {
    crate::ron::fields_view(v)
}

/// The index of the last data field with the given name.
fn find_data(dfs: &Vec<(Spanned<String>, Spanned<RonValue>)>, name: &String) -> (r: Option<usize>)
    ensures
        data_index(dfields_view(dfs@), name@, dfs@.len() as int) == match r {
            Some(j) => j as int,
            None => -1,
        },
        r is Some ==> r->0 < dfs@.len(),
{
    let ghost dv = dfields_view(dfs@);
    let mut k: usize = dfs.len();
    while k > 0
        invariant
            k <= dfs@.len(),
            dv == dfields_view(dfs@),
            data_index(dv, name@, dfs@.len() as int) == data_index(dv, name@, k as int),
        decreases k,
    {
        assert(dv[k - 1] == (dfs@[k - 1].0@, dfs@[k - 1].1@));
        if str_eq(dfs[k - 1].0.value.as_str(), name.as_str()) {
            return Some(k - 1);
        }
        k = k - 1;
    }
    None
}

/// The index of the first schema field with the given name.
fn find_schema_field(sfs: &Vec<FieldDef>, name: &String) -> (r: Option<usize>)
    ensures
        schema_index(crate::schema::field_defs_view(sfs@), name@, 0) == match r {
            Some(j) => j as int,
            None => -1,
        },
        r is Some ==> r->0 < sfs@.len(),
{
    let ghost fv = crate::schema::field_defs_view(sfs@);
    let mut k: usize = 0;
    while k < sfs.len()
        invariant
            k <= sfs@.len(),
            fv == crate::schema::field_defs_view(sfs@),
            schema_index(fv, name@, 0) == schema_index(fv, name@, k as int),
        decreases sfs@.len() - k,
    {
        assert(fv[k as int] == crate::schema::field_view(sfs@[k as int]));
        if str_eq(sfs[k].name.value.as_str(), name.as_str()) {
            return Some(k);
        }
        k = k + 1;
    }
    None
}

/// Reports the schema fields that have no data and no default (see [`missing_fields`]).
fn report_missing(
    sfs: &Vec<FieldDef>,
    dfs: &Vec<(Spanned<String>, Spanned<RonValue>)>,
    path: &String,
    close: Span,
    errors: &mut Vec<ValidationError>,
    warnings: &Vec<Warning>,
)
    ensures
        extends(old(errors)@, warnings@, final(errors)@, warnings@,
            missing_fields(crate::schema::field_defs_view(sfs@), dfields_view(dfs@), 0, path@, close)),
{
    let ghost fv = crate::schema::field_defs_view(sfs@);
    let ghost dv = dfields_view(dfs@);
    let ghost total = missing_fields(fv, dv, 0, path@, close);
    let ghost mut acc = no_report();
    proof {
        lemma_extends_none(errors@, warnings@);
        lemma_join_none(total);
    }
    let mut k: usize = 0;
    while k < sfs.len()
        invariant
            k <= sfs@.len(),
            fv == crate::schema::field_defs_view(sfs@),
            dv == dfields_view(dfs@),
            total == missing_fields(fv, dv, 0, path@, close),
            total == join(acc, missing_fields(fv, dv, k as int, path@, close)),
            extends(old(errors)@, warnings@, errors@, warnings@, acc),
        decreases sfs@.len() - k,
    {
        let f = &sfs[k];
        assert(fv[k as int] == crate::schema::field_view(sfs@[k as int]));
        let ghost e1 = errors@;
        let ghost rest = missing_fields(fv, dv, k + 1, path@, close);
        let ghost here = if data_index(dv, fv[k as int].name.value, dv.len() as int) < 0 && fv[k as int].default is None {
            error_report(path_to(path@, fv[k as int].name.value), close, SpecErrorKind::MissingField { field_name: fv[k as int].name.value })
        } else {
            no_report()
        };
        if find_data(dfs, &f.name.value).is_none() && f.default.is_none() {
            let p = build_path(path.as_str(), f.name.value.as_str());
            let e = ValidationError { path: p, span: close, kind: ErrorKind::MissingField { field_name: copy_string(&f.name.value) } };
            report(errors, warnings, e);
        } else {
            proof {
                lemma_extends_none(errors@, warnings@);
            }
        }
        proof {
            lemma_extends_join(old(errors)@, warnings@, e1, warnings@, errors@, warnings@, acc, here);
            lemma_join_assoc(acc, here, rest);
            acc = join(acc, here);
        }
        k = k + 1;
    }
    proof {
        lemma_join_none(acc);
    }
}

/// Reports the data fields that the schema does not declare (see [`unknown_fields`]).
fn report_unknown(
    sfs: &Vec<FieldDef>,
    dfs: &Vec<(Spanned<String>, Spanned<RonValue>)>,
    path: &String,
    errors: &mut Vec<ValidationError>,
    warnings: &Vec<Warning>,
)
    ensures
        extends(old(errors)@, warnings@, final(errors)@, warnings@,
            unknown_fields(dfields_view(dfs@), crate::schema::field_defs_view(sfs@), 0, path@)),
{
    let ghost fv = crate::schema::field_defs_view(sfs@);
    let ghost dv = dfields_view(dfs@);
    let ghost total = unknown_fields(dv, fv, 0, path@);
    let ghost mut acc = no_report();
    proof {
        lemma_extends_none(errors@, warnings@);
        lemma_join_none(total);
    }
    let mut k: usize = 0;
    while k < dfs.len()
        invariant
            k <= dfs@.len(),
            fv == crate::schema::field_defs_view(sfs@),
            dv == dfields_view(dfs@),
            total == unknown_fields(dv, fv, 0, path@),
            total == join(acc, unknown_fields(dv, fv, k as int, path@)),
            extends(old(errors)@, warnings@, errors@, warnings@, acc),
        decreases dfs@.len() - k,
    {
        let name = &dfs[k].0;
        assert(dv[k as int] == (dfs@[k as int].0@, dfs@[k as int].1@));
        let ghost e1 = errors@;
        let ghost rest = unknown_fields(dv, fv, k + 1, path@);
        let ghost here = if schema_index(fv, dv[k as int].0.value, 0) < 0 {
            error_report(path_to(path@, dv[k as int].0.value), dv[k as int].0.span, SpecErrorKind::UnknownField { field_name: dv[k as int].0.value })
        } else {
            no_report()
        };
        if find_schema_field(sfs, &name.value).is_none() {
            let p = build_path(path.as_str(), name.value.as_str());
            let e = ValidationError { path: p, span: name.span, kind: ErrorKind::UnknownField { field_name: copy_string(&name.value) } };
            report(errors, warnings, e);
        } else {
            proof {
                lemma_extends_none(errors@, warnings@);
            }
        }
        proof {
            lemma_extends_join(old(errors)@, warnings@, e1, warnings@, errors@, warnings@, acc, here);
            lemma_join_assoc(acc, here, rest);
            acc = join(acc, here);
        }
        k = k + 1;
    }
    proof {
        lemma_join_none(acc);
    }
}


pub open spec fn field_anns_view(v: Seq<Spanned<FieldAnnotation>>) -> Seq<Spanned<SpecFieldAnnotation>> {
    v.map_values(|a: Spanned<FieldAnnotation>| a@)
}

/// The number a value stands for, when it is an integer or a float.
fn numeric_value(v: &RonValue) -> (r: Option<Decimal>)
    ensures
        match numeric(v@) {
            Some(x) => r is Some && r->0@ == x,
            None => r is None,
        },
{
    match v {
        RonValue::Integer(n) => Some(Decimal::from_i64(*n)),
        RonValue::Float(d) => Some(d.copy()),
        _ => None,
    }
}

/// The length of a value, when it is a string (in bytes) or a list.
fn length_value(v: &RonValue) -> (r: Option<usize>)
    ensures
        match length_of(v@) {
            Some(l) => r is Some && r->0 as nat == l,
            None => r is None,
        },
{
    match v {
        RonValue::String(s) => Some(s.as_str().as_bytes().len()),
        RonValue::List(items) => Some(items.len()),
        _ => None,
    }
}

/// The errors of one annotation on a field's value (see [`annotation_errors`]).
fn check_annotation(a: &FieldAnnotation, fp: &String, dv: &Spanned<RonValue>, errors: &mut Vec<ValidationError>, warnings: &Vec<Warning>)
    ensures
        extends(old(errors)@, warnings@, final(errors)@, warnings@, annotation_errors(a@, fp@, dv@)),
{
    proof {
        lemma_extends_none(errors@, warnings@);
    }
    match a {
        FieldAnnotation::Range(min, max) => {
            if let Some(x) = numeric_value(&dv.value) {
                if x.compare(min) < 0 || x.compare(max) > 0 {
                    let kind = ErrorKind::ValueOutOfRange { field_name: copy_string(fp), min: min.copy(), max: max.copy(), found: x };
                    report(errors, warnings, error_at(fp, dv.span, kind));
                }
            }
        },
        FieldAnnotation::MinLength(m) => {
            if let Some(l) = length_value(&dv.value) {
                if l < *m {
                    let kind = ErrorKind::LengthTooShort { field_name: copy_string(fp), min: *m, found: l };
                    report(errors, warnings, error_at(fp, dv.span, kind));
                }
            }
        },
        FieldAnnotation::MaxLength(m) => {
            if let Some(l) = length_value(&dv.value) {
                if l > *m {
                    let kind = ErrorKind::LengthTooLong { field_name: copy_string(fp), max: *m, found: l };
                    report(errors, warnings, error_at(fp, dv.span, kind));
                }
            }
        },
        FieldAnnotation::Pattern(p) => {
            if let RonValue::String(text) = &dv.value {
                if let Some(re) = compile_pattern(p.as_str()) {
                    if !pattern_matches(&re, text.as_str()) {
                        let kind = ErrorKind::PatternMismatch { field_name: copy_string(fp), pattern: copy_string(p) };
                        report(errors, warnings, error_at(fp, dv.span, kind));
                    }
                }
            }
        },
    }
}

/// The errors of a field's annotations (see [`annotations_report`]).
fn check_annotations(anns: &Vec<Spanned<FieldAnnotation>>, fp: &String, dv: &Spanned<RonValue>, errors: &mut Vec<ValidationError>, warnings: &Vec<Warning>)
    ensures
        extends(old(errors)@, warnings@, final(errors)@, warnings@, annotations_report(field_anns_view(anns@), 0, fp@, dv@)),
{
    let ghost av = field_anns_view(anns@);
    let ghost total = annotations_report(av, 0, fp@, dv@);
    let ghost mut acc = no_report();
    proof {
        lemma_extends_none(errors@, warnings@);
        lemma_join_none(total);
    }
    let mut k: usize = 0;
    while k < anns.len()
        invariant
            k <= anns@.len(),
            av == field_anns_view(anns@),
            total == annotations_report(av, 0, fp@, dv@),
            total == join(acc, annotations_report(av, k as int, fp@, dv@)),
            extends(old(errors)@, warnings@, errors@, warnings@, acc),
        decreases anns@.len() - k,
    {
        let ghost e1 = errors@;
        let ghost here = annotation_errors(av[k as int].value, fp@, dv@);
        let ghost rest = annotations_report(av, k + 1, fp@, dv@);
        assert(av[k as int] == anns@[k as int]@);
        check_annotation(&anns[k].value, fp, dv, errors, warnings);
        proof {
            lemma_extends_join(old(errors)@, warnings@, e1, warnings@, errors@, warnings@, acc, here);
            lemma_join_assoc(acc, here, rest);
            acc = join(acc, here);
        }
        k = k + 1;
    }
    proof {
        lemma_join_none(acc);
    }
}

/// Validates the schema fields that have data (see [`matching_fields`]).
fn validate_matching(
    sfs: &Vec<FieldDef>,
    dfs: &Vec<(Spanned<String>, Spanned<RonValue>)>,
    actual: &Spanned<RonValue>,
    path: &String,
    errors: &mut Vec<ValidationError>,
    warnings: &mut Vec<Warning>,
    enums: &Vec<EnumDef>,
    aliases: &Vec<(String, Spanned<SchemaType>)>,
)
    requires
        actual.value is Struct,
        actual.value->Struct_0.fields == *dfs,
    ensures
        extends(old(errors)@, old(warnings)@, final(errors)@, final(warnings)@,
            matching_fields(crate::schema::field_defs_view(sfs@), dfields_view(dfs@), 0, path@, enums_view(enums@), aliases_view(aliases@))),
    decreases actual, 0nat, 0int,
{
    let ghost ev = enums_view(enums@);
    let ghost av = aliases_view(aliases@);
    let ghost fv = crate::schema::field_defs_view(sfs@);
    let ghost dv = dfields_view(dfs@);
    let ghost total = matching_fields(fv, dv, 0, path@, ev, av);
    let ghost mut acc = no_report();
    proof {
        lemma_extends_none(errors@, warnings@);
        lemma_join_none(total);
    }
    let mut k: usize = 0;
    while k < sfs.len()
        invariant
            k <= sfs@.len(),
            actual.value is Struct,
            actual.value->Struct_0.fields == *dfs,
            fv == crate::schema::field_defs_view(sfs@),
            dv == dfields_view(dfs@),
            ev == enums_view(enums@),
            av == aliases_view(aliases@),
            total == matching_fields(fv, dv, 0, path@, ev, av),
            total == join(acc, matching_fields(fv, dv, k as int, path@, ev, av)),
            extends(old(errors)@, old(warnings)@, errors@, warnings@, acc),
        decreases sfs@.len() - k,
    {
        let f = &sfs[k];
        assert(fv[k as int] == crate::schema::field_view(sfs@[k as int]));
        let ghost e1 = errors@;
        let ghost w1 = warnings@;
        let ghost rest = matching_fields(fv, dv, k + 1, path@, ev, av);
        match find_data(dfs, &f.name.value) {
            None => {
                proof {
                    lemma_extends_none(errors@, warnings@);
                    lemma_extends_join(old(errors)@, old(warnings)@, e1, w1, errors@, warnings@, acc, no_report());
                    lemma_join_assoc(acc, no_report(), rest);
                    acc = join(acc, no_report());
                }
            },
            Some(j) => {
                let fp = build_path(path.as_str(), f.name.value.as_str());
                let dval = &dfs[j].1;
                let ghost hc = check_type(fv[k as int].type_.value, dv[j as int].1, fp@, ev, av, av.len());
                let ghost ha = annotations_report(fv[k as int].annotations, 0, fp@, dv[j as int].1);
                proof {
                    assert(dv[j as int] == (dfs@[j as int].0@, dfs@[j as int].1@));
                    vstd::std_specs::vec::axiom_vec_index_decreases(*dfs, j as int);
                    assert(decreases_to!(*actual => actual.value));
                    assert(decreases_to!(actual.value => actual.value->Struct_0));
                    assert(field_anns_view(f.annotations@) == fv[k as int].annotations);
                }
                let before = errors.len();
                validate_type(&f.type_.value, dval, &fp, errors, warnings, enums, aliases, aliases.len());
                let ghost e2 = errors@;
                let ghost w2 = warnings@;
                let ghost here = if hc.errors.len() == 0 { join(hc, ha) } else { hc };
                proof {
                    assert(errs_view(e2).len() == errs_view(e1).len() + hc.errors.len());
                }
                if errors.len() == before {
                    check_annotations(&f.annotations, &fp, dval, errors, warnings);
                    proof {
                        lemma_extends_join(e1, w1, e2, w2, errors@, warnings@, hc, ha);
                    }
                }
                proof {
                    lemma_extends_join(old(errors)@, old(warnings)@, e1, w1, errors@, warnings@, acc, here);
                    lemma_join_assoc(acc, here, rest);
                    acc = join(acc, here);
                }
            },
        }
        k = k + 1;
    }
    proof {
        lemma_join_none(acc);
    }
}

/// Warns about data fields out of the schema's order (see [`order_warnings`]).
fn report_order(
    sfs: &Vec<FieldDef>,
    dfs: &Vec<(Spanned<String>, Spanned<RonValue>)>,
    path: &String,
    warnings: &mut Vec<Warning>,
)
    ensures
        warns_view(final(warnings)@) == warns_view(old(warnings)@) + order_warnings(dfields_view(dfs@), crate::schema::field_defs_view(sfs@), 0, 0, path@),
{
    let ghost fv = crate::schema::field_defs_view(sfs@);
    let ghost dv = dfields_view(dfs@);
    let ghost total = order_warnings(dv, fv, 0, 0, path@);
    let mut last: usize = 0;
    let mut k: usize = 0;
    proof {
        assert(warns_view(warnings@) + total =~= warns_view(old(warnings)@) + total);
    }
    while k < dfs.len()
        invariant
            k <= dfs@.len(),
            last == 0 || last < sfs@.len(),
            fv == crate::schema::field_defs_view(sfs@),
            dv == dfields_view(dfs@),
            total == order_warnings(dv, fv, 0, 0, path@),
            warns_view(warnings@) + order_warnings(dv, fv, k as int, last as int, path@) == warns_view(old(warnings)@) + total,
        decreases dfs@.len() - k,
    {
        let name = &dfs[k].0;
        assert(dv[k as int] == (dfs@[k as int].0@, dfs@[k as int].1@));
        let ghost before = warnings@;
        let ghost rest_same = order_warnings(dv, fv, k + 1, last as int, path@);
        match find_schema_field(sfs, &name.value) {
            None => {},
            Some(si) => {
                if si < last {
                    assert(fv[last as int] == crate::schema::field_view(sfs@[last as int]));
                    let w = Warning {
                        path: build_path(path.as_str(), name.value.as_str()),
                        span: name.span,
                        kind: WarningKind::FieldOrderMismatch {
                            field_name: copy_string(&name.value),
                            expected_after: copy_string(&sfs[last].name.value),
                        },
                    };
                    let ghost wv = w@;
                    warnings.push(w);
                    proof {
                        assert(warns_view(warnings@) =~= warns_view(before).push(wv));
                        assert(warns_view(before) + (seq![wv] + rest_same) =~= warns_view(warnings@) + rest_same);
                    }
                } else {
                    last = si;
                }
            },
        }
        k = k + 1;
    }
    proof {
        assert(warns_view(warnings@) + Seq::<SpecWarning>::empty() =~= warns_view(warnings@));
    }
}

/// The value a constraint reads for a field: the data's, else the schema default.
fn value_for<'b>(sfs: &'b Vec<FieldDef>, dfs: &'b Vec<(Spanned<String>, Spanned<RonValue>)>, name: &String) -> (r: Option<&'b RonValue>)
    ensures
        match field_value(crate::schema::field_defs_view(sfs@), dfields_view(dfs@), name@) {
            Some(x) => r is Some && r->0@ == x,
            None => r is None,
        },
{
    let ghost fv = crate::schema::field_defs_view(sfs@);
    let ghost dv = dfields_view(dfs@);
    if let Some(j) = find_data(dfs, name) {
        assert(dv[j as int] == (dfs@[j as int].0@, dfs@[j as int].1@));
        return Some(&dfs[j].1.value);
    }
    let mut k: usize = sfs.len();
    while k > 0
        invariant
            k <= sfs@.len(),
            fv == crate::schema::field_defs_view(sfs@),
            dv == dfields_view(dfs@),
            data_index(dv, name@, dfs@.len() as int) == -1,
            default_of(fv, name@, sfs@.len() as int) == default_of(fv, name@, k as int),
        decreases k,
    {
        assert(fv[k - 1] == crate::schema::field_view(sfs@[k - 1]));
        let f = &sfs[k - 1];
        if str_eq(f.name.value.as_str(), name.as_str()) {
            match &f.default {
                Some(d) => {
                    assert(fv[k - 1].default->0.value == d.value@);
                    return Some(&d.value);
                },
                None => {},
            }
        }
        k = k - 1;
    }
    None
}

fn op_string(op: CompareOp) -> (r: &'static str)
    ensures
        r@ == op_text(op),
{
    match op {
        CompareOp::Lt => "<",
        CompareOp::Le => "<=",
        CompareOp::Gt => ">",
        CompareOp::Ge => ">=",
        CompareOp::Eq => "==",
        CompareOp::Ne => "!=",
    }
}

/// Compares two values when both are numbers (see [`compare_values`]).
fn compare_numbers(l: &RonValue, r: &RonValue, op: CompareOp) -> (res: Option<bool>)
    ensures
        res == compare_values(l@, r@, op),
{
    match (numeric_value(l), numeric_value(r)) {
        (Some(a), Some(b)) => {
            let c = a.compare(&b);
            let holds = match op {
                CompareOp::Lt => c < 0,
                CompareOp::Le => c <= 0,
                CompareOp::Gt => c > 0,
                CompareOp::Ge => c >= 0,
                CompareOp::Eq => c == 0,
                CompareOp::Ne => c != 0,
            };
            Some(holds)
        },
        _ => None,
    }
}

/// Reports the cross-field constraints that the values break (see [`require_report`]).
fn report_requires(
    anns: &Vec<Spanned<RequireConstraint>>,
    sfs: &Vec<FieldDef>,
    dfs: &Vec<(Spanned<String>, Spanned<RonValue>)>,
    path: &String,
    span: Span,
    errors: &mut Vec<ValidationError>,
    warnings: &Vec<Warning>,
)
    ensures
        extends(old(errors)@, warnings@, final(errors)@, warnings@,
            require_report(crate::schema::requires_view(anns@), 0, crate::schema::field_defs_view(sfs@), dfields_view(dfs@), path@, span)),
{
    let ghost rv = crate::schema::requires_view(anns@);
    let ghost fv = crate::schema::field_defs_view(sfs@);
    let ghost dv = dfields_view(dfs@);
    let ghost total = require_report(rv, 0, fv, dv, path@, span);
    let ghost mut acc = no_report();
    proof {
        lemma_extends_none(errors@, warnings@);
        lemma_join_none(total);
    }
    let mut k: usize = 0;
    while k < anns.len()
        invariant
            k <= anns@.len(),
            rv == crate::schema::requires_view(anns@),
            fv == crate::schema::field_defs_view(sfs@),
            dv == dfields_view(dfs@),
            total == require_report(rv, 0, fv, dv, path@, span),
            total == join(acc, require_report(rv, k as int, fv, dv, path@, span)),
            extends(old(errors)@, warnings@, errors@, warnings@, acc),
        decreases anns@.len() - k,
    {
        let c = &anns[k].value;
        assert(rv[k as int] == anns@[k as int]@);
        let ghost e1 = errors@;
        let ghost cv = rv[k as int].value;
        let ghost rest = require_report(rv, k + 1, fv, dv, path@, span);
        let ghost here = match (field_value(fv, dv, cv.left), field_value(fv, dv, cv.right)) {
            (Some(l), Some(r)) => if compare_values(l, r, cv.op) == Some(false) {
                error_report(path@, span, SpecErrorKind::CrossFieldViolation {
                    constraint: cv.left + " "@ + op_text(cv.op) + " "@ + cv.right,
                })
            } else {
                no_report()
            },
            _ => no_report(),
        };
        let lv = value_for(sfs, dfs, &c.left);
        let rvv = value_for(sfs, dfs, &c.right);
        let mut broken = false;
        if let (Some(l), Some(r)) = (lv, rvv) {
            if compare_numbers(l, r, c.op) == Some(false) {
                broken = true;
            }
        }
        if broken {
            let mut text = copy_string(&c.left);
            append_str(&mut text, " ");
            append_str(&mut text, op_string(c.op));
            append_str(&mut text, " ");
            append_str(&mut text, c.right.as_str());
            let kind = ErrorKind::CrossFieldViolation { constraint: text };
            report(errors, warnings, error_at(path, span, kind));
        } else {
            proof {
                lemma_extends_none(errors@, warnings@);
            }
        }
        proof {
            lemma_extends_join(old(errors)@, warnings@, e1, warnings@, errors@, warnings@, acc, here);
            lemma_join_assoc(acc, here, rest);
            acc = join(acc, here);
        }
        k = k + 1;
    }
    proof {
        lemma_join_none(acc);
    }
}

/// Validates a value against a struct definition (see [`check_struct`]).
pub(crate) fn validate_struct(
    sd: &StructDef,
    actual: &Spanned<RonValue>,
    path: &String,
    errors: &mut Vec<ValidationError>,
    warnings: &mut Vec<Warning>,
    enums: &Vec<EnumDef>,
    aliases: &Vec<(String, Spanned<SchemaType>)>,
)
    ensures
        extends(old(errors)@, old(warnings)@, final(errors)@, final(warnings)@,
            check_struct(sd@, actual@, path@, enums_view(enums@), aliases_view(aliases@))),
    decreases actual, 0nat, 1int,
{
    let ghost ev = enums_view(enums@);
    let ghost av = aliases_view(aliases@);
    match &actual.value {
        RonValue::Struct(ds) => {
            let ghost fv = crate::schema::field_defs_view(sd.fields@);
            let ghost dv = dfields_view(ds.fields@);
            let ghost e0 = errors@;
            let ghost w0 = warnings@;
            let ghost m = missing_fields(fv, dv, 0, path@, ds.close_span);
            let ghost u = unknown_fields(dv, fv, 0, path@);
            let ghost mt = matching_fields(fv, dv, 0, path@, ev, av);
            let ghost o = warnings_report(order_warnings(dv, fv, 0, 0, path@));
            let ghost rq = require_report(crate::schema::requires_view(sd.annotations@), 0, fv, dv, path@, actual.span);
            assert(sd@.fields == fv);
            report_missing(&sd.fields, &ds.fields, path, ds.close_span, errors, warnings);
            let ghost e1 = errors@;
            report_unknown(&sd.fields, &ds.fields, path, errors, warnings);
            let ghost e2 = errors@;
            proof {
                lemma_extends_join(e0, w0, e1, w0, e2, w0, m, u);
            }
            validate_matching(&sd.fields, &ds.fields, actual, path, errors, warnings, enums, aliases);
            let ghost e3 = errors@;
            let ghost w3 = warnings@;
            proof {
                lemma_extends_join(e0, w0, e2, w0, e3, w3, join(m, u), mt);
            }
            report_order(&sd.fields, &ds.fields, path, warnings);
            let ghost w4 = warnings@;
            proof {
                assert(errs_view(e3) + Seq::<SpecValidationError>::empty() =~= errs_view(e3));
                assert(extends(e3, w3, e3, w4, o));
            }
            report_requires(&sd.annotations, &sd.fields, &ds.fields, path, actual.span, errors, warnings);
            proof {
                lemma_extends_join(e3, w3, e3, w4, errors@, warnings@, o, rq);
                lemma_extends_join(e0, w0, e3, w3, errors@, warnings@, join(join(m, u), mt), join(o, rq));
            }
        },
        _ => {
            let e = kind_error(path, actual, 5, "");
            report(errors, warnings, e);
        },
    }
}

/// Validates a parsed RON value against a schema: every error and warning found, in order;
/// the data is valid exactly when there are no errors.
pub fn validate(schema: &Schema, value: &Spanned<RonValue>) -> (r: ValidationResult)
    ensures
        errs_view(r.errors@) == validation(schema@, value@).errors,
        warns_view(r.warnings@) == validation(schema@, value@).warnings,
{
    let mut errors: Vec<ValidationError> = Vec::new();
    let mut warnings: Vec<Warning> = Vec::new();
    let path = String::new();
    proof {
        assert(path@ =~= Seq::<char>::empty());
    }
    validate_struct(&schema.root, value, &path, &mut errors, &mut warnings, &schema.enums, &schema.aliases);
    proof {
        assert(errs_view(Seq::<ValidationError>::empty()) =~= Seq::<SpecValidationError>::empty());
        assert(warns_view(Seq::<Warning>::empty()) =~= Seq::<SpecWarning>::empty());
        assert(Seq::<SpecValidationError>::empty() + validation(schema@, value@).errors =~= validation(schema@, value@).errors);
        assert(Seq::<SpecWarning>::empty() + validation(schema@, value@).warnings =~= validation(schema@, value@).warnings);
    }
    ValidationResult { errors, warnings }
}

} // verus!
