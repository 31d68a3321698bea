use vstd::prelude::*;
use crate::error::{SpecErrorKind, SpecValidationError, SpecWarning};
use crate::number::decimal_order;
use crate::ron::SpecRonValue;
use crate::schema::{CompareOp, SpecFieldAnnotation, SpecFieldDef};
use crate::span::{Span, Spanned};
use crate::schema::{SpecEnumDef, SpecSchema};
use crate::schema::check::{
    SpecAliases, alias_cycles, bad_default, cycle_in, default_fits, fields_refs, find_alias, find_enum,
    schema_of_source, struct_defaults, type_refs,
};
use crate::resolve::{merge_aliases, merge_enums, merged, name_taken};
use crate::schema::SpecStructDef;
use crate::schema::SpecSchemaType;
use crate::schema::grammar::{
    SpecAnnotation, alias_def_at, annotation_at, defs_at, dict_type_at, enum_def_at, field_at, field_default,
    is_key_type, items_after, lemma_items_annotation, lemma_items_end, lemma_items_field, list_type_at, named_type_at,
    option_type_at, schema_parts, sexpect, sident, struct_at, struct_items, struct_of, tuple_type_at, tuple_types, type_at,
    variant_data_at, variants_at, operator_at,
};
use crate::schema::check::{reclass_type, reclass_struct, reclass_field, reclass_aliases, alias_names};
use crate::ron::parser::paren_is_struct;
use crate::text::{lemma_skip_ws_bounds, skip_ws};
use crate::validate::{compare_values,
    check_struct, default_of, validation, warnings_report, join, field_value, matching_fields, require_report,
    annotation_errors, data_index, length_of, missing_fields, numeric, order_warnings, path_to,
    regex_is_valid, regex_matches, schema_index, unknown_fields,
};

verus! {

/// The data fields of a struct value.
pub type DataFields = Seq<(Spanned<Seq<char>>, Spanned<SpecRonValue>)>;

// ===========================================================================
// Missing and unknown fields
// ===========================================================================

/// Whether schema field `j` has no default and the data has no field of its name.
pub open spec fn absent_without_default(sfs: Seq<SpecFieldDef>, dfs: DataFields, j: int) -> bool {
    sfs[j].default is None && data_index(dfs, sfs[j].name.value, dfs.len() as int) < 0
}

/// The error that reports schema field `j` missing from a struct closed at `close`.
pub open spec fn missing_error(sfs: Seq<SpecFieldDef>, j: int, path: Seq<char>, close: Span) -> SpecValidationError {
    SpecValidationError {
        path: path_to(path, sfs[j].name.value),
        span: close,
        kind: SpecErrorKind::MissingField { field_name: sfs[j].name.value },
    }
}

proof fn missing_from(sfs: Seq<SpecFieldDef>, dfs: DataFields, k: int, path: Seq<char>, close: Span)
    requires
        0 <= k,
    ensures
        missing_fields(sfs, dfs, k, path, close).warnings.len() == 0,
        forall|m: int|
            #![trigger missing_fields(sfs, dfs, k, path, close).errors[m]]
            0 <= m < missing_fields(sfs, dfs, k, path, close).errors.len() ==> exists|j: int|
                #![trigger missing_error(sfs, j, path, close)]
                k <= j < sfs.len() && absent_without_default(sfs, dfs, j)
                    && missing_fields(sfs, dfs, k, path, close).errors[m] == missing_error(sfs, j, path, close),
        forall|j: int|
            k <= j < sfs.len() && #[trigger] absent_without_default(sfs, dfs, j) ==> missing_fields(
                sfs,
                dfs,
                k,
                path,
                close,
            ).errors.contains(missing_error(sfs, j, path, close)),
    decreases sfs.len() - k,
{
    let r = missing_fields(sfs, dfs, k, path, close);
    if k < sfs.len() {
        missing_from(sfs, dfs, k + 1, path, close);
        let rest = missing_fields(sfs, dfs, k + 1, path, close);
        let h: int = if absent_without_default(sfs, dfs, k) { 1 } else { 0 };
        assert(r.errors.len() == h + rest.errors.len());
        assert forall|m: int| #![trigger r.errors[m]] 0 <= m < r.errors.len() implies exists|j: int|
            #![trigger missing_error(sfs, j, path, close)]
            k <= j < sfs.len() && absent_without_default(sfs, dfs, j) && r.errors[m] == missing_error(sfs, j, path, close) by {
            if m < h {
                assert(r.errors[m] == missing_error(sfs, k, path, close));
            } else {
                assert(r.errors[m] == rest.errors[m - h]);
            }
        }
        assert forall|j: int| k <= j < sfs.len() && #[trigger] absent_without_default(sfs, dfs, j) implies r.errors.contains(
            missing_error(sfs, j, path, close),
        ) by {
            if j == k {
                assert(r.errors[0] == missing_error(sfs, k, path, close));
            } else {
                let m = choose|m: int| 0 <= m < rest.errors.len() && rest.errors[m] == missing_error(sfs, j, path, close);
                assert(r.errors[m + h] == rest.errors[m]);
            }
        }
    }
}

/// A schema field is reported missing exactly when the schema gives it no default and the data
/// has no field of that name, and nothing else is reported there: a field with a default may
/// always be left out, and every required field that is left out is reported.
pub proof fn missing_exactly_when_required_and_absent(sfs: Seq<SpecFieldDef>, dfs: DataFields, path: Seq<char>, close: Span)
    ensures
        missing_fields(sfs, dfs, 0, path, close).warnings.len() == 0,
        forall|m: int|
            #![trigger missing_fields(sfs, dfs, 0, path, close).errors[m]]
            0 <= m < missing_fields(sfs, dfs, 0, path, close).errors.len() ==> exists|j: int|
                #![trigger missing_error(sfs, j, path, close)]
                0 <= j < sfs.len() && absent_without_default(sfs, dfs, j)
                    && missing_fields(sfs, dfs, 0, path, close).errors[m] == missing_error(sfs, j, path, close),
        forall|j: int|
            0 <= j < sfs.len() && #[trigger] absent_without_default(sfs, dfs, j) ==> missing_fields(
                sfs,
                dfs,
                0,
                path,
                close,
            ).errors.contains(missing_error(sfs, j, path, close)),
{
    missing_from(sfs, dfs, 0, path, close);
}

/// Whether data field `j` bears a name that the schema does not declare.
pub open spec fn undeclared(dfs: DataFields, sfs: Seq<SpecFieldDef>, j: int) -> bool {
    schema_index(sfs, dfs[j].0.value, 0) < 0
}

/// The error that reports data field `j` as unknown.
pub open spec fn unknown_error(dfs: DataFields, j: int, path: Seq<char>) -> SpecValidationError {
    SpecValidationError {
        path: path_to(path, dfs[j].0.value),
        span: dfs[j].0.span,
        kind: SpecErrorKind::UnknownField { field_name: dfs[j].0.value },
    }
}

proof fn unknown_from(dfs: DataFields, sfs: Seq<SpecFieldDef>, k: int, path: Seq<char>)
    requires
        0 <= k,
    ensures
        unknown_fields(dfs, sfs, k, path).warnings.len() == 0,
        forall|m: int|
            #![trigger unknown_fields(dfs, sfs, k, path).errors[m]]
            0 <= m < unknown_fields(dfs, sfs, k, path).errors.len() ==> exists|j: int|
                #![trigger unknown_error(dfs, j, path)]
                k <= j < dfs.len() && undeclared(dfs, sfs, j) && unknown_fields(dfs, sfs, k, path).errors[m]
                    == unknown_error(dfs, j, path),
        forall|j: int|
            k <= j < dfs.len() && #[trigger] undeclared(dfs, sfs, j) ==> unknown_fields(dfs, sfs, k, path).errors.contains(
                unknown_error(dfs, j, path),
            ),
    decreases dfs.len() - k,
{
    let r = unknown_fields(dfs, sfs, k, path);
    if k < dfs.len() {
        unknown_from(dfs, sfs, k + 1, path);
        let rest = unknown_fields(dfs, sfs, k + 1, path);
        let h: int = if undeclared(dfs, sfs, k) { 1 } else { 0 };
        assert(r.errors.len() == h + rest.errors.len());
        assert forall|m: int| #![trigger r.errors[m]] 0 <= m < r.errors.len() implies exists|j: int|
            #![trigger unknown_error(dfs, j, path)]
            k <= j < dfs.len() && undeclared(dfs, sfs, j) && r.errors[m] == unknown_error(dfs, j, path) by {
            if m < h {
                assert(r.errors[m] == unknown_error(dfs, k, path));
            } else {
                assert(r.errors[m] == rest.errors[m - h]);
            }
        }
        assert forall|j: int| k <= j < dfs.len() && #[trigger] undeclared(dfs, sfs, j) implies r.errors.contains(
            unknown_error(dfs, j, path),
        ) by {
            if j == k {
                assert(r.errors[0] == unknown_error(dfs, k, path));
            } else {
                let m = choose|m: int| 0 <= m < rest.errors.len() && rest.errors[m] == unknown_error(dfs, j, path);
                assert(r.errors[m + h] == rest.errors[m]);
            }
        }
    }
}

/// A data field is reported unknown exactly when the schema declares no field of its name, and
/// nothing else is reported there.
pub proof fn unknown_exactly_when_undeclared(dfs: DataFields, sfs: Seq<SpecFieldDef>, path: Seq<char>)
    ensures
        unknown_fields(dfs, sfs, 0, path).warnings.len() == 0,
        forall|m: int|
            #![trigger unknown_fields(dfs, sfs, 0, path).errors[m]]
            0 <= m < unknown_fields(dfs, sfs, 0, path).errors.len() ==> exists|j: int|
                #![trigger unknown_error(dfs, j, path)]
                0 <= j < dfs.len() && undeclared(dfs, sfs, j) && unknown_fields(dfs, sfs, 0, path).errors[m]
                    == unknown_error(dfs, j, path),
        forall|j: int|
            0 <= j < dfs.len() && #[trigger] undeclared(dfs, sfs, j) ==> unknown_fields(dfs, sfs, 0, path).errors.contains(
                unknown_error(dfs, j, path),
            ),
{
    unknown_from(dfs, sfs, 0, path);
}

// ===========================================================================
// Annotations
// ===========================================================================

/// Whether a value breaks an annotation: a number outside the inclusive range, a string (by
/// its UTF-8 length) or a list shorter than the minimum or longer than the maximum, a string
/// that a valid pattern does not match. An annotation never applies to other values.
pub open spec fn breaks(a: SpecFieldAnnotation, v: SpecRonValue) -> bool {
    match a {
        SpecFieldAnnotation::Range(min, max) => match numeric(v) {
            Some(x) => decimal_order(x, min) < 0 || decimal_order(x, max) > 0,
            None => false,
        },
        SpecFieldAnnotation::MinLength(m) => match length_of(v) {
            Some(l) => l < m,
            None => false,
        },
        SpecFieldAnnotation::MaxLength(m) => match length_of(v) {
            Some(l) => l > m,
            None => false,
        },
        SpecFieldAnnotation::Pattern(p) => match v {
            SpecRonValue::String(s) => regex_is_valid(p) && !regex_matches(p, s),
            _ => false,
        },
    }
}

/// An annotation reports one error about a field's value when the value breaks it, and none
/// otherwise; it never warns.
pub proof fn annotation_reports_exactly_breaks(a: SpecFieldAnnotation, fp: Seq<char>, dv: Spanned<SpecRonValue>)
    ensures
        annotation_errors(a, fp, dv).warnings.len() == 0,
        breaks(a, dv.value) ==> annotation_errors(a, fp, dv).errors.len() == 1
            && annotation_errors(a, fp, dv).errors[0].path == fp && annotation_errors(a, fp, dv).errors[0].span == dv.span,
        !breaks(a, dv.value) ==> annotation_errors(a, fp, dv).errors.len() == 0,
{
}

// ===========================================================================
// Field order
// ===========================================================================

/// Whether the data fields from index `k` on that the schema declares come in the schema's
/// order, none of them before schema field `last`.
pub open spec fn in_schema_order(dfs: DataFields, sfs: Seq<SpecFieldDef>, k: int, last: int) -> bool {
    &&& forall|i: int|
        k <= i < dfs.len() && schema_index(sfs, dfs[i].0.value, 0) >= 0 ==> last <= #[trigger] schema_index(
            sfs,
            dfs[i].0.value,
            0,
        )
    &&& forall|i: int, j: int|
        k <= i < j < dfs.len() && schema_index(sfs, dfs[i].0.value, 0) >= 0 && schema_index(sfs, dfs[j].0.value, 0)
            >= 0 ==> #[trigger] schema_index(sfs, dfs[i].0.value, 0) <= #[trigger] schema_index(sfs, dfs[j].0.value, 0)
}

proof fn order_from(dfs: DataFields, sfs: Seq<SpecFieldDef>, k: int, last: int, path: Seq<char>)
    requires
        0 <= k,
    ensures
        in_schema_order(dfs, sfs, k, last) ==> order_warnings(dfs, sfs, k, last, path).len() == 0,
        (exists|i: int|
            k <= i < dfs.len() && 0 <= #[trigger] schema_index(sfs, dfs[i].0.value, 0) < last) ==> order_warnings(
            dfs,
            sfs,
            k,
            last,
            path,
        ).len() > 0,
        (exists|i: int, j: int|
            k <= i < j < dfs.len() && 0 <= #[trigger] schema_index(sfs, dfs[j].0.value, 0) < #[trigger] schema_index(
                sfs,
                dfs[i].0.value,
                0,
            )) ==> order_warnings(dfs, sfs, k, last, path).len() > 0,
    decreases dfs.len() - k,
{
    if k < dfs.len() {
        let si = schema_index(sfs, dfs[k].0.value, 0);
        order_from(dfs, sfs, k + 1, last, path);
        if si >= last {
            order_from(dfs, sfs, k + 1, si, path);
        }
        if in_schema_order(dfs, sfs, k, last) {
            if si >= 0 {
                assert(last <= si);
                assert forall|i: int|
                    k + 1 <= i < dfs.len() && schema_index(sfs, dfs[i].0.value, 0) >= 0 implies si
                    <= #[trigger] schema_index(sfs, dfs[i].0.value, 0) by {
                    assert(schema_index(sfs, dfs[k].0.value, 0) <= schema_index(sfs, dfs[i].0.value, 0));
                }
                assert(in_schema_order(dfs, sfs, k + 1, si));
            } else {
                assert(in_schema_order(dfs, sfs, k + 1, last));
            }
        }
        if exists|i: int| k <= i < dfs.len() && 0 <= #[trigger] schema_index(sfs, dfs[i].0.value, 0) < last {
            let i = choose|i: int| k <= i < dfs.len() && 0 <= #[trigger] schema_index(sfs, dfs[i].0.value, 0) < last;
            if i > k && si >= last {
                assert(0 <= schema_index(sfs, dfs[i].0.value, 0) < si);
            }
        }
        if exists|i: int, j: int|
            k <= i < j < dfs.len() && 0 <= #[trigger] schema_index(sfs, dfs[j].0.value, 0) < #[trigger] schema_index(
                sfs,
                dfs[i].0.value,
                0,
            ) {
            let (i, j) = choose|i: int, j: int|
                k <= i < j < dfs.len() && 0 <= #[trigger] schema_index(sfs, dfs[j].0.value, 0) < #[trigger] schema_index(
                    sfs,
                    dfs[i].0.value,
                    0,
                );
            if i == k {
                if si >= last {
                    assert(0 <= schema_index(sfs, dfs[j].0.value, 0) < si);
                } else {
                    assert(si < last);
                }
            } else if si >= last {
                order_from(dfs, sfs, k + 1, si, path);
            }
        }
    }
}

/// Data fields in the order the schema declares them draw no order warning; a data field that
/// comes after one the schema declares later always draws one.
pub proof fn order_warnings_exactly_when_out_of_order(dfs: DataFields, sfs: Seq<SpecFieldDef>, path: Seq<char>)
    ensures
        in_schema_order(dfs, sfs, 0, 0) ==> order_warnings(dfs, sfs, 0, 0, path).len() == 0,
        (exists|i: int, j: int|
            0 <= i < j < dfs.len() && 0 <= #[trigger] schema_index(sfs, dfs[j].0.value, 0) < #[trigger] schema_index(
                sfs,
                dfs[i].0.value,
                0,
            )) ==> order_warnings(dfs, sfs, 0, 0, path).len() > 0,
{
    order_from(dfs, sfs, 0, 0, path);
}

// ===========================================================================
// All errors of a struct
// ===========================================================================

/// Validating a struct value collects every error rather than stopping at the first: the
/// missing fields, then the unknown fields, then the errors of each field present in both (its
/// type and its annotations), then the broken cross-field constraints; the warnings are those
/// of the fields present in both, then those of the field order.
pub proof fn struct_errors_collected(
    sd: SpecStructDef,
    v: Spanned<SpecRonValue>,
    path: Seq<char>,
    enums: Seq<SpecEnumDef>,
    aliases: SpecAliases,
)
    requires
        v.value is Struct,
    ensures
        ({
            let ds = v.value->Struct_0;
            let m = missing_fields(sd.fields, ds.fields, 0, path, ds.close_span);
            let u = unknown_fields(ds.fields, sd.fields, 0, path);
            let t = matching_fields(sd.fields, ds.fields, 0, path, enums, aliases);
            let q = require_report(sd.annotations, 0, sd.fields, ds.fields, path, v.span);
            &&& check_struct(sd, v, path, enums, aliases).errors == m.errors + u.errors + t.errors + q.errors
            &&& check_struct(sd, v, path, enums, aliases).warnings == t.warnings + order_warnings(
                ds.fields,
                sd.fields,
                0,
                0,
                path,
            )
        }),
{
    let ds = v.value->Struct_0;
    missing_from(sd.fields, ds.fields, 0, path, ds.close_span);
    unknown_from(ds.fields, sd.fields, 0, path);
    lemma_require_quiet(sd.annotations, 0, sd.fields, ds.fields, path, v.span);
    let m = missing_fields(sd.fields, ds.fields, 0, path, ds.close_span);
    let u = unknown_fields(ds.fields, sd.fields, 0, path);
    let t = matching_fields(sd.fields, ds.fields, 0, path, enums, aliases);
    let q = require_report(sd.annotations, 0, sd.fields, ds.fields, path, v.span);
    let o = order_warnings(ds.fields, sd.fields, 0, 0, path);
    assert(m.warnings =~= Seq::<SpecWarning>::empty());
    assert(u.warnings =~= Seq::<SpecWarning>::empty());
    assert(m.errors + u.errors + t.errors + (Seq::<SpecValidationError>::empty() + q.errors) =~= m.errors + u.errors
        + t.errors + q.errors);
    assert(m.warnings + u.warnings + t.warnings + (o + q.warnings) =~= t.warnings + o);
}

proof fn lemma_require_quiet(
    anns: Seq<Spanned<crate::schema::SpecRequire>>,
    k: int,
    sfs: Seq<SpecFieldDef>,
    dfs: DataFields,
    path: Seq<char>,
    span: Span,
)
    requires
        0 <= k,
    ensures
        require_report(anns, k, sfs, dfs, path, span).warnings.len() == 0,
    decreases anns.len() - k,
{
    if k < anns.len() {
        lemma_require_quiet(anns, k + 1, sfs, dfs, path, span);
    }
}

/// A cross-field constraint reads a field's value from the data when the data has the field,
/// and otherwise from the schema's default for it.
pub proof fn constraint_reads_default_when_absent(sfs: Seq<SpecFieldDef>, dfs: DataFields, name: Seq<char>)
    ensures
        data_index(dfs, name, dfs.len() as int) < 0 ==> field_value(sfs, dfs, name) == default_of(
            sfs,
            name,
            sfs.len() as int,
        ),
        0 <= data_index(dfs, name, dfs.len() as int) ==> field_value(sfs, dfs, name) == Some(
            dfs[data_index(dfs, name, dfs.len() as int)].1.value,
        ),
{
    lemma_data_index_bounds(dfs, name, dfs.len() as int);
}

proof fn lemma_data_index_bounds(dfs: DataFields, name: Seq<char>, k: int)
    ensures
        data_index(dfs, name, k) < dfs.len(),
        data_index(dfs, name, k) >= -1,
    decreases k,
{
    if 0 < k <= dfs.len() && dfs[k - 1].0.value != name {
        lemma_data_index_bounds(dfs, name, k - 1);
    }
}

// ===========================================================================
// Schemas that parse
// ===========================================================================

proof fn defaults_fit_from(fs: Seq<SpecFieldDef>, k: int, enums: Seq<SpecEnumDef>, aliases: SpecAliases, fuel: nat)
    requires
        0 <= k,
        bad_default(fs, k, enums, aliases, fuel) is None,
    ensures
        forall|i: int|
            k <= i < fs.len() && (#[trigger] fs[i]).default is Some ==> default_fits(
                fs[i].default->0,
                fs[i].type_.value,
                enums,
                aliases,
                fuel,
            ),
    decreases fs.len() - k,
{
    if k < fs.len() {
        defaults_fit_from(fs, k + 1, enums, aliases, fuel);
    }
}

proof fn refs_resolve_from(fs: Seq<SpecFieldDef>, k: int, enums: Seq<SpecEnumDef>, aliases: SpecAliases)
    requires
        0 <= k,
        fields_refs(fs, k, enums, aliases) is None,
    ensures
        forall|i: int| k <= i < fs.len() ==> type_refs((#[trigger] fs[i]).type_.value, fs[i].type_.span, enums, aliases) is None,
    decreases fs.len() - k,
{
    if k < fs.len() {
        refs_resolve_from(fs, k + 1, enums, aliases);
    }
}

proof fn no_cycles_from(aliases: SpecAliases, k: int)
    requires
        0 <= k,
        alias_cycles(aliases, k) is None,
    ensures
        forall|i: int|
            k <= i < aliases.len() ==> cycle_in((#[trigger] aliases[i]).1.value, aliases, seq![aliases[i].0], aliases.len()) is None,
    decreases aliases.len() - k,
{
    if k < aliases.len() {
        no_cycles_from(aliases, k + 1);
    }
}

/// What a schema that parses guarantees. No type alias leads back to itself through the
/// aliases it refers to. When the schema has no imports (which could still bring definitions
/// in), every type that a root field names is defined (an enum reference names an enum, an
/// alias reference an alias, and so on inside composite types), and every default given to a
/// root field is a value of the field's type.
pub proof fn parsed_schema_is_checked(src: Seq<u8>)
    requires
        schema_of_source(src) is Ok,
    ensures
        ({
            let s = schema_of_source(src)->Ok_0;
            &&& forall|i: int|
                0 <= i < s.aliases.len() ==> cycle_in(
                    (#[trigger] s.aliases[i]).1.value,
                    s.aliases,
                    seq![s.aliases[i].0],
                    s.aliases.len(),
                ) is None
            &&& s.imports.len() == 0 ==> forall|i: int|
                0 <= i < s.root.fields.len() ==> type_refs(
                    (#[trigger] s.root.fields[i]).type_.value,
                    s.root.fields[i].type_.span,
                    s.enums,
                    s.aliases,
                ) is None
            &&& s.imports.len() == 0 ==> forall|i: int|
                0 <= i < s.root.fields.len() && (#[trigger] s.root.fields[i]).type_.value is EnumRef
                    ==> find_enum(s.enums, s.root.fields[i].type_.value->EnumRef_0, 0) is Some
            &&& s.imports.len() == 0 ==> forall|i: int|
                0 <= i < s.root.fields.len() && (#[trigger] s.root.fields[i]).type_.value is AliasRef
                    ==> find_alias(s.aliases, s.root.fields[i].type_.value->AliasRef_0, 0) is Some
            &&& s.imports.len() == 0 ==> forall|i: int|
                0 <= i < s.root.fields.len() && (#[trigger] s.root.fields[i]).default is Some ==> default_fits(
                    s.root.fields[i].default->0,
                    s.root.fields[i].type_.value,
                    s.enums,
                    s.aliases,
                    s.aliases.len(),
                )
        }),
{
    let s = schema_of_source(src)->Ok_0;
    no_cycles_from(s.aliases, 0);
    if s.imports.len() == 0 {
        refs_resolve_from(s.root.fields, 0, s.enums, s.aliases);
        assert(bad_default(s.root.fields, 0, s.enums, s.aliases, s.aliases.len()) is None) by {
            assert(struct_defaults(s.root, s.enums, s.aliases, s.aliases.len()) is None);
        }
        defaults_fit_from(s.root.fields, 0, s.enums, s.aliases, s.aliases.len());
    }
}

// ===========================================================================
// Merging imports
// ===========================================================================

proof fn merge_enums_from(
    enums: Seq<SpecEnumDef>,
    aliases: SpecAliases,
    imported: Seq<SpecEnumDef>,
    k: int,
    path: Seq<char>,
    span: Span,
)
    requires
        0 <= k <= imported.len(),
    ensures
        merge_enums(enums, aliases, imported, k, path, span) is Ok ==> merge_enums(enums, aliases, imported, k, path, span)->Ok_0
            == enums + imported.skip(k),
        merge_enums(enums, aliases, imported, k, path, span) is Err <==> exists|i: int|
            k <= i < imported.len() && #[trigger] name_taken(enums + imported.subrange(k, i), aliases, imported[i].name),
        merge_enums(enums, aliases, imported, k, path, span) is Err ==> merge_enums(enums, aliases, imported, k, path, span)->Err_0.span
            == span && merge_enums(enums, aliases, imported, k, path, span)->Err_0.kind is ImportNameCollision
            && merge_enums(enums, aliases, imported, k, path, span)->Err_0.kind->ImportNameCollision_import_path == path,
    decreases imported.len() - k,
{
    if k == imported.len() {
        assert(enums + imported.skip(k) =~= enums);
    } else {
        assert(enums + imported.subrange(k, k) =~= enums);
        if !name_taken(enums, aliases, imported[k].name) {
            let e2 = enums.push(imported[k]);
            merge_enums_from(e2, aliases, imported, k + 1, path, span);
            assert(e2 + imported.skip(k + 1) =~= enums + imported.skip(k));
            assert forall|i: int| k + 1 <= i < imported.len() implies e2 + imported.subrange(k + 1, i) =~= enums
                + imported.subrange(k, i) by {}
            if exists|i: int| k <= i < imported.len() && #[trigger] name_taken(enums + imported.subrange(k, i), aliases, imported[i].name) {
                let i = choose|i: int|
                    k <= i < imported.len() && #[trigger] name_taken(enums + imported.subrange(k, i), aliases, imported[i].name);
                assert(i != k);
                assert(e2 + imported.subrange(k + 1, i) == enums + imported.subrange(k, i));
                assert(name_taken(e2 + imported.subrange(k + 1, i), aliases, imported[i].name));
            }
            if merge_enums(enums, aliases, imported, k, path, span) is Err {
                let i = choose|i: int|
                    k + 1 <= i < imported.len() && #[trigger] name_taken(e2 + imported.subrange(k + 1, i), aliases, imported[i].name);
                assert(e2 + imported.subrange(k + 1, i) == enums + imported.subrange(k, i));
                assert(name_taken(enums + imported.subrange(k, i), aliases, imported[i].name));
            }
        }
    }
}

proof fn merge_aliases_from(
    enums: Seq<SpecEnumDef>,
    aliases: SpecAliases,
    imported: SpecAliases,
    k: int,
    path: Seq<char>,
    span: Span,
)
    requires
        0 <= k <= imported.len(),
    ensures
        merge_aliases(enums, aliases, imported, k, path, span) is Ok ==> merge_aliases(enums, aliases, imported, k, path, span)->Ok_0
            == aliases + imported.skip(k),
        merge_aliases(enums, aliases, imported, k, path, span) is Err <==> exists|i: int|
            k <= i < imported.len() && #[trigger] name_taken(enums, aliases + imported.subrange(k, i), imported[i].0),
        merge_aliases(enums, aliases, imported, k, path, span) is Err ==> merge_aliases(enums, aliases, imported, k, path, span)->Err_0.span
            == span && merge_aliases(enums, aliases, imported, k, path, span)->Err_0.kind is ImportNameCollision
            && merge_aliases(enums, aliases, imported, k, path, span)->Err_0.kind->ImportNameCollision_import_path == path,
    decreases imported.len() - k,
{
    if k == imported.len() {
        assert(aliases + imported.skip(k) =~= aliases);
    } else {
        assert(aliases + imported.subrange(k, k) =~= aliases);
        if !name_taken(enums, aliases, imported[k].0) {
            let a2 = aliases.push(imported[k]);
            merge_aliases_from(enums, a2, imported, k + 1, path, span);
            assert(a2 + imported.skip(k + 1) =~= aliases + imported.skip(k));
            assert forall|i: int| k + 1 <= i < imported.len() implies a2 + imported.subrange(k + 1, i) =~= aliases
                + imported.subrange(k, i) by {}
            if exists|i: int| k <= i < imported.len() && #[trigger] name_taken(enums, aliases + imported.subrange(k, i), imported[i].0) {
                let i = choose|i: int|
                    k <= i < imported.len() && #[trigger] name_taken(enums, aliases + imported.subrange(k, i), imported[i].0);
                assert(i != k);
                assert(a2 + imported.subrange(k + 1, i) == aliases + imported.subrange(k, i));
                assert(name_taken(enums, a2 + imported.subrange(k + 1, i), imported[i].0));
            }
            if merge_aliases(enums, aliases, imported, k, path, span) is Err {
                let i = choose|i: int|
                    k + 1 <= i < imported.len() && #[trigger] name_taken(enums, a2 + imported.subrange(k + 1, i), imported[i].0);
                assert(a2 + imported.subrange(k + 1, i) == aliases + imported.subrange(k, i));
                assert(name_taken(enums, aliases + imported.subrange(k, i), imported[i].0));
            }
        }
    }
}

/// Merging an imported schema either appends all its enums, then all its aliases, in their
/// order, after those already there, or refuses the import with a name collision reported at
/// the import. It refuses exactly when an imported name is already taken by an enum or alias
/// defined before it: one of the schema's own, or one imported earlier.
pub proof fn merge_appends_or_collides(s: SpecSchema, imported: SpecSchema, path: Seq<char>, span: Span)
    ensures
        merged(s, imported, path, span) is Ok ==> merged(s, imported, path, span)->Ok_0 == (
            s.enums + imported.enums,
            s.aliases + imported.aliases,
        ),
        merged(s, imported, path, span) is Err <==> (exists|i: int|
            0 <= i < imported.enums.len() && #[trigger] name_taken(
                s.enums + imported.enums.take(i),
                s.aliases,
                imported.enums[i].name,
            )) || (exists|i: int|
            0 <= i < imported.aliases.len() && #[trigger] name_taken(
                s.enums + imported.enums,
                s.aliases + imported.aliases.take(i),
                imported.aliases[i].0,
            )),
        merged(s, imported, path, span) is Err ==> merged(s, imported, path, span)->Err_0.span == span
            && merged(s, imported, path, span)->Err_0.kind is ImportNameCollision
            && merged(s, imported, path, span)->Err_0.kind->ImportNameCollision_import_path == path,
{
    merge_enums_from(s.enums, s.aliases, imported.enums, 0, path, span);
    assert(imported.enums.skip(0) =~= imported.enums);
    assert(imported.aliases.skip(0) =~= imported.aliases);
    assert forall|i: int| 0 <= i < imported.enums.len() implies imported.enums.subrange(0, i) =~= imported.enums.take(i) by {}
    assert forall|i: int| 0 <= i < imported.aliases.len() implies imported.aliases.subrange(0, i) =~= imported.aliases.take(i) by {}
    if merge_enums(s.enums, s.aliases, imported.enums, 0, path, span) is Ok {
        let es = merge_enums(s.enums, s.aliases, imported.enums, 0, path, span)->Ok_0;
        merge_aliases_from(es, s.aliases, imported.aliases, 0, path, span);
    }
}

// ===========================================================================
// Map keys
// ===========================================================================

/// Whether every map type inside a type has a key of a key type: `String`, `Integer`, or a
/// reference to an enum or to a type alias.
pub open spec fn keys_valid(t: SpecSchemaType) -> bool
    decreases t, 1int,
{
    match t {
        SpecSchemaType::Option(b) => keys_valid(*b),
        SpecSchemaType::List(b) => keys_valid(*b),
        SpecSchemaType::Dict(k, v) => (*k is String || *k is Integer || *k is EnumRef || *k is AliasRef) && keys_valid(*k)
            && keys_valid(*v),
        SpecSchemaType::Tuple(ts) => forall|j: int| 0 <= j < ts.len() ==> keys_valid(#[trigger] ts[j]),
        SpecSchemaType::Struct(sd) => struct_keys_valid(sd),
        _ => true,
    }
}

pub open spec fn struct_keys_valid(sd: SpecStructDef) -> bool
    decreases sd, 0int,
{
    forall|j: int| 0 <= j < sd.fields.len() ==> keys_valid((#[trigger] sd.fields[j]).type_.value)
}

pub open spec fn fields_keys_valid(fs: Seq<SpecFieldDef>) -> bool {
    forall|j: int| 0 <= j < fs.len() ==> keys_valid((#[trigger] fs[j]).type_.value)
}

pub open spec fn variants_keys_valid(vs: Seq<(Seq<char>, Option<SpecSchemaType>)>) -> bool {
    forall|j: int| 0 <= j < vs.len() ==> ((#[trigger] vs[j]).1 matches Some(t) ==> keys_valid(t))
}

proof fn keys_type_at(s: Seq<u8>, i: int)
    ensures
        type_at(s, i) is Ok ==> keys_valid(type_at(s, i)->Ok_0.0.value),
    decreases s.len() - i, 2int,
{
    if 0 <= i <= s.len() {
        let w = skip_ws(s, i);
        lemma_skip_ws_bounds(s, i);
        if w < s.len() {
            if s[w] == 0x5b {
                keys_list_type_at(s, w);
            } else if s[w] == 0x7b {
                keys_dict_type_at(s, w);
            } else if s[w] == 0x28 {
                if paren_is_struct(s, w) {
                    keys_struct_at(s, w);
                } else {
                    keys_tuple_type_at(s, w);
                }
            } else {
                keys_named_type_at(s, w);
            }
        }
    }
}

proof fn keys_list_type_at(s: Seq<u8>, w: int)
    ensures
        list_type_at(s, w) is Ok ==> keys_valid(list_type_at(s, w)->Ok_0.0.value),
    decreases s.len() - w, 1int,
{
    if 0 <= w < s.len() {
        lemma_skip_ws_bounds(s, w + 1);
        keys_type_at(s, skip_ws(s, w + 1));
    }
}

proof fn keys_dict_type_at(s: Seq<u8>, w: int)
    ensures
        dict_type_at(s, w) is Ok ==> keys_valid(dict_type_at(s, w)->Ok_0.0.value),
    decreases s.len() - w, 1int,
{
    if 0 <= w < s.len() {
        lemma_skip_ws_bounds(s, w + 1);
        let a = skip_ws(s, w + 1);
        keys_type_at(s, a);
        match type_at(s, a) {
            Ok((k, ke)) => {
                match sexpect(s, skip_ws(s, ke), 0x3a) {
                    Ok(o) => {
                        if w < o <= s.len() {
                            lemma_skip_ws_bounds(s, o);
                            keys_type_at(s, skip_ws(s, o));
                        }
                    },
                    Err(_) => {},
                }
            },
            Err(_) => {},
        }
    }
}

proof fn keys_named_type_at(s: Seq<u8>, w: int)
    ensures
        named_type_at(s, w) is Ok ==> keys_valid(named_type_at(s, w)->Ok_0.0.value),
    decreases s.len() - w, 1int,
{
    if 0 <= w < s.len() {
        match sident(s, w) {
            Ok((id, e)) => {
                if w < e <= s.len() {
                    keys_option_type_at(s, w, e);
                }
            },
            Err(_) => {},
        }
    }
}

proof fn keys_option_type_at(s: Seq<u8>, w: int, e: int)
    ensures
        option_type_at(s, w, e) is Ok ==> keys_valid(option_type_at(s, w, e)->Ok_0.0.value),
    decreases s.len() - e, 3int,
{
    if 0 <= e <= s.len() {
        lemma_skip_ws_bounds(s, e);
        match sexpect(s, skip_ws(s, e), 0x28) {
            Ok(o) => {
                if e < o <= s.len() {
                    lemma_skip_ws_bounds(s, o);
                    keys_type_at(s, skip_ws(s, o));
                }
            },
            Err(_) => {},
        }
    }
}

proof fn keys_tuple_type_at(s: Seq<u8>, i: int)
    ensures
        tuple_type_at(s, i) is Ok ==> forall|j: int|
            0 <= j < tuple_type_at(s, i)->Ok_0.0.len() ==> keys_valid(#[trigger] tuple_type_at(s, i)->Ok_0.0[j]),
    decreases s.len() - i, 1int,
{
    if 0 <= i <= s.len() {
        lemma_skip_ws_bounds(s, i);
        match sexpect(s, skip_ws(s, i), 0x28) {
            Ok(o) => {
                if i < o <= s.len() {
                    keys_tuple_types(s, o);
                }
            },
            Err(_) => {},
        }
    }
}

proof fn keys_tuple_types(s: Seq<u8>, i: int)
    ensures
        tuple_types(s, i) is Ok ==> forall|j: int|
            0 <= j < tuple_types(s, i)->Ok_0.0.len() ==> keys_valid(#[trigger] tuple_types(s, i)->Ok_0.0[j]),
    decreases s.len() - i, 3int,
{
    if 0 <= i <= s.len() {
        let w = skip_ws(s, i);
        lemma_skip_ws_bounds(s, i);
        if !(w < s.len() && s[w] == 0x29) {
            keys_type_at(s, w);
            match type_at(s, w) {
                Ok((t, te)) => {
                    if w < te <= s.len() {
                        let w2 = skip_ws(s, te);
                        lemma_skip_ws_bounds(s, te);
                        let next = if w2 < s.len() && s[w2] == 0x2c {
                            w2 + 1
                        } else {
                            w2
                        };
                        keys_tuple_types(s, next);
                        if tuple_types(s, i) is Ok {
                            let rest = tuple_types(s, next)->Ok_0.0;
                            let all = tuple_types(s, i)->Ok_0.0;
                            assert(all == seq![t.value] + rest);
                            assert forall|j: int| 0 <= j < all.len() implies keys_valid(#[trigger] all[j]) by {
                                if j > 0 {
                                    assert(all[j] == rest[j - 1]);
                                }
                            }
                        }
                    }
                },
                Err(_) => {},
            }
        }
    }
}

proof fn keys_struct_at(s: Seq<u8>, w: int)
    requires
        0 <= w < s.len(),
        s[w] == 0x28,
    ensures
        struct_at(s, w) is Ok ==> struct_keys_valid(struct_at(s, w)->Ok_0.0),
    decreases s.len() - w, 1int,
{
    assert(skip_ws(s, w) == w);
    assert(sexpect(s, w, 0x28) == Ok::<int, crate::error::SpecSchemaParseError>(w + 1));
    keys_struct_items(s, w + 1, Seq::empty());
    let items = struct_items(s, w + 1, Seq::empty());
    assert(struct_at(s, w) == struct_of(items));
    if items is Ok && struct_at(s, w) is Ok {
        let fs = items->Ok_0.0;
        assert(struct_at(s, w)->Ok_0.0.fields == fs);
    }
}

proof fn keys_struct_items(s: Seq<u8>, i: int, pending: Seq<Spanned<crate::schema::SpecFieldAnnotation>>)
    ensures
        struct_items(s, i, pending) is Ok ==> fields_keys_valid(struct_items(s, i, pending)->Ok_0.0),
    decreases s.len() - i, 3int,
{
    if 0 <= i <= s.len() {
        let w = skip_ws(s, i);
        lemma_skip_ws_bounds(s, i);
        if w >= s.len() || s[w] == 0x29 {
            lemma_items_end(s, i, pending);
        } else if s[w] == 0x40 {
            lemma_items_annotation(s, i, pending);
            match annotation_at(s, w) {
                Ok((ann, ae)) => {
                    if w < ae <= s.len() {
                        match ann {
                            SpecAnnotation::Require(r) => {
                                keys_struct_items(s, ae, pending);
                                if struct_items(s, ae, pending) is Ok {
                                    let inner = struct_items(s, ae, pending)->Ok_0;
                                    assert(Seq::<SpecFieldDef>::empty() + inner.0 =~= inner.0);
                                }
                            },
                            SpecAnnotation::Field(fa) => {
                                keys_struct_items(s, ae, pending.push(fa));
                            },
                        }
                    }
                },
                Err(_) => {},
            }
        } else {
            lemma_items_field(s, i, pending);
            keys_field_at(s, w, pending);
            match field_at(s, w, pending) {
                Ok((f, fe)) => {
                    if w < fe <= s.len() {
                        let w2 = skip_ws(s, fe);
                        lemma_skip_ws_bounds(s, fe);
                        let next = if w2 < s.len() && s[w2] == 0x2c {
                            w2 + 1
                        } else {
                            w2
                        };
                        keys_struct_items(s, next, Seq::empty());
                        if struct_items(s, i, pending) is Ok {
                            let rest = struct_items(s, next, Seq::empty())->Ok_0.0;
                            let all = struct_items(s, i, pending)->Ok_0.0;
                            assert(all == seq![f] + rest);
                            assert forall|j: int| 0 <= j < all.len() implies keys_valid((#[trigger] all[j]).type_.value) by {
                                if j > 0 {
                                    assert(all[j] == rest[j - 1]);
                                }
                            }
                        }
                    }
                },
                Err(_) => {},
            }
        }
    } else {
        crate::schema::grammar::lemma_items_outside(s, i, pending);
    }
}

proof fn keys_field_at(s: Seq<u8>, i: int, anns: Seq<Spanned<crate::schema::SpecFieldAnnotation>>)
    ensures
        field_at(s, i, anns) is Ok ==> keys_valid(field_at(s, i, anns)->Ok_0.0.type_.value),
    decreases s.len() - i, 1int,
{
    if 0 <= i <= s.len() {
        let w = skip_ws(s, i);
        lemma_skip_ws_bounds(s, i);
        match sident(s, w) {
            Ok((name, ne)) => {
                match sexpect(s, skip_ws(s, ne), 0x3a) {
                    Ok(o) => {
                        if w < o <= s.len() {
                            lemma_skip_ws_bounds(s, o);
                            keys_type_at(s, skip_ws(s, o));
                        }
                    },
                    Err(_) => {},
                }
            },
            Err(_) => {},
        }
    }
}

proof fn keys_push_variant(vs: Seq<(Seq<char>, Option<SpecSchemaType>)>, name: Seq<char>, data: Option<SpecSchemaType>)
    requires
        variants_keys_valid(vs),
        data matches Some(t) ==> keys_valid(t),
    ensures
        variants_keys_valid(vs.push((name, data))),
{
    let r = vs.push((name, data));
    assert forall|j: int| 0 <= j < r.len() implies ((#[trigger] r[j]).1 matches Some(t) ==> keys_valid(t)) by {
        if j < vs.len() {
            assert(r[j] == vs[j]);
        }
    }
}

proof fn keys_variants_at(s: Seq<u8>, en: Seq<char>, i: int, acc: Seq<(Seq<char>, Option<SpecSchemaType>)>)
    requires
        variants_keys_valid(acc),
    ensures
        variants_at(s, en, i, acc) is Ok ==> variants_keys_valid(variants_at(s, en, i, acc)->Ok_0.0),
    decreases s.len() - i,
{
    if 0 <= i <= s.len() {
        let w = skip_ws(s, i);
        lemma_skip_ws_bounds(s, i);
        if w < s.len() && s[w] != 0x7d {
            match sident(s, w) {
                Ok((v, ve)) => {
                    crate::text::lemma_ident_end_bounds(s, w);
                    lemma_skip_ws_bounds(s, ve);
                    let d = skip_ws(s, ve);
                    crate::schema::grammar::lemma_variant_data(s, d);
                    if 0 <= d < s.len() && s[d] == 0x28 {
                        keys_type_at(s, skip_ws(s, d + 1));
                    }
                    match variant_data_at(s, d) {
                        Ok((dt, after)) => {
                            if w < after <= s.len() {
                                let w2 = skip_ws(s, after);
                                lemma_skip_ws_bounds(s, after);
                                let next = if w2 < s.len() && s[w2] == 0x2c {
                                    w2 + 1
                                } else {
                                    w2
                                };
                                keys_push_variant(acc, v.value, dt);
                                keys_variants_at(s, en, next, acc.push((v.value, dt)));
                            }
                        },
                        Err(_) => {},
                    }
                },
                Err(_) => {},
            }
        }
    }
}

proof fn keys_defs_at(
    s: Seq<u8>,
    i: int,
    enums: Seq<crate::schema::SpecEnumDef>,
    aliases: Seq<(Seq<char>, Spanned<SpecSchemaType>)>,
)
    requires
        forall|k: int| 0 <= k < enums.len() ==> variants_keys_valid(#[trigger] enums[k].variants),
        forall|k: int| 0 <= k < aliases.len() ==> keys_valid((#[trigger] aliases[k]).1.value),
    ensures
        defs_at(s, i, enums, aliases) is Ok ==> (forall|k: int|
            0 <= k < defs_at(s, i, enums, aliases)->Ok_0.0.len() ==> variants_keys_valid(
                #[trigger] defs_at(s, i, enums, aliases)->Ok_0.0[k].variants,
            )) && (forall|k: int|
            0 <= k < defs_at(s, i, enums, aliases)->Ok_0.1.len() ==> keys_valid(
                (#[trigger] defs_at(s, i, enums, aliases)->Ok_0.1[k]).1.value,
            )),
    decreases s.len() - i,
{
    if 0 <= i <= s.len() {
        let w = skip_ws(s, i);
        lemma_skip_ws_bounds(s, i);
        if w < s.len() {
            match sident(s, w) {
                Ok((kw, _)) => {
                    if kw.value == "enum"@ {
                        match enum_def_at(s, w) {
                            Ok((ed, ee)) => {
                                match sident(s, skip_ws(s, w)) {
                                    Ok((_, ke)) => {
                                        match sident(s, skip_ws(s, ke)) {
                                            Ok((nm, ne)) => {
                                                match sexpect(s, skip_ws(s, ne), 0x7b) {
                                                    Ok(o) => {
                                                        keys_variants_at(s, nm.value, o, Seq::empty());
                                                    },
                                                    Err(_) => {},
                                                }
                                            },
                                            Err(_) => {},
                                        }
                                    },
                                    Err(_) => {},
                                }
                                if w < ee <= s.len() {
                                    let e2 = enums.push(ed);
                                    assert forall|k: int| 0 <= k < e2.len() implies variants_keys_valid(#[trigger] e2[k].variants) by {
                                        if k < enums.len() {
                                            assert(e2[k] == enums[k]);
                                        }
                                    }
                                    keys_defs_at(s, ee, e2, aliases);
                                }
                            },
                            Err(_) => {},
                        }
                    } else if kw.value == "type"@ {
                        match alias_def_at(s, w) {
                            Ok(((name, t), te)) => {
                                match sident(s, skip_ws(s, w)) {
                                    Ok((_, ke)) => {
                                        match sident(s, skip_ws(s, ke)) {
                                            Ok((_, ne)) => {
                                                match sexpect(s, skip_ws(s, ne), 0x3d) {
                                                    Ok(o) => {
                                                        keys_type_at(s, skip_ws(s, o));
                                                    },
                                                    Err(_) => {},
                                                }
                                            },
                                            Err(_) => {},
                                        }
                                    },
                                    Err(_) => {},
                                }
                                if w < te <= s.len() {
                                    let a2 = aliases.push((name, t));
                                    assert forall|k: int| 0 <= k < a2.len() implies keys_valid((#[trigger] a2[k]).1.value) by {
                                        if k < aliases.len() {
                                            assert(a2[k] == aliases[k]);
                                        }
                                    }
                                    keys_defs_at(s, te, enums, a2);
                                }
                            },
                            Err(_) => {},
                        }
                    }
                },
                Err(_) => {},
            }
        }
    }
}

proof fn keys_reclass(t: SpecSchemaType, names: Seq<Seq<char>>)
    requires
        keys_valid(t),
    ensures
        keys_valid(reclass_type(t, names)),
    decreases t, 1int,
{
    match t {
        SpecSchemaType::Option(b) => keys_reclass(*b, names),
        SpecSchemaType::List(b) => keys_reclass(*b, names),
        SpecSchemaType::Dict(k, v) => {
            keys_reclass(*k, names);
            keys_reclass(*v, names);
        },
        SpecSchemaType::Tuple(ts) => {
            let r = reclass_type(t, names)->Tuple_0;
            assert forall|j: int| 0 <= j < r.len() implies keys_valid(#[trigger] r[j]) by {
                keys_reclass(ts[j], names);
            }
        },
        SpecSchemaType::Struct(sd) => keys_reclass_struct(sd, names),
        _ => {},
    }
}

proof fn keys_reclass_struct(sd: SpecStructDef, names: Seq<Seq<char>>)
    requires
        struct_keys_valid(sd),
    ensures
        struct_keys_valid(reclass_struct(sd, names)),
    decreases sd, 0int,
{
    let r = reclass_struct(sd, names);
    assert forall|j: int| 0 <= j < r.fields.len() implies keys_valid((#[trigger] r.fields[j]).type_.value) by {
        assert(r.fields[j] == reclass_field(sd.fields[j], names));
        keys_reclass(sd.fields[j].type_.value, names);
    }
}

/// In a schema that parses, every map type has a key of a key type: `String`, `Integer`, or a
/// reference to an enum or to a type alias. This holds of the root struct, of the type aliases
/// and of the data types of enum variants.
pub proof fn parsed_map_keys_valid(src: Seq<u8>)
    requires
        schema_of_source(src) is Ok,
    ensures
        struct_keys_valid(schema_of_source(src)->Ok_0.root),
        forall|k: int|
            0 <= k < schema_of_source(src)->Ok_0.aliases.len() ==> keys_valid(
                (#[trigger] schema_of_source(src)->Ok_0.aliases[k]).1.value,
            ),
        forall|k: int|
            0 <= k < schema_of_source(src)->Ok_0.enums.len() ==> variants_keys_valid(
                #[trigger] schema_of_source(src)->Ok_0.enums[k].variants,
            ),
{
    match crate::schema::grammar::imports_at(src, skip_ws(src, 0), Seq::empty()) {
        Ok((imports, ia)) => {
            if ia < src.len() && src[ia] == 0x28 {
                if 0 <= ia {
                    keys_struct_at(src, ia);
                }
            }
            let root: Result<(SpecStructDef, int), crate::error::SpecSchemaParseError> = if ia < src.len() && src[ia] == 0x28 {
                struct_at(src, ia)
            } else {
                Ok((SpecStructDef { fields: Seq::empty(), annotations: Seq::empty() }, ia))
            };
            match root {
                Ok((r, re)) => {
                    keys_defs_at(src, re, Seq::empty(), Seq::empty());
                    let parts = schema_parts(src)->Ok_0;
                    let names = alias_names(parts.3);
                    keys_reclass_struct(parts.1, names);
                    let a2 = reclass_aliases(parts.3, names);
                    assert forall|k: int| 0 <= k < a2.len() implies keys_valid((#[trigger] a2[k]).1.value) by {
                        keys_reclass(parts.3[k].1.value, names);
                    }
                },
                Err(_) => {},
            }
        },
        Err(_) => {},
    }
}

// ===========================================================================
// Data field order
// ===========================================================================

/// Whether the data fields bear distinct names.
pub open spec fn names_unique(dfs: DataFields) -> bool {
    forall|i: int, j: int| 0 <= i < j < dfs.len() ==> (#[trigger] dfs[i]).0.value != (#[trigger] dfs[j]).0.value
}

/// Whether `dfs2` holds the data fields of `dfs` in another order: `p` takes each position of
/// `dfs2` to that of the same field in `dfs`, and `q` takes it back.
pub open spec fn reordered(dfs: DataFields, dfs2: DataFields, p: spec_fn(int) -> int, q: spec_fn(int) -> int) -> bool {
    &&& dfs2.len() == dfs.len()
    &&& forall|i: int| 0 <= i < dfs2.len() ==> 0 <= #[trigger] p(i) < dfs.len() && q(p(i)) == i && dfs2[i] == dfs[p(i)]
    &&& forall|j: int| 0 <= j < dfs.len() ==> 0 <= #[trigger] q(j) < dfs2.len() && p(q(j)) == j
}

proof fn data_index_found(dfs: DataFields, n: Seq<char>, k: int)
    requires
        0 <= k <= dfs.len(),
    ensures
        data_index(dfs, n, k) < 0 ==> data_index(dfs, n, k) == -1 && forall|i: int| 0 <= i < k ==> (#[trigger] dfs[i]).0.value != n,
        data_index(dfs, n, k) >= 0 ==> data_index(dfs, n, k) < k && dfs[data_index(dfs, n, k)].0.value == n,
    decreases k,
{
    if k > 0 && dfs[k - 1].0.value != n {
        data_index_found(dfs, n, k - 1);
    }
}

/// Reordered fields with distinct names: a name finds a field in both or in neither, and the
/// same field.
proof fn reordered_same_field(dfs: DataFields, dfs2: DataFields, p: spec_fn(int) -> int, q: spec_fn(int) -> int, n: Seq<char>)
    requires
        names_unique(dfs),
        reordered(dfs, dfs2, p, q),
    ensures
        (data_index(dfs, n, dfs.len() as int) < 0) == (data_index(dfs2, n, dfs2.len() as int) < 0),
        data_index(dfs, n, dfs.len() as int) >= 0 ==> dfs2[data_index(dfs2, n, dfs2.len() as int)] == dfs[data_index(dfs, n, dfs.len() as int)],
{
    let j = data_index(dfs, n, dfs.len() as int);
    let j2 = data_index(dfs2, n, dfs2.len() as int);
    data_index_found(dfs, n, dfs.len() as int);
    data_index_found(dfs2, n, dfs2.len() as int);
    if j >= 0 {
        let i2 = q(j);
        assert(dfs2[i2] == dfs[p(i2)]);
        assert(dfs2[i2].0.value == n);
        assert(j2 >= 0);
        let pj = p(j2);
        assert(dfs2[j2] == dfs[pj]);
        if pj < j {
            assert(dfs[pj].0.value != dfs[j].0.value);
        } else if pj > j {
            assert(dfs[j].0.value != dfs[pj].0.value);
        }
    } else if j2 >= 0 {
        assert(dfs2[j2] == dfs[p(j2)]);
        assert(dfs[p(j2)].0.value == n);
    }
}

proof fn reordered_names_unique(dfs: DataFields, dfs2: DataFields, p: spec_fn(int) -> int, q: spec_fn(int) -> int)
    requires
        names_unique(dfs),
        reordered(dfs, dfs2, p, q),
    ensures
        names_unique(dfs2),
{
    assert forall|i: int, j: int| 0 <= i < j < dfs2.len() implies (#[trigger] dfs2[i]).0.value != (#[trigger] dfs2[j]).0.value by {
        let a = p(i);
        let b = p(j);
        assert(dfs2[i] == dfs[a] && dfs2[j] == dfs[b]);
        if a < b {
            assert(dfs[a].0.value != dfs[b].0.value);
        } else if b < a {
            assert(dfs[b].0.value != dfs[a].0.value);
        } else {
            assert(q(a) == i && q(b) == j);
        }
    }
}

proof fn reordered_missing(sfs: Seq<SpecFieldDef>, dfs: DataFields, dfs2: DataFields, p: spec_fn(int) -> int, q: spec_fn(int) -> int, k: int, path: Seq<char>, close: Span)
    requires
        names_unique(dfs),
        reordered(dfs, dfs2, p, q),
    ensures
        missing_fields(sfs, dfs, k, path, close) == missing_fields(sfs, dfs2, k, path, close),
    decreases sfs.len() - k,
{
    if 0 <= k < sfs.len() {
        reordered_same_field(dfs, dfs2, p, q, sfs[k].name.value);
        reordered_missing(sfs, dfs, dfs2, p, q, k + 1, path, close);
    }
}

proof fn reordered_matching(
    sfs: Seq<SpecFieldDef>,
    dfs: DataFields,
    dfs2: DataFields,
    p: spec_fn(int) -> int,
    q: spec_fn(int) -> int,
    k: int,
    path: Seq<char>,
    enums: Seq<SpecEnumDef>,
    aliases: SpecAliases,
)
    requires
        names_unique(dfs),
        reordered(dfs, dfs2, p, q),
    ensures
        matching_fields(sfs, dfs, k, path, enums, aliases) == matching_fields(sfs, dfs2, k, path, enums, aliases),
    decreases sfs.len() - k,
{
    if 0 <= k < sfs.len() {
        let n = sfs[k].name.value;
        reordered_same_field(dfs, dfs2, p, q, n);
        data_index_found(dfs, n, dfs.len() as int);
        data_index_found(dfs2, n, dfs2.len() as int);
        reordered_matching(sfs, dfs, dfs2, p, q, k + 1, path, enums, aliases);
        let j = data_index(dfs, n, dfs.len() as int);
        let j2 = data_index(dfs2, n, dfs2.len() as int);
        if j >= 0 {
            assert(dfs2[j2].1 == dfs[j].1);
        }
    }
}

proof fn reordered_requires(
    anns: Seq<Spanned<crate::schema::SpecRequire>>,
    k: int,
    sfs: Seq<SpecFieldDef>,
    dfs: DataFields,
    dfs2: DataFields,
    p: spec_fn(int) -> int,
    q: spec_fn(int) -> int,
    path: Seq<char>,
    span: Span,
)
    requires
        names_unique(dfs),
        reordered(dfs, dfs2, p, q),
    ensures
        require_report(anns, k, sfs, dfs, path, span) == require_report(anns, k, sfs, dfs2, path, span),
    decreases anns.len() - k,
{
    if 0 <= k < anns.len() {
        let c = anns[k].value;
        reordered_same_field(dfs, dfs2, p, q, c.left);
        reordered_same_field(dfs, dfs2, p, q, c.right);
        data_index_found(dfs, c.left, dfs.len() as int);
        data_index_found(dfs2, c.left, dfs2.len() as int);
        data_index_found(dfs, c.right, dfs.len() as int);
        data_index_found(dfs2, c.right, dfs2.len() as int);
        assert(field_value(sfs, dfs, c.left) == field_value(sfs, dfs2, c.left));
        assert(field_value(sfs, dfs, c.right) == field_value(sfs, dfs2, c.right));
        reordered_requires(anns, k + 1, sfs, dfs, dfs2, p, q, path, span);
    }
}

proof fn unknown_no_duplicates(dfs: DataFields, sfs: Seq<SpecFieldDef>, k: int, path: Seq<char>)
    requires
        0 <= k,
        names_unique(dfs),
    ensures
        unknown_fields(dfs, sfs, k, path).errors.no_duplicates(),
    decreases dfs.len() - k,
{
    if k < dfs.len() {
        unknown_no_duplicates(dfs, sfs, k + 1, path);
        unknown_from(dfs, sfs, k + 1, path);
        let rest = unknown_fields(dfs, sfs, k + 1, path).errors;
        if undeclared(dfs, sfs, k) {
            let r = unknown_fields(dfs, sfs, k, path).errors;
            assert(r == seq![unknown_error(dfs, k, path)] + rest);
            assert forall|a: int, b: int| 0 <= a < r.len() && 0 <= b < r.len() && a != b implies r[a] != r[b] by {
                if a == 0 || b == 0 {
                    let m = if a == 0 { b - 1 } else { a - 1 };
                    assert(r[m + 1] == rest[m]);
                    let j = choose|j: int| #![trigger unknown_error(dfs, j, path)] k + 1 <= j < dfs.len() && undeclared(dfs, sfs, j)
                        && rest[m] == unknown_error(dfs, j, path);
                    assert(dfs[k].0.value != dfs[j].0.value);
                } else {
                    assert(r[a] == rest[a - 1] && r[b] == rest[b - 1]);
                }
            }
        } else {
            assert(unknown_fields(dfs, sfs, k, path).errors =~= rest);
        }
    }
}

/// The unknown-field errors of reordered fields with distinct names are the same, as a multiset.
proof fn reordered_unknown(dfs: DataFields, dfs2: DataFields, p: spec_fn(int) -> int, q: spec_fn(int) -> int, sfs: Seq<SpecFieldDef>, path: Seq<char>)
    requires
        names_unique(dfs),
        reordered(dfs, dfs2, p, q),
    ensures
        unknown_fields(dfs, sfs, 0, path).errors.to_multiset() == unknown_fields(dfs2, sfs, 0, path).errors.to_multiset(),
{
    broadcast use vstd::seq_lib::group_to_multiset_ensures;
    reordered_names_unique(dfs, dfs2, p, q);
    let u1 = unknown_fields(dfs, sfs, 0, path).errors;
    let u2 = unknown_fields(dfs2, sfs, 0, path).errors;
    unknown_from(dfs, sfs, 0, path);
    unknown_from(dfs2, sfs, 0, path);
    unknown_no_duplicates(dfs, sfs, 0, path);
    unknown_no_duplicates(dfs2, sfs, 0, path);
    u1.lemma_multiset_has_no_duplicates();
    u2.lemma_multiset_has_no_duplicates();
    assert forall|x: SpecValidationError| u1.contains(x) implies u2.contains(x) by {
        let m = choose|m: int| 0 <= m < u1.len() && u1[m] == x;
        let j = choose|j: int| #![trigger unknown_error(dfs, j, path)] 0 <= j < dfs.len() && undeclared(dfs, sfs, j)
            && u1[m] == unknown_error(dfs, j, path);
        let i = q(j);
        assert(dfs2[i] == dfs[j]);
        assert(unknown_error(dfs2, i, path) == unknown_error(dfs, j, path));
        assert(undeclared(dfs2, sfs, i));
    }
    assert forall|x: SpecValidationError| u2.contains(x) implies u1.contains(x) by {
        let m = choose|m: int| 0 <= m < u2.len() && u2[m] == x;
        let i = choose|i: int| #![trigger unknown_error(dfs2, i, path)] 0 <= i < dfs2.len() && undeclared(dfs2, sfs, i)
            && u2[m] == unknown_error(dfs2, i, path);
        let j = p(i);
        assert(dfs2[i] == dfs[j]);
        assert(unknown_error(dfs2, i, path) == unknown_error(dfs, j, path));
        assert(undeclared(dfs, sfs, j));
    }
    assert forall|x: SpecValidationError| u1.to_multiset().count(x) == u2.to_multiset().count(x) by {
        if u1.contains(x) {
            assert(u2.contains(x));
        } else {
            assert(!u2.contains(x));
        }
    }
    assert(u1.to_multiset() =~= u2.to_multiset());
}

/// Reordering the data fields of a struct value whose field names are distinct leaves the
/// errors of validating it the same, as a multiset: validation finds the data fields by name, so
/// their order can change only the warnings and the order in which errors are reported.
pub proof fn field_order_keeps_errors(
    schema: SpecSchema,
    value: Spanned<SpecRonValue>,
    value2: Spanned<SpecRonValue>,
    p: spec_fn(int) -> int,
    q: spec_fn(int) -> int,
)
    requires
        value.value is Struct,
        value2.value is Struct,
        value2.span == value.span,
        value2.value->Struct_0.close_span == value.value->Struct_0.close_span,
        names_unique(value.value->Struct_0.fields),
        reordered(value.value->Struct_0.fields, value2.value->Struct_0.fields, p, q),
    ensures
        validation(schema, value2).errors.to_multiset() == validation(schema, value).errors.to_multiset(),
{
    let ds = value.value->Struct_0;
    let ds2 = value2.value->Struct_0;
    let sd = schema.root;
    let path = Seq::<char>::empty();
    reordered_missing(sd.fields, ds.fields, ds2.fields, p, q, 0, path, ds.close_span);
    reordered_matching(sd.fields, ds.fields, ds2.fields, p, q, 0, path, schema.enums, schema.aliases);
    reordered_requires(sd.annotations, 0, sd.fields, ds.fields, ds2.fields, p, q, path, value.span);
    reordered_unknown(ds.fields, ds2.fields, p, q, sd.fields, path);
    let mm = missing_fields(sd.fields, ds.fields, 0, path, ds.close_span).errors;
    let u1 = unknown_fields(ds.fields, sd.fields, 0, path).errors;
    let u2 = unknown_fields(ds2.fields, sd.fields, 0, path).errors;
    let mt = matching_fields(sd.fields, ds.fields, 0, path, schema.enums, schema.aliases).errors;
    let tail = (warnings_report(order_warnings(ds.fields, sd.fields, 0, 0, path)).errors
        + require_report(sd.annotations, 0, sd.fields, ds.fields, path, value.span).errors);
    let tail2 = (warnings_report(order_warnings(ds2.fields, sd.fields, 0, 0, path)).errors
        + require_report(sd.annotations, 0, sd.fields, ds2.fields, path, value.span).errors);
    assert(tail == tail2);
    assert(validation(schema, value).errors == ((mm + u1) + mt) + tail);
    assert(validation(schema, value2).errors == ((mm + u2) + mt) + tail);
    vstd::seq_lib::lemma_multiset_commutative(mm, u1);
    vstd::seq_lib::lemma_multiset_commutative(mm, u2);
    vstd::seq_lib::lemma_multiset_commutative(mm + u1, mt);
    vstd::seq_lib::lemma_multiset_commutative(mm + u2, mt);
    vstd::seq_lib::lemma_multiset_commutative((mm + u1) + mt, tail);
    vstd::seq_lib::lemma_multiset_commutative((mm + u2) + mt, tail);
}

// ===========================================================================
// Comparison operators
// ===========================================================================

/// The operator read at an offset is the one written there: the bytes read are exactly the
/// operator's text as the formatter writes it, so formatting a parsed constraint gives back its
/// operator.
pub proof fn operator_read_is_written(s: Seq<u8>, c: int)
    ensures
        operator_at(s, c) is Ok ==> {
            let (op, e) = operator_at(s, c)->Ok_0;
            let text = crate::format::op_text(op);
            &&& 0 <= c
            &&& e == c + text.len()
            &&& e <= s.len()
            &&& forall|i: int| 0 <= i < text.len() ==> (s[c + i] as char) == #[trigger] text[i]
        },
{
    reveal_strlit("<");
    reveal_strlit("<=");
    reveal_strlit(">");
    reveal_strlit(">=");
    reveal_strlit("==");
    reveal_strlit("!=");
}

// ===========================================================================
// Numeric comparison
// ===========================================================================

/// A cross-field comparison of two numbers is exact: with `x` and `y` the two numbers brought to
/// a common denominator (each unscaled value times ten to the other's scale), `<` holds exactly
/// when `x < y`, `<=` when `x <= y`, `>` when `x > y`, `>=` when `x >= y`, `==` when they are
/// equal and `!=` when they differ.
pub proof fn comparison_is_numeric(l: SpecRonValue, r: SpecRonValue)
    requires
        numeric(l) is Some,
        numeric(r) is Some,
    ensures
        ({
            let a = numeric(l)->0;
            let b = numeric(r)->0;
            let x = a.unscaled() * crate::number::pow10(b.scale);
            let y = b.unscaled() * crate::number::pow10(a.scale);
            &&& compare_values(l, r, CompareOp::Lt) == Some(x < y)
            &&& compare_values(l, r, CompareOp::Le) == Some(x <= y)
            &&& compare_values(l, r, CompareOp::Gt) == Some(x > y)
            &&& compare_values(l, r, CompareOp::Ge) == Some(x >= y)
            &&& compare_values(l, r, CompareOp::Eq) == Some(x == y)
            &&& compare_values(l, r, CompareOp::Ne) == Some(x != y)
        }),
{
    let a = numeric(l)->0;
    let b = numeric(r)->0;
    lemma_order_cross(a, b);
}

/// Integers compare as integers.
pub proof fn integer_comparison(i: i64, j: i64)
    ensures
        compare_values(SpecRonValue::Integer(i), SpecRonValue::Integer(j), CompareOp::Lt) == Some(i < j),
        compare_values(SpecRonValue::Integer(i), SpecRonValue::Integer(j), CompareOp::Le) == Some(i <= j),
        compare_values(SpecRonValue::Integer(i), SpecRonValue::Integer(j), CompareOp::Gt) == Some(i > j),
        compare_values(SpecRonValue::Integer(i), SpecRonValue::Integer(j), CompareOp::Ge) == Some(i >= j),
        compare_values(SpecRonValue::Integer(i), SpecRonValue::Integer(j), CompareOp::Eq) == Some(i == j),
        compare_values(SpecRonValue::Integer(i), SpecRonValue::Integer(j), CompareOp::Ne) == Some(i != j),
{
    crate::number::lemma_decimal_of_int(i as int);
    crate::number::lemma_decimal_of_int(j as int);
    assert(crate::number::pow10(0) == 1) by {
        reveal_with_fuel(crate::number::pow10, 1);
    }
    let a = numeric(SpecRonValue::Integer(i))->0;
    let b = numeric(SpecRonValue::Integer(j))->0;
    assert(a == crate::number::decimal_of_int(i as int));
    assert(b == crate::number::decimal_of_int(j as int));
    assert(a.scale == 0 && b.scale == 0);
    assert(a.unscaled() == i && b.unscaled() == j);
    assert(a.unscaled() * 1 == i && b.unscaled() * 1 == j);
    comparison_is_numeric(SpecRonValue::Integer(i), SpecRonValue::Integer(j));
}

/// The order of two decimals, by cross multiplication.
proof fn lemma_order_cross(a: crate::number::DecimalV, b: crate::number::DecimalV)
    ensures
        ({
            let x = a.unscaled() * crate::number::pow10(b.scale);
            let y = b.unscaled() * crate::number::pow10(a.scale);
            let c = crate::number::decimal_order(a, b);
            &&& (c < 0 <==> x < y)
            &&& (c == 0 <==> x == y)
            &&& (c > 0 <==> x > y)
            &&& (c == -1 || c == 0 || c == 1)
        }),
{
    let k = crate::number::max_nat(a.scale, b.scale);
    let ea = (k - a.scale) as nat;
    let eb = (k - b.scale) as nat;
    let u = a.unscaled();
    let v = b.unscaled();
    let pa = crate::number::pow10(ea) as int;
    let pb = crate::number::pow10(eb) as int;
    let qa = crate::number::pow10(a.scale) as int;
    let qb = crate::number::pow10(b.scale) as int;
    // Both sides at scale k, times ten to (a.scale + b.scale - k), give the cross products.
    let m = (a.scale + b.scale - k) as nat;
    let pm = crate::number::pow10(m) as int;
    crate::number::lemma_pow10_pos(m);
    crate::number::lemma_pow10_add(ea, m);
    crate::number::lemma_pow10_add(eb, m);
    assert(ea + m == b.scale);
    assert(eb + m == a.scale);
    assert(pa * pm == qb);
    assert(pb * pm == qa);
    assert(a.at_scale(k) == u * pa);
    assert(b.at_scale(k) == v * pb);
    let x = u * qb;
    let y = v * qa;
    assert(x == (u * pa) * pm) by (nonlinear_arith)
        requires x == u * qb, qb == pa * pm;
    assert(y == (v * pb) * pm) by (nonlinear_arith)
        requires y == v * qa, qa == pb * pm;
    let p = u * pa;
    let q = v * pb;
    assert(p < q ==> p * pm < q * pm) by (nonlinear_arith)
        requires pm > 0;
    assert(p == q ==> p * pm == q * pm);
    assert(p > q ==> p * pm > q * pm) by (nonlinear_arith)
        requires pm > 0;
}

/// Whether cross-field constraint `k` is broken by the values: both sides are numbers (from the
/// data, or the schema's defaults) and the comparison does not hold.
pub open spec fn constraint_broken(anns: Seq<Spanned<crate::schema::SpecRequire>>, k: int, sfs: Seq<SpecFieldDef>, dfs: DataFields) -> bool {
    let c = anns[k].value;
    match (field_value(sfs, dfs, c.left), field_value(sfs, dfs, c.right)) {
        (Some(l), Some(r)) => compare_values(l, r, c.op) == Some(false),
        _ => false,
    }
}

/// The error reporting cross-field constraint `k` as violated.
pub open spec fn violation_error(anns: Seq<Spanned<crate::schema::SpecRequire>>, k: int, path: Seq<char>, span: Span) -> SpecValidationError {
    let c = anns[k].value;
    SpecValidationError {
        path,
        span,
        kind: SpecErrorKind::CrossFieldViolation {
            constraint: c.left + " "@ + crate::validate::op_text(c.op) + " "@ + c.right,
        },
    }
}

proof fn violations_from(anns: Seq<Spanned<crate::schema::SpecRequire>>, k: int, sfs: Seq<SpecFieldDef>, dfs: DataFields, path: Seq<char>, span: Span)
    requires
        0 <= k,
    ensures
        forall|m: int|
            #![trigger require_report(anns, k, sfs, dfs, path, span).errors[m]]
            0 <= m < require_report(anns, k, sfs, dfs, path, span).errors.len() ==> exists|j: int|
                #![trigger violation_error(anns, j, path, span)]
                k <= j < anns.len() && constraint_broken(anns, j, sfs, dfs)
                    && require_report(anns, k, sfs, dfs, path, span).errors[m] == violation_error(anns, j, path, span),
        forall|j: int|
            k <= j < anns.len() && #[trigger] constraint_broken(anns, j, sfs, dfs) ==> require_report(anns, k, sfs, dfs, path, span).errors.contains(
                violation_error(anns, j, path, span),
            ),
    decreases anns.len() - k,
{
    let r = require_report(anns, k, sfs, dfs, path, span);
    if k < anns.len() {
        violations_from(anns, k + 1, sfs, dfs, path, span);
        let rest = require_report(anns, k + 1, sfs, dfs, path, span);
        let h: int = if constraint_broken(anns, k, sfs, dfs) { 1 } else { 0 };
        assert(r.errors.len() == h + rest.errors.len());
        assert forall|m: int| #![trigger r.errors[m]] 0 <= m < r.errors.len() implies exists|j: int|
            #![trigger violation_error(anns, j, path, span)]
            k <= j < anns.len() && constraint_broken(anns, j, sfs, dfs) && r.errors[m] == violation_error(anns, j, path, span) by {
            if m < h {
                assert(r.errors[m] == violation_error(anns, k, path, span));
            } else {
                assert(r.errors[m] == rest.errors[m - h]);
            }
        }
        assert forall|j: int| k <= j < anns.len() && #[trigger] constraint_broken(anns, j, sfs, dfs) implies r.errors.contains(
            violation_error(anns, j, path, span),
        ) by {
            if j == k {
                assert(r.errors[0] == violation_error(anns, k, path, span));
            } else {
                let m = choose|m: int| 0 <= m < rest.errors.len() && rest.errors[m] == violation_error(anns, j, path, span);
                assert(r.errors[m + h] == rest.errors[m]);
            }
        }
    }
}

/// A struct's cross-field constraints report exactly the broken ones (see
/// [`constraint_broken`], and [`comparison_is_numeric`] for what a comparison means): every
/// error is the violation of a broken constraint, and every broken constraint is reported.
pub proof fn violations_exactly_when_broken(anns: Seq<Spanned<crate::schema::SpecRequire>>, sfs: Seq<SpecFieldDef>, dfs: DataFields, path: Seq<char>, span: Span)
    ensures
        forall|m: int|
            #![trigger require_report(anns, 0, sfs, dfs, path, span).errors[m]]
            0 <= m < require_report(anns, 0, sfs, dfs, path, span).errors.len() ==> exists|j: int|
                #![trigger violation_error(anns, j, path, span)]
                0 <= j < anns.len() && constraint_broken(anns, j, sfs, dfs)
                    && require_report(anns, 0, sfs, dfs, path, span).errors[m] == violation_error(anns, j, path, span),
        forall|j: int|
            0 <= j < anns.len() && #[trigger] constraint_broken(anns, j, sfs, dfs) ==> require_report(anns, 0, sfs, dfs, path, span).errors.contains(
                violation_error(anns, j, path, span),
            ),
{
    violations_from(anns, 0, sfs, dfs, path, span);
}

} // verus!
