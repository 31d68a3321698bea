use vstd::prelude::*;
use crate::error::{SpecSchemaErrorKind, SpecSchemaParseError};
use crate::number::{decimal_of_int, decimal_text};
use crate::ron::SpecRonValue;
use crate::span::{Span, Spanned};
use super::{SpecEnumDef, SpecFieldDef, SpecSchema, SpecSchemaType, SpecStructDef, SchemaType, StructDef, FieldDef, EnumDef, Schema, enums_view, aliases_view, variants_view, field_defs_view, type_view, field_view, types_view};
use super::parser::{opt_type_view, type_debug_string};
use super::grammar::{is_key_type, type_debug_text};
use crate::error::{strings_view, SchemaErrorKind, SchemaParseError};
use crate::text::{str_eq, copy_string, append_str};
use crate::ron::RonValue;
use crate::number::Decimal;

verus! {

// ===========================================================================
// Looking names up
// ===========================================================================

pub type SpecAliases = Seq<(Seq<char>, Spanned<SpecSchemaType>)>;

/// The names of the aliases, in order.
pub open spec fn alias_names(aliases: SpecAliases) -> Seq<Seq<char>> {
    aliases.map_values(|a: (Seq<char>, Spanned<SpecSchemaType>)| a.0)
}

/// The first alias from index `k` on with the given name.
pub open spec fn find_alias(aliases: SpecAliases, name: Seq<char>, k: int) -> Option<Spanned<SpecSchemaType>>
    decreases aliases.len() - k,
{
    if k < 0 || k >= aliases.len() {
        None
    } else if aliases[k].0 == name {
        Some(aliases[k].1)
    } else {
        find_alias(aliases, name, k + 1)
    }
}

/// The first enum from index `k` on with the given name.
pub open spec fn find_enum(enums: Seq<SpecEnumDef>, name: Seq<char>, k: int) -> Option<SpecEnumDef>
    decreases enums.len() - k,
{
    if k < 0 || k >= enums.len() {
        None
    } else if enums[k].name == name {
        Some(enums[k])
    } else {
        find_enum(enums, name, k + 1)
    }
}

/// The data of the first variant from index `k` on with the given name: `None` when there is
/// no such variant, `Some(None)` for a unit variant.
pub open spec fn find_variant(vs: Seq<(Seq<char>, Option<SpecSchemaType>)>, name: Seq<char>, k: int) -> Option<Option<SpecSchemaType>>
    decreases vs.len() - k,
{
    if k < 0 || k >= vs.len() {
        None
    } else if vs[k].0 == name {
        Some(vs[k].1)
    } else {
        find_variant(vs, name, k + 1)
    }
}

// ===========================================================================
// Reclassifying references to aliases
// ===========================================================================

/// The type with every enum reference whose name is an alias name turned into an alias
/// reference.
pub open spec fn reclass_type(t: SpecSchemaType, names: Seq<Seq<char>>) -> SpecSchemaType
    decreases t,
{
    match t {
        SpecSchemaType::EnumRef(n) => if names.contains(n) {
            SpecSchemaType::AliasRef(n)
        } else {
            SpecSchemaType::EnumRef(n)
        },
        SpecSchemaType::Option(b) => SpecSchemaType::Option(Box::new(reclass_type(*b, names))),
        SpecSchemaType::List(b) => SpecSchemaType::List(Box::new(reclass_type(*b, names))),
        SpecSchemaType::Dict(k, v) => SpecSchemaType::Dict(Box::new(reclass_type(*k, names)), Box::new(reclass_type(*v, names))),
        SpecSchemaType::Tuple(ts) => SpecSchemaType::Tuple(
            Seq::new(ts.len(), |i: int| if 0 <= i < ts.len() { reclass_type(ts[i], names) } else { arbitrary() }),
        ),
        SpecSchemaType::Struct(sd) => SpecSchemaType::Struct(reclass_struct(sd, names)),
        _ => t,
    }
}

pub open spec fn reclass_struct(sd: SpecStructDef, names: Seq<Seq<char>>) -> SpecStructDef
    decreases sd,
{
    SpecStructDef {
        fields: Seq::new(
            sd.fields.len(),
            |i: int|
                if 0 <= i < sd.fields.len() {
                    reclass_field(sd.fields[i], names)
                } else {
                    arbitrary()
                },
        ),
        annotations: sd.annotations,
    }
}

pub open spec fn reclass_field(f: SpecFieldDef, names: Seq<Seq<char>>) -> SpecFieldDef
    decreases f,
{
    SpecFieldDef {
        name: f.name,
        type_: Spanned { value: reclass_type(f.type_.value, names), span: f.type_.span },
        default: f.default,
        annotations: f.annotations,
    }
}

pub open spec fn reclass_aliases(aliases: SpecAliases, names: Seq<Seq<char>>) -> SpecAliases {
    aliases.map_values(
        |a: (Seq<char>, Spanned<SpecSchemaType>)| (a.0, Spanned { value: reclass_type(a.1.value, names), span: a.1.span }),
    )
}

// ===========================================================================
// Unresolved references
// ===========================================================================

pub open spec fn unresolved(span: Span, name: Seq<char>) -> SpecSchemaParseError {
    SpecSchemaParseError { span, kind: SpecSchemaErrorKind::UnresolvedType { name } }
}

pub open spec fn first_err<T>(a: Option<T>, b: Option<T>) -> Option<T> {
    if a is Some {
        a
    } else {
        b
    }
}

/// The first reference in `t` (in reading order) to an enum or alias that is not defined,
/// reported at `span`.
pub open spec fn type_refs(t: SpecSchemaType, span: Span, enums: Seq<SpecEnumDef>, aliases: SpecAliases) -> Option<SpecSchemaParseError>
    decreases t, 0int,
{
    match t {
        SpecSchemaType::EnumRef(n) => if find_enum(enums, n, 0) is Some {
            None
        } else {
            Some(unresolved(span, n))
        },
        SpecSchemaType::AliasRef(n) => if find_alias(aliases, n, 0) is Some {
            None
        } else {
            Some(unresolved(span, n))
        },
        SpecSchemaType::Option(b) => type_refs(*b, span, enums, aliases),
        SpecSchemaType::List(b) => type_refs(*b, span, enums, aliases),
        SpecSchemaType::Dict(k, v) => first_err(type_refs(*k, span, enums, aliases), type_refs(*v, span, enums, aliases)),
        SpecSchemaType::Tuple(ts) => types_refs(ts, 0, span, enums, aliases),
        SpecSchemaType::Struct(sd) => fields_refs(sd.fields, 0, enums, aliases),
        _ => None,
    }
}

pub open spec fn types_refs(ts: Seq<SpecSchemaType>, k: int, span: Span, enums: Seq<SpecEnumDef>, aliases: SpecAliases) -> Option<SpecSchemaParseError>
    decreases ts, ts.len() - k,
{
    if k < 0 || k >= ts.len() {
        None
    } else {
        first_err(type_refs(ts[k], span, enums, aliases), types_refs(ts, k + 1, span, enums, aliases))
    }
}

/// The first unresolved reference among the fields from index `k` on, each reported at its
/// field's type.
pub open spec fn fields_refs(fs: Seq<SpecFieldDef>, k: int, enums: Seq<SpecEnumDef>, aliases: SpecAliases) -> Option<SpecSchemaParseError>
    decreases fs, fs.len() - k,
{
    if k < 0 || k >= fs.len() {
        None
    } else {
        first_err(
            type_refs(fs[k].type_.value, fs[k].type_.span, enums, aliases),
            fields_refs(fs, k + 1, enums, aliases),
        )
    }
}

// ===========================================================================
// Recursive aliases
// ===========================================================================

/// The first alias name met twice on one path of alias references in `t`, where `path` holds
/// the aliases already entered; at most `fuel` more aliases are entered.
pub open spec fn cycle_in(t: SpecSchemaType, aliases: SpecAliases, path: Seq<Seq<char>>, fuel: nat) -> Option<Seq<char>>
    decreases fuel, t, 0int,
{
    match t {
        SpecSchemaType::AliasRef(n) => if path.contains(n) {
            Some(n)
        } else if fuel == 0 {
            None
        } else {
            match find_alias(aliases, n, 0) {
                Some(target) => cycle_in(target.value, aliases, path.push(n), (fuel - 1) as nat),
                None => None,
            }
        },
        SpecSchemaType::Option(b) => cycle_in(*b, aliases, path, fuel),
        SpecSchemaType::List(b) => cycle_in(*b, aliases, path, fuel),
        SpecSchemaType::Dict(k, v) => first_err(cycle_in(*k, aliases, path, fuel), cycle_in(*v, aliases, path, fuel)),
        SpecSchemaType::Tuple(ts) => cycle_in_types(ts, 0, aliases, path, fuel),
        SpecSchemaType::Struct(sd) => cycle_in_fields(sd.fields, 0, aliases, path, fuel),
        _ => None,
    }
}

pub open spec fn cycle_in_types(ts: Seq<SpecSchemaType>, k: int, aliases: SpecAliases, path: Seq<Seq<char>>, fuel: nat) -> Option<Seq<char>>
    decreases fuel, ts, ts.len() - k,
{
    if k < 0 || k >= ts.len() {
        None
    } else {
        first_err(cycle_in(ts[k], aliases, path, fuel), cycle_in_types(ts, k + 1, aliases, path, fuel))
    }
}

pub open spec fn cycle_in_fields(fs: Seq<SpecFieldDef>, k: int, aliases: SpecAliases, path: Seq<Seq<char>>, fuel: nat) -> Option<Seq<char>>
    decreases fuel, fs, fs.len() - k,
{
    if k < 0 || k >= fs.len() {
        None
    } else {
        first_err(cycle_in(fs[k].type_.value, aliases, path, fuel), cycle_in_fields(fs, k + 1, aliases, path, fuel))
    }
}

/// The first alias (in order of definition) from index `k` on whose definition leads back to
/// an alias already on its path, reported at the aliased type.
pub open spec fn alias_cycles(aliases: SpecAliases, k: int) -> Option<SpecSchemaParseError>
    decreases aliases.len() - k,
{
    if k < 0 || k >= aliases.len() {
        None
    } else {
        match cycle_in(aliases[k].1.value, aliases, seq![aliases[k].0], aliases.len()) {
            Some(n) => Some(SpecSchemaParseError { span: aliases[k].1.span, kind: SpecSchemaErrorKind::RecursiveAlias { name: n } }),
            None => alias_cycles(aliases, k + 1),
        }
    }
}

// ===========================================================================
// Map keys behind aliases
// ===========================================================================

/// A map key that is an alias must stand for `String`, `Integer` or an enum; else the error,
/// reported at `span`, names the type it stands for.
pub open spec fn key_alias_error(k: SpecSchemaType, span: Span, aliases: SpecAliases) -> Option<SpecSchemaParseError> {
    match k {
        SpecSchemaType::AliasRef(n) => {
            let target = resolve(k, aliases, aliases.len());
            if find_alias(aliases, n, 0) is Some && !is_key_type(target) {
                Some(SpecSchemaParseError { span, kind: SpecSchemaErrorKind::InvalidMapKeyType { found: type_debug_text(target) } })
            } else {
                None
            }
        },
        _ => None,
    }
}

/// The first map key in `t` (in reading order) that is an alias for a type no key may have.
pub open spec fn type_keys(t: SpecSchemaType, span: Span, aliases: SpecAliases) -> Option<SpecSchemaParseError>
    decreases t, 0int,
{
    match t {
        SpecSchemaType::Option(b) => type_keys(*b, span, aliases),
        SpecSchemaType::List(b) => type_keys(*b, span, aliases),
        SpecSchemaType::Dict(k, v) => first_err(key_alias_error(*k, span, aliases), type_keys(*v, span, aliases)),
        SpecSchemaType::Tuple(ts) => types_keys(ts, 0, span, aliases),
        SpecSchemaType::Struct(sd) => fields_keys(sd.fields, 0, aliases),
        _ => None,
    }
}

pub open spec fn types_keys(ts: Seq<SpecSchemaType>, k: int, span: Span, aliases: SpecAliases) -> Option<SpecSchemaParseError>
    decreases ts, ts.len() - k,
{
    if k < 0 || k >= ts.len() {
        None
    } else {
        first_err(type_keys(ts[k], span, aliases), types_keys(ts, k + 1, span, aliases))
    }
}

/// The first bad map key among the fields from index `k` on, each reported at its field's type.
pub open spec fn fields_keys(fs: Seq<SpecFieldDef>, k: int, aliases: SpecAliases) -> Option<SpecSchemaParseError>
    decreases fs, fs.len() - k,
{
    if k < 0 || k >= fs.len() {
        None
    } else {
        first_err(type_keys(fs[k].type_.value, fs[k].type_.span, aliases), fields_keys(fs, k + 1, aliases))
    }
}

/// The first bad map key in the alias bodies from index `k` on, each reported at its body.
pub open spec fn alias_keys(bodies: SpecAliases, k: int, aliases: SpecAliases) -> Option<SpecSchemaParseError>
    decreases bodies.len() - k,
{
    if k < 0 || k >= bodies.len() {
        None
    } else {
        first_err(type_keys(bodies[k].1.value, bodies[k].1.span, aliases), alias_keys(bodies, k + 1, aliases))
    }
}

/// The first reference to an undefined name in the alias bodies from index `k` on.
pub open spec fn alias_refs(bodies: SpecAliases, k: int, enums: Seq<SpecEnumDef>, aliases: SpecAliases) -> Option<SpecSchemaParseError>
    decreases bodies.len() - k,
{
    if k < 0 || k >= bodies.len() {
        None
    } else {
        first_err(type_refs(bodies[k].1.value, bodies[k].1.span, enums, aliases), alias_refs(bodies, k + 1, enums, aliases))
    }
}

/// With no aliases, no map key is an alias.
pub proof fn lemma_type_keys_none(t: SpecSchemaType, span: Span)
    ensures
        type_keys(t, span, Seq::empty()) is None,
    decreases t, 0int,
{
    match t {
        SpecSchemaType::Option(b) => lemma_type_keys_none(*b, span),
        SpecSchemaType::List(b) => lemma_type_keys_none(*b, span),
        SpecSchemaType::Dict(k, v) => lemma_type_keys_none(*v, span),
        SpecSchemaType::Tuple(ts) => lemma_types_keys_none(ts, 0, span),
        SpecSchemaType::Struct(sd) => lemma_fields_keys_none(sd.fields, 0),
        _ => {},
    }
}

pub proof fn lemma_types_keys_none(ts: Seq<SpecSchemaType>, k: int, span: Span)
    ensures
        types_keys(ts, k, span, Seq::empty()) is None,
    decreases ts, ts.len() - k,
{
    if 0 <= k < ts.len() {
        lemma_type_keys_none(ts[k], span);
        lemma_types_keys_none(ts, k + 1, span);
    }
}

pub proof fn lemma_fields_keys_none(fs: Seq<SpecFieldDef>, k: int)
    ensures
        fields_keys(fs, k, Seq::empty()) is None,
    decreases fs, fs.len() - k,
{
    if 0 <= k < fs.len() {
        lemma_type_keys_none(fs[k].type_.value, fs[k].type_.span);
        lemma_fields_keys_none(fs, k + 1);
    }
}

// ===========================================================================
// Default values
// ===========================================================================

/// The type behind a chain of at most `fuel` alias references.
pub open spec fn resolve(t: SpecSchemaType, aliases: SpecAliases, fuel: nat) -> SpecSchemaType
    decreases fuel,
{
    match t {
        SpecSchemaType::AliasRef(n) => if fuel == 0 {
            t
        } else {
            match find_alias(aliases, n, 0) {
                Some(target) => resolve(target.value, aliases, (fuel - 1) as nat),
                None => t,
            }
        },
        _ => t,
    }
}

/// Whether a default value fits a type, aliases resolved through at most `fuel` references each
/// time: as validation accepts a value, a bare name being a unit variant and a struct value
/// passing the validation of the struct; a map value fits any map type.
pub open spec fn default_fits(sv: Spanned<SpecRonValue>, t: SpecSchemaType, enums: Seq<SpecEnumDef>, aliases: SpecAliases, fuel: nat) -> bool
    decreases sv, 0int,
{
    let v = sv.value;
    match (resolve(t, aliases, fuel), v) {
        (SpecSchemaType::String, SpecRonValue::String(_)) => true,
        (SpecSchemaType::Integer, SpecRonValue::Integer(_)) => true,
        (SpecSchemaType::Float, SpecRonValue::Float(_)) => true,
        (SpecSchemaType::Bool, SpecRonValue::Bool(_)) => true,
        (SpecSchemaType::Option(_), SpecRonValue::Option(None)) => true,
        (SpecSchemaType::Option(inner), SpecRonValue::Option(Some(iv))) => default_fits(*iv, *inner, enums, aliases, fuel),
        (SpecSchemaType::List(et), SpecRonValue::List(els)) => all_fit(els, 0, *et, enums, aliases, fuel),
        (SpecSchemaType::EnumRef(en), SpecRonValue::Identifier(var)) => match find_enum(enums, en, 0) {
            Some(e) => find_variant(e.variants, var, 0) == Some(None::<SpecSchemaType>),
            None => false,
        },
        (SpecSchemaType::EnumRef(en), SpecRonValue::EnumVariant(var, data)) => match find_enum(enums, en, 0) {
            Some(e) => match find_variant(e.variants, var, 0) {
                Some(Some(dt)) => default_fits(*data, dt, enums, aliases, fuel),
                _ => false,
            },
            None => false,
        },
        (SpecSchemaType::Tuple(ts), SpecRonValue::Tuple(vs)) => ts.len() == vs.len() && pairs_fit(vs, 0, ts, enums, aliases, fuel),
        (SpecSchemaType::Dict(_, _), SpecRonValue::Dict(_)) => true,
        (SpecSchemaType::Struct(sd), SpecRonValue::Struct(_)) => crate::validate::check_struct(sd, sv, Seq::empty(), enums, aliases).errors.len() == 0,
        _ => false,
    }
}

pub open spec fn all_fit(els: Seq<Spanned<SpecRonValue>>, k: int, t: SpecSchemaType, enums: Seq<SpecEnumDef>, aliases: SpecAliases, fuel: nat) -> bool
    decreases els, els.len() - k,
{
    if k < 0 || k >= els.len() {
        true
    } else {
        default_fits(els[k], t, enums, aliases, fuel) && all_fit(els, k + 1, t, enums, aliases, fuel)
    }
}

pub open spec fn pairs_fit(vs: Seq<Spanned<SpecRonValue>>, k: int, ts: Seq<SpecSchemaType>, enums: Seq<SpecEnumDef>, aliases: SpecAliases, fuel: nat) -> bool
    decreases vs, vs.len() - k,
{
    if k < 0 || k >= vs.len() || k >= ts.len() {
        true
    } else {
        default_fits(vs[k], ts[k], enums, aliases, fuel) && pairs_fit(vs, k + 1, ts, enums, aliases, fuel)
    }
}

/// A type as written in an error message.
pub open spec fn describe_type(t: SpecSchemaType) -> Seq<char>
    decreases t, 0int,
{
    match t {
        SpecSchemaType::String => "String"@,
        SpecSchemaType::Integer => "Integer"@,
        SpecSchemaType::Float => "Float"@,
        SpecSchemaType::Bool => "Bool"@,
        SpecSchemaType::Option(b) => "Option("@ + describe_type(*b) + ")"@,
        SpecSchemaType::List(b) => "["@ + describe_type(*b) + "]"@,
        SpecSchemaType::EnumRef(n) => n,
        SpecSchemaType::AliasRef(n) => n,
        SpecSchemaType::Dict(k, v) => "{"@ + describe_type(*k) + ": "@ + describe_type(*v) + "}"@,
        SpecSchemaType::Tuple(ts) => "("@ + describe_types(ts, ts.len() as int) + ")"@,
        SpecSchemaType::Struct(_) => "Struct"@,
    }
}

/// The descriptions of the first `n` types, separated by `, `.
pub open spec fn describe_types(ts: Seq<SpecSchemaType>, n: int) -> Seq<char>
    decreases ts, n,
{
    if n <= 0 || n > ts.len() {
        Seq::empty()
    } else if n == 1 {
        describe_type(ts[0])
    } else {
        describe_types(ts, n - 1) + ", "@ + describe_type(ts[n - 1])
    }
}

/// The decimal text of an integer.
pub open spec fn int_text(n: i64) -> Seq<char> {
    decimal_text(decimal_of_int(n as int))
}

/// A default value as written in an error message.
pub open spec fn describe_default(v: SpecRonValue) -> Seq<char> {
    match v {
        SpecRonValue::String(s) => "String(\""@ + s + "\")"@,
        SpecRonValue::Integer(n) => "Integer("@ + int_text(n) + ")"@,
        SpecRonValue::Float(d) => "Float("@ + decimal_text(d) + ")"@,
        SpecRonValue::Bool(b) => if b {
            "Bool(true)"@
        } else {
            "Bool(false)"@
        },
        SpecRonValue::Option(None) => "None"@,
        SpecRonValue::Option(Some(_)) => "Some(...)"@,
        SpecRonValue::Identifier(s) => "Identifier("@ + s + ")"@,
        SpecRonValue::EnumVariant(n, _) => n + "(...)"@,
        SpecRonValue::List(_) => "List"@,
        SpecRonValue::Dict(_) => "Map"@,
        SpecRonValue::Tuple(_) => "Tuple"@,
        SpecRonValue::Struct(_) => "Struct"@,
    }
}

/// The first field from index `k` on whose default does not fit its type.
pub open spec fn bad_default(fs: Seq<SpecFieldDef>, k: int, enums: Seq<SpecEnumDef>, aliases: SpecAliases, fuel: nat) -> Option<SpecSchemaParseError>
    decreases fs.len() - k,
{
    if k < 0 || k >= fs.len() {
        None
    } else {
        match fs[k].default {
            Some(d) => if !default_fits(d, fs[k].type_.value, enums, aliases, fuel) {
                Some(SpecSchemaParseError {
                    span: d.span,
                    kind: SpecSchemaErrorKind::InvalidDefault {
                        field_name: fs[k].name.value,
                        expected: describe_type(fs[k].type_.value),
                        found: describe_default(d.value),
                    },
                })
            } else {
                bad_default(fs, k + 1, enums, aliases, fuel)
            },
            None => bad_default(fs, k + 1, enums, aliases, fuel),
        }
    }
}

/// The first default in a struct that does not fit its type: the struct's own fields first,
/// then the structs nested anywhere in the field types (inside options, lists, map values and
/// tuples too), field by field.
pub open spec fn struct_defaults(sd: SpecStructDef, enums: Seq<SpecEnumDef>, aliases: SpecAliases, fuel: nat) -> Option<SpecSchemaParseError>
    decreases sd, 0int,
{
    first_err(bad_default(sd.fields, 0, enums, aliases, fuel), nested_defaults(sd.fields, 0, enums, aliases, fuel))
}

pub open spec fn nested_defaults(fs: Seq<SpecFieldDef>, k: int, enums: Seq<SpecEnumDef>, aliases: SpecAliases, fuel: nat) -> Option<SpecSchemaParseError>
    decreases fs, fs.len() - k,
{
    if k < 0 || k >= fs.len() {
        None
    } else {
        first_err(
            type_defaults(fs[k].type_.value, enums, aliases, fuel),
            nested_defaults(fs, k + 1, enums, aliases, fuel),
        )
    }
}

/// The first ill-fitting default in the structs nested in a type.
pub open spec fn type_defaults(t: SpecSchemaType, enums: Seq<SpecEnumDef>, aliases: SpecAliases, fuel: nat) -> Option<SpecSchemaParseError>
    decreases t, 0int,
{
    match t {
        SpecSchemaType::Struct(inner) => struct_defaults(inner, enums, aliases, fuel),
        SpecSchemaType::Option(b) => type_defaults(*b, enums, aliases, fuel),
        SpecSchemaType::List(b) => type_defaults(*b, enums, aliases, fuel),
        SpecSchemaType::Dict(_, v) => type_defaults(*v, enums, aliases, fuel),
        SpecSchemaType::Tuple(ts) => types_defaults(ts, 0, enums, aliases, fuel),
        _ => None,
    }
}

pub open spec fn types_defaults(ts: Seq<SpecSchemaType>, k: int, enums: Seq<SpecEnumDef>, aliases: SpecAliases, fuel: nat) -> Option<SpecSchemaParseError>
    decreases ts, ts.len() - k,
{
    if k < 0 || k >= ts.len() {
        None
    } else {
        first_err(type_defaults(ts[k], enums, aliases, fuel), types_defaults(ts, k + 1, enums, aliases, fuel))
    }
}

/// The first ill-fitting default in the structs nested in the alias bodies from index `k` on.
pub open spec fn alias_defaults(bodies: SpecAliases, k: int, enums: Seq<SpecEnumDef>, aliases: SpecAliases, fuel: nat) -> Option<SpecSchemaParseError>
    decreases bodies.len() - k,
{
    if k < 0 || k >= bodies.len() {
        None
    } else {
        first_err(type_defaults(bodies[k].1.value, enums, aliases, fuel), alias_defaults(bodies, k + 1, enums, aliases, fuel))
    }
}

// ===========================================================================
// The whole schema
// ===========================================================================

/// The schema made of its parts: references to aliases reclassified, then checked for undefined
/// names (in the root struct, then in the alias bodies), recursive aliases, map keys that are
/// aliases for types no key may have (in the root struct, then in the alias bodies) and
/// ill-fitting defaults (in the root struct), in this order. A schema with imports leaves the names and defaults of its root struct to be
/// checked once its imports are resolved.
pub open spec fn checked_schema(
    imports: Seq<Spanned<Seq<char>>>,
    root: SpecStructDef,
    enums: Seq<SpecEnumDef>,
    aliases: SpecAliases,
) -> Result<SpecSchema, SpecSchemaParseError> {
    let names = alias_names(aliases);
    let root2 = reclass_struct(root, names);
    let aliases2 = reclass_aliases(aliases, names);
    let local = imports.len() == 0;
    match if local { first_err(fields_refs(root2.fields, 0, enums, aliases2), alias_refs(aliases2, 0, enums, aliases2)) } else { None } {
        Some(e) => Err(e),
        None => match alias_cycles(aliases2, 0) {
            Some(e) => Err(e),
            None => match first_err(fields_keys(root2.fields, 0, aliases2), alias_keys(aliases2, 0, aliases2)) {
                Some(e) => Err(e),
                None => match if local {
                    first_err(struct_defaults(root2, enums, aliases2, aliases2.len()), alias_defaults(aliases2, 0, enums, aliases2, aliases2.len()))
                } else {
                    None
                } {
                    Some(e) => Err(e),
                    None => Ok(SpecSchema { root: root2, enums, aliases: aliases2, imports }),
                },
            },
        },
    }
}


/// A schema read from source has distinct enum names, distinct alias names and distinct variant
/// names within each enum.
pub proof fn lemma_source_names_distinct(s: Seq<u8>)
    ensures
        schema_of_source(s) is Ok ==> super::grammar::names_distinct(schema_of_source(s)->Ok_0.enums, schema_of_source(s)->Ok_0.aliases),
{
    match super::grammar::schema_parts(s) {
        Ok((imports, root, enums, aliases)) => {
            match super::grammar::imports_at(s, crate::text::skip_ws(s, 0), Seq::empty()) {
                Ok((_, ia)) => {
                    let rt: Result<(SpecStructDef, int), SpecSchemaParseError> = if ia < s.len() && s[ia] == 0x28 {
                        super::grammar::struct_at(s, ia)
                    } else {
                        Ok((SpecStructDef { fields: Seq::empty(), annotations: Seq::empty() }, ia))
                    };
                    match rt {
                        Ok((_, re)) => {
                            super::grammar::lemma_defs_distinct(s, re, Seq::empty(), Seq::empty());
                        },
                        Err(_) => {},
                    }
                },
                Err(_) => {},
            }
            let names = alias_names(aliases);
            let a2 = reclass_aliases(aliases, names);
            assert forall|a: int, b: int| 0 <= a < b < a2.len() implies #[trigger] a2[a].0 != #[trigger] a2[b].0 by {
                assert(a2[a].0 == aliases[a].0 && a2[b].0 == aliases[b].0);
            }
        },
        Err(_) => {},
    }
}

/// The schema that a source text denotes, or the first error found in it.
pub open spec fn schema_of_source(s: Seq<u8>) -> Result<SpecSchema, SpecSchemaParseError> {
    match super::grammar::schema_parts(s) {
        Err(x) => Err(x),
        Ok((imports, root, enums, aliases)) => checked_schema(imports, root, enums, aliases),
    }
}

// ===========================================================================
// Executable checks
// ===========================================================================

/// A copy of a list of strings.
pub fn copy_strings(v: &Vec<String>) -> (r: Vec<String>)
    ensures
        strings_view(r@) == strings_view(v@),
{
    let mut out: Vec<String> = Vec::new();
    let mut k: usize = 0;
    while k < v.len()
        invariant
            k <= v@.len(),
            strings_view(out@) == strings_view(v@).take(k as int),
        decreases v@.len() - k,
    {
        let ghost before = out@;
        out.push(copy_string(&v[k]));
        proof {
            assert(strings_view(out@) =~= strings_view(before).push(v@[k as int]@));
            assert(strings_view(v@).take(k + 1) =~= strings_view(v@).take(k as int).push(v@[k as int]@));
        }
        k = k + 1;
    }
    assert(strings_view(v@).take(v@.len() as int) =~= strings_view(v@));
    out
}

/// Whether `name` is among `names`.
pub fn contains_name(names: &Vec<String>, name: &String) -> (r: bool)
    ensures
        r == strings_view(names@).contains(name@),
{
    let ghost nv = strings_view(names@);
    let mut k: usize = 0;
    while k < names.len()
        invariant
            k <= names@.len(),
            nv == strings_view(names@),
            forall|j: int| 0 <= j < k ==> #[trigger] nv[j] != name@,
        decreases names@.len() - k,
    {
        if str_eq(names[k].as_str(), name.as_str()) {
            assert(nv[k as int] == name@);
            return true;
        }
        k = k + 1;
    }
    false
}

/// The names of the aliases, in order.
pub fn names_of_aliases(aliases: &Vec<(String, Spanned<SchemaType>)>) -> (r: Vec<String>)
    ensures
        strings_view(r@) == alias_names(aliases_view(aliases@)),
{
    let mut out: Vec<String> = Vec::new();
    let mut k: usize = 0;
    while k < aliases.len()
        invariant
            k <= aliases@.len(),
            strings_view(out@) == alias_names(aliases_view(aliases@)).take(k as int),
        decreases aliases@.len() - k,
    {
        let ghost before = out@;
        out.push(copy_string(&aliases[k].0));
        proof {
            assert(strings_view(out@) =~= strings_view(before).push(aliases@[k as int].0@));
            assert(alias_names(aliases_view(aliases@)).take(k + 1) =~= alias_names(aliases_view(aliases@)).take(k as int).push(aliases@[k as int].0@));
        }
        k = k + 1;
    }
    assert(alias_names(aliases_view(aliases@)).take(aliases@.len() as int) =~= alias_names(aliases_view(aliases@)));
    out
}

/// The first enum with the given name.
pub fn lookup_enum<'b>(enums: &'b Vec<EnumDef>, name: &String) -> (r: Option<&'b EnumDef>)
    ensures
        match find_enum(enums_view(enums@), name@, 0) {
            Some(e) => r is Some && r->0@ == e,
            None => r is None,
        },
{
    let ghost ev = enums_view(enums@);
    let mut k: usize = 0;
    while k < enums.len()
        invariant
            k <= enums@.len(),
            ev == enums_view(enums@),
            find_enum(ev, name@, 0) == find_enum(ev, name@, k as int),
        decreases enums@.len() - k,
    {
        if str_eq(enums[k].name.as_str(), name.as_str()) {
            return Some(&enums[k]);
        }
        k = k + 1;
    }
    None
}

/// The first alias with the given name.
pub fn lookup_alias<'b>(aliases: &'b Vec<(String, Spanned<SchemaType>)>, name: &String) -> (r: Option<&'b Spanned<SchemaType>>)
    ensures
        match find_alias(aliases_view(aliases@), name@, 0) {
            Some(t) => r is Some && r->0@ == t,
            None => r is None,
        },
{
    let ghost av = aliases_view(aliases@);
    let mut k: usize = 0;
    while k < aliases.len()
        invariant
            k <= aliases@.len(),
            av == aliases_view(aliases@),
            find_alias(av, name@, 0) == find_alias(av, name@, k as int),
        decreases aliases@.len() - k,
    {
        if str_eq(aliases[k].0.as_str(), name.as_str()) {
            return Some(&aliases[k].1);
        }
        k = k + 1;
    }
    None
}

/// The data of the first variant with the given name.
pub fn lookup_variant<'b>(variants: &'b Vec<(String, Option<SchemaType>)>, name: &String) -> (r: Option<&'b Option<SchemaType>>)
    ensures
        match find_variant(variants_view(variants@), name@, 0) {
            Some(d) => r is Some && opt_type_view(*r->0) == d,
            None => r is None,
        },
{
    let ghost vv = variants_view(variants@);
    let mut k: usize = 0;
    while k < variants.len()
        invariant
            k <= variants@.len(),
            vv == variants_view(variants@),
            find_variant(vv, name@, 0) == find_variant(vv, name@, k as int),
        decreases variants@.len() - k,
    {
        if str_eq(variants[k].0.as_str(), name.as_str()) {
            return Some(&variants[k].1);
        }
        k = k + 1;
    }
    None
}

/// Turns every enum reference whose name is among `names` into an alias reference.
pub fn reclassify_type(t: SchemaType, names: &Vec<String>) -> (r: SchemaType)
    ensures
        r@ == reclass_type(t@, strings_view(names@)),
    decreases t,
{
    match t {
        SchemaType::EnumRef(n) => {
            let c = contains_name(names, &n);
            let r = if c {
                SchemaType::AliasRef(n)
            } else {
                SchemaType::EnumRef(n)
            };
            assert(r@ == reclass_type(t@, strings_view(names@)));
            r
        },
        SchemaType::Option(b) => {
            let x = reclassify_type(*b, names);
            let r = SchemaType::Option(Box::new(x));
            assert(r@ == reclass_type(t@, strings_view(names@)));
            r
        },
        SchemaType::List(b) => {
            let x = reclassify_type(*b, names);
            let r = SchemaType::List(Box::new(x));
            assert(r@ == reclass_type(t@, strings_view(names@)));
            r
        },
        SchemaType::Dict(k, v) => {
            let k2 = reclassify_type(*k, names);
            let v2 = reclassify_type(*v, names);
            let r = SchemaType::Dict(Box::new(k2), Box::new(v2));
            assert(r@ == reclass_type(t@, strings_view(names@)));
            r
        },
        SchemaType::Tuple(ts) => {
            let ghost orig = ts;
            let mut rest = ts;
            let mut out: Vec<SchemaType> = Vec::new();
            let ghost nv = strings_view(names@);
            let ghost want = reclass_type(t@, nv);
            while rest.len() > 0
                invariant
                    t == SchemaType::Tuple(orig),
                    nv == strings_view(names@),
                    out@.len() + rest@.len() == orig@.len(),
                    rest@ == orig@.skip(out@.len() as int),
                    forall|j: int| 0 <= j < out@.len() ==> #[trigger] type_view(out@[j]) == reclass_type(type_view(orig@[j]), nv),
                decreases rest@.len(),
            {
                let x = rest.remove(0);
                let ghost j = out@.len() as int;
                proof {
                    assert(x == orig@[j]);
                    vstd::std_specs::vec::axiom_vec_index_decreases(orig, j);
                    assert(decreases_to!(t => t->Tuple_0));
                }
                let y = reclassify_type(x, names);
                out.push(y);
                proof {
                    assert(rest@ =~= orig@.skip(out@.len() as int));
                }
            }
            proof {
                let a = types_view(out@);
                let b = types_view(orig@);
                assert(a.len() == b.len());
                assert forall|i: int| 0 <= i < a.len() implies a[i] == reclass_type(b[i], nv) by {
                    assert(type_view(out@[i]) == reclass_type(type_view(orig@[i]), nv));
                }
                assert(t@ == SpecSchemaType::Tuple(b));
                let want = reclass_type(t@, nv)->Tuple_0;
                assert(want.len() == b.len());
                assert forall|i: int| 0 <= i < a.len() implies a[i] == want[i] by {
                    assert(type_view(out@[i]) == reclass_type(type_view(orig@[i]), nv));
                }
                assert(a =~= want);
            }
            SchemaType::Tuple(out)
        },
        SchemaType::Struct(sd) => {
            let x = reclassify_struct(sd, names);
            let r = SchemaType::Struct(x);
            assert(r@ == reclass_type(t@, strings_view(names@)));
            r
        },
        other => {
            assert(other@ == reclass_type(t@, strings_view(names@)));
            other
        },
    }
}

/// Reclassifies the references in the types of a struct's fields.
pub fn reclassify_struct(sd: StructDef, names: &Vec<String>) -> (r: StructDef)
    ensures
        r@ == reclass_struct(sd@, strings_view(names@)),
    decreases sd,
{
    let StructDef { fields, annotations } = sd;
    let ghost orig = fields;
    let ghost nv = strings_view(names@);
    let mut rest = fields;
    let mut out: Vec<FieldDef> = Vec::new();
    while rest.len() > 0
        invariant
            sd.fields == orig,
            nv == strings_view(names@),
            out@.len() + rest@.len() == orig@.len(),
            rest@ == orig@.skip(out@.len() as int),
            forall|j: int| 0 <= j < out@.len() ==> #[trigger] field_view(out@[j]) == reclass_field(field_view(orig@[j]), nv),
        decreases rest@.len(),
    {
        let f = rest.remove(0);
        let ghost j = out@.len() as int;
        proof {
            assert(f == orig@[j]);
            vstd::std_specs::vec::axiom_vec_index_decreases(orig, j);
            assert(decreases_to!(sd => sd.fields));
        }
        let FieldDef { name, type_, default, annotations: anns } = f;
        let Spanned { value, span } = type_;
        let value2 = reclassify_type(value, names);
        out.push(FieldDef { name, type_: Spanned { value: value2, span }, default, annotations: anns });
        proof {
            assert(rest@ =~= orig@.skip(out@.len() as int));
        }
    }
    proof {
        let a = field_defs_view(out@);
        let b = field_defs_view(orig@);
        assert(a.len() == b.len());
        assert forall|i: int| 0 <= i < a.len() implies a[i] == reclass_field(b[i], nv) by {
            assert(field_view(out@[i]) == reclass_field(field_view(orig@[i]), nv));
        }
        assert(a =~= reclass_struct(sd@, nv).fields);
    }
    let r = StructDef { fields: out, annotations };
    r
}


fn unresolved_error(span: Span, name: &String) -> (r: SchemaParseError)
    ensures
        r@ == unresolved(span, name@),
{
    SchemaParseError { span, kind: SchemaErrorKind::UnresolvedType { name: copy_string(name) } }
}

/// Checks that every enum and alias reference in `t` is defined.
pub fn check_type_refs(t: &SchemaType, span: Span, enums: &Vec<EnumDef>, aliases: &Vec<(String, Spanned<SchemaType>)>) -> (r: Result<(), SchemaParseError>)
    ensures
        match type_refs(t@, span, enums_view(enums@), aliases_view(aliases@)) {
            Some(e) => r is Err && r->Err_0@ == e,
            None => r is Ok,
        },
    decreases t,
{
    let ghost ev = enums_view(enums@);
    let ghost av = aliases_view(aliases@);
    match t {
        SchemaType::EnumRef(n) => {
            if lookup_enum(enums, n).is_some() {
                Ok(())
            } else {
                Err(unresolved_error(span, n))
            }
        },
        SchemaType::AliasRef(n) => {
            if lookup_alias(aliases, n).is_some() {
                Ok(())
            } else {
                Err(unresolved_error(span, n))
            }
        },
        SchemaType::Option(b) => check_type_refs(b, span, enums, aliases),
        SchemaType::List(b) => check_type_refs(b, span, enums, aliases),
        SchemaType::Dict(k, v) => {
            match check_type_refs(k, span, enums, aliases) {
                Ok(()) => {},
                Err(e) => {
                    return Err(e);
                },
            }
            check_type_refs(v, span, enums, aliases)
        },
        SchemaType::Tuple(ts) => {
            let ghost tv = types_view(ts@);
            let mut i: usize = 0;
            while i < ts.len()
                invariant
                    i <= ts@.len(),
                    *t == SchemaType::Tuple(*ts),
                    tv == types_view(ts@),
                    ev == enums_view(enums@),
                    av == aliases_view(aliases@),
                    types_refs(tv, 0, span, ev, av) == types_refs(tv, i as int, span, ev, av),
                decreases ts@.len() - i,
            {
                proof {
                    vstd::std_specs::vec::axiom_vec_index_decreases(*ts, i as int);
                    assert(decreases_to!(*t => (*t)->Tuple_0));
                }
                match check_type_refs(&ts[i], span, enums, aliases) {
                    Ok(()) => {},
                    Err(e) => {
                        return Err(e);
                    },
                }
                i = i + 1;
            }
            Ok(())
        },
        SchemaType::Struct(sd) => {
            proof {
                assert(decreases_to!(*t => (*t)->Struct_0));
            }
            check_field_refs(sd, enums, aliases)
        },
        _ => Ok(()),
    }
}

/// Checks the references in the types of a struct's fields, each reported at its field's type.
pub fn check_field_refs(sd: &StructDef, enums: &Vec<EnumDef>, aliases: &Vec<(String, Spanned<SchemaType>)>) -> (r: Result<(), SchemaParseError>)
    ensures
        match fields_refs(sd@.fields, 0, enums_view(enums@), aliases_view(aliases@)) {
            Some(e) => r is Err && r->Err_0@ == e,
            None => r is Ok,
        },
    decreases sd,
{
    let ghost ev = enums_view(enums@);
    let ghost av = aliases_view(aliases@);
    let ghost fv = field_defs_view(sd.fields@);
    let mut i: usize = 0;
    while i < sd.fields.len()
        invariant
            i <= sd.fields@.len(),
            fv == field_defs_view(sd.fields@),
            ev == enums_view(enums@),
            av == aliases_view(aliases@),
            fields_refs(fv, 0, ev, av) == fields_refs(fv, i as int, ev, av),
        decreases sd.fields@.len() - i,
    {
        proof {
            vstd::std_specs::vec::axiom_vec_index_decreases(sd.fields, i as int);
            assert(decreases_to!(*sd => sd.fields));
        }
        let f = &sd.fields[i];
        match check_type_refs(&f.type_.value, f.type_.span, enums, aliases) {
            Ok(()) => {},
            Err(e) => {
                return Err(e);
            },
        }
        i = i + 1;
    }
    Ok(())
}

/// Checks a map key that may be an alias (see [`key_alias_error`]).
fn check_key_alias(k: &SchemaType, span: Span, aliases: &Vec<(String, Spanned<SchemaType>)>) -> (r: Result<(), SchemaParseError>)
    ensures
        match key_alias_error(k@, span, aliases_view(aliases@)) {
            Some(e) => r is Err && r->Err_0@ == e,
            None => r is Ok,
        },
{
    match k {
        SchemaType::AliasRef(n) => {
            if lookup_alias(aliases, n).is_none() {
                return Ok(());
            }
            let target = resolve_type(k, aliases, aliases.len());
            let ok = match target {
                SchemaType::String => true,
                SchemaType::Integer => true,
                SchemaType::EnumRef(_) => true,
                _ => false,
            };
            if ok {
                Ok(())
            } else {
                Err(SchemaParseError { span, kind: SchemaErrorKind::InvalidMapKeyType { found: type_debug_string(target) } })
            }
        },
        _ => Ok(()),
    }
}

/// Checks the map keys in a type (see [`type_keys`]).
pub fn check_type_keys(t: &SchemaType, span: Span, aliases: &Vec<(String, Spanned<SchemaType>)>) -> (r: Result<(), SchemaParseError>)
    ensures
        match type_keys(t@, span, aliases_view(aliases@)) {
            Some(e) => r is Err && r->Err_0@ == e,
            None => r is Ok,
        },
    decreases t,
{
    let ghost av = aliases_view(aliases@);
    match t {
        SchemaType::Option(b) => check_type_keys(b, span, aliases),
        SchemaType::List(b) => check_type_keys(b, span, aliases),
        SchemaType::Dict(k, v) => {
            match check_key_alias(k, span, aliases) {
                Ok(()) => {},
                Err(e) => {
                    return Err(e);
                },
            }
            check_type_keys(v, span, aliases)
        },
        SchemaType::Tuple(ts) => {
            let ghost tv = types_view(ts@);
            let mut i: usize = 0;
            while i < ts.len()
                invariant
                    i <= ts@.len(),
                    *t == SchemaType::Tuple(*ts),
                    tv == types_view(ts@),
                    av == aliases_view(aliases@),
                    types_keys(tv, 0, span, av) == types_keys(tv, i as int, span, av),
                decreases ts@.len() - i,
            {
                proof {
                    vstd::std_specs::vec::axiom_vec_index_decreases(*ts, i as int);
                    assert(decreases_to!(*t => (*t)->Tuple_0));
                }
                match check_type_keys(&ts[i], span, aliases) {
                    Ok(()) => {},
                    Err(e) => {
                        return Err(e);
                    },
                }
                i = i + 1;
            }
            Ok(())
        },
        SchemaType::Struct(sd) => {
            proof {
                assert(decreases_to!(*t => (*t)->Struct_0));
            }
            check_field_keys(sd, aliases)
        },
        _ => Ok(()),
    }
}

/// Checks the map keys in the types of a struct's fields (see [`fields_keys`]).
pub fn check_field_keys(sd: &StructDef, aliases: &Vec<(String, Spanned<SchemaType>)>) -> (r: Result<(), SchemaParseError>)
    ensures
        match fields_keys(sd@.fields, 0, aliases_view(aliases@)) {
            Some(e) => r is Err && r->Err_0@ == e,
            None => r is Ok,
        },
    decreases sd,
{
    let ghost av = aliases_view(aliases@);
    let ghost fv = field_defs_view(sd.fields@);
    let mut i: usize = 0;
    while i < sd.fields.len()
        invariant
            i <= sd.fields@.len(),
            fv == field_defs_view(sd.fields@),
            av == aliases_view(aliases@),
            fields_keys(fv, 0, av) == fields_keys(fv, i as int, av),
        decreases sd.fields@.len() - i,
    {
        proof {
            vstd::std_specs::vec::axiom_vec_index_decreases(sd.fields, i as int);
            assert(decreases_to!(*sd => sd.fields));
        }
        let f = &sd.fields[i];
        match check_type_keys(&f.type_.value, f.type_.span, aliases) {
            Ok(()) => {},
            Err(e) => {
                return Err(e);
            },
        }
        i = i + 1;
    }
    Ok(())
}

/// Checks the map keys in the alias bodies (see [`alias_keys`]).
fn check_alias_keys(aliases: &Vec<(String, Spanned<SchemaType>)>) -> (r: Result<(), SchemaParseError>)
    ensures
        match alias_keys(aliases_view(aliases@), 0, aliases_view(aliases@)) {
            Some(e) => r is Err && r->Err_0@ == e,
            None => r is Ok,
        },
{
    let ghost av = aliases_view(aliases@);
    let mut i: usize = 0;
    while i < aliases.len()
        invariant
            i <= aliases@.len(),
            av == aliases_view(aliases@),
            av.len() == aliases@.len(),
            alias_keys(av, 0, av) == alias_keys(av, i as int, av),
        decreases aliases@.len() - i,
    {
        assert(av[i as int].1 == aliases@[i as int].1@);
        match check_type_keys(&aliases[i].1.value, aliases[i].1.span, aliases) {
            Ok(()) => {},
            Err(e) => {
                return Err(e);
            },
        }
        i = i + 1;
    }
    Ok(())
}

/// Checks the references in the alias bodies (see [`alias_refs`]).
fn check_alias_refs(enums: &Vec<EnumDef>, aliases: &Vec<(String, Spanned<SchemaType>)>) -> (r: Result<(), SchemaParseError>)
    ensures
        match alias_refs(aliases_view(aliases@), 0, enums_view(enums@), aliases_view(aliases@)) {
            Some(e) => r is Err && r->Err_0@ == e,
            None => r is Ok,
        },
{
    let ghost av = aliases_view(aliases@);
    let ghost ev = enums_view(enums@);
    let mut i: usize = 0;
    while i < aliases.len()
        invariant
            i <= aliases@.len(),
            av == aliases_view(aliases@),
            ev == enums_view(enums@),
            av.len() == aliases@.len(),
            alias_refs(av, 0, ev, av) == alias_refs(av, i as int, ev, av),
        decreases aliases@.len() - i,
    {
        assert(av[i as int].1 == aliases@[i as int].1@);
        match check_type_refs(&aliases[i].1.value, aliases[i].1.span, enums, aliases) {
            Ok(()) => {},
            Err(e) => {
                return Err(e);
            },
        }
        i = i + 1;
    }
    Ok(())
}

/// The first alias name met twice on one path of alias references in `t` (see [`cycle_in`]).
pub fn find_cycle(t: &SchemaType, aliases: &Vec<(String, Spanned<SchemaType>)>, path: &Vec<String>, fuel: usize) -> (r: Option<String>)
    ensures
        crate::error::option_string_view(r) == cycle_in(t@, aliases_view(aliases@), strings_view(path@), fuel as nat),
    decreases fuel, t, 0int,
{
    let ghost av = aliases_view(aliases@);
    let ghost pv = strings_view(path@);
    match t {
        SchemaType::AliasRef(n) => {
            if contains_name(path, n) {
                return Some(copy_string(n));
            }
            if fuel == 0 {
                return None;
            }
            match lookup_alias(aliases, n) {
                Some(target) => {
                    let mut p2 = copy_strings(path);
                    p2.push(copy_string(n));
                    proof {
                        assert(strings_view(p2@) =~= pv.push(n@));
                    }
                    find_cycle(&target.value, aliases, &p2, fuel - 1)
                },
                None => None,
            }
        },
        SchemaType::Option(b) => find_cycle(b, aliases, path, fuel),
        SchemaType::List(b) => find_cycle(b, aliases, path, fuel),
        SchemaType::Dict(k, v) => {
            let a = find_cycle(k, aliases, path, fuel);
            if a.is_some() {
                return a;
            }
            find_cycle(v, aliases, path, fuel)
        },
        SchemaType::Tuple(ts) => {
            let ghost tv = types_view(ts@);
            let mut i: usize = 0;
            while i < ts.len()
                invariant
                    i <= ts@.len(),
                    *t == SchemaType::Tuple(*ts),
                    tv == types_view(ts@),
                    av == aliases_view(aliases@),
                    pv == strings_view(path@),
                    cycle_in_types(tv, 0, av, pv, fuel as nat) == cycle_in_types(tv, i as int, av, pv, fuel as nat),
                decreases ts@.len() - i,
            {
                proof {
                    vstd::std_specs::vec::axiom_vec_index_decreases(*ts, i as int);
                    assert(decreases_to!(*t => (*t)->Tuple_0));
                }
                let a = find_cycle(&ts[i], aliases, path, fuel);
                if a.is_some() {
                    return a;
                }
                i = i + 1;
            }
            None
        },
        SchemaType::Struct(sd) => {
            let ghost fv = field_defs_view(sd.fields@);
            assert(t@ == SpecSchemaType::Struct(sd@));
            let mut i: usize = 0;
            while i < sd.fields.len()
                invariant
                    i <= sd.fields@.len(),
                    *t == SchemaType::Struct(*sd),
                    t@ == SpecSchemaType::Struct(sd@),
                    sd@.fields == fv,
                    fv == field_defs_view(sd.fields@),
                    av == aliases_view(aliases@),
                    pv == strings_view(path@),
                    cycle_in_fields(fv, 0, av, pv, fuel as nat) == cycle_in_fields(fv, i as int, av, pv, fuel as nat),
                decreases sd.fields@.len() - i,
            {
                proof {
                    vstd::std_specs::vec::axiom_vec_index_decreases(sd.fields, i as int);
                    assert(decreases_to!(*t => (*t)->Struct_0));
                    assert(decreases_to!((*t)->Struct_0 => sd.fields));
                    assert(fv[i as int] == field_view(sd.fields@[i as int]));
                }
                let a = find_cycle(&sd.fields[i].type_.value, aliases, path, fuel);
                if a.is_some() {
                    return a;
                }
                i = i + 1;
            }
            None
        },
        _ => None,
    }
}

/// Checks that no alias leads back to itself (see [`alias_cycles`]).
pub fn check_alias_cycles(aliases: &Vec<(String, Spanned<SchemaType>)>) -> (r: Result<(), SchemaParseError>)
    ensures
        match alias_cycles(aliases_view(aliases@), 0) {
            Some(e) => r is Err && r->Err_0@ == e,
            None => r is Ok,
        },
{
    let ghost av = aliases_view(aliases@);
    let mut k: usize = 0;
    while k < aliases.len()
        invariant
            k <= aliases@.len(),
            av == aliases_view(aliases@),
            alias_cycles(av, 0) == alias_cycles(av, k as int),
        decreases aliases@.len() - k,
    {
        let mut path: Vec<String> = Vec::new();
        path.push(copy_string(&aliases[k].0));
        proof {
            assert(strings_view(path@) =~= seq![av[k as int].0]);
        }
        match find_cycle(&aliases[k].1.value, aliases, &path, aliases.len()) {
            Some(n) => {
                return Err(SchemaParseError { span: aliases[k].1.span, kind: SchemaErrorKind::RecursiveAlias { name: n } });
            },
            None => {},
        }
        k = k + 1;
    }
    Ok(())
}

/// The type behind a chain of at most `fuel` alias references.
pub fn resolve_type<'b>(t: &'b SchemaType, aliases: &'b Vec<(String, Spanned<SchemaType>)>, fuel: usize) -> (r: &'b SchemaType)
    ensures
        r@ == resolve(t@, aliases_view(aliases@), fuel as nat),
    decreases fuel,
{
    match t {
        SchemaType::AliasRef(n) => {
            if fuel == 0 {
                return t;
            }
            match lookup_alias(aliases, n) {
                Some(target) => resolve_type(&target.value, aliases, fuel - 1),
                None => t,
            }
        },
        _ => t,
    }
}


/// Whether a default value fits a type (see [`default_fits`]).
pub fn default_fits_type(sv: &Spanned<RonValue>, t: &SchemaType, enums: &Vec<EnumDef>, aliases: &Vec<(String, Spanned<SchemaType>)>, fuel: usize) -> (r: bool)
    ensures
        r == default_fits(sv@, t@, enums_view(enums@), aliases_view(aliases@), fuel as nat),
    decreases sv, 0int,
{
    let ghost ev = enums_view(enums@);
    let ghost av = aliases_view(aliases@);
    let v = &sv.value;
    proof {
        assert(decreases_to!(*sv => sv.value));
    }
    let rt = resolve_type(t, aliases, fuel);
    match rt {
        SchemaType::String => match v {
            RonValue::String(_) => true,
            _ => false,
        },
        SchemaType::Integer => match v {
            RonValue::Integer(_) => true,
            _ => false,
        },
        SchemaType::Float => match v {
            RonValue::Float(_) => true,
            _ => false,
        },
        SchemaType::Bool => match v {
            RonValue::Bool(_) => true,
            _ => false,
        },
        SchemaType::Option(inner) => match v {
            RonValue::Option(None) => true,
            RonValue::Option(Some(iv)) => {
                proof {
                    assert(decreases_to!(*v => (*v)->Option_0));
                }
                default_fits_type(iv, inner, enums, aliases, fuel)
            },
            _ => false,
        },
        SchemaType::List(et) => match v {
            RonValue::List(els) => {
                let ghost lv = crate::ron::list_view(els@);
                let mut k: usize = 0;
                while k < els.len()
                    invariant
                        k <= els@.len(),
                        *v == RonValue::List(*els),
                        *v == sv.value,
                        *rt == SchemaType::List(*et),
                        rt@ == resolve(t@, av, fuel as nat),
                        lv == crate::ron::list_view(els@),
                        ev == enums_view(enums@),
                        av == aliases_view(aliases@),
                        all_fit(lv, 0, (**et)@, ev, av, fuel as nat) == all_fit(lv, k as int, (**et)@, ev, av, fuel as nat),
                    decreases els@.len() - k,
                {
                    proof {
                        vstd::std_specs::vec::axiom_vec_index_decreases(*els, k as int);
                        assert(decreases_to!(*sv => sv.value));
                        assert(decreases_to!(*v => (*v)->List_0));
                    }
                    if !default_fits_type(&els[k], et, enums, aliases, fuel) {
                        return false;
                    }
                    k = k + 1;
                }
                true
            },
            _ => false,
        },
        SchemaType::EnumRef(en) => match v {
            RonValue::Identifier(var) => match lookup_enum(enums, en) {
                Some(e) => match lookup_variant(&e.variants, var) {
                    Some(None) => true,
                    _ => false,
                },
                None => false,
            },
            RonValue::EnumVariant(var, data) => match lookup_enum(enums, en) {
                Some(e) => match lookup_variant(&e.variants, var) {
                    Some(Some(dt)) => {
                        proof {
                            assert(decreases_to!(*v => (*v)->EnumVariant_1));
                        }
                        default_fits_type(data, dt, enums, aliases, fuel)
                    },
                    _ => false,
                },
                None => false,
            },
            _ => false,
        },
        SchemaType::Tuple(ts) => match v {
            RonValue::Tuple(vs) => {
                assert(types_view(ts@).len() == ts@.len());
                assert(crate::ron::list_view(vs@).len() == vs@.len());
                if ts.len() != vs.len() {
                    return false;
                }
                let ghost lv = crate::ron::list_view(vs@);
                let ghost tv = types_view(ts@);
                let mut k: usize = 0;
                while k < vs.len()
                    invariant
                        k <= vs@.len(),
                        vs@.len() == ts@.len(),
                        *v == RonValue::Tuple(*vs),
                        *v == sv.value,
                        *rt == SchemaType::Tuple(*ts),
                        rt@ == resolve(t@, av, fuel as nat),
                        lv == crate::ron::list_view(vs@),
                        tv == types_view(ts@),
                        ev == enums_view(enums@),
                        av == aliases_view(aliases@),
                        pairs_fit(lv, 0, tv, ev, av, fuel as nat) == pairs_fit(lv, k as int, tv, ev, av, fuel as nat),
                    decreases vs@.len() - k,
                {
                    proof {
                        vstd::std_specs::vec::axiom_vec_index_decreases(*vs, k as int);
                        assert(decreases_to!(*sv => sv.value));
                        assert(decreases_to!(*v => (*v)->Tuple_0));
                    }
                    if !default_fits_type(&vs[k], &ts[k], enums, aliases, fuel) {
                        return false;
                    }
                    k = k + 1;
                }
                true
            },
            _ => false,
        },
        SchemaType::Dict(_, _) => match v {
            RonValue::Dict(_) => true,
            _ => false,
        },
        SchemaType::Struct(sd) => match v {
            RonValue::Struct(_) => {
                let mut errors: Vec<crate::error::ValidationError> = Vec::new();
                let mut warnings: Vec<crate::error::Warning> = Vec::new();
                let path = String::new();
                proof {
                    assert(path@ =~= Seq::<char>::empty());
                }
                crate::validate::validate_struct(sd, sv, &path, &mut errors, &mut warnings, enums, aliases);
                proof {
                    let rep = crate::validate::check_struct(sd@, sv@, Seq::empty(), ev, av);
                    assert(crate::validate::errs_view(Seq::<crate::error::ValidationError>::empty()) =~= Seq::<crate::error::SpecValidationError>::empty());
                    assert(crate::validate::errs_view(errors@) =~= rep.errors);
                }
                errors.len() == 0
            },
            _ => false,
        },
        _ => false,
    }
}

/// A type as written in an error message (see [`describe_type`]).
pub fn describe_type_text(t: &SchemaType) -> (r: String)
    ensures
        r@ == describe_type(t@),
    decreases t,
{
    let mut out = String::new();
    match t {
        SchemaType::String => append_str(&mut out, "String"),
        SchemaType::Integer => append_str(&mut out, "Integer"),
        SchemaType::Float => append_str(&mut out, "Float"),
        SchemaType::Bool => append_str(&mut out, "Bool"),
        SchemaType::Option(b) => {
            append_str(&mut out, "Option(");
            let x = describe_type_text(b);
            append_str(&mut out, x.as_str());
            append_str(&mut out, ")");
        },
        SchemaType::List(b) => {
            append_str(&mut out, "[");
            let x = describe_type_text(b);
            append_str(&mut out, x.as_str());
            append_str(&mut out, "]");
        },
        SchemaType::EnumRef(n) => append_str(&mut out, n.as_str()),
        SchemaType::AliasRef(n) => append_str(&mut out, n.as_str()),
        SchemaType::Dict(k, v) => {
            append_str(&mut out, "{");
            let x = describe_type_text(k);
            append_str(&mut out, x.as_str());
            append_str(&mut out, ": ");
            let y = describe_type_text(v);
            append_str(&mut out, y.as_str());
            append_str(&mut out, "}");
        },
        SchemaType::Tuple(ts) => {
            append_str(&mut out, "(");
            let ghost tv = types_view(ts@);
            let mut i: usize = 0;
            while i < ts.len()
                invariant
                    i <= ts@.len(),
                    *t == SchemaType::Tuple(*ts),
                    tv == types_view(ts@),
                    out@ == "("@ + describe_types(tv, i as int),
                decreases ts@.len() - i,
            {
                proof {
                    vstd::std_specs::vec::axiom_vec_index_decreases(*ts, i as int);
                    assert(decreases_to!(*t => (*t)->Tuple_0));
                }
                if i > 0 {
                    append_str(&mut out, ", ");
                }
                let x = describe_type_text(&ts[i]);
                append_str(&mut out, x.as_str());
                assert(tv[i as int] == ts@[i as int]@);
                i = i + 1;
                assert(out@ =~= "("@ + describe_types(tv, i as int));
            }
            append_str(&mut out, ")");
        },
        SchemaType::Struct(_) => append_str(&mut out, "Struct"),
    }
    assert(out@ =~= describe_type(t@));
    out
}

/// A default value as written in an error message (see [`describe_default`]).
pub fn describe_default_text(v: &RonValue) -> (r: String)
    ensures
        r@ == describe_default(v@),
{
    let mut out = String::new();
    match v {
        RonValue::String(s) => {
            append_str(&mut out, "String(\"");
            append_str(&mut out, s.as_str());
            append_str(&mut out, "\")");
        },
        RonValue::Integer(n) => {
            append_str(&mut out, "Integer(");
            let d = Decimal::from_i64(*n);
            let x = d.to_text();
            append_str(&mut out, x.as_str());
            append_str(&mut out, ")");
        },
        RonValue::Float(d) => {
            append_str(&mut out, "Float(");
            let x = d.to_text();
            append_str(&mut out, x.as_str());
            append_str(&mut out, ")");
        },
        RonValue::Bool(b) => {
            if *b {
                append_str(&mut out, "Bool(true)");
            } else {
                append_str(&mut out, "Bool(false)");
            }
        },
        RonValue::Option(None) => append_str(&mut out, "None"),
        RonValue::Option(Some(_)) => append_str(&mut out, "Some(...)"),
        RonValue::Identifier(s) => {
            append_str(&mut out, "Identifier(");
            append_str(&mut out, s.as_str());
            append_str(&mut out, ")");
        },
        RonValue::EnumVariant(n, _) => {
            append_str(&mut out, n.as_str());
            append_str(&mut out, "(...)");
        },
        RonValue::List(_) => append_str(&mut out, "List"),
        RonValue::Dict(_) => append_str(&mut out, "Map"),
        RonValue::Tuple(_) => append_str(&mut out, "Tuple"),
        RonValue::Struct(_) => append_str(&mut out, "Struct"),
    }
    assert(out@ =~= describe_default(v@));
    out
}

/// Checks that every default in a struct fits its type (see [`struct_defaults`]).
pub fn check_defaults(sd: &StructDef, enums: &Vec<EnumDef>, aliases: &Vec<(String, Spanned<SchemaType>)>, fuel: usize) -> (r: Result<(), SchemaParseError>)
    ensures
        match struct_defaults(sd@, enums_view(enums@), aliases_view(aliases@), fuel as nat) {
            Some(e) => r is Err && r->Err_0@ == e,
            None => r is Ok,
        },
    decreases sd,
{
    let ghost ev = enums_view(enums@);
    let ghost av = aliases_view(aliases@);
    let ghost fv = field_defs_view(sd.fields@);
    let mut i: usize = 0;
    while i < sd.fields.len()
        invariant
            i <= sd.fields@.len(),
            fv == field_defs_view(sd.fields@),
            sd@.fields == fv,
            ev == enums_view(enums@),
            av == aliases_view(aliases@),
            bad_default(fv, 0, ev, av, fuel as nat) == bad_default(fv, i as int, ev, av, fuel as nat),
        decreases sd.fields@.len() - i,
    {
        let f = &sd.fields[i];
        assert(fv[i as int] == field_view(sd.fields@[i as int]));
        match &f.default {
            Some(d) => {
                if !default_fits_type(d, &f.type_.value, enums, aliases, fuel) {
                    let expected = describe_type_text(&f.type_.value);
                    let found = describe_default_text(&d.value);
                    return Err(SchemaParseError {
                        span: d.span,
                        kind: SchemaErrorKind::InvalidDefault { field_name: copy_string(&f.name.value), expected, found },
                    });
                }
            },
            None => {},
        }
        i = i + 1;
    }
    let mut j: usize = 0;
    while j < sd.fields.len()
        invariant
            j <= sd.fields@.len(),
            fv == field_defs_view(sd.fields@),
            sd@.fields == fv,
            ev == enums_view(enums@),
            av == aliases_view(aliases@),
            bad_default(fv, 0, ev, av, fuel as nat) is None,
            nested_defaults(fv, 0, ev, av, fuel as nat) == nested_defaults(fv, j as int, ev, av, fuel as nat),
        decreases sd.fields@.len() - j,
    {
        let f = &sd.fields[j];
        assert(fv[j as int] == field_view(sd.fields@[j as int]));
        proof {
            vstd::std_specs::vec::axiom_vec_index_decreases(sd.fields, j as int);
            assert(decreases_to!(*sd => sd.fields));
        }
        match check_type_defaults(&f.type_.value, enums, aliases, fuel) {
            Ok(()) => {},
            Err(e) => {
                return Err(e);
            },
        }
        j = j + 1;
    }
    Ok(())
}

/// Checks the defaults in the structs nested in a type (see [`type_defaults`]).
pub fn check_type_defaults(t: &SchemaType, enums: &Vec<EnumDef>, aliases: &Vec<(String, Spanned<SchemaType>)>, fuel: usize) -> (r: Result<(), SchemaParseError>)
    ensures
        match type_defaults(t@, enums_view(enums@), aliases_view(aliases@), fuel as nat) {
            Some(e) => r is Err && r->Err_0@ == e,
            None => r is Ok,
        },
    decreases t,
{
    let ghost ev = enums_view(enums@);
    let ghost av = aliases_view(aliases@);
    match t {
        SchemaType::Struct(inner) => {
            proof {
                assert(decreases_to!(*t => (*t)->Struct_0));
            }
            check_defaults(inner, enums, aliases, fuel)
        },
        SchemaType::Option(b) => check_type_defaults(b, enums, aliases, fuel),
        SchemaType::List(b) => check_type_defaults(b, enums, aliases, fuel),
        SchemaType::Dict(_, v) => check_type_defaults(v, enums, aliases, fuel),
        SchemaType::Tuple(ts) => {
            let ghost tv = types_view(ts@);
            let mut i: usize = 0;
            while i < ts.len()
                invariant
                    i <= ts@.len(),
                    *t == SchemaType::Tuple(*ts),
                    tv == types_view(ts@),
                    ev == enums_view(enums@),
                    av == aliases_view(aliases@),
                    types_defaults(tv, 0, ev, av, fuel as nat) == types_defaults(tv, i as int, ev, av, fuel as nat),
                decreases ts@.len() - i,
            {
                proof {
                    vstd::std_specs::vec::axiom_vec_index_decreases(*ts, i as int);
                    assert(decreases_to!(*t => (*t)->Tuple_0));
                }
                match check_type_defaults(&ts[i], enums, aliases, fuel) {
                    Ok(()) => {},
                    Err(e) => {
                        return Err(e);
                    },
                }
                i = i + 1;
            }
            Ok(())
        },
        _ => Ok(()),
    }
}

/// Checks the defaults in the structs nested in the alias bodies (see [`alias_defaults`]).
fn check_alias_defaults(enums: &Vec<EnumDef>, aliases: &Vec<(String, Spanned<SchemaType>)>, fuel: usize) -> (r: Result<(), SchemaParseError>)
    ensures
        match alias_defaults(aliases_view(aliases@), 0, enums_view(enums@), aliases_view(aliases@), fuel as nat) {
            Some(e) => r is Err && r->Err_0@ == e,
            None => r is Ok,
        },
{
    let ghost av = aliases_view(aliases@);
    let ghost ev = enums_view(enums@);
    let mut i: usize = 0;
    while i < aliases.len()
        invariant
            i <= aliases@.len(),
            av == aliases_view(aliases@),
            ev == enums_view(enums@),
            av.len() == aliases@.len(),
            alias_defaults(av, 0, ev, av, fuel as nat) == alias_defaults(av, i as int, ev, av, fuel as nat),
        decreases aliases@.len() - i,
    {
        assert(av[i as int].1 == aliases@[i as int].1@);
        match check_type_defaults(&aliases[i].1.value, enums, aliases, fuel) {
            Ok(()) => {},
            Err(e) => {
                return Err(e);
            },
        }
        i = i + 1;
    }
    Ok(())
}

/// Reclassifies the references in each alias's type.
fn reclassify_aliases(aliases: Vec<(String, Spanned<SchemaType>)>, names: &Vec<String>) -> (r: Vec<(String, Spanned<SchemaType>)>)
    ensures
        aliases_view(r@) == reclass_aliases(aliases_view(aliases@), strings_view(names@)),
{
    let ghost orig = aliases;
    let ghost nv = strings_view(names@);
    let mut rest = aliases;
    let mut out: Vec<(String, Spanned<SchemaType>)> = Vec::new();
    while rest.len() > 0
        invariant
            nv == strings_view(names@),
            out@.len() + rest@.len() == orig@.len(),
            rest@ == orig@.skip(out@.len() as int),
            forall|j: int| 0 <= j < out@.len() ==> #[trigger] aliases_view(out@)[j] == reclass_aliases(aliases_view(orig@), nv)[j],
        decreases rest@.len(),
    {
        let ghost before = out@;
        let (name, t) = rest.remove(0);
        let Spanned { value, span } = t;
        let v2 = reclassify_type(value, names);
        out.push((name, Spanned { value: v2, span }));
        proof {
            assert(rest@ =~= orig@.skip(out@.len() as int));
            assert forall|j: int| 0 <= j < out@.len() implies #[trigger] aliases_view(out@)[j] == reclass_aliases(aliases_view(orig@), nv)[j] by {
                if j < before.len() {
                    assert(aliases_view(out@)[j] == aliases_view(before)[j]);
                }
            }
        }
    }
    assert(aliases_view(out@) =~= reclass_aliases(aliases_view(orig@), nv));
    out
}

/// A schema made of its parts, after the checks (see [`checked_schema`]).
pub fn check_schema(
    imports: Vec<Spanned<String>>,
    root: StructDef,
    enums: Vec<EnumDef>,
    aliases: Vec<(String, Spanned<SchemaType>)>,
) -> (r: Result<Schema, SchemaParseError>)
    ensures
        match checked_schema(super::parser::imports_view(imports@), root@, enums_view(enums@), aliases_view(aliases@)) {
            Ok(sch) => r is Ok && r->Ok_0@ == sch,
            Err(x) => r is Err && r->Err_0@ == x,
        },
{
    let names = names_of_aliases(&aliases);
    let root2 = reclassify_struct(root, &names);
    let aliases2 = reclassify_aliases(aliases, &names);
    let local = imports.len() == 0;
    if local {
        match check_field_refs(&root2, &enums, &aliases2) {
            Ok(()) => {},
            Err(e) => {
                return Err(e);
            },
        }
        match check_alias_refs(&enums, &aliases2) {
            Ok(()) => {},
            Err(e) => {
                return Err(e);
            },
        }
    }
    match check_alias_cycles(&aliases2) {
        Ok(()) => {},
        Err(e) => {
            return Err(e);
        },
    }
    match check_field_keys(&root2, &aliases2) {
        Ok(()) => {},
        Err(e) => {
            return Err(e);
        },
    }
    match check_alias_keys(&aliases2) {
        Ok(()) => {},
        Err(e) => {
            return Err(e);
        },
    }
    if local {
        let fuel = aliases2.len();
        match check_defaults(&root2, &enums, &aliases2, fuel) {
            Ok(()) => {},
            Err(e) => {
                return Err(e);
            },
        }
        match check_alias_defaults(&enums, &aliases2, fuel) {
            Ok(()) => {},
            Err(e) => {
                return Err(e);
            },
        }
    }
    let r = Schema { root: root2, enums, aliases: aliases2, imports };
    proof {
        assert(r@.imports =~= super::parser::imports_view(imports@));
    }
    Ok(r)
}

} // verus!
