use vstd::prelude::*;
use crate::number::{Decimal, DecimalV};
use crate::ron::{RonValue, SpecRonValue, spanned_view};
use crate::span::Spanned;
use crate::text::str_eq;

/// Schema parser: converts `.ronschema` source text into a [`Schema`].
pub mod parser;
/// The schema grammar, as functions of the source bytes.
pub mod grammar;
/// The checks a parsed schema must pass.
pub mod check;

verus! {

/// A named enum with a closed set of variants, optionally carrying associated data.
#[derive(Debug, PartialEq)]
pub struct EnumDef {
    /// The enum name (e.g., `"CardType"`).
    pub name: String,
    /// Variant names with their optional associated data type, in order of first definition;
    /// names are distinct. `None` means a unit variant.
    pub variants: Vec<(String, Option<SchemaType>)>,
}

/// A type descriptor representing the expected type of a field value.
#[derive(Debug, PartialEq)]
pub enum SchemaType {
    /// A quoted string.
    String,
    /// A whole number (i64).
    Integer,
    /// A number with a decimal point.
    Float,
    /// A boolean (`true` or `false`).
    Bool,
    /// An optional value: matches `Some(value)` or `None`.
    Option(Box<SchemaType>),
    /// A homogeneous list: matches `[value, value, ...]`.
    List(Box<SchemaType>),
    /// A reference to a named enum definition.
    EnumRef(String),
    /// A reference to a named type alias.
    AliasRef(String),
    /// A map with typed keys and values: matches `{ key: value, ... }`.
    Dict(Box<SchemaType>, Box<SchemaType>),
    /// A positional tuple: matches `(value1, value2, ...)`.
    Tuple(Vec<SchemaType>),
    /// An inline nested struct: matches `(field: value, ...)`.
    Struct(StructDef),
}

/// A comparison operator in a `@require(left op right)` constraint.
#[derive(Debug, Clone, Copy, PartialEq, Eq)]
pub enum CompareOp {
    Lt,
    Le,
    Gt,
    Ge,
    Eq,
    Ne,
}

/// A value-level constraint on a single field.
#[derive(Debug, PartialEq)]
pub enum FieldAnnotation {
    /// `@range(min, max)`: a numeric value must lie within the bounds (inclusive).
    Range(Decimal, Decimal),
    /// `@min_length(n)`: a string or list must have at least `n` bytes or elements.
    MinLength(usize),
    /// `@max_length(n)`: a string or list must have at most `n` bytes or elements.
    MaxLength(usize),
    /// `@pattern("regex")`: a string must match the regular expression.
    Pattern(String),
}

/// A cross-field constraint `@require(left op right)` on a struct.
#[derive(Debug, PartialEq)]
pub struct RequireConstraint {
    /// The left field name.
    pub left: String,
    /// The comparison.
    pub op: CompareOp,
    /// The right field name.
    pub right: String,
}

/// A single field definition within a struct.
#[derive(Debug, PartialEq)]
pub struct FieldDef {
    /// The field name with source location.
    pub name: Spanned<String>,
    /// The expected type for this field's value, with source location.
    pub type_: Spanned<SchemaType>,
    /// An optional default value. Fields with defaults are not required in data.
    pub default: Option<Spanned<RonValue>>,
    /// Value-level constraints written before the field.
    pub annotations: Vec<Spanned<FieldAnnotation>>,
}

/// A struct definition containing an ordered list of field definitions.
#[derive(Debug, PartialEq)]
pub struct StructDef {
    /// Ordered list of fields.
    pub fields: Vec<FieldDef>,
    /// Cross-field constraints written inside the struct.
    pub annotations: Vec<Spanned<RequireConstraint>>,
}

/// The top-level schema produced by parsing a `.ronschema` file.
#[derive(Debug, PartialEq)]
pub struct Schema {
    /// The root struct definition.
    pub root: StructDef,
    /// Named enum definitions, in order of definition; names are distinct (see
    /// `grammar::names_distinct`, which parsing, import resolution and inference ensure).
    pub enums: Vec<EnumDef>,
    /// Type aliases with their names, in order of definition; names are distinct.
    pub aliases: Vec<(String, Spanned<SchemaType>)>,
    /// Import paths declared at the top of the schema file, before resolution.
    pub imports: Vec<Spanned<String>>,
}

// ---------------------------------------------------------------------------
// Mathematical content
// ---------------------------------------------------------------------------

pub enum SpecSchemaType {
    String,
    Integer,
    Float,
    Bool,
    Option(Box<SpecSchemaType>),
    List(Box<SpecSchemaType>),
    EnumRef(Seq<char>),
    AliasRef(Seq<char>),
    Dict(Box<SpecSchemaType>, Box<SpecSchemaType>),
    Tuple(Seq<SpecSchemaType>),
    Struct(SpecStructDef),
}

pub enum SpecFieldAnnotation {
    Range(DecimalV, DecimalV),
    MinLength(usize),
    MaxLength(usize),
    Pattern(Seq<char>),
}

pub struct SpecRequire {
    pub left: Seq<char>,
    pub op: CompareOp,
    pub right: Seq<char>,
}

pub struct SpecFieldDef {
    pub name: Spanned<Seq<char>>,
    pub type_: Spanned<SpecSchemaType>,
    pub default: Option<Spanned<SpecRonValue>>,
    pub annotations: Seq<Spanned<SpecFieldAnnotation>>,
}

pub struct SpecStructDef {
    pub fields: Seq<SpecFieldDef>,
    pub annotations: Seq<Spanned<SpecRequire>>,
}

pub struct SpecEnumDef {
    pub name: Seq<char>,
    pub variants: Seq<(Seq<char>, Option<SpecSchemaType>)>,
}

pub struct SpecSchema {
    pub root: SpecStructDef,
    pub enums: Seq<SpecEnumDef>,
    pub aliases: Seq<(Seq<char>, Spanned<SpecSchemaType>)>,
    pub imports: Seq<Spanned<Seq<char>>>,
}

pub open spec fn type_view(t: SchemaType) -> SpecSchemaType
    decreases t,
{
    match t {
        SchemaType::String => SpecSchemaType::String,
        SchemaType::Integer => SpecSchemaType::Integer,
        SchemaType::Float => SpecSchemaType::Float,
        SchemaType::Bool => SpecSchemaType::Bool,
        SchemaType::Option(b) => SpecSchemaType::Option(Box::new(type_view(*b))),
        SchemaType::List(b) => SpecSchemaType::List(Box::new(type_view(*b))),
        SchemaType::EnumRef(n) => SpecSchemaType::EnumRef(n@),
        SchemaType::AliasRef(n) => SpecSchemaType::AliasRef(n@),
        SchemaType::Dict(k, v) => SpecSchemaType::Dict(Box::new(type_view(*k)), Box::new(type_view(*v))),
        SchemaType::Tuple(ts) => SpecSchemaType::Tuple(types_view(ts@)),
        SchemaType::Struct(sd) => SpecSchemaType::Struct(struct_view(sd)),
    }
}

pub open spec fn types_view(ts: Seq<SchemaType>) -> Seq<SpecSchemaType>
    decreases ts,
{
    Seq::new(
        ts.len(),
        |i: int|
            if 0 <= i < ts.len() {
                type_view(ts[i])
            } else {
                arbitrary()
            },
    )
}

pub open spec fn struct_view(sd: StructDef) -> SpecStructDef
    decreases sd,
{
    SpecStructDef { fields: field_defs_view(sd.fields@), annotations: requires_view(sd.annotations@) }
}

pub open spec fn field_defs_view(fs: Seq<FieldDef>) -> Seq<SpecFieldDef>
    decreases fs,
{
    Seq::new(
        fs.len(),
        |i: int|
            if 0 <= i < fs.len() {
                field_view(fs[i])
            } else {
                arbitrary()
            },
    )
}

pub open spec fn field_view(f: FieldDef) -> SpecFieldDef
    decreases f,
{
    SpecFieldDef {
        name: f.name@,
        type_: Spanned { value: type_view(f.type_.value), span: f.type_.span },
        default: match f.default {
            Some(d) => Some(spanned_view(d)),
            None => None,
        },
        annotations: f.annotations@.map_values(|a: Spanned<FieldAnnotation>| a@),
    }
}

pub open spec fn requires_view(rs: Seq<Spanned<RequireConstraint>>) -> Seq<Spanned<SpecRequire>> {
    rs.map_values(|r: Spanned<RequireConstraint>| r@)
}

pub open spec fn variants_view(vs: Seq<(String, Option<SchemaType>)>) -> Seq<(Seq<char>, Option<SpecSchemaType>)> {
    vs.map_values(
        |v: (String, Option<SchemaType>)|
            (
                v.0@,
                match v.1 {
                    Some(t) => Some(type_view(t)),
                    None => None,
                },
            ),
    )
}

pub open spec fn enums_view(es: Seq<EnumDef>) -> Seq<SpecEnumDef> {
    es.map_values(|e: EnumDef| e@)
}

pub open spec fn aliases_view(a: Seq<(String, Spanned<SchemaType>)>) -> Seq<(Seq<char>, Spanned<SpecSchemaType>)> {
    a.map_values(|x: (String, Spanned<SchemaType>)| (x.0@, x.1@))
}

impl View for SchemaType {
    type V = SpecSchemaType;

    open spec fn view(&self) -> SpecSchemaType {
        type_view(*self)
    }
}

impl View for FieldAnnotation {
    type V = SpecFieldAnnotation;

    open spec fn view(&self) -> SpecFieldAnnotation {
        match self {
            FieldAnnotation::Range(a, b) => SpecFieldAnnotation::Range(a@, b@),
            FieldAnnotation::MinLength(n) => SpecFieldAnnotation::MinLength(*n),
            FieldAnnotation::MaxLength(n) => SpecFieldAnnotation::MaxLength(*n),
            FieldAnnotation::Pattern(p) => SpecFieldAnnotation::Pattern(p@),
        }
    }
}

impl View for RequireConstraint {
    type V = SpecRequire;

    open spec fn view(&self) -> SpecRequire {
        SpecRequire { left: self.left@, op: self.op, right: self.right@ }
    }
}

impl View for FieldDef {
    type V = SpecFieldDef;

    open spec fn view(&self) -> SpecFieldDef {
        field_view(*self)
    }
}

impl View for StructDef {
    type V = SpecStructDef;

    open spec fn view(&self) -> SpecStructDef {
        struct_view(*self)
    }
}

impl View for EnumDef {
    type V = SpecEnumDef;

    open spec fn view(&self) -> SpecEnumDef {
        SpecEnumDef { name: self.name@, variants: variants_view(self.variants@) }
    }
}

impl View for Schema {
    type V = SpecSchema;

    open spec fn view(&self) -> SpecSchema {
        SpecSchema {
            root: self.root@,
            enums: enums_view(self.enums@),
            aliases: aliases_view(self.aliases@),
            imports: self.imports@.map_values(|i: Spanned<String>| i@),
        }
    }
}


impl Schema {
    /// The enum definition with the given name.
    pub fn enum_named(&self, name: &str) -> (r: Option<&EnumDef>)
        ensures
            match check::find_enum(enums_view(self.enums@), name@, 0) {
                Some(e) => r is Some && r->0@ == e,
                None => r is None,
            },
    {
        let ghost ev = enums_view(self.enums@);
        let mut k: usize = 0;
        while k < self.enums.len()
            invariant
                k <= self.enums@.len(),
                ev == enums_view(self.enums@),
                check::find_enum(ev, name@, 0) == check::find_enum(ev, name@, k as int),
            decreases self.enums@.len() - k,
        {
            if str_eq(self.enums[k].name.as_str(), name) {
                return Some(&self.enums[k]);
            }
            k = k + 1;
        }
        None
    }

    /// The aliased type with the given alias name.
    pub fn alias_named(&self, name: &str) -> (r: Option<&Spanned<SchemaType>>)
        ensures
            match check::find_alias(aliases_view(self.aliases@), name@, 0) {
                Some(t) => r is Some && r->0@ == t,
                None => r is None,
            },
    {
        let ghost av = aliases_view(self.aliases@);
        let mut k: usize = 0;
        while k < self.aliases.len()
            invariant
                k <= self.aliases@.len(),
                av == aliases_view(self.aliases@),
                check::find_alias(av, name@, 0) == check::find_alias(av, name@, k as int),
            decreases self.aliases@.len() - k,
        {
            if str_eq(self.aliases[k].0.as_str(), name) {
                return Some(&self.aliases[k].1);
            }
            k = k + 1;
        }
        None
    }
}

impl EnumDef {
    /// The data type of the variant with the given name: `None` when there is no such variant,
    /// `Some(None)` for a unit variant.
    pub fn variant(&self, name: &str) -> (r: Option<&Option<SchemaType>>)
        ensures
            match check::find_variant(variants_view(self.variants@), name@, 0) {
                Some(d) => r is Some && parser::opt_type_view(*r->0) == d,
                None => r is None,
            },
    {
        let ghost vv = variants_view(self.variants@);
        let mut k: usize = 0;
        while k < self.variants.len()
            invariant
                k <= self.variants@.len(),
                vv == variants_view(self.variants@),
                check::find_variant(vv, name@, 0) == check::find_variant(vv, name@, k as int),
            decreases self.variants@.len() - k,
        {
            if str_eq(self.variants[k].0.as_str(), name) {
                return Some(&self.variants[k].1);
            }
            k = k + 1;
        }
        None
    }
}

} // verus!
