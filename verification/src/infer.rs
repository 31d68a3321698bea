use vstd::prelude::*;
use crate::ron::{RonStruct, RonValue, SpecRonValue};
use crate::schema::{EnumDef, FieldDef, Schema, SchemaType, SpecEnumDef, SpecFieldDef, SpecSchema, SpecSchemaType, SpecStructDef, StructDef, enums_view, field_defs_view, variants_view};
use crate::schema::grammar::insert_variant;
use crate::schema::parser::{distinct_variants, record_variant};
use crate::span::{Position, Span, Spanned};
use crate::text::{append_str, chars_of, copy_string, push_char};

verus! {

// ===========================================================================
// Upper case (the standard library)
// ===========================================================================

/// What `char::to_uppercase` yields for a character, collected into a string.
pub uninterp spec fn uppercase_of(c: char) -> Seq<char>;

/// The upper case of a character by `char::to_uppercase`, collected into a string. Trusted:
/// the result is [`uppercase_of`] the character.
#[verifier::external_body]
fn upper_case(c: char) -> (r: String)
    ensures
        r@ == uppercase_of(c),
{
    c.to_uppercase().collect()
}

// ===========================================================================
// Names
// ===========================================================================

/// The upper case of a character: an ASCII lowercase letter becomes its capital, any other ASCII
/// character stays as it is, and any other character becomes what `char::to_uppercase` yields.
pub open spec fn upper_of(c: char) -> Seq<char> {
    if 'a' <= c <= 'z' {
        seq![((c as u32) - 32) as char]
    } else if (c as u32) < 128 {
        seq![c]
    } else {
        uppercase_of(c)
    }
}

/// What character `i` of a snake-case name contributes to its PascalCase form: nothing for `_`,
/// its upper case at the start of a word, itself elsewhere.
pub open spec fn pascal_piece(s: Seq<char>, i: int) -> Seq<char> {
    if s[i] == '_' {
        Seq::empty()
    } else if i == 0 || s[i - 1] == '_' {
        upper_of(s[i])
    } else {
        seq![s[i]]
    }
}

/// The PascalCase form of the first `n` characters.
pub open spec fn pascal(s: Seq<char>, n: int) -> Seq<char>
    decreases n,
{
    if n <= 0 || n > s.len() {
        Seq::empty()
    } else {
        pascal(s, n - 1) + pascal_piece(s, n - 1)
    }
}

/// Converts a snake-case name to PascalCase: the words between `_` are joined, each with its
/// first character in upper case.
pub fn to_pascal_case(s: &str) -> (r: String)
    ensures
        r@ == pascal(s@, s@.len() as int),
{
    let cs = chars_of(s);
    let mut out = String::new();
    let mut i: usize = 0;
    while i < cs.len()
        invariant
            cs@ == s@,
            i <= cs@.len(),
            out@ == pascal(s@, i as int),
        decreases cs@.len() - i,
    {
        let c = cs[i];
        if c == '_' {
        } else if i == 0 || cs[i - 1] == '_' {
            if 'a' <= c && c <= 'z' {
                let code: u8 = ((c as u32) - 32) as u8;
                let cap: char = code as char;
                push_char(&mut out, cap);
            } else if (c as u32) < 128 {
                push_char(&mut out, c);
            } else {
                let u = upper_case(c);
                append_str(&mut out, u.as_str());
            }
        } else {
            push_char(&mut out, c);
        }
        i = i + 1;
        assert(out@ =~= pascal(s@, i as int));
    }
    out
}

// ===========================================================================
// Inference, as functions of the data
// ===========================================================================

/// The span given to inferred schema elements, which have no source.
pub open spec fn dummy_span() -> Span {
    Span { start: Position { offset: 0, line: 0, column: 0 }, end: Position { offset: 0, line: 0, column: 0 } }
}

/// A value with the dummy span.
pub fn dummy_spanned<T>(value: T) -> (r: Spanned<T>)
    ensures
        r.value == value,
        r.span == dummy_span(),
{
    Spanned { value, span: Span { start: Position { offset: 0, line: 0, column: 0 }, end: Position { offset: 0, line: 0, column: 0 } } }
}

pub type Enums = Seq<SpecEnumDef>;

/// The index of the first enum from `k` on with the given name, or -1.
pub open spec fn enum_index(es: Enums, name: Seq<char>, k: int) -> int
    decreases es.len() - k,
{
    if k < 0 || k >= es.len() {
        -1
    } else if es[k].name == name {
        k
    } else {
        enum_index(es, name, k + 1)
    }
}

/// Puts an enum in place of the one with its name, or after the others.
pub open spec fn put_enum(es: Enums, e: SpecEnumDef) -> Enums {
    let k = enum_index(es, e.name, 0);
    if k >= 0 {
        es.update(k, e)
    } else {
        es.push(e)
    }
}

/// Records a variant of the named enum, creating the enum when there is none.
pub open spec fn add_variant(es: Enums, name: Seq<char>, var: Seq<char>, data: Option<SpecSchemaType>) -> Enums {
    let k = enum_index(es, name, 0);
    if k >= 0 {
        es.update(k, SpecEnumDef { name: es[k].name, variants: insert_variant(es[k].variants, var, data) })
    } else {
        es.push(SpecEnumDef { name, variants: seq![(var, data)] })
    }
}

/// Whether every element is a bare identifier.
pub open spec fn all_identifiers(els: Seq<Spanned<SpecRonValue>>) -> bool {
    forall|i: int| 0 <= i < els.len() ==> #[trigger] els[i].value is Identifier
}

/// The unit variants named by the first `n` identifiers.
pub open spec fn identifier_variants(els: Seq<Spanned<SpecRonValue>>, n: int) -> Seq<(Seq<char>, Option<SpecSchemaType>)>
    decreases n,
{
    if n <= 0 || n > els.len() {
        Seq::empty()
    } else {
        insert_variant(identifier_variants(els, n - 1), els[n - 1].value->Identifier_0, None)
    }
}

/// The type inferred for the value of field `name`, and the enums after inferring it.
pub open spec fn infer_type(name: Seq<char>, v: SpecRonValue, es: Enums) -> (SpecSchemaType, Enums)
    decreases v, 0int,
{
    let pn = pascal(name, name.len() as int);
    match v {
        SpecRonValue::String(_) => (SpecSchemaType::String, es),
        SpecRonValue::Integer(_) => (SpecSchemaType::Integer, es),
        SpecRonValue::Float(_) => (SpecSchemaType::Float, es),
        SpecRonValue::Bool(_) => (SpecSchemaType::Bool, es),
        SpecRonValue::Option(Some(iv)) => {
            let r = infer_type(name, iv.value, es);
            (SpecSchemaType::Option(Box::new(r.0)), r.1)
        },
        SpecRonValue::Option(None) => (SpecSchemaType::Option(Box::new(SpecSchemaType::String)), es),
        SpecRonValue::List(els) => if els.len() == 0 {
            (SpecSchemaType::List(Box::new(SpecSchemaType::String)), es)
        } else if all_identifiers(els) {
            (
                SpecSchemaType::List(Box::new(SpecSchemaType::EnumRef(pn))),
                put_enum(es, SpecEnumDef { name: pn, variants: identifier_variants(els, els.len() as int) }),
            )
        } else {
            let r = infer_type(name, els[0].value, es);
            (SpecSchemaType::List(Box::new(r.0)), r.1)
        },
        SpecRonValue::Identifier(var) => (SpecSchemaType::EnumRef(pn), add_variant(es, pn, var, None)),
        SpecRonValue::EnumVariant(var, data) => {
            let r = infer_type(name, data.value, es);
            (SpecSchemaType::EnumRef(pn), add_variant(r.1, pn, var, Some(r.0)))
        },
        SpecRonValue::Dict(entries) => if entries.len() == 0 {
            (SpecSchemaType::Dict(Box::new(SpecSchemaType::String), Box::new(SpecSchemaType::String)), es)
        } else {
            let k = infer_type(name, entries[0].0.value, es);
            let w = infer_type(name, entries[0].1.value, k.1);
            (SpecSchemaType::Dict(Box::new(k.0), Box::new(w.0)), w.1)
        },
        SpecRonValue::Tuple(els) => {
            let r = infer_types(name, els, els.len() as int, es);
            (SpecSchemaType::Tuple(r.0), r.1)
        },
        SpecRonValue::Struct(s) => {
            let r = infer_fields(s.fields, s.fields.len() as int, es);
            (SpecSchemaType::Struct(SpecStructDef { fields: r.0, annotations: Seq::empty() }), r.1)
        },
    }
}

/// The types inferred for the first `n` tuple elements, in order.
pub open spec fn infer_types(name: Seq<char>, els: Seq<Spanned<SpecRonValue>>, n: int, es: Enums) -> (Seq<SpecSchemaType>, Enums)
    decreases els, n,
{
    if n <= 0 || n > els.len() {
        (Seq::empty(), es)
    } else {
        let p = infer_types(name, els, n - 1, es);
        let r = infer_type(name, els[n - 1].value, p.1);
        (p.0.push(r.0), r.1)
    }
}

/// A field with an inferred type and no source.
pub open spec fn inferred_field(name: Seq<char>, t: SpecSchemaType) -> SpecFieldDef {
    SpecFieldDef {
        name: Spanned { value: name, span: dummy_span() },
        type_: Spanned { value: t, span: dummy_span() },
        default: None,
        annotations: Seq::empty(),
    }
}

/// The fields inferred for the first `n` data fields, in order.
pub open spec fn infer_fields(fs: Seq<(Spanned<Seq<char>>, Spanned<SpecRonValue>)>, n: int, es: Enums) -> (Seq<SpecFieldDef>, Enums)
    decreases fs, n,
{
    if n <= 0 || n > fs.len() {
        (Seq::empty(), es)
    } else {
        let p = infer_fields(fs, n - 1, es);
        let r = infer_type(fs[n - 1].0.value, fs[n - 1].1.value, p.1);
        (p.0.push(inferred_field(fs[n - 1].0.value, r.0)), r.1)
    }
}

/// The schema inferred from a value: a struct gives the root struct and the enums met in it;
/// any other value gives an empty schema.
pub open spec fn inferred_schema(v: SpecRonValue) -> SpecSchema {
    match v {
        SpecRonValue::Struct(s) => {
            let r = infer_fields(s.fields, s.fields.len() as int, Seq::empty());
            SpecSchema {
                root: SpecStructDef { fields: r.0, annotations: Seq::empty() },
                enums: r.1,
                aliases: Seq::empty(),
                imports: Seq::empty(),
            }
        },
        _ => SpecSchema {
            root: SpecStructDef { fields: Seq::empty(), annotations: Seq::empty() },
            enums: Seq::empty(),
            aliases: Seq::empty(),
            imports: Seq::empty(),
        },
    }
}

/// Every enum's variants have distinct names.
pub open spec fn enums_ok(es: Enums) -> bool {
    forall|k: int| 0 <= k < es.len() ==> distinct_variants(#[trigger] es[k].variants)
}

proof fn lemma_index_of_enum(es: Enums, n: Seq<char>, k: int)
    requires
        0 <= k,
    ensures
        enum_index(es, n, k) >= 0 ==> k <= enum_index(es, n, k) < es.len() && es[enum_index(es, n, k)].name == n,
        enum_index(es, n, k) < 0 ==> forall|j: int| k <= j < es.len() ==> (#[trigger] es[j]).name != n,
    decreases es.len() - k,
{
    if k < es.len() {
        lemma_index_of_enum(es, n, k + 1);
    }
}

/// Recording a variant keeps the variant names distinct.
proof fn lemma_insert_variant_distinct(vs: Seq<(Seq<char>, Option<SpecSchemaType>)>, var: Seq<char>, data: Option<SpecSchemaType>)
    requires
        distinct_variants(vs),
    ensures
        distinct_variants(insert_variant(vs, var, data)),
{
    let r = insert_variant(vs, var, data);
    if exists|k: int| 0 <= k < vs.len() && #[trigger] vs[k].0 == var {
        let q = choose|k: int| 0 <= k < vs.len() && #[trigger] vs[k].0 == var;
        assert(r == vs.update(q, (var, data)));
        assert forall|a: int, b: int| 0 <= a < b < r.len() implies #[trigger] r[a].0 != #[trigger] r[b].0 by {
            assert(vs[a].0 != vs[b].0);
        }
    } else {
        assert forall|a: int, b: int| 0 <= a < b < r.len() implies #[trigger] r[a].0 != #[trigger] r[b].0 by {
            if b < vs.len() {
                assert(vs[a].0 != vs[b].0);
            } else {
                assert(r[a] == vs[a]);
            }
        }
    }
}

/// No two enums share a name, and every enum's variants have distinct names.
pub open spec fn enums_distinct(es: Enums) -> bool {
    &&& forall|a: int, b: int| 0 <= a < b < es.len() ==> #[trigger] es[a].name != #[trigger] es[b].name
    &&& enums_ok(es)
}

proof fn lemma_put_enum_distinct(es: Enums, e: SpecEnumDef)
    requires
        enums_distinct(es),
        distinct_variants(e.variants),
    ensures
        enums_distinct(put_enum(es, e)),
{
    lemma_index_of_enum(es, e.name, 0);
    let k = enum_index(es, e.name, 0);
    let r = put_enum(es, e);
    assert forall|a: int, b: int| 0 <= a < b < r.len() implies #[trigger] r[a].name != #[trigger] r[b].name by {
        if k >= 0 {
            assert(es[a].name != es[b].name);
        } else if b < es.len() {
            assert(es[a].name != es[b].name);
        } else {
            assert(r[a] == es[a]);
        }
    }
    assert forall|j: int| 0 <= j < r.len() implies distinct_variants(#[trigger] r[j].variants) by {
        if !(k >= 0 && j == k) && j < es.len() {
            assert(r[j] == es[j]);
        }
    }
}

proof fn lemma_add_variant_distinct(es: Enums, name: Seq<char>, var: Seq<char>, data: Option<SpecSchemaType>)
    requires
        enums_distinct(es),
    ensures
        enums_distinct(add_variant(es, name, var, data)),
{
    lemma_index_of_enum(es, name, 0);
    let k = enum_index(es, name, 0);
    if k >= 0 {
        lemma_insert_variant_distinct(es[k].variants, var, data);
        lemma_put_enum_distinct(es, SpecEnumDef { name: es[k].name, variants: insert_variant(es[k].variants, var, data) });
        assert(add_variant(es, name, var, data) == put_enum(es, SpecEnumDef { name: es[k].name, variants: insert_variant(es[k].variants, var, data) }));
    } else {
        let e = SpecEnumDef { name, variants: seq![(var, data)] };
        lemma_put_enum_distinct(es, e);
        assert(add_variant(es, name, var, data) == put_enum(es, e));
    }
}

proof fn lemma_identifier_variants_distinct(els: Seq<Spanned<SpecRonValue>>, n: int)
    ensures
        distinct_variants(identifier_variants(els, n)),
    decreases n,
{
    if 0 < n <= els.len() {
        lemma_identifier_variants_distinct(els, n - 1);
        lemma_insert_variant_distinct(identifier_variants(els, n - 1), els[n - 1].value->Identifier_0, None);
    }
}

/// Inferring a type keeps the enum names, and each enum's variant names, distinct.
proof fn lemma_infer_type_distinct(name: Seq<char>, v: SpecRonValue, es: Enums)
    requires
        enums_distinct(es),
    ensures
        enums_distinct(infer_type(name, v, es).1),
    decreases v, 1int, 0int,
{
    let pn = pascal(name, name.len() as int);
    match v {
        SpecRonValue::Option(Some(iv)) => lemma_infer_type_distinct(name, iv.value, es),
        SpecRonValue::List(els) => {
            if els.len() > 0 {
                if all_identifiers(els) {
                    lemma_identifier_variants_distinct(els, els.len() as int);
                    lemma_put_enum_distinct(es, SpecEnumDef { name: pn, variants: identifier_variants(els, els.len() as int) });
                } else {
                    lemma_infer_type_distinct(name, els[0].value, es);
                }
            }
        },
        SpecRonValue::Identifier(var) => lemma_add_variant_distinct(es, pn, var, None),
        SpecRonValue::EnumVariant(var, data) => {
            lemma_infer_type_distinct(name, data.value, es);
            let r = infer_type(name, data.value, es);
            lemma_add_variant_distinct(r.1, pn, var, Some(r.0));
        },
        SpecRonValue::Dict(entries) => {
            if entries.len() > 0 {
                lemma_infer_type_distinct(name, entries[0].0.value, es);
                let k = infer_type(name, entries[0].0.value, es);
                lemma_infer_type_distinct(name, entries[0].1.value, k.1);
            }
        },
        SpecRonValue::Tuple(els) => lemma_infer_types_distinct(name, els, els.len() as int, es),
        SpecRonValue::Struct(s) => lemma_infer_fields_distinct(s.fields, s.fields.len() as int, es),
        _ => {},
    }
}

proof fn lemma_infer_types_distinct(name: Seq<char>, els: Seq<Spanned<SpecRonValue>>, n: int, es: Enums)
    requires
        enums_distinct(es),
    ensures
        enums_distinct(infer_types(name, els, n, es).1),
    decreases els, 0int, n,
{
    if 0 < n <= els.len() {
        lemma_infer_types_distinct(name, els, n - 1, es);
        let p = infer_types(name, els, n - 1, es);
        lemma_infer_type_distinct(name, els[n - 1].value, p.1);
    }
}

proof fn lemma_infer_fields_distinct(fs: Seq<(Spanned<Seq<char>>, Spanned<SpecRonValue>)>, n: int, es: Enums)
    requires
        enums_distinct(es),
    ensures
        enums_distinct(infer_fields(fs, n, es).1),
    decreases fs, 0int, n,
{
    if 0 < n <= fs.len() {
        lemma_infer_fields_distinct(fs, n - 1, es);
        let p = infer_fields(fs, n - 1, es);
        lemma_infer_type_distinct(fs[n - 1].0.value, fs[n - 1].1.value, p.1);
    }
}

/// A schema inferred from data has distinct enum names and distinct variant names within each
/// enum, and no type aliases.
pub proof fn lemma_inferred_names_distinct(v: SpecRonValue)
    ensures
        crate::schema::grammar::names_distinct(inferred_schema(v).enums, inferred_schema(v).aliases),
{
    match v {
        SpecRonValue::Struct(s) => {
            lemma_infer_fields_distinct(s.fields, s.fields.len() as int, Seq::empty());
        },
        _ => {},
    }
}


// ===========================================================================
// Inference
// ===========================================================================

fn find_enum_index(es: &Vec<EnumDef>, name: &String) -> (r: Option<usize>)
    ensures
        enum_index(enums_view(es@), name@, 0) == match r {
            Some(k) => k as int,
            None => -1,
        },
        r is Some ==> r->0 < es@.len(),
{
    let ghost ev = enums_view(es@);
    let mut k: usize = 0;
    while k < es.len()
        invariant
            k <= es@.len(),
            ev == enums_view(es@),
            enum_index(ev, name@, 0) == enum_index(ev, name@, k as int),
        decreases es@.len() - k,
    {
        if crate::text::str_eq(es[k].name.as_str(), name.as_str()) {
            return Some(k);
        }
        k = k + 1;
    }
    None
}

/// Puts an enum in place of the one with its name, or after the others.
fn put_enum_def(es: &mut Vec<EnumDef>, e: EnumDef)
    requires
        enums_ok(enums_view(old(es)@)),
        distinct_variants(e@.variants),
    ensures
        enums_view(final(es)@) == put_enum(enums_view(old(es)@), e@),
        enums_ok(enums_view(final(es)@)),
{
    let ghost ev = enums_view(es@);
    let ghost e_view = e@;
    match find_enum_index(es, &e.name) {
        Some(k) => {
            es.set(k, e);
            assert(enums_view(es@) =~= ev.update(k as int, e_view));
        },
        None => {
            es.push(e);
            assert(enums_view(es@) =~= ev.push(e_view));
        },
    }
}

/// Records a variant of the named enum, creating the enum when there is none.
fn add_enum_variant(es: &mut Vec<EnumDef>, name: String, var: String, data: Option<SchemaType>)
    requires
        enums_ok(enums_view(old(es)@)),
    ensures
        enums_view(final(es)@) == add_variant(enums_view(old(es)@), name@, var@, crate::schema::parser::opt_type_view(data)),
        enums_ok(enums_view(final(es)@)),
{
    let ghost ev = enums_view(es@);
    let ghost dv = crate::schema::parser::opt_type_view(data);
    match find_enum_index(es, &name) {
        Some(k) => {
            let mut e = es.remove(k);
            assert(e@ == ev[k as int]);
            assert(distinct_variants(ev[k as int].variants));
            record_variant(&mut e.variants, var, data);
            let ghost e_view = e@;
            es.insert(k, e);
            assert(enums_view(es@) =~= ev.update(k as int, e_view));
        },
        None => {
            let mut vs: Vec<(String, Option<SchemaType>)> = Vec::new();
            let ghost nm = name@;
            let ghost vm = var@;
            vs.push((var, data));
            let e = EnumDef { name, variants: vs };
            let ghost e_view = e@;
            assert(e_view.variants =~= seq![(vm, dv)]);
            es.push(e);
            assert(enums_view(es@) =~= ev.push(e_view));
        },
    }
}

/// Infers the type of the value of field `name`, recording the enums it meets.
fn infer_value(name: &String, v: &RonValue, es: &mut Vec<EnumDef>) -> (r: SchemaType)
    requires
        enums_ok(enums_view(old(es)@)),
    ensures
        (r@, enums_view(final(es)@)) == infer_type(name@, v@, enums_view(old(es)@)),
        enums_ok(enums_view(final(es)@)),
    decreases v, 1int,
{
    match v {
        RonValue::String(_) => SchemaType::String,
        RonValue::Integer(_) => SchemaType::Integer,
        RonValue::Float(_) => SchemaType::Float,
        RonValue::Bool(_) => SchemaType::Bool,
        RonValue::Option(Some(iv)) => {
            let t = infer_value(name, &iv.value, es);
            let r = SchemaType::Option(Box::new(t));
            assert((r@, enums_view(es@)) == infer_type(name@, v@, enums_view(old(es)@)));
            r
        },
        RonValue::Option(None) => SchemaType::Option(Box::new(SchemaType::String)),
        RonValue::List(els) => {
            let ghost lv = crate::ron::list_view(els@);
            assert(lv.len() == els@.len());
            if els.len() == 0 {
                return SchemaType::List(Box::new(SchemaType::String));
            }
            let mut vs: Vec<(String, Option<SchemaType>)> = Vec::new();
            let mut all = true;
            let mut k: usize = 0;
            let ghost mut bad: int = 0;
            proof {
                assert(variants_view(vs@) =~= Seq::<(Seq<char>, Option<SpecSchemaType>)>::empty());
            }
            while k < els.len() && all
                invariant
                    k <= els@.len(),
                    lv == crate::ron::list_view(els@),
                    all ==> forall|i: int| 0 <= i < k ==> #[trigger] lv[i].value is Identifier,
                    all ==> variants_view(vs@) == identifier_variants(lv, k as int),
                    distinct_variants(variants_view(vs@)),
                    !all ==> 0 <= bad < lv.len() && !(lv[bad].value is Identifier),
                decreases els@.len() - k + (if all { 1int } else { 0int }),
            {
                assert(lv[k as int] == els@[k as int]@);
                match &els[k].value {
                    RonValue::Identifier(n) => {
                        record_variant(&mut vs, copy_string(n), None);
                        k = k + 1;
                    },
                    _ => {
                        all = false;
                        proof {
                            bad = k as int;
                        }
                    },
                }
            }
            if all {
                assert(all_identifiers(lv));
                let pn = to_pascal_case(name.as_str());
                let e = EnumDef { name: copy_string(&pn), variants: vs };
                put_enum_def(es, e);
                let t = SchemaType::EnumRef(pn);
                assert(t@ == SpecSchemaType::EnumRef(pascal(name@, name@.len() as int)));
                let r = SchemaType::List(Box::new(t));
                r
            } else {
                assert(!all_identifiers(lv));
                assert(lv[0] == els@[0]@);
                proof {
                    vstd::std_specs::vec::axiom_vec_index_decreases(*els, 0);
                    assert(decreases_to!(*v => (*v)->List_0));
                }
                let t = infer_value(name, &els[0].value, es);
                let r = SchemaType::List(Box::new(t));
                assert((r@, enums_view(es@)) == infer_type(name@, v@, enums_view(old(es)@)));
                r
            }
        },
        RonValue::Identifier(var) => {
            let pn = to_pascal_case(name.as_str());
            add_enum_variant(es, copy_string(&pn), copy_string(var), None);
            let r = SchemaType::EnumRef(pn);
            assert((r@, enums_view(es@)) == infer_type(name@, v@, enums_view(old(es)@)));
            r
        },
        RonValue::EnumVariant(var, data) => {
            let t = infer_value(name, &data.value, es);
            let pn = to_pascal_case(name.as_str());
            let ghost tv = t@;
            add_enum_variant(es, copy_string(&pn), copy_string(var), Some(t));
            let r = SchemaType::EnumRef(pn);
            assert((r@, enums_view(es@)) == infer_type(name@, v@, enums_view(old(es)@)));
            r
        },
        RonValue::Dict(entries) => {
            assert(crate::ron::pairs_view(entries@).len() == entries@.len());
            if entries.len() == 0 {
                return SchemaType::Dict(Box::new(SchemaType::String), Box::new(SchemaType::String));
            }
            let ghost pv = crate::ron::pairs_view(entries@);
            assert(pv.len() == entries@.len());
            assert(pv[0] == (entries@[0].0@, entries@[0].1@));
            proof {
                vstd::std_specs::vec::axiom_vec_index_decreases(*entries, 0);
                assert(decreases_to!(*v => (*v)->Dict_0));
            }
            let kt = infer_value(name, &entries[0].0.value, es);
            let vt = infer_value(name, &entries[0].1.value, es);
            let r = SchemaType::Dict(Box::new(kt), Box::new(vt));
            assert((r@, enums_view(es@)) == infer_type(name@, v@, enums_view(old(es)@)));
            r
        },
        RonValue::Tuple(els) => {
            let ghost lv = crate::ron::list_view(els@);
            assert(lv.len() == els@.len());
            let ghost e0 = enums_view(es@);
            let mut types: Vec<SchemaType> = Vec::new();
            let mut k: usize = 0;
            proof {
                assert(crate::schema::types_view(types@) =~= Seq::<SpecSchemaType>::empty());
            }
            while k < els.len()
                invariant
                    k <= els@.len(),
                    *v == RonValue::Tuple(*els),
                    lv == crate::ron::list_view(els@),
                    (crate::schema::types_view(types@), enums_view(es@)) == infer_types(name@, lv, k as int, e0),
                    enums_ok(enums_view(es@)),
                decreases els@.len() - k,
            {
                assert(lv[k as int] == els@[k as int]@);
                proof {
                    vstd::std_specs::vec::axiom_vec_index_decreases(*els, k as int);
                    assert(decreases_to!(*v => (*v)->Tuple_0));
                }
                let ghost before = types@;
                let t = infer_value(name, &els[k].value, es);
                let ghost tv = t@;
                types.push(t);
                assert(crate::schema::types_view(types@) =~= crate::schema::types_view(before).push(tv));
                k = k + 1;
            }
            let r = SchemaType::Tuple(types);
            assert((r@, enums_view(es@)) == infer_type(name@, v@, enums_view(old(es)@)));
            r
        },
        RonValue::Struct(s) => {
            proof {
                assert(decreases_to!(*v => (*v)->Struct_0));
                assert(crate::ron::fields_view(s.fields@).len() == s.fields@.len());
            }
            let sd = infer_struct(s, es);
            let r = SchemaType::Struct(sd);
            assert((r@, enums_view(es@)) == infer_type(name@, v@, enums_view(old(es)@)));
            r
        },
    }
}

/// Infers a struct definition from the fields of a data struct.
fn infer_struct(data: &RonStruct, es: &mut Vec<EnumDef>) -> (r: StructDef)
    requires
        enums_ok(enums_view(old(es)@)),
    ensures
        ({
            let i = infer_fields(crate::ron::fields_view(data.fields@), data.fields@.len() as int, enums_view(old(es)@));
            &&& r@ == SpecStructDef { fields: i.0, annotations: Seq::empty() }
            &&& enums_view(final(es)@) == i.1
        }),
        enums_ok(enums_view(final(es)@)),
    decreases data, 0int,
{
    let ghost fv = crate::ron::fields_view(data.fields@);
    let ghost e0 = enums_view(es@);
    let mut fields: Vec<FieldDef> = Vec::new();
    let mut k: usize = 0;
    proof {
        assert(field_defs_view(fields@) =~= Seq::<SpecFieldDef>::empty());
    }
    while k < data.fields.len()
        invariant
            k <= data.fields@.len(),
            fv == crate::ron::fields_view(data.fields@),
            (field_defs_view(fields@), enums_view(es@)) == infer_fields(fv, k as int, e0),
            enums_ok(enums_view(es@)),
        decreases data.fields@.len() - k,
    {
        let (name, value) = &data.fields[k];
        assert(fv[k as int] == (data.fields@[k as int].0@, data.fields@[k as int].1@));
        proof {
            vstd::std_specs::vec::axiom_vec_index_decreases(data.fields, k as int);
            assert(decreases_to!(*data => data.fields));
        }
        let t = infer_value(&name.value, &value.value, es);
        let ghost before = fields@;
        let f = FieldDef {
            name: dummy_spanned(copy_string(&name.value)),
            type_: dummy_spanned(t),
            default: None,
            annotations: Vec::new(),
        };
        let ghost f_view = f@;
        assert(f_view.annotations =~= Seq::empty());
        fields.push(f);
        assert(field_defs_view(fields@) =~= field_defs_view(before).push(f_view));
        k = k + 1;
    }
    let r = StructDef { fields, annotations: Vec::new() };
    assert(r@.annotations =~= Seq::empty());
    r
}

/// Infers a schema from a parsed value: a struct gives the root struct, with an enum for every
/// field that holds bare identifiers; any other value gives an empty schema.
pub fn infer_schema(value: &Spanned<RonValue>) -> (r: Schema)
    ensures
        r@ == inferred_schema(value.value@),
        crate::schema::grammar::names_distinct(r@.enums, r@.aliases),
{
    proof {
        lemma_inferred_names_distinct(value.value@);
    }
    let mut enums: Vec<EnumDef> = Vec::new();
    proof {
        assert(enums_view(enums@) =~= Seq::<SpecEnumDef>::empty());
    }
    let root = match &value.value {
        RonValue::Struct(s) => infer_struct(s, &mut enums),
        _ => {
            let r = StructDef { fields: Vec::new(), annotations: Vec::new() };
            assert(r@.fields =~= Seq::empty());
            assert(r@.annotations =~= Seq::empty());
            r
        },
    };
    let r = Schema { root, enums, aliases: Vec::new(), imports: Vec::new() };
    assert(r@.aliases =~= Seq::empty());
    assert(r@.imports =~= Seq::empty());
    r
}

// ===========================================================================
// What an inferred type says of its example
// ===========================================================================

/// Whether type `t` has the shape of value `v`: a string, integer, float or boolean type for
/// such a value; an option type for `None`, or whose inner type has the shape of the value in
/// `Some`; a list type whose element type has the shape of the first element (any, for an empty
/// list); an enum reference for a bare identifier or a variant with data; a map type whose key
/// and value types have the shapes of the first entry's key and value; a tuple type with one
/// type per element, each of that element's shape; a struct type with the value's fields, by
/// name and in order, each of its value's shape.
pub open spec fn shape_fits(t: SpecSchemaType, v: SpecRonValue) -> bool
    decreases v,
{
    match v {
        SpecRonValue::String(_) => t is String,
        SpecRonValue::Integer(_) => t is Integer,
        SpecRonValue::Float(_) => t is Float,
        SpecRonValue::Bool(_) => t is Bool,
        SpecRonValue::Option(None) => t is Option,
        SpecRonValue::Option(Some(iv)) => match t {
            SpecSchemaType::Option(it) => shape_fits(*it, iv.value),
            _ => false,
        },
        SpecRonValue::List(els) => match t {
            SpecSchemaType::List(et) => els.len() == 0 || shape_fits(*et, els[0].value),
            _ => false,
        },
        SpecRonValue::Identifier(_) => t is EnumRef,
        SpecRonValue::EnumVariant(_, _) => t is EnumRef,
        SpecRonValue::Dict(entries) => match t {
            SpecSchemaType::Dict(kt, vt) => entries.len() == 0 || (shape_fits(*kt, entries[0].0.value) && shape_fits(
                *vt,
                entries[0].1.value,
            )),
            _ => false,
        },
        SpecRonValue::Tuple(els) => match t {
            SpecSchemaType::Tuple(ts) => ts.len() == els.len() && forall|i: int|
                0 <= i < els.len() ==> shape_fits(#[trigger] ts[i], els[i].value),
            _ => false,
        },
        SpecRonValue::Struct(st) => match t {
            SpecSchemaType::Struct(sd) => sd.fields.len() == st.fields.len() && forall|i: int|
                0 <= i < st.fields.len() ==> (#[trigger] sd.fields[i]).name.value == st.fields[i].0.value
                    && shape_fits(sd.fields[i].type_.value, st.fields[i].1.value),
            _ => false,
        },
    }
}

/// The type inferred from a value has the value's shape (see [`shape_fits`]).
pub proof fn inferred_type_fits(name: Seq<char>, v: SpecRonValue, es: Enums)
    ensures
        shape_fits(infer_type(name, v, es).0, v),
    decreases v, 0int,
{
    match v {
        SpecRonValue::Option(Some(iv)) => {
            inferred_type_fits(name, iv.value, es);
        },
        SpecRonValue::List(els) => {
            let t = infer_type(name, v, es).0;
            if els.len() > 0 && !all_identifiers(els) {
                inferred_type_fits(name, els[0].value, es);
                assert(t == SpecSchemaType::List(Box::new(infer_type(name, els[0].value, es).0)));
            } else if els.len() > 0 {
                let pn = pascal(name, name.len() as int);
                assert(els[0].value is Identifier);
                assert(t == SpecSchemaType::List(Box::new(SpecSchemaType::EnumRef(pn))));
                assert(shape_fits(SpecSchemaType::EnumRef(pn), els[0].value));
            }
        },
        SpecRonValue::Dict(entries) => {
            if entries.len() > 0 {
                let k = infer_type(name, entries[0].0.value, es);
                inferred_type_fits(name, entries[0].0.value, es);
                inferred_type_fits(name, entries[0].1.value, k.1);
            }
        },
        SpecRonValue::Tuple(els) => {
            inferred_types_fit(name, els, els.len() as int, es);
        },
        SpecRonValue::Struct(st) => {
            inferred_fields_fit(st.fields, st.fields.len() as int, es);
        },
        _ => {},
    }
}

/// The types inferred for the first `n` elements have those elements' shapes.
pub proof fn inferred_types_fit(name: Seq<char>, els: Seq<Spanned<SpecRonValue>>, n: int, es: Enums)
    requires
        0 <= n <= els.len(),
    ensures
        infer_types(name, els, n, es).0.len() == n,
        forall|i: int| 0 <= i < n ==> shape_fits(#[trigger] infer_types(name, els, n, es).0[i], els[i].value),
    decreases els, n,
{
    if n > 0 {
        let p = infer_types(name, els, n - 1, es);
        inferred_types_fit(name, els, n - 1, es);
        inferred_type_fits(name, els[n - 1].value, p.1);
        let r = infer_types(name, els, n, es).0;
        assert forall|i: int| 0 <= i < n implies shape_fits(#[trigger] r[i], els[i].value) by {
            if i < n - 1 {
                assert(r[i] == p.0[i]);
            }
        }
    }
}

/// The fields inferred for the first `n` data fields bear their names, in order, and have their
/// values' shapes.
pub proof fn inferred_fields_fit(fs: Seq<(Spanned<Seq<char>>, Spanned<SpecRonValue>)>, n: int, es: Enums)
    requires
        0 <= n <= fs.len(),
    ensures
        infer_fields(fs, n, es).0.len() == n,
        forall|i: int|
            0 <= i < n ==> (#[trigger] infer_fields(fs, n, es).0[i]).name.value == fs[i].0.value && shape_fits(
                infer_fields(fs, n, es).0[i].type_.value,
                fs[i].1.value,
            ),
    decreases fs, n,
{
    if n > 0 {
        let p = infer_fields(fs, n - 1, es);
        inferred_fields_fit(fs, n - 1, es);
        inferred_type_fits(fs[n - 1].0.value, fs[n - 1].1.value, p.1);
        let r = infer_fields(fs, n, es).0;
        assert forall|i: int| 0 <= i < n implies (#[trigger] r[i]).name.value == fs[i].0.value && shape_fits(
            r[i].type_.value,
            fs[i].1.value,
        ) by {
            if i < n - 1 {
                assert(r[i] == p.0[i]);
            }
        }
    }
}

/// The schema inferred from a struct value has the value's fields, by name and in order, each
/// with a type of its value's shape.
pub proof fn inferred_schema_fits(v: SpecRonValue)
    requires
        v is Struct,
    ensures
        shape_fits(SpecSchemaType::Struct(inferred_schema(v).root), v),
{
    let st = v->Struct_0;
    inferred_fields_fit(st.fields, st.fields.len() as int, Seq::empty());
}

/// Whether the enums hold an enum of the given name with the given variant and data.
pub open spec fn has_variant(es: Enums, n: Seq<char>, var: Seq<char>, data: Option<SpecSchemaType>) -> bool {
    exists|k: int, j: int|
        0 <= k < es.len() && (#[trigger] es[k]).name == n && 0 <= j < es[k].variants.len()
            && #[trigger] es[k].variants[j] == (var, data)
}

proof fn lemma_insert_variant_has(vs: Seq<(Seq<char>, Option<SpecSchemaType>)>, var: Seq<char>, data: Option<SpecSchemaType>) -> (idx: int)
    requires
        distinct_variants(vs),
    ensures
        0 <= idx < insert_variant(vs, var, data).len(),
        insert_variant(vs, var, data)[idx] == (var, data),
{
    let r = insert_variant(vs, var, data);
    if exists|k: int| 0 <= k < vs.len() && #[trigger] vs[k].0 == var {
        let q = choose|k: int| 0 <= k < vs.len() && #[trigger] vs[k].0 == var;
        assert(r == vs.update(q, (var, data))) by {
            let c = choose|k: int| 0 <= k < vs.len() && #[trigger] vs[k].0 == var;
            if c != q {
                if c < q {
                    assert(vs[c].0 != vs[q].0);
                } else {
                    assert(vs[q].0 != vs[c].0);
                }
            }
        }
        q
    } else {
        assert(r == vs.push((var, data)));
        vs.len() as int
    }
}

proof fn lemma_add_variant_has(es: Enums, n: Seq<char>, var: Seq<char>, data: Option<SpecSchemaType>)
    requires
        enums_ok(es),
    ensures
        has_variant(add_variant(es, n, var, data), n, var, data),
{
    lemma_index_of_enum(es, n, 0);
    let ki = enum_index(es, n, 0);
    let r = add_variant(es, n, var, data);
    if ki >= 0 {
        let vs = es[ki].variants;
        let q = lemma_insert_variant_has(vs, var, data);
        assert(r[ki].variants[q] == (var, data));
    } else {
        assert(r[es.len() as int].variants[0] == (var, data));
    }
}

/// The type inferred for a bare identifier or a variant with data refers to an enum, and the
/// enums after inferring it (from enums as inference builds them: distinct names, distinct
/// variant names) hold that enum with the value's variant: a unit variant for an
/// identifier, and for a variant with data one whose data type is the one inferred from the data,
/// of the data's shape.
pub proof fn inferred_variant_recorded(name: Seq<char>, v: SpecRonValue, es: Enums)
    requires
        enums_distinct(es),
    ensures
        v is Identifier ==> infer_type(name, v, es).0 is EnumRef && has_variant(
            infer_type(name, v, es).1,
            infer_type(name, v, es).0->EnumRef_0,
            v->Identifier_0,
            None,
        ),
        v is EnumVariant ==> infer_type(name, v, es).0 is EnumRef && has_variant(
            infer_type(name, v, es).1,
            infer_type(name, v, es).0->EnumRef_0,
            v->EnumVariant_0,
            Some(infer_type(name, v->EnumVariant_1.value, es).0),
        ) && shape_fits(infer_type(name, v->EnumVariant_1.value, es).0, v->EnumVariant_1.value),
{
    let pn = pascal(name, name.len() as int);
    match v {
        SpecRonValue::Identifier(var) => {
            lemma_add_variant_has(es, pn, var, None);
        },
        SpecRonValue::EnumVariant(var, data) => {
            let r = infer_type(name, data.value, es);
            inferred_type_fits(name, data.value, es);
            lemma_infer_type_distinct(name, data.value, es);
            lemma_add_variant_has(r.1, pn, var, Some(r.0));
            assert(infer_type(name, v, es) == (SpecSchemaType::EnumRef(pn), add_variant(r.1, pn, var, Some(r.0))));
            assert(shape_fits(r.0, data.value) && has_variant(add_variant(r.1, pn, var, Some(r.0)), pn, var, Some(r.0)));
        },
        _ => {},
    }
}

} // verus!
