use vstd::prelude::*;
use crate::schema::{CompareOp, SpecFieldAnnotation, SpecRequire, FieldAnnotation, RequireConstraint, EnumDef, Schema, SchemaType, SpecEnumDef, SpecSchema, SpecSchemaType, SpecStructDef, StructDef, enums_view, aliases_view, types_view, variants_view, field_view};
use crate::text::{append_str, chars_of};
use crate::span::Spanned;
use crate::ron::{RonValue, SpecRonValue};
use crate::number::{Decimal, decimal_of_int, decimal_text};
use crate::text::push_char;

verus! {

// ===========================================================================
// Order of names
// ===========================================================================

/// Whether `a` comes before `b` in the order of strings (character by character, a prefix
/// first).
pub open spec fn name_lt(a: Seq<char>, b: Seq<char>) -> bool
    decreases a.len(),
{
    if b.len() == 0 {
        false
    } else if a.len() == 0 {
        true
    } else if a[0] != b[0] {
        (a[0] as u32) < (b[0] as u32)
    } else {
        name_lt(a.drop_first(), b.drop_first())
    }
}

/// Whether `a` comes before `b`.
pub fn name_less(a: &str, b: &str) -> (r: bool)
    ensures
        r == name_lt(a@, b@),
{
    let x = chars_of(a);
    let y = chars_of(b);
    let mut i: usize = 0;
    assert(a@.skip(0) =~= a@);
    assert(b@.skip(0) =~= b@);
    while i < x.len() && i < y.len() && x[i] == y[i]
        invariant
            x@ == a@,
            y@ == b@,
            i <= x@.len(),
            i <= y@.len(),
            name_lt(a@, b@) == name_lt(a@.skip(i as int), b@.skip(i as int)),
        decreases x@.len() - i,
    {
        assert(a@.skip(i as int).drop_first() =~= a@.skip(i + 1));
        assert(b@.skip(i as int).drop_first() =~= b@.skip(i + 1));
        i = i + 1;
    }
    if i == y.len() {
        false
    } else if i == x.len() {
        true
    } else {
        (x[i] as u32) < (y[i] as u32)
    }
}

/// `xs` with `x` inserted before the first element whose key comes after the key of `x`.
pub open spec fn insert_by<T>(xs: Seq<T>, x: T, key: spec_fn(T) -> Seq<char>) -> Seq<T>
    decreases xs.len(),
{
    if xs.len() == 0 {
        seq![x]
    } else if name_lt(key(x), key(xs[0])) {
        seq![x] + xs
    } else {
        seq![xs[0]] + insert_by(xs.drop_first(), x, key)
    }
}

/// The first `n` elements sorted by key, equal keys in their original order.
pub open spec fn sort_by<T>(xs: Seq<T>, n: int, key: spec_fn(T) -> Seq<char>) -> Seq<T>
    decreases n,
{
    if n <= 0 || n > xs.len() {
        Seq::empty()
    } else {
        insert_by(sort_by(xs, n - 1, key), xs[n - 1], key)
    }
}

pub open spec fn enum_key() -> spec_fn(SpecEnumDef) -> Seq<char> {
    |e: SpecEnumDef| e.name
}

pub open spec fn variant_key() -> spec_fn((Seq<char>, Option<SpecSchemaType>)) -> Seq<char> {
    |v: (Seq<char>, Option<SpecSchemaType>)| v.0
}

// ===========================================================================
// The text of a schema
// ===========================================================================

/// `n` times two spaces.
pub open spec fn indent_text(n: nat) -> Seq<char>
    decreases n,
{
    if n == 0 {
        Seq::empty()
    } else {
        indent_text((n - 1) as nat) + "  "@
    }
}

/// A type as written in a schema.
pub open spec fn type_text(t: SpecSchemaType) -> Seq<char>
    decreases t, 1int,
{
    match t {
        SpecSchemaType::String => "String"@,
        SpecSchemaType::Integer => "Integer"@,
        SpecSchemaType::Float => "Float"@,
        SpecSchemaType::Bool => "Bool"@,
        SpecSchemaType::Option(b) => "Option("@ + type_text(*b) + ")"@,
        SpecSchemaType::List(b) => "["@ + type_text(*b) + "]"@,
        SpecSchemaType::EnumRef(n) => n,
        SpecSchemaType::AliasRef(n) => n,
        SpecSchemaType::Dict(k, v) => "{"@ + type_text(*k) + ": "@ + type_text(*v) + "}"@,
        SpecSchemaType::Tuple(ts) => "("@ + types_text(ts, ts.len() as int) + ")"@,
        SpecSchemaType::Struct(sd) => struct_text(sd, 0),
    }
}

/// The texts of the first `n` types, separated by `, `.
pub open spec fn types_text(ts: Seq<SpecSchemaType>, n: int) -> Seq<char>
    decreases ts, n,
{
    if n <= 0 || n > ts.len() {
        Seq::empty()
    } else if n == 1 {
        type_text(ts[0])
    } else {
        types_text(ts, n - 1) + ", "@ + type_text(ts[n - 1])
    }
}

/// A struct as written in a schema at the given indentation: one field per line, a nested struct
/// indented one step further, then the cross-field constraints one per line.
pub open spec fn struct_text(sd: SpecStructDef, indent: nat) -> Seq<char>
    decreases sd, 0int,
{
    "(\n"@ + fields_text(sd.fields, sd.fields.len() as int, indent) + requires_text(sd.annotations, sd.annotations.len() as int, indent)
        + indent_text(indent) + ")"@
}

/// A comparison operator as written.
pub open spec fn op_text(op: CompareOp) -> Seq<char> {
    match op {
        CompareOp::Lt => "<"@,
        CompareOp::Le => "<="@,
        CompareOp::Gt => ">"@,
        CompareOp::Ge => ">="@,
        CompareOp::Eq => "=="@,
        CompareOp::Ne => "!="@,
    }
}

/// A field annotation as written.
pub open spec fn annotation_text(a: SpecFieldAnnotation) -> Seq<char> {
    match a {
        SpecFieldAnnotation::Range(lo, hi) => "@range("@ + decimal_text(lo) + ", "@ + decimal_text(hi) + ")"@,
        SpecFieldAnnotation::MinLength(n) => "@min_length("@ + decimal_text(decimal_of_int(n as int)) + ")"@,
        SpecFieldAnnotation::MaxLength(n) => "@max_length("@ + decimal_text(decimal_of_int(n as int)) + ")"@,
        SpecFieldAnnotation::Pattern(p) => "@pattern(\""@ + escaped_text(p) + "\")"@,
    }
}

/// The lines of the first `n` annotations of a field.
pub open spec fn annotations_text(anns: Seq<Spanned<SpecFieldAnnotation>>, n: int, indent: nat) -> Seq<char>
    decreases n,
{
    if n <= 0 || n > anns.len() {
        Seq::empty()
    } else {
        annotations_text(anns, n - 1, indent) + indent_text(indent + 1) + annotation_text(anns[n - 1].value) + "\n"@
    }
}

/// The lines of the first `n` cross-field constraints of a struct.
pub open spec fn requires_text(rs: Seq<Spanned<SpecRequire>>, n: int, indent: nat) -> Seq<char>
    decreases n,
{
    if n <= 0 || n > rs.len() {
        Seq::empty()
    } else {
        let r = rs[n - 1].value;
        requires_text(rs, n - 1, indent) + indent_text(indent + 1) + "@require("@ + r.left + " "@ + op_text(r.op) + " "@
            + r.right + ")\n"@
    }
}

/// A string's characters as written between quotes: `"` and `\` each preceded by `\`.
pub open spec fn escaped_text(s: Seq<char>) -> Seq<char>
    decreases s.len(),
{
    if s.len() == 0 {
        Seq::empty()
    } else {
        let c = s.last();
        escaped_text(s.drop_last()) + if c == '"' || c == '\\' {
            seq!['\\', c]
        } else {
            seq![c]
        }
    }
}

/// A RON value as written in a schema (a field's default).
pub open spec fn value_text(v: SpecRonValue) -> Seq<char>
    decreases v, 1int,
{
    match v {
        SpecRonValue::String(s) => "\""@ + escaped_text(s) + "\""@,
        SpecRonValue::Integer(n) => decimal_text(decimal_of_int(n as int)),
        SpecRonValue::Float(d) => decimal_text(d),
        SpecRonValue::Bool(b) => if b {
            "true"@
        } else {
            "false"@
        },
        SpecRonValue::Option(None) => "None"@,
        SpecRonValue::Option(Some(x)) => "Some("@ + value_text(x.value) + ")"@,
        SpecRonValue::Identifier(s) => s,
        SpecRonValue::EnumVariant(n, d) => n + "("@ + value_text(d.value) + ")"@,
        SpecRonValue::List(els) => "["@ + values_text(els, els.len() as int) + "]"@,
        SpecRonValue::Dict(es) => "{"@ + entries_text(es, es.len() as int) + "}"@,
        SpecRonValue::Tuple(els) => "("@ + values_text(els, els.len() as int) + ")"@,
        SpecRonValue::Struct(st) => "("@ + members_text(st.fields, st.fields.len() as int) + ")"@,
    }
}

/// The texts of the first `n` values, separated by `, `.
pub open spec fn values_text(els: Seq<Spanned<SpecRonValue>>, n: int) -> Seq<char>
    decreases els, n,
{
    if n <= 0 || n > els.len() {
        Seq::empty()
    } else if n == 1 {
        value_text(els[0].value)
    } else {
        values_text(els, n - 1) + ", "@ + value_text(els[n - 1].value)
    }
}

/// The texts of the first `n` map entries, separated by `, `.
pub open spec fn entries_text(es: Seq<(Spanned<SpecRonValue>, Spanned<SpecRonValue>)>, n: int) -> Seq<char>
    decreases es, n,
{
    if n <= 0 || n > es.len() {
        Seq::empty()
    } else if n == 1 {
        value_text(es[0].0.value) + ": "@ + value_text(es[0].1.value)
    } else {
        entries_text(es, n - 1) + ", "@ + value_text(es[n - 1].0.value) + ": "@ + value_text(es[n - 1].1.value)
    }
}

/// The texts of the first `n` struct members, separated by `, `.
pub open spec fn members_text(fs: Seq<(Spanned<Seq<char>>, Spanned<SpecRonValue>)>, n: int) -> Seq<char>
    decreases fs, n,
{
    if n <= 0 || n > fs.len() {
        Seq::empty()
    } else if n == 1 {
        fs[0].0.value + ": "@ + value_text(fs[0].1.value)
    } else {
        members_text(fs, n - 1) + ", "@ + fs[n - 1].0.value + ": "@ + value_text(fs[n - 1].1.value)
    }
}

/// A field's default as written after its type: ` = value`, or nothing.
pub open spec fn default_text(d: Option<Spanned<SpecRonValue>>) -> Seq<char> {
    match d {
        Some(x) => " = "@ + value_text(x.value),
        None => Seq::empty(),
    }
}

/// The lines of the first `n` fields.
pub open spec fn fields_text(fs: Seq<crate::schema::SpecFieldDef>, n: int, indent: nat) -> Seq<char>
    decreases fs, n,
{
    if n <= 0 || n > fs.len() {
        Seq::empty()
    } else {
        fields_text(fs, n - 1, indent) + field_text(fs[n - 1], indent)
    }
}

/// The lines of one field: its annotations, then `name: Type`, its default, and a comma.
pub open spec fn field_text(f: crate::schema::SpecFieldDef, indent: nat) -> Seq<char>
    decreases f, 0int,
{
    let ty = match f.type_.value {
        SpecSchemaType::Struct(inner) => struct_text(inner, indent + 1),
        other => type_text(other),
    };
    annotations_text(f.annotations, f.annotations.len() as int, indent) + indent_text(indent + 1) + f.name.value + ": "@ + ty
        + default_text(f.default) + ",\n"@
}

/// The text of one variant.
pub open spec fn variant_text(v: (Seq<char>, Option<SpecSchemaType>)) -> Seq<char> {
    match v.1 {
        Some(t) => v.0 + "("@ + type_text(t) + ")"@,
        None => v.0,
    }
}

/// The texts of the first `n` variants, separated by `, `.
pub open spec fn variants_text(vs: Seq<(Seq<char>, Option<SpecSchemaType>)>, n: int) -> Seq<char>
    decreases n,
{
    if n <= 0 || n > vs.len() {
        Seq::empty()
    } else if n == 1 {
        variant_text(vs[0])
    } else {
        variants_text(vs, n - 1) + ", "@ + variant_text(vs[n - 1])
    }
}

/// An enum definition on its own line, its variants sorted by name.
pub open spec fn enum_text(e: SpecEnumDef) -> Seq<char> {
    let vs = sort_by(e.variants, e.variants.len() as int, variant_key());
    "\nenum "@ + e.name + " { "@ + variants_text(vs, vs.len() as int) + " }\n"@
}

/// The texts of the first `n` enums.
pub open spec fn enums_text(es: Seq<SpecEnumDef>, n: int) -> Seq<char>
    decreases n,
{
    if n <= 0 || n > es.len() {
        Seq::empty()
    } else {
        enums_text(es, n - 1) + enum_text(es[n - 1])
    }
}

/// A schema as written: the root struct, then the enums sorted by name, then the type aliases.
pub open spec fn schema_text(s: SpecSchema) -> Seq<char> {
    let es = sort_by(s.enums, s.enums.len() as int, enum_key());
    struct_text(s.root, 0) + "\n"@ + enums_text(es, es.len() as int) + aliases_text(s.aliases, s.aliases.len() as int)
}

/// A type alias definition on its own line.
pub open spec fn alias_text(a: (Seq<char>, Spanned<SpecSchemaType>)) -> Seq<char> {
    "\ntype "@ + a.0 + " = "@ + type_text(a.1.value) + "\n"@
}

/// The texts of the first `n` type aliases, in their order.
pub open spec fn aliases_text(als: Seq<(Seq<char>, Spanned<SpecSchemaType>)>, n: int) -> Seq<char>
    decreases n,
{
    if n <= 0 || n > als.len() {
        Seq::empty()
    } else {
        aliases_text(als, n - 1) + alias_text(als[n - 1])
    }
}


// ===========================================================================
// Sorting
// ===========================================================================

pub proof fn lemma_insert_by<T>(xs: Seq<T>, x: T, key: spec_fn(T) -> Seq<char>, p: int)
    requires
        0 <= p <= xs.len(),
        forall|j: int| 0 <= j < p ==> !name_lt(key(x), #[trigger] key(xs[j])),
        p == xs.len() || name_lt(key(x), key(xs[p])),
    ensures
        insert_by(xs, x, key) == xs.take(p) + seq![x] + xs.skip(p),
    decreases xs.len(),
{
    if xs.len() == 0 {
        assert(xs.take(p) + seq![x] + xs.skip(p) =~= seq![x]);
    } else if p == 0 {
        assert(xs.take(p) + seq![x] + xs.skip(p) =~= seq![x] + xs);
    } else {
        assert(!name_lt(key(x), key(xs[0])));
        let t = xs.drop_first();
        assert forall|j: int| 0 <= j < p - 1 implies !name_lt(key(x), #[trigger] key(t[j])) by {
            assert(t[j] == xs[j + 1]);
        }
        if p < xs.len() {
            assert(t[p - 1] == xs[p]);
        }
        lemma_insert_by(t, x, key, p - 1);
        assert(seq![xs[0]] + (t.take(p - 1) + seq![x] + t.skip(p - 1)) =~= xs.take(p) + seq![x] + xs.skip(p));
    }
}

/// The positions of the enums in order of their names, equal names in their original order.
fn enum_order(es: &Vec<EnumDef>) -> (r: Vec<usize>)
    ensures
        forall|j: int| 0 <= j < r@.len() ==> #[trigger] r@[j] < es@.len(),
        r@.map_values(|i: usize| enums_view(es@)[i as int]) == sort_by(enums_view(es@), es@.len() as int, enum_key()),
{
    let ghost ev = enums_view(es@);
    let mut order: Vec<usize> = Vec::new();
    let mut k: usize = 0;
    proof {
        assert(order@.map_values(|i: usize| ev[i as int]) =~= Seq::<SpecEnumDef>::empty());
    }
    while k < es.len()
        invariant
            k <= es@.len(),
            ev == enums_view(es@),
            forall|j: int| 0 <= j < order@.len() ==> #[trigger] order@[j] < es@.len(),
            order@.map_values(|i: usize| ev[i as int]) == sort_by(ev, k as int, enum_key()),
        decreases es@.len() - k,
    {
        let ghost cur = order@.map_values(|i: usize| ev[i as int]);
        let mut p: usize = 0;
        while p < order.len() && !name_less(es[k].name.as_str(), es[order[p]].name.as_str())
            invariant
                p <= order@.len(),
                k < es@.len(),
                ev == enums_view(es@),
                forall|j: int| 0 <= j < order@.len() ==> #[trigger] order@[j] < es@.len(),
                cur == order@.map_values(|i: usize| ev[i as int]),
                forall|j: int| 0 <= j < p ==> !name_lt(enum_key()(ev[k as int]), #[trigger] enum_key()(cur[j])),
            decreases order@.len() - p,
        {
            assert(cur[p as int] == ev[order@[p as int] as int]);
            p = p + 1;
        }
        proof {
            if p < order@.len() {
                assert(cur[p as int] == ev[order@[p as int] as int]);
            }
            lemma_insert_by(cur, ev[k as int], enum_key(), p as int);
        }
        order.insert(p, k);
        proof {
            assert(order@.map_values(|i: usize| ev[i as int]) =~= cur.take(p as int) + seq![ev[k as int]] + cur.skip(p as int));
        }
        k = k + 1;
    }
    order
}

/// The positions of the variants in order of their names, equal names in their original order.
fn variant_order(vs: &Vec<(String, Option<SchemaType>)>) -> (r: Vec<usize>)
    ensures
        forall|j: int| 0 <= j < r@.len() ==> #[trigger] r@[j] < vs@.len(),
        r@.map_values(|i: usize| variants_view(vs@)[i as int]) == sort_by(variants_view(vs@), vs@.len() as int, variant_key()),
{
    let ghost vv = variants_view(vs@);
    let mut order: Vec<usize> = Vec::new();
    let mut k: usize = 0;
    proof {
        assert(order@.map_values(|i: usize| vv[i as int]) =~= Seq::<(Seq<char>, Option<SpecSchemaType>)>::empty());
    }
    while k < vs.len()
        invariant
            k <= vs@.len(),
            vv == variants_view(vs@),
            forall|j: int| 0 <= j < order@.len() ==> #[trigger] order@[j] < vs@.len(),
            order@.map_values(|i: usize| vv[i as int]) == sort_by(vv, k as int, variant_key()),
        decreases vs@.len() - k,
    {
        let ghost cur = order@.map_values(|i: usize| vv[i as int]);
        let mut p: usize = 0;
        while p < order.len() && !name_less(vs[k].0.as_str(), vs[order[p]].0.as_str())
            invariant
                p <= order@.len(),
                k < vs@.len(),
                vv == variants_view(vs@),
                forall|j: int| 0 <= j < order@.len() ==> #[trigger] order@[j] < vs@.len(),
                cur == order@.map_values(|i: usize| vv[i as int]),
                forall|j: int| 0 <= j < p ==> !name_lt(variant_key()(vv[k as int]), #[trigger] variant_key()(cur[j])),
            decreases order@.len() - p,
        {
            assert(cur[p as int] == vv[order@[p as int] as int]);
            p = p + 1;
        }
        proof {
            if p < order@.len() {
                assert(cur[p as int] == vv[order@[p as int] as int]);
            }
            lemma_insert_by(cur, vv[k as int], variant_key(), p as int);
        }
        order.insert(p, k);
        proof {
            assert(order@.map_values(|i: usize| vv[i as int]) =~= cur.take(p as int) + seq![vv[k as int]] + cur.skip(p as int));
        }
        k = k + 1;
    }
    order
}


// ===========================================================================
// Writing
// ===========================================================================

/// Appends a type as written in a schema.
fn write_type(t: &SchemaType, out: &mut String)
    ensures
        final(out)@ == old(out)@ + type_text(t@),
    decreases t, 1int,
{
    let ghost start = out@;
    match t {
        SchemaType::String => append_str(out, "String"),
        SchemaType::Integer => append_str(out, "Integer"),
        SchemaType::Float => append_str(out, "Float"),
        SchemaType::Bool => append_str(out, "Bool"),
        SchemaType::Option(b) => {
            append_str(out, "Option(");
            write_type(b, out);
            append_str(out, ")");
        },
        SchemaType::List(b) => {
            append_str(out, "[");
            write_type(b, out);
            append_str(out, "]");
        },
        SchemaType::EnumRef(n) => append_str(out, n.as_str()),
        SchemaType::AliasRef(n) => append_str(out, n.as_str()),
        SchemaType::Dict(k, v) => {
            append_str(out, "{");
            write_type(k, out);
            append_str(out, ": ");
            write_type(v, out);
            append_str(out, "}");
        },
        SchemaType::Tuple(ts) => {
            append_str(out, "(");
            let ghost tv = types_view(ts@);
            let ghost open_ = out@;
            let mut i: usize = 0;
            while i < ts.len()
                invariant
                    i <= ts@.len(),
                    *t == SchemaType::Tuple(*ts),
                    tv == types_view(ts@),
                    out@ == open_ + types_text(tv, i as int),
                decreases ts@.len() - i,
            {
                proof {
                    vstd::std_specs::vec::axiom_vec_index_decreases(*ts, i as int);
                    assert(decreases_to!(*t => (*t)->Tuple_0));
                }
                let ghost before = out@;
                if i > 0 {
                    append_str(out, ", ");
                }
                write_type(&ts[i], out);
                assert(tv[i as int] == ts@[i as int]@);
                i = i + 1;
                assert(out@ =~= open_ + types_text(tv, i as int));
            }
            append_str(out, ")");
            assert(tv.len() == ts@.len());
        },
        SchemaType::Struct(sd) => {
            proof {
                assert(decreases_to!(*t => (*t)->Struct_0));
            }
            let prefix = String::new();
            assert(prefix@ =~= indent_text(0));
            write_struct(sd, out, &prefix, Ghost(0));
        },
    }
    assert(out@ =~= start + type_text(t@));
}

/// Appends a struct as written in a schema; `close` is the indentation of its closing
/// parenthesis, `indent` steps of two spaces.
/// Writes a string's characters escaped (see [`escaped_text`]).
fn write_escaped(s: &String, out: &mut String)
    ensures
        final(out)@ == old(out)@ + escaped_text(s@),
{
    let cs = chars_of(s.as_str());
    let ghost start = out@;
    let mut i: usize = 0;
    assert(s@.subrange(0, 0) =~= Seq::<char>::empty());
    while i < cs.len()
        invariant
            cs@ == s@,
            i <= cs@.len(),
            out@ == start + escaped_text(s@.subrange(0, i as int)),
        decreases cs@.len() - i,
    {
        let c = cs[i];
        if c == '"' || c == '\\' {
            push_char(out, '\\');
        }
        push_char(out, c);
        proof {
            let t = s@.subrange(0, i + 1);
            assert(t.drop_last() =~= s@.subrange(0, i as int));
            assert(t.last() == c);
        }
        i = i + 1;
        assert(out@ =~= start + escaped_text(s@.subrange(0, i as int)));
    }
    assert(s@.subrange(0, cs@.len() as int) =~= s@);
}

/// Writes a RON value (see [`value_text`]).
fn write_value(v: &RonValue, out: &mut String)
    ensures
        final(out)@ == old(out)@ + value_text(v@),
    decreases v,
{
    let ghost start = out@;
    match v {
        RonValue::String(s) => {
            append_str(out, "\"");
            write_escaped(s, out);
            append_str(out, "\"");
        },
        RonValue::Integer(n) => {
            let t = Decimal::from_i64(*n).to_text();
            append_str(out, t.as_str());
        },
        RonValue::Float(d) => {
            let t = d.to_text();
            append_str(out, t.as_str());
        },
        RonValue::Bool(b) => {
            if *b {
                append_str(out, "true");
            } else {
                append_str(out, "false");
            }
        },
        RonValue::Option(None) => append_str(out, "None"),
        RonValue::Option(Some(x)) => {
            append_str(out, "Some(");
            proof {
                assert(decreases_to!(*v => (*v)->Option_0));
            }
            write_value(&x.value, out);
            append_str(out, ")");
        },
        RonValue::Identifier(s) => append_str(out, s.as_str()),
        RonValue::EnumVariant(n, d) => {
            append_str(out, n.as_str());
            append_str(out, "(");
            proof {
                assert(decreases_to!(*v => (*v)->EnumVariant_1));
            }
            write_value(&d.value, out);
            append_str(out, ")");
        },
        RonValue::List(els) => {
            append_str(out, "[");
            write_values(els, v, out);
            append_str(out, "]");
        },
        RonValue::Tuple(els) => {
            append_str(out, "(");
            write_values(els, v, out);
            append_str(out, ")");
        },
        RonValue::Dict(es) => {
            append_str(out, "{");
            let ghost pv = crate::ron::pairs_view(es@);
            let ghost mid = out@;
            let mut k: usize = 0;
            while k < es.len()
                invariant
                    k <= es@.len(),
                    *v == RonValue::Dict(*es),
                    pv == crate::ron::pairs_view(es@),
                    pv.len() == es@.len(),
                    out@ == mid + entries_text(pv, k as int),
                decreases es@.len() - k,
            {
                if k > 0 {
                    append_str(out, ", ");
                }
                proof {
                    vstd::std_specs::vec::axiom_vec_index_decreases(*es, k as int);
                    assert(decreases_to!(*v => (*v)->Dict_0));
                }
                assert(pv[k as int].0.value == es@[k as int].0.value@);
                assert(pv[k as int].1.value == es@[k as int].1.value@);
                write_value(&es[k].0.value, out);
                append_str(out, ": ");
                write_value(&es[k].1.value, out);
                k = k + 1;
                assert(out@ =~= mid + entries_text(pv, k as int));
            }
            append_str(out, "}");
        },
        RonValue::Struct(st) => {
            append_str(out, "(");
            let ghost fv = crate::ron::fields_view(st.fields@);
            let ghost mid = out@;
            let mut k: usize = 0;
            while k < st.fields.len()
                invariant
                    k <= st.fields@.len(),
                    *v == RonValue::Struct(*st),
                    fv == crate::ron::fields_view(st.fields@),
                    fv.len() == st.fields@.len(),
                    out@ == mid + members_text(fv, k as int),
                decreases st.fields@.len() - k,
            {
                if k > 0 {
                    append_str(out, ", ");
                }
                proof {
                    vstd::std_specs::vec::axiom_vec_index_decreases(st.fields, k as int);
                    assert(decreases_to!(*v => (*v)->Struct_0));
                    assert(decreases_to!((*v)->Struct_0 => (*v)->Struct_0.fields));
                }
                assert(fv[k as int].0.value == st.fields@[k as int].0.value@);
                assert(fv[k as int].1.value == st.fields@[k as int].1.value@);
                append_str(out, st.fields[k].0.value.as_str());
                append_str(out, ": ");
                write_value(&st.fields[k].1.value, out);
                k = k + 1;
                assert(out@ =~= mid + members_text(fv, k as int));
            }
            append_str(out, ")");
        },
    }
    assert(out@ =~= start + value_text(v@));
}

/// Writes a comparison operator (see [`op_text`]).
fn write_op(op: CompareOp, out: &mut String)
    ensures
        final(out)@ == old(out)@ + op_text(op),
{
    match op {
        CompareOp::Lt => append_str(out, "<"),
        CompareOp::Le => append_str(out, "<="),
        CompareOp::Gt => append_str(out, ">"),
        CompareOp::Ge => append_str(out, ">="),
        CompareOp::Eq => append_str(out, "=="),
        CompareOp::Ne => append_str(out, "!="),
    }
}

/// Writes a field annotation (see [`annotation_text`]).
fn write_annotation(a: &FieldAnnotation, out: &mut String)
    ensures
        final(out)@ == old(out)@ + annotation_text(a@),
{
    let ghost start = out@;
    match a {
        FieldAnnotation::Range(lo, hi) => {
            append_str(out, "@range(");
            let t1 = lo.to_text();
            append_str(out, t1.as_str());
            append_str(out, ", ");
            let t2 = hi.to_text();
            append_str(out, t2.as_str());
            append_str(out, ")");
        },
        FieldAnnotation::MinLength(n) => {
            append_str(out, "@min_length(");
            let t = Decimal::from_u64(*n as u64).to_text();
            append_str(out, t.as_str());
            append_str(out, ")");
        },
        FieldAnnotation::MaxLength(n) => {
            append_str(out, "@max_length(");
            let t = Decimal::from_u64(*n as u64).to_text();
            append_str(out, t.as_str());
            append_str(out, ")");
        },
        FieldAnnotation::Pattern(p) => {
            append_str(out, "@pattern(\"");
            write_escaped(p, out);
            append_str(out, "\")");
        },
    }
    assert(out@ =~= start + annotation_text(a@));
}

/// Writes the annotation lines of a field (see [`annotations_text`]).
fn write_annotations(anns: &Vec<Spanned<FieldAnnotation>>, inner: &String, out: &mut String, Ghost(indent): Ghost<nat>)
    requires
        inner@ == indent_text(indent + 1),
    ensures
        final(out)@ == old(out)@ + annotations_text(anns@.map_values(|a: Spanned<FieldAnnotation>| a@), anns@.len() as int, indent),
{
    let ghost av = anns@.map_values(|a: Spanned<FieldAnnotation>| a@);
    let ghost start = out@;
    let mut k: usize = 0;
    while k < anns.len()
        invariant
            k <= anns@.len(),
            av == anns@.map_values(|a: Spanned<FieldAnnotation>| a@),
            inner@ == indent_text(indent + 1),
            out@ == start + annotations_text(av, k as int, indent),
        decreases anns@.len() - k,
    {
        append_str(out, inner.as_str());
        write_annotation(&anns[k].value, out);
        append_str(out, "\n");
        assert(av[k as int].value == anns@[k as int].value@);
        k = k + 1;
        assert(out@ =~= start + annotations_text(av, k as int, indent));
    }
}

/// Writes the cross-field constraint lines of a struct (see [`requires_text`]).
fn write_requires(rs: &Vec<Spanned<RequireConstraint>>, inner: &String, out: &mut String, Ghost(indent): Ghost<nat>)
    requires
        inner@ == indent_text(indent + 1),
    ensures
        final(out)@ == old(out)@ + requires_text(crate::schema::requires_view(rs@), rs@.len() as int, indent),
{
    let ghost rv = crate::schema::requires_view(rs@);
    let ghost start = out@;
    let mut k: usize = 0;
    while k < rs.len()
        invariant
            k <= rs@.len(),
            rv == crate::schema::requires_view(rs@),
            inner@ == indent_text(indent + 1),
            out@ == start + requires_text(rv, k as int, indent),
        decreases rs@.len() - k,
    {
        let r = &rs[k].value;
        assert(rv[k as int].value == r@);
        append_str(out, inner.as_str());
        append_str(out, "@require(");
        append_str(out, r.left.as_str());
        append_str(out, " ");
        write_op(r.op, out);
        append_str(out, " ");
        append_str(out, r.right.as_str());
        append_str(out, ")\n");
        k = k + 1;
        assert(out@ =~= start + requires_text(rv, k as int, indent));
    }
}

/// The mathematical content of an optional default.
pub open spec fn default_view(d: Option<Spanned<RonValue>>) -> Option<Spanned<SpecRonValue>> {
    match d {
        Some(x) => Some(x@),
        None => None,
    }
}

/// Writes a field's default after its type (see [`default_text`]).
fn write_default(d: &Option<Spanned<RonValue>>, out: &mut String)
    ensures
        final(out)@ == old(out)@ + default_text(default_view(*d)),
{
    match d {
        Some(x) => {
            append_str(out, " = ");
            write_value(&x.value, out);
        },
        None => {
            assert(old(out)@ + Seq::<char>::empty() =~= old(out)@);
        },
    }
}

/// Writes list or tuple elements separated by `, ` (see [`values_text`]).
fn write_values(els: &Vec<Spanned<RonValue>>, whole: &RonValue, out: &mut String)
    requires
        *whole == RonValue::List(*els) || *whole == RonValue::Tuple(*els),
    ensures
        final(out)@ == old(out)@ + values_text(crate::ron::list_view(els@), els@.len() as int),
    decreases whole, 0int,
{
    let ghost lv = crate::ron::list_view(els@);
    let ghost mid = out@;
    let mut k: usize = 0;
    while k < els.len()
        invariant
            k <= els@.len(),
            *whole == RonValue::List(*els) || *whole == RonValue::Tuple(*els),
            lv == crate::ron::list_view(els@),
            lv.len() == els@.len(),
            out@ == mid + values_text(lv, k as int),
        decreases els@.len() - k,
    {
        if k > 0 {
            append_str(out, ", ");
        }
        proof {
            vstd::std_specs::vec::axiom_vec_index_decreases(*els, k as int);
            if *whole == RonValue::List(*els) {
                assert(decreases_to!(*whole => (*whole)->List_0));
            } else {
                assert(decreases_to!(*whole => (*whole)->Tuple_0));
            }
        }
        assert(lv[k as int].value == els@[k as int].value@);
        write_value(&els[k].value, out);
        k = k + 1;
        assert(out@ =~= mid + values_text(lv, k as int));
    }
}

/// Writes the lines of one field (see [`field_text`]).
fn write_field(f: &crate::schema::FieldDef, out: &mut String, inner: &String, Ghost(indent): Ghost<nat>)
    requires
        inner@ == indent_text(indent + 1),
    ensures
        final(out)@ == old(out)@ + field_text(field_view(*f), indent),
    decreases f, 1int,
{
    let ghost line_start = out@;
    let ghost fk = field_view(*f);
    write_annotations(&f.annotations, inner, out, Ghost(indent));
    let ghost after_anns = out@;
    append_str(out, inner.as_str());
    append_str(out, f.name.value.as_str());
    append_str(out, ": ");
    match &f.type_.value {
        SchemaType::Struct(inner_def) => {
            proof {
                assert(decreases_to!(f.type_.value => f.type_.value->Struct_0));
            }
            write_struct(inner_def, out, inner, Ghost(indent + 1));
        },
        other => {
            write_type(other, out);
        },
    }
    let ghost after_type = out@;
    write_default(&f.default, out);
    append_str(out, ",\n");
    proof {
        assert(fk.default == default_view(f.default));
        let ty = match fk.type_.value {
            SpecSchemaType::Struct(inner) => struct_text(inner, indent + 1),
            other => type_text(other),
        };
        assert(after_type == after_anns + indent_text(indent + 1) + fk.name.value + ": "@ + ty);
        assert(out@ =~= line_start + field_text(fk, indent));
    }
}

fn write_struct(sd: &StructDef, out: &mut String, close: &String, Ghost(indent): Ghost<nat>)
    requires
        close@ == indent_text(indent),
    ensures
        final(out)@ == old(out)@ + struct_text(sd@, indent),
    decreases sd, 0int,
{
    let ghost start = out@;
    let ghost fv = crate::schema::field_defs_view(sd.fields@);
    let mut inner = crate::text::copy_string(close);
    append_str(&mut inner, "  ");
    assert(inner@ == indent_text(indent + 1));
    append_str(out, "(\n");
    let ghost open_ = out@;
    let mut k: usize = 0;
    while k < sd.fields.len()
        invariant
            k <= sd.fields@.len(),
            fv == crate::schema::field_defs_view(sd.fields@),
            inner@ == indent_text(indent + 1),
            out@ == open_ + fields_text(fv, k as int, indent),
        decreases sd.fields@.len() - k,
    {
        let f = &sd.fields[k];
        assert(fv[k as int] == field_view(sd.fields@[k as int]));
        proof {
            vstd::std_specs::vec::axiom_vec_index_decreases(sd.fields, k as int);
            assert(decreases_to!(*sd => sd.fields));
        }
        write_field(f, out, &inner, Ghost(indent));
        k = k + 1;
        assert(out@ =~= open_ + fields_text(fv, k as int, indent));
    }
    let ghost after_fields = out@;
    write_requires(&sd.annotations, &inner, out, Ghost(indent));
    append_str(out, close.as_str());
    append_str(out, ")");
    assert(fv.len() == sd.fields@.len());
    assert(out@ =~= start + struct_text(sd@, indent));
}

/// Formats a [`Schema`] as `.ronschema` source text: the root struct, then the enum
/// definitions sorted by name, each with its variants sorted by name, then the type aliases in
/// their order.
pub fn format_schema(schema: &Schema) -> (r: String)
    ensures
        r@ == schema_text(schema@),
{
    let mut out = String::new();
    let top = String::new();
    assert(top@ =~= indent_text(0));
    write_struct(&schema.root, &mut out, &top, Ghost(0));
    append_str(&mut out, "\n");
    let ghost ev = enums_view(schema.enums@);
    let ghost sorted = sort_by(ev, ev.len() as int, enum_key());
    let ghost head = out@;
    let order = enum_order(&schema.enums);
    assert(sorted.len() == order@.len());
    let mut k: usize = 0;
    while k < order.len()
        invariant
            k <= order@.len(),
            ev == enums_view(schema.enums@),
            forall|j: int| 0 <= j < order@.len() ==> #[trigger] order@[j] < schema.enums@.len(),
            order@.map_values(|i: usize| ev[i as int]) == sorted,
            sorted.len() == order@.len(),
            out@ == head + enums_text(sorted, k as int),
        decreases order@.len() - k,
    {
        let e = &schema.enums[order[k]];
        assert(sorted[k as int] == ev[order@[k as int] as int]);
        assert(e@ == sorted[k as int]);
        let ghost ve = variants_view(e.variants@);
        let ghost vsorted = sort_by(ve, ve.len() as int, variant_key());
        let ghost before = out@;
        append_str(&mut out, "\nenum ");
        append_str(&mut out, e.name.as_str());
        append_str(&mut out, " { ");
        let vorder = variant_order(&e.variants);
        assert(vsorted.len() == vorder@.len());
        let ghost mid = out@;
        let mut j: usize = 0;
        while j < vorder.len()
            invariant
                j <= vorder@.len(),
                ve == variants_view(e.variants@),
                forall|q: int| 0 <= q < vorder@.len() ==> #[trigger] vorder@[q] < e.variants@.len(),
                vorder@.map_values(|i: usize| ve[i as int]) == vsorted,
                vsorted.len() == vorder@.len(),
                out@ == mid + variants_text(vsorted, j as int),
            decreases vorder@.len() - j,
        {
            if j > 0 {
                append_str(&mut out, ", ");
            }
            let v = &e.variants[vorder[j]];
            assert(vsorted[j as int] == ve[vorder@[j as int] as int]);
            append_str(&mut out, v.0.as_str());
            match &v.1 {
                Some(t) => {
                    append_str(&mut out, "(");
                    write_type(t, &mut out);
                    append_str(&mut out, ")");
                },
                None => {},
            }
            j = j + 1;
            assert(out@ =~= mid + variants_text(vsorted, j as int));
        }
        append_str(&mut out, " }\n");
        assert(out@ =~= before + enum_text(sorted[k as int]));
        k = k + 1;
        assert(out@ =~= head + enums_text(sorted, k as int));
    }
    let ghost av = aliases_view(schema.aliases@);
    let ghost body = out@;
    let mut a: usize = 0;
    assert(body + aliases_text(av, 0) =~= body);
    while a < schema.aliases.len()
        invariant
            a <= schema.aliases@.len(),
            av == aliases_view(schema.aliases@),
            av.len() == schema.aliases@.len(),
            out@ == body + aliases_text(av, a as int),
        decreases schema.aliases@.len() - a,
    {
        let al = &schema.aliases[a];
        assert(av[a as int] == (al.0@, al.1@));
        let ghost before = out@;
        append_str(&mut out, "\ntype ");
        append_str(&mut out, al.0.as_str());
        append_str(&mut out, " = ");
        write_type(&al.1.value, &mut out);
        append_str(&mut out, "\n");
        assert(out@ =~= before + alias_text(av[a as int]));
        a = a + 1;
        assert(out@ =~= body + aliases_text(av, a as int));
    }
    out
}

} // verus!
