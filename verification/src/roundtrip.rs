use vstd::prelude::*;
use vstd::utf8::{encode_utf8, is_ascii_chars};
use crate::ron::parser::{identifier_at, paren_is_struct, span_of};
use crate::schema::grammar::{field_repeated_at, field_named_before, 
    dict_type_at, field_at, field_default, is_key_type, items_after, lemma_items_end, lemma_items_field, list_type_at,
    named_type_at, option_type_at, sexpect, sident, struct_at, struct_items, struct_of, tuple_type_at, tuple_types, type_at,
    variant_data_at, variants_at, variant_named, insert_variant, enum_def_at, defs_at, has_enum, schema_parts, imports_at, at_import,
};
use crate::schema::{SpecEnumDef, SpecFieldDef, SpecSchema, SpecSchemaType, SpecStructDef};
use crate::schema::check::{type_defaults, types_defaults, 
    SpecAliases, alias_names, reclass_aliases, reclass_field, reclass_struct, reclass_type,
    schema_of_source, bad_default, fields_refs, find_enum, nested_defaults, struct_defaults, type_refs, types_refs,
};
use crate::format::{field_text, annotations_text, requires_text, default_text, aliases_text, schema_text, enum_key, enum_text, enums_text, indent_text, insert_by, sort_by, struct_text, type_text, types_text, fields_text, variant_key, variant_text, variants_text};
use crate::span::{Span, Spanned};
use crate::ron::SpecRonValue;
use crate::infer::{Enums, add_variant, all_identifiers, enum_index, identifier_variants, infer_fields, infer_type, infer_types, inferred_field, inferred_schema, pascal, put_enum};
use crate::text::{bytes_as_chars, ident_end, is_alpha, is_ident_continue, is_ws, skip_ws};

verus! {

// ===========================================================================
// Bytes that spell a text
// ===========================================================================

/// Whether the bytes from offset `i` spell the characters `t`, one byte for each.
pub open spec fn spells(s: Seq<u8>, i: int, t: Seq<char>) -> bool {
    0 <= i && i + t.len() <= s.len() && bytes_as_chars(s.subrange(i, i + t.len())) == t
}

pub proof fn lemma_spells_at(s: Seq<u8>, i: int, t: Seq<char>, k: int)
    requires
        spells(s, i, t),
        0 <= k < t.len(),
    ensures
        s[i + k] as char == t[k],
{
    assert(bytes_as_chars(s.subrange(i, i + t.len()))[k] == s[i + k] as char);
}

pub proof fn lemma_spells_concat(s: Seq<u8>, i: int, a: Seq<char>, b: Seq<char>)
    ensures
        spells(s, i, a + b) == (spells(s, i, a) && spells(s, i + a.len(), b)),
{
    if spells(s, i, a + b) {
        assert(bytes_as_chars(s.subrange(i, i + a.len())) =~= a) by {
            assert forall|k: int| 0 <= k < a.len() implies bytes_as_chars(s.subrange(i, i + a.len()))[k] == a[k] by {
                lemma_spells_at(s, i, a + b, k);
            }
        }
        assert(bytes_as_chars(s.subrange(i + a.len(), i + a.len() + b.len())) =~= b) by {
            assert forall|k: int| 0 <= k < b.len() implies bytes_as_chars(s.subrange(i + a.len(), i + a.len() + b.len()))[k]
                == b[k] by {
                lemma_spells_at(s, i, a + b, a.len() + k);
            }
        }
    }
    if spells(s, i, a) && spells(s, i + a.len(), b) {
        assert(bytes_as_chars(s.subrange(i, i + (a + b).len())) =~= a + b) by {
            assert forall|k: int| 0 <= k < (a + b).len() implies bytes_as_chars(s.subrange(i, i + (a + b).len()))[k] == (a
                + b)[k] by {
                if k < a.len() {
                    lemma_spells_at(s, i, a, k);
                } else {
                    lemma_spells_at(s, i + a.len(), b, k - a.len());
                }
            }
        }
    }
}

// ===========================================================================
// Whitespace and names
// ===========================================================================

/// `skip_ws` passes a run of whitespace and stops at the first byte that neither is whitespace
/// nor starts a comment.
pub proof fn lemma_skip_blank(s: Seq<u8>, i: int, n: int)
    requires
        0 <= i,
        0 <= n,
        i + n <= s.len(),
        forall|k: int| i <= k < i + n ==> is_ws(#[trigger] s[k]),
        i + n < s.len() ==> !is_ws(s[i + n]) && s[i + n] != 0x2f,
    ensures
        skip_ws(s, i) == i + n,
    decreases n,
{
    if n > 0 {
        lemma_skip_blank(s, i + 1, n - 1);
    }
}

/// A letter, a digit or `_`.
pub open spec fn name_char(c: char) -> bool {
    ('a' <= c && c <= 'z') || ('A' <= c && c <= 'Z') || ('0' <= c && c <= '9') || c == '_'
}

/// An identifier: a letter or `_`, then letters, digits and `_`.
pub open spec fn ident_name(n: Seq<char>) -> bool {
    &&& n.len() > 0
    &&& (('a' <= n[0] && n[0] <= 'z') || ('A' <= n[0] && n[0] <= 'Z') || n[0] == '_')
    &&& forall|k: int| 0 <= k < n.len() ==> name_char(#[trigger] n[k])
}

proof fn lemma_ident_end_at(s: Seq<u8>, j: int, e: int)
    requires
        0 <= j <= e,
        e < s.len(),
        forall|k: int| j <= k < e ==> is_ident_continue(#[trigger] s[k]),
        !is_ident_continue(s[e]),
    ensures
        ident_end(s, j) == e,
    decreases e - j,
{
    if j < e {
        lemma_ident_end_at(s, j + 1, e);
    }
}

/// An identifier spelled at `i` and followed by a byte that cannot continue it is read whole.
pub proof fn lemma_ident(s: Seq<u8>, i: int, n: Seq<char>)
    requires
        ident_name(n),
        spells(s, i, n),
        i + n.len() < s.len(),
        !is_ident_continue(s[i + n.len()]),
    ensures
        identifier_at(s, i) == Ok::<(Spanned<Seq<char>>, int), crate::error::SpecRonParseError>(
            (Spanned { value: n, span: span_of(s, i, i + n.len()) }, i + n.len()),
        ),
        sident(s, i) == Ok::<(Spanned<Seq<char>>, int), crate::error::SpecSchemaParseError>(
            (Spanned { value: n, span: span_of(s, i, i + n.len()) }, i + n.len()),
        ),
{
    assert forall|k: int| i <= k < i + n.len() implies is_ident_continue(#[trigger] s[k]) by {
        lemma_spells_at(s, i, n, k - i);
        assert(name_char(n[k - i]));
    }
    lemma_spells_at(s, i, n, 0);
    lemma_ident_end_at(s, i, i + n.len());
}

// ===========================================================================
// Schemas that can be written out and read back
// ===========================================================================

/// A name that a type may refer to: an identifier that starts with a letter and is not the
/// word `Option`.
pub open spec fn ref_name(n: Seq<char>) -> bool {
    ident_name(n) && n[0] != '_' && n != "Option"@
}

/// The words that name the primitive types.
pub open spec fn primitive_word(n: Seq<char>) -> bool {
    n == "String"@ || n == "Integer"@ || n == "Float"@ || n == "Bool"@
}

/// A map key type that reads back as one: `String`, `Integer`, or a reference by a name that
/// does not read back as `Float` or `Bool`.
pub open spec fn key_ok(t: SpecSchemaType) -> bool {
    match t {
        SpecSchemaType::String => true,
        SpecSchemaType::Integer => true,
        SpecSchemaType::EnumRef(n) => n != "Float"@ && n != "Bool"@,
        SpecSchemaType::AliasRef(n) => n != "Float"@ && n != "Bool"@,
        _ => false,
    }
}

/// A type whose text reads back: its references are names, its map keys key types, its
/// struct fields named by identifiers.
pub open spec fn writable_type(t: SpecSchemaType) -> bool
    decreases t, 1int,
{
    match t {
        SpecSchemaType::Option(b) => writable_type(*b),
        SpecSchemaType::List(b) => writable_type(*b),
        SpecSchemaType::EnumRef(n) => ref_name(n),
        SpecSchemaType::AliasRef(n) => ref_name(n),
        SpecSchemaType::Dict(k, v) => key_ok(*k) && writable_type(*k) && writable_type(*v),
        SpecSchemaType::Tuple(ts) => forall|j: int| 0 <= j < ts.len() ==> writable_type(#[trigger] ts[j]),
        SpecSchemaType::Struct(sd) => writable_struct(sd),
        _ => true,
    }
}

pub open spec fn writable_struct(sd: SpecStructDef) -> bool
    decreases sd, 0int,
{
    &&& forall|j: int|
        0 <= j < sd.fields.len() ==> ident_name((#[trigger] sd.fields[j]).name.value) && writable_type(
            sd.fields[j].type_.value,
        ) && sd.fields[j].default is None && sd.fields[j].annotations.len() == 0
    &&& sd.annotations.len() == 0
    &&& forall|a: int, b: int|
        0 <= a < b < sd.fields.len() ==> (#[trigger] sd.fields[a]).name.value != (#[trigger] sd.fields[b]).name.value
}

/// Every name the type refers to is a primitive word or names one of the enums.
pub open spec fn names_defined(t: SpecSchemaType, enums: Seq<SpecEnumDef>) -> bool
    decreases t, 1int,
{
    match t {
        SpecSchemaType::Option(b) => names_defined(*b, enums),
        SpecSchemaType::List(b) => names_defined(*b, enums),
        SpecSchemaType::EnumRef(n) => primitive_word(n) || find_enum(enums, n, 0) is Some,
        SpecSchemaType::AliasRef(n) => primitive_word(n) || find_enum(enums, n, 0) is Some,
        SpecSchemaType::Dict(k, v) => names_defined(*k, enums) && names_defined(*v, enums),
        SpecSchemaType::Tuple(ts) => forall|j: int| 0 <= j < ts.len() ==> names_defined(#[trigger] ts[j], enums),
        SpecSchemaType::Struct(sd) => struct_names_defined(sd, enums),
        _ => true,
    }
}

pub open spec fn struct_names_defined(sd: SpecStructDef, enums: Seq<SpecEnumDef>) -> bool
    decreases sd, 0int,
{
    forall|j: int| 0 <= j < sd.fields.len() ==> names_defined((#[trigger] sd.fields[j]).type_.value, enums)
}

/// The text of a type, a struct indented by `m` steps.
pub open spec fn text_at_indent(t: SpecSchemaType, m: nat) -> Seq<char> {
    match t {
        SpecSchemaType::Struct(sd) => struct_text(sd, m),
        _ => type_text(t),
    }
}

// ===========================================================================
// What reading gives back
// ===========================================================================

/// The references of a type read back all resolve against `enums`.
pub open spec fn refs_resolve(v: SpecSchemaType, enums: Seq<SpecEnumDef>) -> bool {
    forall|sp: Span| #[trigger] type_refs(v, sp, enums, Seq::empty()) is None
}

/// No field of the struct, or of a struct that is a field's type, has a default.
pub open spec fn defaults_free(sd: SpecStructDef) -> bool
    decreases sd, 0int,
{
    forall|k: int|
        0 <= k < sd.fields.len() ==> (#[trigger] sd.fields[k]).default is None && type_free(sd.fields[k].type_.value)
}

/// Every struct nested in the type is without defaults.
pub open spec fn type_free(t: SpecSchemaType) -> bool
    decreases t, 1int,
{
    match t {
        SpecSchemaType::Struct(inner) => defaults_free(inner),
        SpecSchemaType::Option(b) => type_free(*b),
        SpecSchemaType::List(b) => type_free(*b),
        SpecSchemaType::Dict(_, v) => type_free(*v),
        SpecSchemaType::Tuple(ts) => forall|j: int| 0 <= j < ts.len() ==> type_free(#[trigger] ts[j]),
        _ => true,
    }
}

proof fn lemma_type_defaults_none(t: SpecSchemaType, enums: Seq<SpecEnumDef>, aliases: SpecAliases, fuel: nat)
    requires
        type_free(t),
    ensures
        type_defaults(t, enums, aliases, fuel) is None,
    decreases t, 2int,
{
    match t {
        SpecSchemaType::Struct(inner) => lemma_struct_defaults_none(inner, enums, aliases, fuel),
        SpecSchemaType::Option(b) => lemma_type_defaults_none(*b, enums, aliases, fuel),
        SpecSchemaType::List(b) => lemma_type_defaults_none(*b, enums, aliases, fuel),
        SpecSchemaType::Dict(_, v) => lemma_type_defaults_none(*v, enums, aliases, fuel),
        SpecSchemaType::Tuple(ts) => lemma_types_defaults_none(ts, 0, enums, aliases, fuel),
        _ => {},
    }
}

proof fn lemma_types_defaults_none(ts: Seq<SpecSchemaType>, k: int, enums: Seq<SpecEnumDef>, aliases: SpecAliases, fuel: nat)
    requires
        0 <= k,
        forall|j: int| 0 <= j < ts.len() ==> type_free(#[trigger] ts[j]),
    ensures
        types_defaults(ts, k, enums, aliases, fuel) is None,
    decreases ts, ts.len() - k,
{
    if k < ts.len() {
        assert(type_free(ts[k]));
        lemma_type_defaults_none(ts[k], enums, aliases, fuel);
        lemma_types_defaults_none(ts, k + 1, enums, aliases, fuel);
    }
}

proof fn lemma_fields_refs_none(fs: Seq<SpecFieldDef>, k: int, enums: Seq<SpecEnumDef>)
    requires
        0 <= k,
        forall|j: int| k <= j < fs.len() ==> refs_resolve((#[trigger] fs[j]).type_.value, enums),
    ensures
        fields_refs(fs, k, enums, Seq::empty()) is None,
    decreases fs.len() - k,
{
    if k < fs.len() {
        assert(refs_resolve(fs[k].type_.value, enums));
        assert(type_refs(fs[k].type_.value, fs[k].type_.span, enums, Seq::empty()) is None);
        lemma_fields_refs_none(fs, k + 1, enums);
    }
}

proof fn lemma_types_refs_none(ts: Seq<SpecSchemaType>, k: int, sp: Span, enums: Seq<SpecEnumDef>)
    requires
        0 <= k,
        forall|j: int| k <= j < ts.len() ==> refs_resolve(#[trigger] ts[j], enums),
    ensures
        types_refs(ts, k, sp, enums, Seq::empty()) is None,
    decreases ts.len() - k,
{
    if k < ts.len() {
        assert(refs_resolve(ts[k], enums));
        assert(type_refs(ts[k], sp, enums, Seq::empty()) is None);
        lemma_types_refs_none(ts, k + 1, sp, enums);
    }
}

proof fn lemma_bad_default_none(fs: Seq<SpecFieldDef>, k: int, enums: Seq<SpecEnumDef>, aliases: SpecAliases, fuel: nat)
    requires
        0 <= k,
        forall|j: int| k <= j < fs.len() ==> (#[trigger] fs[j]).default is None,
    ensures
        bad_default(fs, k, enums, aliases, fuel) is None,
    decreases fs.len() - k,
{
    if k < fs.len() {
        assert(fs[k].default is None);
        lemma_bad_default_none(fs, k + 1, enums, aliases, fuel);
    }
}

proof fn lemma_nested_defaults_none(sd: SpecStructDef, k: int, enums: Seq<SpecEnumDef>, aliases: SpecAliases, fuel: nat)
    requires
        0 <= k,
        defaults_free(sd),
    ensures
        nested_defaults(sd.fields, k, enums, aliases, fuel) is None,
    decreases sd, sd.fields.len() - k,
{
    if k < sd.fields.len() {
        assert(sd.fields[k].default is None);
        lemma_type_defaults_none(sd.fields[k].type_.value, enums, aliases, fuel);
        lemma_nested_defaults_none(sd, k + 1, enums, aliases, fuel);
    }
}

/// A struct without defaults passes the check of defaults.
pub proof fn lemma_struct_defaults_none(sd: SpecStructDef, enums: Seq<SpecEnumDef>, aliases: SpecAliases, fuel: nat)
    requires
        defaults_free(sd),
    ensures
        struct_defaults(sd, enums, aliases, fuel) is None,
    decreases sd, sd.fields.len() + 1,
{
    assert forall|j: int| 0 <= j < sd.fields.len() implies (#[trigger] sd.fields[j]).default is None by {}
    lemma_bad_default_none(sd.fields, 0, enums, aliases, fuel);
    lemma_nested_defaults_none(sd, 0, enums, aliases, fuel);
}

// ===========================================================================
// Facts about the texts
// ===========================================================================

proof fn lemma_words()
    ensures
        ident_name("String"@),
        ident_name("Integer"@),
        ident_name("Float"@),
        ident_name("Bool"@),
        ident_name("Option"@),
        "String"@.len() == 6 && "String"@[0] == 'S',
        "Integer"@.len() == 7 && "Integer"@[0] == 'I',
        "Float"@.len() == 5 && "Float"@[0] == 'F',
        "Bool"@.len() == 4 && "Bool"@[0] == 'B',
        "Option"@.len() == 6 && "Option"@[0] == 'O',
        "String"@ != "Integer"@ && "String"@ != "Float"@ && "String"@ != "Bool"@ && "String"@ != "Option"@,
        "Integer"@ != "Float"@ && "Integer"@ != "Bool"@ && "Integer"@ != "Option"@,
        "Float"@ != "Bool"@ && "Float"@ != "Option"@ && "Bool"@ != "Option"@,
        "Option("@ == "Option"@ + "("@,
        "("@.len() == 1 && "("@[0] == '(',
        ")"@.len() == 1 && ")"@[0] == ')',
        "["@.len() == 1 && "["@[0] == '[',
        "]"@.len() == 1 && "]"@[0] == ']',
        "{"@.len() == 1 && "{"@[0] == '{',
        "}"@.len() == 1 && "}"@[0] == '}',
        ": "@.len() == 2 && ": "@[0] == ':' && ": "@[1] == ' ',
        ", "@.len() == 2 && ", "@[0] == ',' && ", "@[1] == ' ',
        ",\n"@.len() == 2 && ",\n"@[0] == ',' && ",\n"@[1] == '\n',
        "(\n"@.len() == 2 && "(\n"@[0] == '(' && "(\n"@[1] == '\n',
        "  "@.len() == 2 && "  "@[0] == ' ' && "  "@[1] == ' ',
{
    reveal_strlit("String");
    reveal_strlit("Integer");
    reveal_strlit("Float");
    reveal_strlit("Bool");
    reveal_strlit("Option");
    reveal_strlit("Option(");
    reveal_strlit("(");
    reveal_strlit(")");
    reveal_strlit("[");
    reveal_strlit("]");
    reveal_strlit("{");
    reveal_strlit("}");
    reveal_strlit(": ");
    reveal_strlit(", ");
    reveal_strlit(",\n");
    reveal_strlit("(\n");
    reveal_strlit("  ");
    assert("Option("@ =~= "Option"@ + "("@);
    assert forall|k: int| 0 <= k < 6 implies name_char(#[trigger] "String"@[k]) by {
        if k == 0 {} else if k == 1 {} else if k == 2 {} else if k == 3 {} else if k == 4 {} else {}
    }
    assert forall|k: int| 0 <= k < 7 implies name_char(#[trigger] "Integer"@[k]) by {
        if k == 0 {} else if k == 1 {} else if k == 2 {} else if k == 3 {} else if k == 4 {} else if k == 5 {} else {}
    }
    assert forall|k: int| 0 <= k < 5 implies name_char(#[trigger] "Float"@[k]) by {
        if k == 0 {} else if k == 1 {} else if k == 2 {} else if k == 3 {} else {}
    }
    assert forall|k: int| 0 <= k < 4 implies name_char(#[trigger] "Bool"@[k]) by {
        if k == 0 {} else if k == 1 {} else if k == 2 {} else {}
    }
    assert forall|k: int| 0 <= k < 6 implies name_char(#[trigger] "Option"@[k]) by {
        if k == 0 {} else if k == 1 {} else if k == 2 {} else if k == 3 {} else if k == 4 {} else {}
    }
    assert("String"@[1] != "Option"@[1]);
}

proof fn lemma_indent(n: nat)
    ensures
        indent_text(n).len() == 2 * n,
        forall|k: int| 0 <= k < 2 * n ==> #[trigger] indent_text(n)[k] == ' ',
    decreases n,
{
    lemma_words();
    if n > 0 {
        lemma_indent((n - 1) as nat);
        let a = indent_text((n - 1) as nat);
        assert(indent_text(n) == a + "  "@);
        assert forall|k: int| 0 <= k < 2 * n implies #[trigger] indent_text(n)[k] == ' ' by {
            if k < 2 * (n - 1) {
                assert(indent_text(n)[k] == a[k]);
            } else {
                assert(indent_text(n)[k] == "  "@[k - 2 * (n - 1)]);
            }
        }
    }
}

/// The line of a field at indentation `m`.
pub open spec fn field_line(f: SpecFieldDef, m: nat) -> Seq<char> {
    indent_text(m + 1) + f.name.value + ": "@ + text_at_indent(f.type_.value, m + 1) + ",\n"@
}

proof fn lemma_fields_text_step(fs: Seq<SpecFieldDef>, j: int, m: nat)
    requires
        0 <= j < fs.len(),
        fs[j].default is None,
        fs[j].annotations.len() == 0,
    ensures
        fields_text(fs, j + 1, m) == fields_text(fs, j, m) + field_line(fs[j], m),
{
    let f = fs[j];
    assert(default_text(f.default) =~= Seq::<char>::empty());
    let at = annotations_text(f.annotations, f.annotations.len() as int, m);
    assert(at =~= Seq::<char>::empty());
    assert(field_text(f, m) =~= field_line(f, m));
}

/// A struct without cross-field constraints is written as its fields between parentheses.
proof fn lemma_struct_text_plain(sd: SpecStructDef, m: nat)
    requires
        sd.annotations.len() == 0,
    ensures
        struct_text(sd, m) == "(\n"@ + fields_text(sd.fields, sd.fields.len() as int, m) + indent_text(m) + ")"@,
{
    assert(requires_text(sd.annotations, 0, m) =~= Seq::<char>::empty());
    assert(struct_text(sd, m) =~= "(\n"@ + fields_text(sd.fields, sd.fields.len() as int, m) + indent_text(m) + ")"@);
}

proof fn lemma_fields_text_prefix(s: Seq<u8>, p: int, fs: Seq<SpecFieldDef>, j: int, n: int, m: nat)
    requires
        0 <= j <= n <= fs.len(),
        forall|q: int| 0 <= q < fs.len() ==> (#[trigger] fs[q]).default is None && fs[q].annotations.len() == 0,
        spells(s, p, fields_text(fs, n, m)),
    ensures
        spells(s, p, fields_text(fs, j, m)),
        j < n ==> spells(s, p + fields_text(fs, j, m).len(), field_line(fs[j], m)),
    decreases n - j,
{
    if j < n {
        lemma_fields_text_step(fs, n - 1, m);
        lemma_spells_concat(s, p, fields_text(fs, n - 1, m), field_line(fs[n - 1], m));
        lemma_fields_text_prefix(s, p, fs, j, n - 1, m);
        if j == n - 1 {
        } else {
        }
    }
}

proof fn lemma_fields_text_ends(fs: Seq<SpecFieldDef>, j: int, m: nat)
    requires
        0 < j <= fs.len(),
        fs[j - 1].default is None,
        fs[j - 1].annotations.len() == 0,
    ensures
        fields_text(fs, j, m).len() >= 2,
        fields_text(fs, j, m)[fields_text(fs, j, m).len() - 1] == '\n',
{
    lemma_words();
    lemma_fields_text_step(fs, j - 1, m);
    let line = field_line(fs[j - 1], m);
    assert(line[line.len() - 1] == '\n');
}

proof fn lemma_types_text_step(ts: Seq<SpecSchemaType>, j: int)
    requires
        1 <= j < ts.len(),
    ensures
        types_text(ts, j + 1) == types_text(ts, j) + ", "@ + type_text(ts[j]),
{
}

/// Where element `j` of a tuple's text starts, counted from the first element.
pub open spec fn elem_start(ts: Seq<SpecSchemaType>, j: int) -> int {
    if j == 0 {
        0
    } else {
        types_text(ts, j).len() + 2int
    }
}

proof fn lemma_types_text_prefix(s: Seq<u8>, p: int, ts: Seq<SpecSchemaType>, j: int, n: int)
    requires
        0 <= j < n <= ts.len(),
        spells(s, p, types_text(ts, n)),
    ensures
        spells(s, p + elem_start(ts, j), type_text(ts[j])),
        j > 0 ==> spells(s, p + types_text(ts, j).len(), ", "@),
        types_text(ts, j + 1).len() == elem_start(ts, j) + type_text(ts[j]).len(),
        j + 1 < n ==> types_text(ts, j + 1).len() < types_text(ts, n).len(),
    decreases n - j,
{
    if n == 1 {
    } else {
        lemma_types_text_step(ts, n - 1);
        lemma_spells_concat(s, p, types_text(ts, n - 1) + ", "@, type_text(ts[n - 1]));
        lemma_spells_concat(s, p, types_text(ts, n - 1), ", "@);
        if j < n - 1 {
            lemma_types_text_prefix(s, p, ts, j, n - 1);
        } else if j >= 1 {
            lemma_words();
        }
        lemma_words();
    }
}

// ===========================================================================
// Types read back
// ===========================================================================

/// A byte that may follow a type's text: `,`, `)`, `]`, `}` or `:`.
pub open spec fn closer(b: u8) -> bool {
    b == 0x2c || b == 0x29 || b == 0x5d || b == 0x7d || b == 0x3a
}

/// The first character of a letter, `[`, `{` or `(`.
pub open spec fn head_char(c: char) -> bool {
    ('a' <= c && c <= 'z') || ('A' <= c && c <= 'Z') || c == '[' || c == '{' || c == '('
}

proof fn lemma_text_head(t: SpecSchemaType, m: nat)
    requires
        writable_type(t),
    ensures
        text_at_indent(t, m).len() > 0,
        head_char(text_at_indent(t, m)[0]),
        type_text(t) == text_at_indent(t, 0),
{
    lemma_words();
    match t {
        SpecSchemaType::Option(b) => {
            assert(text_at_indent(t, m) == "Option("@ + type_text(*b) + ")"@);
            assert(text_at_indent(t, m)[0] == "Option("@[0]);
            assert("Option("@[0] == "Option"@[0]);
        },
        SpecSchemaType::List(b) => {
            assert(text_at_indent(t, m)[0] == "["@[0]);
        },
        SpecSchemaType::Dict(k, v) => {
            assert(text_at_indent(t, m)[0] == "{"@[0]);
        },
        SpecSchemaType::Tuple(ts) => {
            assert(text_at_indent(t, m)[0] == "("@[0]);
        },
        SpecSchemaType::Struct(sd) => {
            assert(text_at_indent(t, m)[0] == "(\n"@[0]);
        },
        _ => {},
    }
}

/// The byte of a head character is neither whitespace, nor `/`, `)`, `@` or `:`.
proof fn lemma_head_byte(b: u8, c: char)
    requires
        b as char == c,
        head_char(c),
    ensures
        !is_ws(b),
        b != 0x2f && b != 0x29 && b != 0x40 && b != 0x3a && b != 0x3d,
{
}

/// The first element of a tuple never reads as the first field of a struct.
proof fn lemma_head_not_field(s: Seq<u8>, p: int, t: SpecSchemaType)
    requires
        writable_type(t),
        spells(s, p, type_text(t)),
        p + type_text(t).len() < s.len(),
        s[p + type_text(t).len()] == 0x2c || s[p + type_text(t).len()] == 0x29,
    ensures
        match identifier_at(s, p) {
            Ok((_, e)) => !(skip_ws(s, e) < s.len() && s[skip_ws(s, e)] == 0x3a),
            Err(_) => true,
        },
{
    lemma_words();
    lemma_text_head(t, 0);
    let text = type_text(t);
    lemma_spells_at(s, p, text, 0);
    match t {
        SpecSchemaType::Option(b) => {
            lemma_spells_concat(s, p, "Option("@ + type_text(*b), ")"@);
            lemma_spells_concat(s, p, "Option("@, type_text(*b));
            lemma_spells_concat(s, p, "Option"@, "("@);
            lemma_spells_at(s, p + 6, "("@, 0);
            lemma_ident(s, p, "Option"@);
            lemma_skip_blank(s, p + 6, 0);
        },
        SpecSchemaType::String | SpecSchemaType::Integer | SpecSchemaType::Float | SpecSchemaType::Bool
        | SpecSchemaType::EnumRef(_) | SpecSchemaType::AliasRef(_) => {
            lemma_ident(s, p, text);
            lemma_skip_blank(s, p + text.len(), 0);
        },
        _ => {},
    }
}

/// What reading a type back at offset `i` must give: a result ending at `e`, a key type for a
/// key type, the references it had, and a struct without defaults.
pub open spec fn reads_back(s: Seq<u8>, i: int, t: SpecSchemaType, e: int, enums: Seq<SpecEnumDef>) -> bool {
    &&& type_at(s, i) is Ok
    &&& type_at(s, i)->Ok_0.1 == e
    &&& key_ok(t) ==> is_key_type(type_at(s, i)->Ok_0.0.value)
    &&& names_defined(t, enums) ==> refs_resolve(type_at(s, i)->Ok_0.0.value, enums)
    &&& type_free(type_at(s, i)->Ok_0.0.value)
}

/// What a type written at offset `i` and followed by a closing byte needs to read back.
pub open spec fn written_at(s: Seq<u8>, i: int, t: SpecSchemaType, m: nat) -> bool {
    &&& writable_type(t)
    &&& spells(s, i, text_at_indent(t, m))
    &&& i + text_at_indent(t, m).len() < s.len()
    &&& closer(s[i + text_at_indent(t, m).len()])
}

/// A type written at offset `i` and followed by a closing byte reads back, ending where its
/// text ends.
proof fn lemma_type(s: Seq<u8>, i: int, t: SpecSchemaType, m: nat, enums: Seq<SpecEnumDef>)
    requires
        written_at(s, i, t, m),
    ensures
        reads_back(s, i, t, i + text_at_indent(t, m).len(), enums),
    decreases t, 2int, 0int,
{
    match t {
        SpecSchemaType::Option(_) => lemma_type_option(s, i, t, m, enums),
        SpecSchemaType::List(_) => lemma_type_list(s, i, t, m, enums),
        SpecSchemaType::Dict(_, _) => lemma_type_dict(s, i, t, m, enums),
        SpecSchemaType::Tuple(_) => lemma_type_tuple(s, i, t, m, enums),
        SpecSchemaType::Struct(_) => lemma_type_struct(s, i, t, m, enums),
        _ => lemma_type_named(s, i, t, m, enums),
    }
}

proof fn lemma_type_named(s: Seq<u8>, i: int, t: SpecSchemaType, m: nat, enums: Seq<SpecEnumDef>)
    requires
        written_at(s, i, t, m),
        t is String || t is Integer || t is Float || t is Bool || t is EnumRef || t is AliasRef,
    ensures
        reads_back(s, i, t, i + text_at_indent(t, m).len(), enums),
{
    lemma_words();
    lemma_text_head(t, m);
    let text = text_at_indent(t, m);
    lemma_spells_at(s, i, text, 0);
    lemma_head_byte(s[i], text[0]);
    lemma_skip_blank(s, i, 0);
    lemma_ident(s, i, text);
    assert(is_alpha(s[i]));
    assert(type_at(s, i) == named_type_at(s, i));
}

proof fn lemma_type_option(s: Seq<u8>, i: int, t: SpecSchemaType, m: nat, enums: Seq<SpecEnumDef>)
    requires
        written_at(s, i, t, m),
        t is Option,
    ensures
        reads_back(s, i, t, i + text_at_indent(t, m).len(), enums),
    decreases t, 1int, 0int,
{
    lemma_words();
    let b = *t->Option_0;
    let tb = type_text(b);
    lemma_text_head(t, m);
    lemma_text_head(b, 0);
    lemma_spells_at(s, i, text_at_indent(t, m), 0);
    lemma_head_byte(s[i], text_at_indent(t, m)[0]);
    lemma_skip_blank(s, i, 0);
    lemma_spells_concat(s, i, "Option("@ + tb, ")"@);
    lemma_spells_concat(s, i, "Option("@, tb);
    lemma_spells_concat(s, i, "Option"@, "("@);
    lemma_spells_at(s, i + 6, "("@, 0);
    lemma_spells_at(s, i + 7 + tb.len(), ")"@, 0);
    lemma_ident(s, i, "Option"@);
    assert(is_alpha(s[i]));
    lemma_skip_blank(s, i + 6, 0);
    lemma_spells_at(s, i + 7, tb, 0);
    lemma_head_byte(s[i + 7], tb[0]);
    lemma_skip_blank(s, i + 7, 0);
    lemma_type(s, i + 7, b, 0, enums);
    lemma_skip_blank(s, i + 7 + tb.len(), 0);
    assert(sexpect(s, i + 6, 0x28) == Ok::<int, crate::error::SpecSchemaParseError>(i + 7));
    assert(sexpect(s, i + 7 + tb.len(), 0x29) == Ok::<int, crate::error::SpecSchemaParseError>(i + 8 + tb.len()));
    assert(option_type_at(s, i, i + 6) is Ok);
    assert(named_type_at(s, i) == option_type_at(s, i, i + 6));
    assert(type_at(s, i) == named_type_at(s, i));
    let inner = type_at(s, i + 7)->Ok_0.0.value;
    assert(type_at(s, i)->Ok_0.0.value == SpecSchemaType::Option(Box::new(inner)));
    if names_defined(t, enums) {
        assert forall|sp: Span| #[trigger] type_refs(SpecSchemaType::Option(Box::new(inner)), sp, enums, Seq::empty()) is None by {
            assert(type_refs(inner, sp, enums, Seq::empty()) is None);
        }
    }
}

proof fn lemma_type_list(s: Seq<u8>, i: int, t: SpecSchemaType, m: nat, enums: Seq<SpecEnumDef>)
    requires
        written_at(s, i, t, m),
        t is List,
    ensures
        reads_back(s, i, t, i + text_at_indent(t, m).len(), enums),
    decreases t, 1int, 0int,
{
    lemma_words();
    let b = *t->List_0;
    let tb = type_text(b);
    lemma_text_head(b, 0);
    lemma_spells_concat(s, i, "["@ + tb, "]"@);
    lemma_spells_concat(s, i, "["@, tb);
    lemma_spells_at(s, i, "["@, 0);
    lemma_skip_blank(s, i, 0);
    lemma_spells_at(s, i + 1 + tb.len(), "]"@, 0);
    lemma_spells_at(s, i + 1, tb, 0);
    lemma_head_byte(s[i + 1], tb[0]);
    lemma_skip_blank(s, i + 1, 0);
    lemma_type(s, i + 1, b, 0, enums);
    lemma_skip_blank(s, i + 1 + tb.len(), 0);
    assert(type_at(s, i) == list_type_at(s, i));
    let inner = type_at(s, i + 1)->Ok_0.0.value;
    assert(type_at(s, i)->Ok_0.0.value == SpecSchemaType::List(Box::new(inner)));
    if names_defined(t, enums) {
        assert forall|sp: Span| #[trigger] type_refs(SpecSchemaType::List(Box::new(inner)), sp, enums, Seq::empty()) is None by {
            assert(type_refs(inner, sp, enums, Seq::empty()) is None);
        }
    }
}

proof fn lemma_type_dict(s: Seq<u8>, i: int, t: SpecSchemaType, m: nat, enums: Seq<SpecEnumDef>)
    requires
        written_at(s, i, t, m),
        t is Dict,
    ensures
        reads_back(s, i, t, i + text_at_indent(t, m).len(), enums),
    decreases t, 1int, 0int,
{
    lemma_words();
    let k = *t->Dict_0;
    let v = *t->Dict_1;
    let tk = type_text(k);
    let tv = type_text(v);
    lemma_text_head(k, 0);
    lemma_text_head(v, 0);
    lemma_spells_concat(s, i, "{"@ + tk + ": "@ + tv, "}"@);
    lemma_spells_concat(s, i, "{"@ + tk + ": "@, tv);
    lemma_spells_concat(s, i, "{"@ + tk, ": "@);
    lemma_spells_concat(s, i, "{"@, tk);
    lemma_spells_at(s, i, "{"@, 0);
    lemma_skip_blank(s, i, 0);
    let ke = i + 1 + tk.len();
    lemma_spells_at(s, ke, ": "@, 0);
    lemma_spells_at(s, ke, ": "@, 1);
    lemma_spells_at(s, ke + 2 + tv.len(), "}"@, 0);
    lemma_spells_at(s, i + 1, tk, 0);
    lemma_head_byte(s[i + 1], tk[0]);
    lemma_spells_at(s, ke + 2, tv, 0);
    lemma_head_byte(s[ke + 2], tv[0]);
    lemma_skip_blank(s, i + 1, 0);
    lemma_type(s, i + 1, k, 0, enums);
    lemma_skip_blank(s, ke, 0);
    lemma_skip_blank(s, ke + 1, 1);
    lemma_type(s, ke + 2, v, 0, enums);
    lemma_skip_blank(s, ke + 2 + tv.len(), 0);
    assert(type_at(s, i) == dict_type_at(s, i));
    let kv = type_at(s, i + 1)->Ok_0.0.value;
    let vv = type_at(s, ke + 2)->Ok_0.0.value;
    assert(type_at(s, i)->Ok_0.0.value == SpecSchemaType::Dict(Box::new(kv), Box::new(vv)));
    if names_defined(t, enums) {
        assert forall|sp: Span| #[trigger] type_refs(SpecSchemaType::Dict(Box::new(kv), Box::new(vv)), sp, enums, Seq::empty()) is None by {
            assert(type_refs(kv, sp, enums, Seq::empty()) is None);
            assert(type_refs(vv, sp, enums, Seq::empty()) is None);
        }
    }
}

proof fn lemma_type_tuple(s: Seq<u8>, i: int, t: SpecSchemaType, m: nat, enums: Seq<SpecEnumDef>)
    requires
        written_at(s, i, t, m),
        t is Tuple,
    ensures
        reads_back(s, i, t, i + text_at_indent(t, m).len(), enums),
    decreases t, 1int, t->Tuple_0.len() + 1,
{
    lemma_words();
    let ts = t->Tuple_0;
    let tt = types_text(ts, ts.len() as int);
    lemma_spells_concat(s, i, "("@ + tt, ")"@);
    lemma_spells_concat(s, i, "("@, tt);
    lemma_spells_at(s, i, "("@, 0);
    lemma_skip_blank(s, i, 0);
    lemma_spells_at(s, i + 1 + tt.len(), ")"@, 0);
    if ts.len() == 0 {
        assert(tt.len() == 0);
        lemma_skip_blank(s, i + 1, 0);
        assert(paren_is_struct(s, i));
        lemma_items_end(s, i + 1, Seq::empty());
        assert(struct_at(s, i) is Ok);
        let sd0 = struct_at(s, i)->Ok_0.0;
        assert(sd0.fields.len() == 0);
        assert(defaults_free(sd0));
        assert(type_at(s, i)->Ok_0.0.value == SpecSchemaType::Struct(sd0));
        assert(type_free(SpecSchemaType::Struct(sd0)));
        assert(fields_refs(sd0.fields, 0, enums, Seq::empty()) is None);
        assert forall|sp: Span| #[trigger] type_refs(SpecSchemaType::Struct(sd0), sp, enums, Seq::empty()) is None by {
            assert(type_refs(SpecSchemaType::Struct(sd0), sp, enums, Seq::empty()) == fields_refs(sd0.fields, 0, enums, Seq::empty()));
        }
    } else {
        lemma_types_text_prefix(s, i + 1, ts, 0, ts.len() as int);
        assert(writable_type(ts[0]));
        lemma_text_head(ts[0], 0);
        if ts.len() > 1 {
            lemma_types_text_prefix(s, i + 1, ts, 1, ts.len() as int);
            lemma_spells_at(s, i + 1 + types_text(ts, 1).len(), ", "@, 0);
        }
        lemma_head_not_field(s, i + 1, ts[0]);
        lemma_spells_at(s, i + 1, type_text(ts[0]), 0);
        lemma_head_byte(s[i + 1], type_text(ts[0])[0]);
        lemma_skip_blank(s, i + 1, 0);
        assert(!paren_is_struct(s, i));
        lemma_elems(s, i + 1, t, 0, i + 1, enums);
        assert(tuple_type_at(s, i) == tuple_types(s, i + 1));
        assert(type_at(s, i) is Ok);
        let v = type_at(s, i)->Ok_0.0.value;
        let ts2 = tuple_types(s, i + 1)->Ok_0.0;
        assert(v == SpecSchemaType::Tuple(ts2));
        assert forall|j: int| 0 <= j < ts2.len() implies type_free(#[trigger] ts2[j]) by {
            assert(type_free(tuple_types(s, i + 1)->Ok_0.0[j]));
        }
        assert(type_free(v));
        if names_defined(t, enums) {
            assert forall|sp: Span| #[trigger] type_refs(v, sp, enums, Seq::empty()) is None by {
                assert forall|j: int| 0 <= j < ts2.len() implies refs_resolve(#[trigger] ts2[j], enums) by {
                    assert(names_defined(ts[j], enums));
                    assert(ts[0 + j] == ts[j]);
                    assert(refs_resolve(tuple_types(s, i + 1)->Ok_0.0[j], enums));
                }
                lemma_types_refs_none(ts2, 0, sp, enums);
            }
        }
    }
}

proof fn lemma_type_struct(s: Seq<u8>, i: int, t: SpecSchemaType, m: nat, enums: Seq<SpecEnumDef>)
    requires
        written_at(s, i, t, m),
        t is Struct,
    ensures
        reads_back(s, i, t, i + text_at_indent(t, m).len(), enums),
    decreases t, 1int, 0int,
{
    lemma_words();
    let sd = t->Struct_0;
    assert(writable_struct(sd));
    lemma_struct_text_plain(sd, m);
    lemma_spells_concat(s, i, "(\n"@, fields_text(sd.fields, sd.fields.len() as int, m) + indent_text(m) + ")"@);
    assert(struct_text(sd, m) == "(\n"@ + (fields_text(sd.fields, sd.fields.len() as int, m) + indent_text(m) + ")"@));
    lemma_spells_at(s, i, "(\n"@, 0);
    lemma_skip_blank(s, i, 0);
    lemma_struct(s, i, sd, m, enums);
    assert(type_at(s, i) is Ok);
    let v = type_at(s, i)->Ok_0.0.value;
    assert(v == SpecSchemaType::Struct(struct_at(s, i)->Ok_0.0));
    assert forall|sp: Span| #[trigger] type_refs(v, sp, enums, Seq::empty()) == fields_refs(
        v->Struct_0.fields,
        0,
        enums,
        Seq::empty(),
    ) by {}
}

/// The elements of a tuple written from offset `p` read back, from element `j` on.
proof fn lemma_elems(s: Seq<u8>, p: int, t: SpecSchemaType, j: int, pos: int, enums: Seq<SpecEnumDef>)
    requires
        t is Tuple,
        writable_type(t),
        0 <= j < t->Tuple_0.len(),
        pos == if j == 0 { p } else { p + types_text(t->Tuple_0, j).len() + 1 },
        spells(s, p, types_text(t->Tuple_0, t->Tuple_0.len() as int)),
        p + types_text(t->Tuple_0, t->Tuple_0.len() as int).len() < s.len(),
        s[p + types_text(t->Tuple_0, t->Tuple_0.len() as int).len()] == 0x29,
    ensures
        tuple_types(s, pos) is Ok,
        tuple_types(s, pos)->Ok_0.1 == p + types_text(t->Tuple_0, t->Tuple_0.len() as int).len() + 1,
        tuple_types(s, pos)->Ok_0.0.len() == t->Tuple_0.len() - j,
        forall|k: int|
            0 <= k < t->Tuple_0.len() - j && names_defined(t->Tuple_0[j + k], enums) ==> refs_resolve(
                #[trigger] tuple_types(s, pos)->Ok_0.0[k],
                enums,
            ),
        forall|k: int| 0 <= k < t->Tuple_0.len() - j ==> type_free(#[trigger] tuple_types(s, pos)->Ok_0.0[k]),
    decreases t, 1int, t->Tuple_0.len() - j,
{
    lemma_words();
    let ts = t->Tuple_0;
    let n = ts.len() as int;
    lemma_types_text_prefix(s, p, ts, j, n);
    assert(writable_type(ts[j]));
    lemma_text_head(ts[j], 0);
    let start = p + elem_start(ts, j);
    lemma_spells_at(s, start, type_text(ts[j]), 0);
    lemma_head_byte(s[start], type_text(ts[j])[0]);
    if j == 0 {
        lemma_skip_blank(s, p, 0);
    } else {
        lemma_spells_at(s, p + types_text(ts, j).len(), ", "@, 1);
        lemma_skip_blank(s, pos, 1);
    }
    let te = p + types_text(ts, j + 1).len();
    if j + 1 < n {
        lemma_types_text_prefix(s, p, ts, j + 1, n);
        lemma_spells_at(s, te, ", "@, 0);
    }
    lemma_type(s, start, ts[j], 0, enums);
    lemma_skip_blank(s, te, 0);
    if j + 1 < n {
        lemma_elems(s, p, t, j + 1, te + 1, enums);
        let rest = tuple_types(s, te + 1)->Ok_0.0;
        let here = type_at(s, start)->Ok_0.0.value;
        assert(tuple_types(s, pos)->Ok_0.0 == seq![here] + rest);
        assert forall|k: int|
            0 <= k < n - j && names_defined(ts[j + k], enums) implies refs_resolve(
                #[trigger] tuple_types(s, pos)->Ok_0.0[k],
                enums,
            ) by {
            if k > 0 {
                assert(tuple_types(s, pos)->Ok_0.0[k] == rest[k - 1]);
                assert(ts[(j + 1) + (k - 1)] == ts[j + k]);
            } else {
                assert(tuple_types(s, pos)->Ok_0.0[0] == here);
                assert(ts[j + 0] == ts[j]);
            }
        }
        assert forall|k: int| 0 <= k < n - j implies type_free(#[trigger] tuple_types(s, pos)->Ok_0.0[k]) by {
            if k > 0 {
                assert(tuple_types(s, pos)->Ok_0.0[k] == rest[k - 1]);
            } else {
                assert(tuple_types(s, pos)->Ok_0.0[0] == here);
            }
        }
    } else {
        assert(tuple_types(s, te) == Ok::<(Seq<SpecSchemaType>, int), crate::error::SpecSchemaParseError>((Seq::empty(), te + 1)));
        let here = type_at(s, start)->Ok_0.0.value;
        assert(tuple_types(s, pos)->Ok_0.0 =~= seq![here]);
    }
}

/// A struct written at offset `i` at indentation `m` reads back, without defaults, with the
/// references it had.
proof fn lemma_struct(s: Seq<u8>, i: int, sd: SpecStructDef, m: nat, enums: Seq<SpecEnumDef>)
    requires
        writable_struct(sd),
        spells(s, i, struct_text(sd, m)),
    ensures
        paren_is_struct(s, i),
        struct_at(s, i) is Ok,
        struct_at(s, i)->Ok_0.1 == i + struct_text(sd, m).len(),
        defaults_free(struct_at(s, i)->Ok_0.0),
        struct_names_defined(sd, enums) ==> fields_refs(struct_at(s, i)->Ok_0.0.fields, 0, enums, Seq::empty()) is None,
    decreases sd, 1int, 0int,
{
    lemma_words();
    let n = sd.fields.len() as int;
    let ft = fields_text(sd.fields, n, m);
    lemma_indent(m);
    lemma_indent(m + 1);
    lemma_struct_text_plain(sd, m);
    lemma_spells_concat(s, i, "(\n"@ + ft + indent_text(m), ")"@);
    lemma_spells_concat(s, i, "(\n"@ + ft, indent_text(m));
    lemma_spells_concat(s, i, "(\n"@, ft);
    lemma_spells_at(s, i, "(\n"@, 0);
    lemma_spells_at(s, i, "(\n"@, 1);
    lemma_skip_blank(s, i, 0);
    // paren_is_struct
    if n == 0 {
        assert forall|k: int| i + 2 <= k < i + 2 + 2 * m implies is_ws(#[trigger] s[k]) by {
            lemma_spells_at(s, i + 2, indent_text(m), k - i - 2);
        }
        lemma_spells_at(s, i + 2 + 2 * m, ")"@, 0);
        lemma_skip_blank(s, i + 1, (1 + 2 * m) as int);
    } else {
        lemma_fields_text_prefix(s, i + 2, sd.fields, 0, n, m);
        let f = sd.fields[0];
        let line = field_line(f, m);
        assert(ident_name(f.name.value) && writable_type(f.type_.value));
        lemma_spells_concat(s, i + 2, indent_text(m + 1) + f.name.value + ": "@ + text_at_indent(f.type_.value, m + 1), ",\n"@);
        lemma_spells_concat(s, i + 2, indent_text(m + 1) + f.name.value + ": "@, text_at_indent(f.type_.value, m + 1));
        lemma_spells_concat(s, i + 2, indent_text(m + 1) + f.name.value, ": "@);
        lemma_spells_concat(s, i + 2, indent_text(m + 1), f.name.value);
        let w = i + 2 + 2 * (m + 1);
        assert forall|k: int| i + 2 <= k < w implies is_ws(#[trigger] s[k]) by {
            lemma_spells_at(s, i + 2, indent_text(m + 1), k - i - 2);
        }
        lemma_spells_at(s, w, f.name.value, 0);
        lemma_skip_blank(s, i + 1, (1 + 2 * (m + 1)) as int);
        lemma_spells_at(s, w + f.name.value.len(), ": "@, 0);
        lemma_ident(s, w, f.name.value);
        lemma_skip_blank(s, w + f.name.value.len(), 0);
    }
    lemma_items(s, i, sd, m, enums, 0);
    let fs2 = struct_items(s, i + 1, Seq::empty())->Ok_0.0;
    assert forall|a: int, b: int| 0 <= a < b < fs2.len() implies (#[trigger] fs2[a]).name.value != (#[trigger] fs2[b]).name.value by {
        assert(fs2[a].name.value == sd.fields[0 + a].name.value);
        assert(fs2[b].name.value == sd.fields[0 + b].name.value);
    }
    lemma_no_repeat(fs2, 0);
    assert(struct_at(s, i) == struct_of(struct_items(s, i + 1, Seq::empty())));
    if struct_names_defined(sd, enums) {
        assert forall|j: int| 0 <= j < fs2.len() implies refs_resolve((#[trigger] fs2[j]).type_.value, enums) by {
            assert(names_defined(sd.fields[0 + j].type_.value, enums));
        }
        lemma_fields_refs_none(fs2, 0, enums);
    }
}

/// The line of field `j` of a struct, written after the newline at offset `c`, reads back as
/// a field without a default, its type as the field's type reads back.
#[verifier::spinoff_prover]
#[verifier::rlimit(40)]
proof fn lemma_field_line(s: Seq<u8>, c: int, sd: SpecStructDef, j: int, m: nat, enums: Seq<SpecEnumDef>)
    requires
        writable_struct(sd),
        0 <= j < sd.fields.len(),
        0 <= c,
        c < s.len(),
        s[c] == 0x0a,
        spells(s, c + 1, field_line(sd.fields[j], m)),
    ensures
        ({
            let f = sd.fields[j];
            let tt = text_at_indent(f.type_.value, m + 1);
            let w = c + 1 + 2 * (m + 1);
            let ne = w + f.name.value.len();
            let te = ne + 2 + tt.len();
            &&& skip_ws(s, c) == w
            &&& w < s.len() && s[w] != 0x40 && s[w] != 0x29
            &&& te + 1 == c + field_line(f, m).len()
            &&& te < s.len() && s[te] == 0x2c && skip_ws(s, te) == te
            &&& reads_back(s, ne + 2, f.type_.value, te, enums)
            &&& field_at(s, w, Seq::empty()) == Ok::<(SpecFieldDef, int), crate::error::SpecSchemaParseError>((
                SpecFieldDef {
                    name: Spanned { value: f.name.value, span: span_of(s, w, ne) },
                    type_: type_at(s, ne + 2)->Ok_0.0,
                    default: None,
                    annotations: Seq::empty(),
                },
                te,
            ))
        }),
    decreases sd, 0int, 0int,
{
    lemma_words();
    lemma_indent(m + 1);
    let f = sd.fields[j];
    let tt = text_at_indent(f.type_.value, m + 1);
    assert(ident_name(f.name.value) && writable_type(f.type_.value));
    let l0 = c + 1;
    lemma_spells_concat(s, l0, indent_text(m + 1) + f.name.value + ": "@ + tt, ",\n"@);
    lemma_spells_concat(s, l0, indent_text(m + 1) + f.name.value + ": "@, tt);
    lemma_spells_concat(s, l0, indent_text(m + 1) + f.name.value, ": "@);
    lemma_spells_concat(s, l0, indent_text(m + 1), f.name.value);
    let w = l0 + 2 * (m + 1);
    let ne = w + f.name.value.len();
    let te = ne + 2 + tt.len();
    assert forall|k: int| c <= k < w implies is_ws(#[trigger] s[k]) by {
        if k > c {
            lemma_spells_at(s, l0, indent_text(m + 1), k - l0);
        }
    }
    lemma_spells_at(s, w, f.name.value, 0);
    assert(name_char(f.name.value[0]));
    lemma_skip_blank(s, c, (1 + 2 * (m + 1)) as int);
    lemma_skip_blank(s, w, 0);
    lemma_spells_at(s, ne, ": "@, 0);
    lemma_spells_at(s, ne, ": "@, 1);
    lemma_ident(s, w, f.name.value);
    lemma_skip_blank(s, ne, 0);
    lemma_text_head(f.type_.value, m + 1);
    lemma_spells_at(s, ne + 2, tt, 0);
    lemma_head_byte(s[ne + 2], tt[0]);
    lemma_skip_blank(s, ne + 1, 1);
    lemma_spells_at(s, te, ",\n"@, 0);
    lemma_spells_at(s, te, ",\n"@, 1);
    lemma_type(s, ne + 2, f.type_.value, m + 1, enums);
    lemma_skip_blank(s, te, 0);
    assert(sexpect(s, ne, 0x3a) == Ok::<int, crate::error::SpecSchemaParseError>(ne + 1));
    assert(field_default(s, te, Spanned { value: f.name.value, span: span_of(s, w, ne) }, type_at(s, ne + 2)->Ok_0.0, Seq::empty())
        == Ok::<(SpecFieldDef, int), crate::error::SpecSchemaParseError>((
            SpecFieldDef {
                name: Spanned { value: f.name.value, span: span_of(s, w, ne) },
                type_: type_at(s, ne + 2)->Ok_0.0,
                default: None,
                annotations: Seq::empty(),
            },
            te,
        )));
}

/// Where the items of a struct from field `j` on begin: the newline before the field's line,
/// or before the closing parenthesis.
proof fn lemma_items_setup(s: Seq<u8>, i: int, sd: SpecStructDef, m: nat, j: int)
    requires
        writable_struct(sd),
        spells(s, i, struct_text(sd, m)),
        0 <= j <= sd.fields.len(),
    ensures
        ({
            let c = i + 1 + fields_text(sd.fields, j, m).len();
            &&& 0 <= c < s.len()
            &&& s[c] == 0x0a
            &&& j < sd.fields.len() ==> spells(s, c + 1, field_line(sd.fields[j], m))
            &&& j == sd.fields.len() ==> struct_items(s, c, Seq::empty()) == Ok::<
                (Seq<SpecFieldDef>, Seq<Spanned<crate::schema::SpecRequire>>, int),
                crate::error::SpecSchemaParseError,
            >((Seq::empty(), Seq::empty(), i + struct_text(sd, m).len()))
        }),
{
    lemma_words();
    let n = sd.fields.len() as int;
    let ft = fields_text(sd.fields, n, m);
    let c = i + 1 + fields_text(sd.fields, j, m).len();
    lemma_indent(m);
    lemma_struct_text_plain(sd, m);
    lemma_spells_concat(s, i, "(\n"@ + ft + indent_text(m), ")"@);
    lemma_spells_concat(s, i, "(\n"@ + ft, indent_text(m));
    lemma_spells_concat(s, i, "(\n"@, ft);
    lemma_fields_text_prefix(s, i + 2, sd.fields, j, n, m);
    if j == 0 {
        lemma_spells_at(s, i, "(\n"@, 1);
    } else {
        lemma_fields_text_ends(sd.fields, j, m);
        lemma_spells_at(s, i + 2, fields_text(sd.fields, j, m), fields_text(sd.fields, j, m).len() - 1);
    }
    if j == n {
        assert forall|k: int| c <= k < c + 1 + 2 * m implies is_ws(#[trigger] s[k]) by {
            if k > c {
                lemma_spells_at(s, i + 2 + ft.len(), indent_text(m), k - c - 1);
            }
        }
        lemma_spells_at(s, i + 2 + ft.len() + 2 * m, ")"@, 0);
        lemma_skip_blank(s, c, (1 + 2 * m) as int);
        lemma_items_end(s, c, Seq::empty());
    }
}

/// What the items of a struct read back from field `j` on must be.
pub open spec fn items_read(
    r: Result<(Seq<SpecFieldDef>, Seq<Spanned<crate::schema::SpecRequire>>, int), crate::error::SpecSchemaParseError>,
    sd: SpecStructDef,
    j: int,
    end: int,
    enums: Seq<SpecEnumDef>,
) -> bool {
    &&& r is Ok
    &&& r->Ok_0.1 == Seq::<Spanned<crate::schema::SpecRequire>>::empty()
    &&& r->Ok_0.2 == end
    &&& r->Ok_0.0.len() == sd.fields.len() - j
    &&& forall|k: int|
        0 <= k < r->Ok_0.0.len() ==> (#[trigger] r->Ok_0.0[k]).default is None && type_free(r->Ok_0.0[k].type_.value)
    &&& forall|k: int|
        0 <= k < r->Ok_0.0.len() && names_defined(sd.fields[j + k].type_.value, enums) ==> refs_resolve(
            (#[trigger] r->Ok_0.0[k]).type_.value,
            enums,
        )
    &&& forall|k: int| 0 <= k < r->Ok_0.0.len() ==> (#[trigger] r->Ok_0.0[k]).name.value == sd.fields[j + k].name.value
}

proof fn lemma_items_cons(
    f2: SpecFieldDef,
    rest: Result<(Seq<SpecFieldDef>, Seq<Spanned<crate::schema::SpecRequire>>, int), crate::error::SpecSchemaParseError>,
    sd: SpecStructDef,
    j: int,
    end: int,
    enums: Seq<SpecEnumDef>,
)
    requires
        0 <= j < sd.fields.len(),
        items_read(rest, sd, j + 1, end, enums),
        f2.default is None,
        type_free(f2.type_.value),
        names_defined(sd.fields[j].type_.value, enums) ==> refs_resolve(f2.type_.value, enums),
        f2.name.value == sd.fields[j].name.value,
    ensures
        items_read(items_after(seq![f2], Seq::empty(), rest), sd, j, end, enums),
{
    let r = items_after(seq![f2], Seq::empty(), rest);
    assert(r->Ok_0.0 == seq![f2] + rest->Ok_0.0);
    assert(r->Ok_0.1 =~= Seq::<Spanned<crate::schema::SpecRequire>>::empty());
    assert forall|k: int|
        0 <= k < r->Ok_0.0.len() implies (#[trigger] r->Ok_0.0[k]).default is None && type_free(r->Ok_0.0[k].type_.value) by {
        if k > 0 {
            assert(r->Ok_0.0[k] == rest->Ok_0.0[k - 1]);
        } else {
            assert(r->Ok_0.0[0] == f2);
        }
    }
    assert forall|k: int|
        0 <= k < r->Ok_0.0.len() && names_defined(sd.fields[j + k].type_.value, enums) implies refs_resolve(
            (#[trigger] r->Ok_0.0[k]).type_.value,
            enums,
        ) by {
        if k > 0 {
            assert(r->Ok_0.0[k] == rest->Ok_0.0[k - 1]);
            assert(sd.fields[(j + 1) + (k - 1)] == sd.fields[j + k]);
        } else {
            assert(r->Ok_0.0[0] == f2);
            assert(sd.fields[j + 0] == sd.fields[j]);
        }
    }
    assert forall|k: int| 0 <= k < r->Ok_0.0.len() implies (#[trigger] r->Ok_0.0[k]).name.value == sd.fields[j + k].name.value by {
        if k > 0 {
            assert(r->Ok_0.0[k] == rest->Ok_0.0[k - 1]);
            assert(sd.fields[(j + 1) + (k - 1)] == sd.fields[j + k]);
        } else {
            assert(r->Ok_0.0[0] == f2);
            assert(sd.fields[j + 0] == sd.fields[j]);
        }
    }
}

/// Fields whose names are all different repeat no name.
proof fn lemma_no_repeat(fs: Seq<SpecFieldDef>, k: int)
    requires
        0 <= k,
        forall|a: int, b: int| 0 <= a < b < fs.len() ==> (#[trigger] fs[a]).name.value != (#[trigger] fs[b]).name.value,
    ensures
        field_repeated_at(fs, k) == -1,
    decreases fs.len() - k,
{
    if k < fs.len() {
        assert(!field_named_before(fs, k));
        lemma_no_repeat(fs, k + 1);
    }
}

/// The items of a struct written at offset `i` read back from field `j` on: the struct's
/// remaining fields, without defaults, with the references they had.
proof fn lemma_items(s: Seq<u8>, i: int, sd: SpecStructDef, m: nat, enums: Seq<SpecEnumDef>, j: int)
    requires
        writable_struct(sd),
        spells(s, i, struct_text(sd, m)),
        0 <= j <= sd.fields.len(),
    ensures
        items_read(
            struct_items(s, i + 1 + fields_text(sd.fields, j, m).len(), Seq::empty()),
            sd,
            j,
            i + struct_text(sd, m).len(),
            enums,
        ),
    decreases sd, 0int, sd.fields.len() - j + 1,
{
    let c = i + 1 + fields_text(sd.fields, j, m).len();
    lemma_items_setup(s, i, sd, m, j);
    if j < sd.fields.len() {
        lemma_field_line(s, c, sd, j, m, enums);
        let f = sd.fields[j];
        let tt = text_at_indent(f.type_.value, m + 1);
        let w = c + 1 + 2 * (m + 1);
        let ne = w + f.name.value.len();
        let te = ne + 2 + tt.len();
        lemma_items_field(s, c, Seq::empty());
        lemma_fields_text_step(sd.fields, j, m);
        lemma_items(s, i, sd, m, enums, j + 1);
        let f2 = field_at(s, w, Seq::empty())->Ok_0.0;
        let rest = struct_items(s, te + 1, Seq::empty());
        assert(struct_items(s, c, Seq::empty()) == items_after(seq![f2], Seq::empty(), rest));
        lemma_items_cons(f2, rest, sd, j, i + struct_text(sd, m).len(), enums);
    }
}

// ===========================================================================
// Sorting keeps the elements
// ===========================================================================

/// Whether no two of the elements have the same key.
pub open spec fn keys_distinct<T>(xs: Seq<T>, key: spec_fn(T) -> Seq<char>) -> bool {
    forall|a: int, b: int| 0 <= a < b < xs.len() ==> key(#[trigger] xs[a]) != key(#[trigger] xs[b])
}

proof fn lemma_insert_by_elems<T>(ys: Seq<T>, x: T, key: spec_fn(T) -> Seq<char>)
    ensures
        insert_by(ys, x, key).len() == ys.len() + 1,
        forall|k: int|
            0 <= k < insert_by(ys, x, key).len() ==> #[trigger] insert_by(ys, x, key)[k] == x || ys.contains(
                insert_by(ys, x, key)[k],
            ),
        insert_by(ys, x, key).contains(x),
        forall|j: int| 0 <= j < ys.len() ==> insert_by(ys, x, key).contains(#[trigger] ys[j]),
        keys_distinct(ys, key) && (forall|j: int| 0 <= j < ys.len() ==> key(#[trigger] ys[j]) != key(x)) ==> keys_distinct(
            insert_by(ys, x, key),
            key,
        ),
    decreases ys.len(),
{
    let r = insert_by(ys, x, key);
    if ys.len() == 0 {
        assert(r[0] == x);
    } else if crate::format::name_lt(key(x), key(ys[0])) {
        assert(r == seq![x] + ys);
        assert(r[0] == x);
        assert forall|j: int| 0 <= j < ys.len() implies r.contains(#[trigger] ys[j]) by {
            assert(r[j + 1] == ys[j]);
        }
        assert forall|k: int| 0 <= k < r.len() implies #[trigger] r[k] == x || ys.contains(r[k]) by {
            if k > 0 {
                assert(r[k] == ys[k - 1]);
            }
        }
    } else {
        let t = ys.drop_first();
        lemma_insert_by_elems(t, x, key);
        let r2 = insert_by(t, x, key);
        assert(r == seq![ys[0]] + r2);
        assert(r[0] == ys[0]);
        assert forall|k: int| 0 <= k < r.len() implies #[trigger] r[k] == x || ys.contains(r[k]) by {
            if k > 0 {
                assert(r[k] == r2[k - 1]);
                if r2[k - 1] != x {
                    let jj = choose|jj: int| 0 <= jj < t.len() && t[jj] == r2[k - 1];
                    assert(ys[jj + 1] == t[jj]);
                }
            }
        }
        let kx = choose|kx: int| 0 <= kx < r2.len() && r2[kx] == x;
        assert(r[kx + 1] == x);
        assert forall|j: int| 0 <= j < ys.len() implies r.contains(#[trigger] ys[j]) by {
            if j > 0 {
                assert(t[j - 1] == ys[j]);
                let kk = choose|kk: int| 0 <= kk < r2.len() && r2[kk] == t[j - 1];
                assert(r[kk + 1] == ys[j]);
            }
        }
        if keys_distinct(ys, key) && (forall|j: int| 0 <= j < ys.len() ==> key(#[trigger] ys[j]) != key(x)) {
            assert(keys_distinct(t, key)) by {
                assert forall|a: int, b: int| 0 <= a < b < t.len() implies key(#[trigger] t[a]) != key(#[trigger] t[b]) by {
                    assert(t[a] == ys[a + 1] && t[b] == ys[b + 1]);
                }
            }
            assert forall|j: int| 0 <= j < t.len() implies key(#[trigger] t[j]) != key(x) by {
                assert(t[j] == ys[j + 1]);
            }
            assert forall|a: int, b: int| 0 <= a < b < r.len() implies key(#[trigger] r[a]) != key(#[trigger] r[b]) by {
                if a == 0 {
                    assert(r[b] == r2[b - 1]);
                    if r2[b - 1] == x {
                    } else {
                        let jj = choose|jj: int| 0 <= jj < t.len() && t[jj] == r2[b - 1];
                        assert(ys[jj + 1] == t[jj]);
                    }
                } else {
                    assert(r[a] == r2[a - 1] && r[b] == r2[b - 1]);
                }
            }
        }
    }
}

/// Sorting the first `n` elements keeps exactly those elements.
pub proof fn lemma_sort_by_elems<T>(xs: Seq<T>, n: int, key: spec_fn(T) -> Seq<char>)
    requires
        0 <= n <= xs.len(),
    ensures
        sort_by(xs, n, key).len() == n,
        forall|k: int| 0 <= k < n ==> exists|j: int| 0 <= j < n && #[trigger] sort_by(xs, n, key)[k] == xs[j],
        forall|j: int| 0 <= j < n ==> sort_by(xs, n, key).contains(#[trigger] xs[j]),
        keys_distinct(xs.take(n), key) ==> keys_distinct(sort_by(xs, n, key), key),
    decreases n,
{
    if n > 0 {
        lemma_sort_by_elems(xs, n - 1, key);
        let ys = sort_by(xs, n - 1, key);
        let x = xs[n - 1];
        lemma_insert_by_elems(ys, x, key);
        let r = sort_by(xs, n, key);
        assert(r == insert_by(ys, x, key));
        assert forall|k: int| 0 <= k < n implies exists|j: int| 0 <= j < n && #[trigger] r[k] == xs[j] by {
            if r[k] == x {
                assert(r[k] == xs[n - 1]);
            } else {
                let q = choose|q: int| 0 <= q < ys.len() && ys[q] == r[k];
                let j = choose|j: int| 0 <= j < n - 1 && #[trigger] ys[q] == xs[j];
                assert(r[k] == xs[j]);
            }
        }
        assert forall|j: int| 0 <= j < n implies r.contains(#[trigger] xs[j]) by {
            if j < n - 1 {
                let q = choose|q: int| 0 <= q < ys.len() && ys[q] == xs[j];
                assert(r.contains(ys[q]));
            }
        }
        if keys_distinct(xs.take(n), key) {
            assert(keys_distinct(xs.take(n - 1), key)) by {
                assert forall|a: int, b: int| 0 <= a < b < xs.take(n - 1).len() implies key(#[trigger] xs.take(n - 1)[a]) != key(
                    #[trigger] xs.take(n - 1)[b],
                ) by {
                    assert(xs.take(n - 1)[a] == xs.take(n)[a] && xs.take(n - 1)[b] == xs.take(n)[b]);
                }
            }
            assert forall|j: int| 0 <= j < ys.len() implies key(#[trigger] ys[j]) != key(x) by {
                let q = choose|q: int| 0 <= q < n - 1 && #[trigger] ys[j] == xs[q];
                assert(xs.take(n)[q] == xs[q] && xs.take(n)[n - 1] == x);
            }
        }
    }
}

// ===========================================================================
// Enums read back
// ===========================================================================

/// A variant that reads back: an identifier, with a writable data type if it has one.
pub open spec fn writable_variant(v: (Seq<char>, Option<SpecSchemaType>)) -> bool {
    ident_name(v.0) && match v.1 {
        Some(t) => writable_type(t),
        None => true,
    }
}

/// An enum that reads back: named by an identifier, with variants that read back.
pub open spec fn writable_enum(e: SpecEnumDef) -> bool {
    &&& ident_name(e.name)
    &&& forall|k: int| 0 <= k < e.variants.len() ==> writable_variant(#[trigger] e.variants[k])
    &&& keys_distinct(e.variants, variant_key())
}

proof fn lemma_variants_text_step(vs: Seq<(Seq<char>, Option<SpecSchemaType>)>, j: int)
    requires
        1 <= j < vs.len(),
    ensures
        variants_text(vs, j + 1) == variants_text(vs, j) + ", "@ + variant_text(vs[j]),
{
}

/// Where variant `j` of an enum's text starts, counted from the first variant.
pub open spec fn variant_start(vs: Seq<(Seq<char>, Option<SpecSchemaType>)>, j: int) -> int {
    if j == 0 {
        0
    } else {
        variants_text(vs, j).len() + 2int
    }
}

proof fn lemma_variants_text_prefix(s: Seq<u8>, p: int, vs: Seq<(Seq<char>, Option<SpecSchemaType>)>, j: int, n: int)
    requires
        0 <= j < n <= vs.len(),
        spells(s, p, variants_text(vs, n)),
    ensures
        spells(s, p + variant_start(vs, j), variant_text(vs[j])),
        j > 0 ==> spells(s, p + variants_text(vs, j).len(), ", "@),
        variants_text(vs, j + 1).len() == variant_start(vs, j) + variant_text(vs[j]).len(),
    decreases n - j,
{
    if n == 1 {
    } else {
        lemma_variants_text_step(vs, n - 1);
        lemma_spells_concat(s, p, variants_text(vs, n - 1) + ", "@, variant_text(vs[n - 1]));
        lemma_spells_concat(s, p, variants_text(vs, n - 1), ", "@);
        if j < n - 1 {
            lemma_variants_text_prefix(s, p, vs, j, n - 1);
        }
        lemma_words();
    }
}

proof fn lemma_variant_words()
    ensures
        " }"@.len() == 2 && " }"@[0] == ' ' && " }"@[1] == '}',
        " { "@.len() == 3 && " { "@[0] == ' ' && " { "@[1] == '{' && " { "@[2] == ' ',
        " }\n"@.len() == 3 && " }\n"@[0] == ' ' && " }\n"@[1] == '}' && " }\n"@[2] == '\n',
        "\nenum "@ == "\n"@ + "enum"@ + " "@,
        "\n"@.len() == 1 && "\n"@[0] == '\n',
        " "@.len() == 1 && " "@[0] == ' ',
        ident_name("enum"@) && "enum"@.len() == 4,
        " }\n"@ == " }"@ + "\n"@,
{
    reveal_strlit(" }");
    reveal_strlit(" { ");
    reveal_strlit(" }\n");
    reveal_strlit("\nenum ");
    reveal_strlit("\n");
    reveal_strlit(" ");
    reveal_strlit("enum");
    assert("\nenum "@ =~= "\n"@ + "enum"@ + " "@);
    assert(" }\n"@ =~= " }"@ + "\n"@);
    assert forall|k: int| 0 <= k < 4 implies name_char(#[trigger] "enum"@[k]) by {
        if k == 0 {} else if k == 1 {} else if k == 2 {} else {}
    }
}

/// What variants written from offset `b` (after `{ `) need to read back.
pub open spec fn variants_written(s: Seq<u8>, b: int, vs: Seq<(Seq<char>, Option<SpecSchemaType>)>) -> bool {
    &&& forall|k: int| 0 <= k < vs.len() ==> writable_variant(#[trigger] vs[k])
    &&& 1 <= b
    &&& s[b - 1] == 0x20
    &&& spells(s, b, variants_text(vs, vs.len() as int))
    &&& spells(s, b + variants_text(vs, vs.len() as int).len(), " }"@)
}

/// Where reading the variants from variant `j` on starts.
pub open spec fn variant_pos(b: int, vs: Seq<(Seq<char>, Option<SpecSchemaType>)>, j: int) -> int {
    if j == 0 {
        b - 1
    } else {
        b + variants_text(vs, j).len() + 1
    }
}

/// The name and the data of variant `j` are read, and reading goes on after them.
#[verifier::spinoff_prover]
#[verifier::rlimit(60)]
proof fn lemma_variant_step(
    s: Seq<u8>,
    en: Seq<char>,
    b: int,
    vs: Seq<(Seq<char>, Option<SpecSchemaType>)>,
    j: int,
    acc: Seq<(Seq<char>, Option<SpecSchemaType>)>,
) -> (r: Option<SpecSchemaType>)
    requires
        variants_written(s, b, vs),
        0 <= j < vs.len(),
        !variant_named(acc, vs[j].0),
    ensures
        variants_at(s, en, variant_pos(b, vs, j), acc) == variants_at(s, en, variant_pos(b, vs, j + 1), acc.push((vs[j].0, r))),
{
    lemma_words();
    lemma_variant_words();
    let n = vs.len() as int;
    let vt = variants_text(vs, n);
    let pos = variant_pos(b, vs, j);
    lemma_spells_at(s, b + vt.len(), " }"@, 0);
    lemma_spells_at(s, b + vt.len(), " }"@, 1);
    lemma_variants_text_prefix(s, b, vs, j, n);
    let v = vs[j];
    assert(writable_variant(v));
    let name = v.0;
    let start = b + variant_start(vs, j);
    let after_text = b + variants_text(vs, j + 1).len();
    if j > 0 {
        lemma_spells_at(s, b + variants_text(vs, j).len(), ", "@, 1);
    }
    lemma_spells_at(s, start, variant_text(v), 0);
    assert(name_char(name[0]));
    lemma_skip_blank(s, pos, 1);
    if j + 1 < n {
        lemma_variants_text_prefix(s, b, vs, j + 1, n);
        lemma_spells_at(s, after_text, ", "@, 0);
        lemma_spells_at(s, after_text, ", "@, 1);
    }
    reveal(variant_data_at);
    match v.1 {
        None => {
            assert(variant_text(v) == name);
            lemma_ident(s, start, name);
            if j + 1 < n {
                lemma_skip_blank(s, after_text, 0);
            } else {
                lemma_skip_blank(s, after_text, 1);
                lemma_skip_blank(s, after_text + 1, 0);
            }
            None
        },
        Some(t) => {
            let tt = type_text(t);
            lemma_text_head(t, 0);
            lemma_spells_concat(s, start, name + "("@ + tt, ")"@);
            lemma_spells_concat(s, start, name + "("@, tt);
            lemma_spells_concat(s, start, name, "("@);
            let ve = start + name.len();
            lemma_spells_at(s, ve, "("@, 0);
            lemma_ident(s, start, name);
            lemma_skip_blank(s, ve, 0);
            lemma_spells_at(s, ve + 1, tt, 0);
            lemma_head_byte(s[ve + 1], tt[0]);
            lemma_skip_blank(s, ve + 1, 0);
            let te = ve + 1 + tt.len();
            lemma_spells_at(s, te, ")"@, 0);
            lemma_type(s, ve + 1, t, 0, Seq::empty());
            lemma_skip_blank(s, te, 0);
            let dt = Some(type_at(s, ve + 1)->Ok_0.0.value);
            assert(variant_data_at(s, ve) == Ok::<(Option<SpecSchemaType>, int), crate::error::SpecSchemaParseError>(
                (dt, te + 1),
            ));
            if j + 1 < n {
                lemma_skip_blank(s, te + 1, 0);
            } else {
                lemma_skip_blank(s, te + 1, 1);
            }
            dt
        },
    }
}

/// The variants of an enum written from offset `b` (after `{ `) read back from variant `j` on,
/// up to the closing brace.
proof fn lemma_variants(
    s: Seq<u8>,
    en: Seq<char>,
    b: int,
    vs: Seq<(Seq<char>, Option<SpecSchemaType>)>,
    j: int,
    acc: Seq<(Seq<char>, Option<SpecSchemaType>)>,
)
    requires
        variants_written(s, b, vs),
        keys_distinct(vs, variant_key()),
        0 <= j <= vs.len(),
        acc.len() == j,
        forall|i: int| 0 <= i < j ==> (#[trigger] acc[i]).0 == vs[i].0,
    ensures
        variants_at(s, en, variant_pos(b, vs, j), acc) is Ok,
        variants_at(s, en, variant_pos(b, vs, j), acc)->Ok_0.1 == b + variants_text(vs, vs.len() as int).len() + 2,
    decreases vs.len() - j,
{
    if j == vs.len() {
        lemma_variant_words();
        let vt = variants_text(vs, vs.len() as int);
        lemma_spells_at(s, b + vt.len(), " }"@, 0);
        lemma_spells_at(s, b + vt.len(), " }"@, 1);
        if j == 0 {
            lemma_skip_blank(s, b - 1, 2);
        } else {
            lemma_skip_blank(s, variant_pos(b, vs, j), 0);
        }
    } else {
        assert(!variant_named(acc, vs[j].0)) by {
            if variant_named(acc, vs[j].0) {
                let k = choose|k: int| 0 <= k < acc.len() && #[trigger] acc[k].0 == vs[j].0;
                assert(acc[k].0 == vs[k].0);
                assert(variant_key()(vs[k]) != variant_key()(vs[j]));
            }
        }
        let dt = lemma_variant_step(s, en, b, vs, j, acc);
        let acc2 = acc.push((vs[j].0, dt));
        assert forall|i: int| 0 <= i < j + 1 implies (#[trigger] acc2[i]).0 == vs[i].0 by {
            if i < j {
                assert(acc2[i] == acc[i]);
            }
        }
        lemma_variants(s, en, b, vs, j + 1, acc2);
    }
}

/// An enum written at offset `q` (its text begins with a newline) reads back as an enum of the
/// same name, ending just before the newline that closes its text.
proof fn lemma_enum(s: Seq<u8>, q: int, e: SpecEnumDef)
    requires
        writable_enum(e),
        spells(s, q, enum_text(e)),
    ensures
        s[q] == 0x0a,
        s[q + 1] == 0x65,
        sident(s, q + 1) is Ok,
        sident(s, q + 1)->Ok_0.0.value == "enum"@,
        enum_def_at(s, q + 1) is Ok,
        enum_def_at(s, q + 1)->Ok_0.0.name == e.name,
        enum_def_at(s, q + 1)->Ok_0.1 == q + enum_text(e).len() - 1,
        enum_text(e).len() >= 2,
        enum_text(e)[enum_text(e).len() - 1] == '\n',
{
    lemma_words();
    lemma_variant_words();
    reveal_strlit("enum");
    let n = e.variants.len() as int;
    let vs = sort_by(e.variants, n, variant_key());
    lemma_sort_by_elems(e.variants, n, variant_key());
    assert forall|k: int| 0 <= k < vs.len() implies writable_variant(#[trigger] vs[k]) by {
        let jj = choose|jj: int| 0 <= jj < n && #[trigger] vs[k] == e.variants[jj];
        assert(writable_variant(e.variants[jj]));
    }
    let vt = variants_text(vs, vs.len() as int);
    let name = e.name;
    assert(enum_text(e) == "\n"@ + "enum"@ + " "@ + name + " { "@ + vt + " }"@ + "\n"@);
    lemma_spells_concat(s, q, "\n"@ + "enum"@ + " "@ + name + " { "@ + vt + " }"@, "\n"@);
    lemma_spells_concat(s, q, "\n"@ + "enum"@ + " "@ + name + " { "@ + vt, " }"@);
    lemma_spells_concat(s, q, "\n"@ + "enum"@ + " "@ + name + " { "@, vt);
    lemma_spells_concat(s, q, "\n"@ + "enum"@ + " "@ + name, " { "@);
    lemma_spells_concat(s, q, "\n"@ + "enum"@ + " "@, name);
    lemma_spells_concat(s, q, "\n"@ + "enum"@, " "@);
    lemma_spells_concat(s, q, "\n"@, "enum"@);
    let w = q + 1;
    let ne = w + 5 + name.len();
    let b = ne + 3;
    lemma_spells_at(s, q, "\n"@, 0);
    lemma_spells_at(s, w, "enum"@, 0);
    lemma_spells_at(s, w + 4, " "@, 0);
    lemma_spells_at(s, w + 5, name, 0);
    assert(name_char(name[0]));
    lemma_spells_at(s, ne, " { "@, 0);
    lemma_spells_at(s, ne, " { "@, 1);
    lemma_spells_at(s, ne, " { "@, 2);
    lemma_ident(s, w, "enum"@);
    lemma_skip_blank(s, w, 0);
    lemma_skip_blank(s, w + 4, 1);
    lemma_ident(s, w + 5, name);
    lemma_skip_blank(s, ne, 1);
    assert(sexpect(s, ne + 1, 0x7b) == Ok::<int, crate::error::SpecSchemaParseError>(ne + 2));
    assert(e.variants.take(n) =~= e.variants);
    lemma_variants(s, name, b, vs, 0, Seq::empty());
    assert(variant_pos(b, vs, 0) == ne + 2);
    lemma_spells_at(s, b + vt.len() + 2, "\n"@, 0);
}

proof fn lemma_enums_text_prefix(s: Seq<u8>, p: int, es: Seq<SpecEnumDef>, k: int, n: int)
    requires
        0 <= k <= n <= es.len(),
        spells(s, p, enums_text(es, n)),
    ensures
        spells(s, p, enums_text(es, k)),
        k < n ==> spells(s, p + enums_text(es, k).len(), enum_text(es[k])),
    decreases n - k,
{
    if k < n {
        lemma_spells_concat(s, p, enums_text(es, n - 1), enum_text(es[n - 1]));
        lemma_enums_text_prefix(s, p, es, k, n - 1);
    }
}

/// What enums written from offset `base` (after a newline) need to read back.
pub open spec fn enums_written(s: Seq<u8>, base: int, es: Seq<SpecEnumDef>) -> bool {
    &&& forall|j: int| 0 <= j < es.len() ==> writable_enum(#[trigger] es[j])
    &&& keys_distinct(es, enum_key())
    &&& spells(s, base, "\n"@ + enums_text(es, es.len() as int))
    &&& base + 1 + enums_text(es, es.len() as int).len() == s.len()
}

/// Before enum `k`'s text stands a newline.
proof fn lemma_defs_newline(s: Seq<u8>, base: int, es: Seq<SpecEnumDef>, k: int)
    requires
        enums_written(s, base, es),
        0 <= k <= es.len(),
    ensures
        s[base + enums_text(es, k).len()] == 0x0a,
        spells(s, base + 1, enums_text(es, es.len() as int)),
{
    lemma_variant_words();
    let n = es.len() as int;
    lemma_spells_concat(s, base, "\n"@, enums_text(es, n));
    if k == 0 {
        lemma_spells_at(s, base, "\n"@, 0);
    } else {
        lemma_enums_text_prefix(s, base + 1, es, k, n);
        assert(writable_enum(es[k - 1]));
        lemma_spells_concat(s, base + 1, enums_text(es, k - 1), enum_text(es[k - 1]));
        lemma_enum(s, base + 1 + enums_text(es, k - 1).len(), es[k - 1]);
        lemma_spells_at(s, base + 1 + enums_text(es, k - 1).len(), enum_text(es[k - 1]), enum_text(es[k - 1]).len() - 1);
    }
}

/// Enum `k` is read and recorded, and reading goes on after it.
#[verifier::spinoff_prover]
#[verifier::rlimit(40)]
proof fn lemma_defs_step(s: Seq<u8>, base: int, es: Seq<SpecEnumDef>, k: int, acc: Seq<SpecEnumDef>) -> (ed: SpecEnumDef)
    requires
        enums_written(s, base, es),
        0 <= k < es.len(),
        acc.len() == k,
        forall|j: int| 0 <= j < k ==> (#[trigger] acc[j]).name == es[j].name,
    ensures
        ed.name == es[k].name,
        defs_at(s, base + enums_text(es, k).len(), acc, Seq::empty()) == defs_at(
            s,
            base + enums_text(es, k + 1).len(),
            acc.push(ed),
            Seq::empty(),
        ),
{
    let n = es.len() as int;
    let p = base + enums_text(es, k).len();
    lemma_defs_newline(s, base, es, k);
    lemma_enums_text_prefix(s, base + 1, es, k, n);
    assert(writable_enum(es[k]));
    lemma_enum(s, p + 1, es[k]);
    lemma_skip_blank(s, p, 2);
    let ed = enum_def_at(s, p + 2)->Ok_0.0;
    let end = enum_def_at(s, p + 2)->Ok_0.1;
    assert(!has_enum(acc, ed.name)) by {
        if has_enum(acc, ed.name) {
            let jj = choose|jj: int| 0 <= jj < acc.len() && #[trigger] acc[jj].name == ed.name;
            assert(acc[jj].name == es[jj].name);
            assert((enum_key())(es[jj]) != (enum_key())(es[k]));
        }
    }
    assert(end == base + enums_text(es, k + 1).len());
    ed
}

/// The enums written from offset `base` (after a newline) read back from enum `k` on, after
/// the enums `acc` already read: all of them, named as written, and no alias.
#[verifier::spinoff_prover]
#[verifier::rlimit(40)]
proof fn lemma_defs(s: Seq<u8>, base: int, es: Seq<SpecEnumDef>, k: int, acc: Seq<SpecEnumDef>)
    requires
        enums_written(s, base, es),
        0 <= k <= es.len(),
        acc.len() == k,
        forall|j: int| 0 <= j < k ==> (#[trigger] acc[j]).name == es[j].name,
    ensures
        ({
            let r = defs_at(s, base + enums_text(es, k).len(), acc, Seq::empty());
            &&& r is Ok
            &&& r->Ok_0.1 == Seq::<(Seq<char>, Spanned<SpecSchemaType>)>::empty()
            &&& r->Ok_0.0.len() == es.len()
            &&& forall|j: int| 0 <= j < es.len() ==> (#[trigger] r->Ok_0.0[j]).name == es[j].name
        }),
    decreases es.len() - k,
{
    if k == es.len() {
        lemma_defs_newline(s, base, es, k);
        lemma_skip_blank(s, base + enums_text(es, k).len(), 1);
    } else {
        let ed = lemma_defs_step(s, base, es, k, acc);
        let acc2 = acc.push(ed);
        assert forall|j: int| 0 <= j < k + 1 implies (#[trigger] acc2[j]).name == es[j].name by {
            if j < k {
                assert(acc2[j] == acc[j]);
            }
        }
        lemma_defs(s, base, es, k + 1, acc2);
    }
}

// ===========================================================================
// The texts are ASCII
// ===========================================================================

proof fn lemma_ascii_concat(a: Seq<char>, b: Seq<char>)
    requires
        is_ascii_chars(a),
        is_ascii_chars(b),
    ensures
        is_ascii_chars(a + b),
{
    assert forall|k: int| 0 <= k < (a + b).len() implies '\0' <= #[trigger] (a + b)[k] <= '\u{7f}' by {
        if k < a.len() {
            assert((a + b)[k] == a[k]);
        } else {
            assert((a + b)[k] == b[k - a.len()]);
        }
    }
}

proof fn lemma_ascii_name(n: Seq<char>)
    requires
        forall|k: int| 0 <= k < n.len() ==> name_char(#[trigger] n[k]),
    ensures
        is_ascii_chars(n),
{
    assert forall|k: int| 0 <= k < n.len() implies '\0' <= #[trigger] n[k] <= '\u{7f}' by {
        assert(name_char(n[k]));
    }
}

proof fn lemma_ascii_short(t: Seq<char>)
    requires
        t.len() <= 3,
        t.len() > 0 ==> '\0' <= t[0] <= '\u{7f}',
        t.len() > 1 ==> '\0' <= t[1] <= '\u{7f}',
        t.len() > 2 ==> '\0' <= t[2] <= '\u{7f}',
    ensures
        is_ascii_chars(t),
{
    assert forall|k: int| 0 <= k < t.len() implies '\0' <= #[trigger] t[k] <= '\u{7f}' by {
        if k == 0 {} else if k == 1 {} else {}
    }
}

proof fn lemma_ascii_words()
    ensures
        is_ascii_chars("String"@),
        is_ascii_chars("Integer"@),
        is_ascii_chars("Float"@),
        is_ascii_chars("Bool"@),
        is_ascii_chars("Option("@),
        is_ascii_chars("("@),
        is_ascii_chars(")"@),
        is_ascii_chars("["@),
        is_ascii_chars("]"@),
        is_ascii_chars("{"@),
        is_ascii_chars("}"@),
        is_ascii_chars(": "@),
        is_ascii_chars(", "@),
        is_ascii_chars(",\n"@),
        is_ascii_chars("(\n"@),
        is_ascii_chars("  "@),
        is_ascii_chars("\n"@),
        is_ascii_chars(" { "@),
        is_ascii_chars(" }\n"@),
        is_ascii_chars("\nenum "@),
{
    lemma_words();
    lemma_variant_words();
    lemma_ascii_name("String"@);
    lemma_ascii_name("Integer"@);
    lemma_ascii_name("Float"@);
    lemma_ascii_name("Bool"@);
    lemma_ascii_name("Option"@);
    lemma_ascii_name("enum"@);
    lemma_ascii_short("("@);
    lemma_ascii_short(")"@);
    lemma_ascii_short("["@);
    lemma_ascii_short("]"@);
    lemma_ascii_short("{"@);
    lemma_ascii_short("}"@);
    lemma_ascii_short(": "@);
    lemma_ascii_short(", "@);
    lemma_ascii_short(",\n"@);
    lemma_ascii_short("(\n"@);
    lemma_ascii_short("  "@);
    lemma_ascii_short("\n"@);
    lemma_ascii_short(" "@);
    lemma_ascii_short(" { "@);
    lemma_ascii_short(" }"@);
    lemma_ascii_concat("Option"@, "("@);
    lemma_ascii_concat(" }"@, "\n"@);
    lemma_ascii_concat("\n"@, "enum"@);
    lemma_ascii_concat("\n"@ + "enum"@, " "@);
}

proof fn lemma_ascii_indent(n: nat)
    ensures
        is_ascii_chars(indent_text(n)),
    decreases n,
{
    lemma_ascii_words();
    if n > 0 {
        lemma_ascii_indent((n - 1) as nat);
        lemma_ascii_concat(indent_text((n - 1) as nat), "  "@);
    }
}

proof fn lemma_ascii_type(t: SpecSchemaType, m: nat)
    requires
        writable_type(t),
    ensures
        is_ascii_chars(text_at_indent(t, m)),
    decreases t, 2int, 0int,
{
    lemma_ascii_words();
    match t {
        SpecSchemaType::Option(b) => {
            lemma_text_head(*b, 0);
            lemma_ascii_type(*b, 0);
            lemma_ascii_concat("Option("@, type_text(*b));
            lemma_ascii_concat("Option("@ + type_text(*b), ")"@);
        },
        SpecSchemaType::List(b) => {
            lemma_text_head(*b, 0);
            lemma_ascii_type(*b, 0);
            lemma_ascii_concat("["@, type_text(*b));
            lemma_ascii_concat("["@ + type_text(*b), "]"@);
        },
        SpecSchemaType::EnumRef(n) => {
            lemma_ascii_name(n);
        },
        SpecSchemaType::AliasRef(n) => {
            lemma_ascii_name(n);
        },
        SpecSchemaType::Dict(k, v) => {
            lemma_text_head(*k, 0);
            lemma_text_head(*v, 0);
            lemma_ascii_type(*k, 0);
            lemma_ascii_type(*v, 0);
            lemma_ascii_concat("{"@, type_text(*k));
            lemma_ascii_concat("{"@ + type_text(*k), ": "@);
            lemma_ascii_concat("{"@ + type_text(*k) + ": "@, type_text(*v));
            lemma_ascii_concat("{"@ + type_text(*k) + ": "@ + type_text(*v), "}"@);
        },
        SpecSchemaType::Tuple(ts) => {
            lemma_ascii_types(t, ts.len() as int);
            lemma_ascii_concat("("@, types_text(ts, ts.len() as int));
            lemma_ascii_concat("("@ + types_text(ts, ts.len() as int), ")"@);
        },
        SpecSchemaType::Struct(sd) => {
            lemma_ascii_struct(sd, m);
        },
        _ => {},
    }
}

proof fn lemma_ascii_types(t: SpecSchemaType, n: int)
    requires
        t is Tuple,
        writable_type(t),
        0 <= n <= t->Tuple_0.len(),
    ensures
        is_ascii_chars(types_text(t->Tuple_0, n)),
    decreases t, 1int, n,
{
    lemma_ascii_words();
    let ts = t->Tuple_0;
    if n >= 1 {
        assert(writable_type(ts[n - 1]));
        lemma_text_head(ts[n - 1], 0);
        lemma_ascii_type(ts[n - 1], 0);
        if n >= 2 {
            lemma_ascii_types(t, n - 1);
            lemma_ascii_concat(types_text(ts, n - 1), ", "@);
            lemma_ascii_concat(types_text(ts, n - 1) + ", "@, type_text(ts[n - 1]));
        }
    }
}

proof fn lemma_ascii_struct(sd: SpecStructDef, m: nat)
    requires
        writable_struct(sd),
    ensures
        is_ascii_chars(struct_text(sd, m)),
    decreases sd, 1int, 0int,
{
    lemma_ascii_words();
    lemma_ascii_indent(m);
    let ft = fields_text(sd.fields, sd.fields.len() as int, m);
    lemma_ascii_fields(sd, sd.fields.len() as int, m);
    lemma_struct_text_plain(sd, m);
    lemma_ascii_concat("(\n"@, ft);
    lemma_ascii_concat("(\n"@ + ft, indent_text(m));
    lemma_ascii_concat("(\n"@ + ft + indent_text(m), ")"@);
}

proof fn lemma_ascii_fields(sd: SpecStructDef, n: int, m: nat)
    requires
        writable_struct(sd),
        0 <= n <= sd.fields.len(),
    ensures
        is_ascii_chars(fields_text(sd.fields, n, m)),
    decreases sd, 0int, n,
{
    lemma_ascii_words();
    if n >= 1 {
        let f = sd.fields[n - 1];
        assert(ident_name(f.name.value) && writable_type(f.type_.value));
        lemma_ascii_fields(sd, n - 1, m);
        lemma_ascii_indent(m + 1);
        lemma_ascii_name(f.name.value);
        lemma_ascii_type(f.type_.value, m + 1);
        let tt = text_at_indent(f.type_.value, m + 1);
        lemma_ascii_concat(indent_text(m + 1), f.name.value);
        lemma_ascii_concat(indent_text(m + 1) + f.name.value, ": "@);
        lemma_ascii_concat(indent_text(m + 1) + f.name.value + ": "@, tt);
        lemma_ascii_concat(indent_text(m + 1) + f.name.value + ": "@ + tt, ",\n"@);
        lemma_fields_text_step(sd.fields, n - 1, m);
        lemma_ascii_concat(fields_text(sd.fields, n - 1, m), field_line(f, m));
    }
}

proof fn lemma_ascii_variants(vs: Seq<(Seq<char>, Option<SpecSchemaType>)>, n: int)
    requires
        forall|k: int| 0 <= k < vs.len() ==> writable_variant(#[trigger] vs[k]),
        0 <= n <= vs.len(),
    ensures
        is_ascii_chars(variants_text(vs, n)),
    decreases n,
{
    lemma_ascii_words();
    if n >= 1 {
        let v = vs[n - 1];
        assert(writable_variant(v));
        lemma_ascii_name(v.0);
        match v.1 {
            Some(t) => {
                lemma_text_head(t, 0);
                lemma_ascii_type(t, 0);
                lemma_ascii_concat(v.0, "("@);
                lemma_ascii_concat(v.0 + "("@, type_text(t));
                lemma_ascii_concat(v.0 + "("@ + type_text(t), ")"@);
            },
            None => {},
        }
        if n >= 2 {
            lemma_ascii_variants(vs, n - 1);
            lemma_ascii_concat(variants_text(vs, n - 1), ", "@);
            lemma_ascii_concat(variants_text(vs, n - 1) + ", "@, variant_text(v));
        }
    }
}

proof fn lemma_ascii_enums(es: Seq<SpecEnumDef>, n: int)
    requires
        forall|k: int| 0 <= k < es.len() ==> writable_enum(#[trigger] es[k]),
        0 <= n <= es.len(),
    ensures
        is_ascii_chars(enums_text(es, n)),
    decreases n,
{
    lemma_ascii_words();
    if n >= 1 {
        lemma_ascii_enums(es, n - 1);
        let e = es[n - 1];
        assert(writable_enum(e));
        let nv = e.variants.len() as int;
        let vs = sort_by(e.variants, nv, variant_key());
        lemma_sort_by_elems(e.variants, nv, variant_key());
        assert forall|k: int| 0 <= k < vs.len() implies writable_variant(#[trigger] vs[k]) by {
            let jj = choose|jj: int| 0 <= jj < nv && #[trigger] vs[k] == e.variants[jj];
            assert(writable_variant(e.variants[jj]));
        }
        lemma_ascii_variants(vs, vs.len() as int);
        lemma_ascii_name(e.name);
        let vt = variants_text(vs, vs.len() as int);
        lemma_ascii_concat("\nenum "@, e.name);
        lemma_ascii_concat("\nenum "@ + e.name, " { "@);
        lemma_ascii_concat("\nenum "@ + e.name + " { "@, vt);
        lemma_ascii_concat("\nenum "@ + e.name + " { "@ + vt, " }\n"@);
        lemma_ascii_concat(enums_text(es, n - 1), enum_text(e));
    }
}

// ===========================================================================
// Checking what was read back
// ===========================================================================

proof fn lemma_reclass_none(t: SpecSchemaType, names: Seq<Seq<char>>)
    requires
        names.len() == 0,
    ensures
        reclass_type(t, names) == t,
    decreases t, 1int,
{
    match t {
        SpecSchemaType::Option(b) => lemma_reclass_none(*b, names),
        SpecSchemaType::List(b) => lemma_reclass_none(*b, names),
        SpecSchemaType::Dict(k, v) => {
            lemma_reclass_none(*k, names);
            lemma_reclass_none(*v, names);
        },
        SpecSchemaType::Tuple(ts) => {
            assert forall|i: int| 0 <= i < ts.len() implies reclass_type(#[trigger] ts[i], names) == ts[i] by {
                lemma_reclass_none(ts[i], names);
            }
            assert(reclass_type(t, names)->Tuple_0 =~= ts);
        },
        SpecSchemaType::Struct(sd) => lemma_reclass_struct_none(sd, names),
        SpecSchemaType::EnumRef(n) => {
            assert(!names.contains(n));
        },
        _ => {},
    }
}

proof fn lemma_reclass_struct_none(sd: SpecStructDef, names: Seq<Seq<char>>)
    requires
        names.len() == 0,
    ensures
        reclass_struct(sd, names) == sd,
    decreases sd, 0int,
{
    assert forall|i: int| 0 <= i < sd.fields.len() implies reclass_field(#[trigger] sd.fields[i], names) == sd.fields[i] by {
        lemma_reclass_none(sd.fields[i].type_.value, names);
    }
    assert(reclass_struct(sd, names).fields =~= sd.fields);
}

proof fn lemma_find_enum(es: Seq<SpecEnumDef>, n: Seq<char>, k: int)
    requires
        0 <= k,
    ensures
        find_enum(es, n, k) is Some <==> exists|j: int| k <= j < es.len() && (#[trigger] es[j]).name == n,
    decreases es.len() - k,
{
    if k < es.len() {
        lemma_find_enum(es, n, k + 1);
    }
}

proof fn lemma_names_transfer(t: SpecSchemaType, e1: Seq<SpecEnumDef>, e2: Seq<SpecEnumDef>)
    requires
        names_defined(t, e1),
        forall|n: Seq<char>| #[trigger] find_enum(e1, n, 0) is Some ==> find_enum(e2, n, 0) is Some,
    ensures
        names_defined(t, e2),
    decreases t, 1int,
{
    match t {
        SpecSchemaType::Option(b) => lemma_names_transfer(*b, e1, e2),
        SpecSchemaType::List(b) => lemma_names_transfer(*b, e1, e2),
        SpecSchemaType::Dict(k, v) => {
            lemma_names_transfer(*k, e1, e2);
            lemma_names_transfer(*v, e1, e2);
        },
        SpecSchemaType::Tuple(ts) => {
            assert forall|j: int| 0 <= j < ts.len() implies names_defined(#[trigger] ts[j], e2) by {
                lemma_names_transfer(ts[j], e1, e2);
            }
        },
        SpecSchemaType::Struct(sd) => lemma_struct_names_transfer(sd, e1, e2),
        _ => {},
    }
}

proof fn lemma_struct_names_transfer(sd: SpecStructDef, e1: Seq<SpecEnumDef>, e2: Seq<SpecEnumDef>)
    requires
        struct_names_defined(sd, e1),
        forall|n: Seq<char>| #[trigger] find_enum(e1, n, 0) is Some ==> find_enum(e2, n, 0) is Some,
    ensures
        struct_names_defined(sd, e2),
    decreases sd, 0int,
{
    assert forall|j: int| 0 <= j < sd.fields.len() implies names_defined((#[trigger] sd.fields[j]).type_.value, e2) by {
        lemma_names_transfer(sd.fields[j].type_.value, e1, e2);
    }
}

/// The UTF-8 bytes of an ASCII text spell it.
proof fn lemma_ascii_spells(t: Seq<char>)
    requires
        is_ascii_chars(t),
    ensures
        encode_utf8(t).len() == t.len(),
        spells(encode_utf8(t), 0, t),
{
    vstd::utf8::is_ascii_chars_encode_utf8(t);
    let s = encode_utf8(t);
    assert forall|k: int| 0 <= k < t.len() implies bytes_as_chars(s.subrange(0, t.len() as int))[k] == t[k] by {
        assert(t[k] as u8 == s[k]);
        assert('\0' <= t[k] <= '\u{7f}');
        assert(s.subrange(0, t.len() as int)[k] == s[k]);
    }
    assert(bytes_as_chars(s.subrange(0, t.len() as int)) =~= t);
}

/// What a schema needs to be written out as text that reads back: identifiers for its field,
/// enum and variant names; references by names that start with a letter and are not `Option`;
/// map keys that read back as key types; enums with distinct names; and, in the root struct,
/// references only to primitive words or to its enums; no type aliases, and fields without
/// defaults or annotations in structs without cross-field constraints.
pub open spec fn writable_schema(sc: SpecSchema) -> bool {
    &&& writable_struct(sc.root)
    &&& struct_names_defined(sc.root, sc.enums)
    &&& forall|j: int| 0 <= j < sc.enums.len() ==> writable_enum(#[trigger] sc.enums[j])
    &&& keys_distinct(sc.enums, enum_key())
    &&& sc.aliases.len() == 0
}

/// A schema written out by `format_schema` is read back by `parse_schema` without error, when
/// its names and types can be written at all and it has no type aliases, defaults, annotations
/// or cross-field constraints (see [`writable_schema`]).
#[verifier::spinoff_prover]
#[verifier::rlimit(40)]
pub proof fn formatted_schema_parses(sc: SpecSchema)
    requires
        writable_schema(sc),
    ensures
        schema_of_source(encode_utf8(schema_text(sc))) is Ok,
{
    lemma_words();
    let n = sc.enums.len() as int;
    let es = sort_by(sc.enums, n, enum_key());
    lemma_sort_by_elems(sc.enums, n, enum_key());
    assert(sc.enums.take(n) =~= sc.enums);
    assert forall|k: int| 0 <= k < es.len() implies writable_enum(#[trigger] es[k]) by {
        let jj = choose|jj: int| 0 <= jj < n && #[trigger] es[k] == sc.enums[jj];
        assert(writable_enum(sc.enums[jj]));
    }
    lemma_variant_words();
    let rt = struct_text(sc.root, 0);
    let et = enums_text(es, es.len() as int);
    let text = schema_text(sc);
    assert(aliases_text(sc.aliases, sc.aliases.len() as int) =~= Seq::<char>::empty());
    assert(text =~= rt + "\n"@ + et);
    // the text is ASCII, so its bytes spell it
    lemma_ascii_struct(sc.root, 0);
    lemma_ascii_enums(es, es.len() as int);
    lemma_ascii_words();
    lemma_ascii_concat(rt, "\n"@);
    lemma_ascii_concat(rt + "\n"@, et);
    lemma_ascii_spells(text);
    let s = encode_utf8(text);
    lemma_spells_concat(s, 0, rt, "\n"@ + et);
    assert(rt + "\n"@ + et == rt + ("\n"@ + et));
    // the enums
    assert(enums_written(s, rt.len() as int, es));
    lemma_defs(s, rt.len() as int, es, 0, Seq::empty());
    let parsed = defs_at(s, rt.len() as int, Seq::empty(), Seq::empty())->Ok_0.0;
    assert forall|nm: Seq<char>| #[trigger] find_enum(sc.enums, nm, 0) is Some implies find_enum(parsed, nm, 0) is Some by {
        lemma_find_enum(sc.enums, nm, 0);
        lemma_find_enum(parsed, nm, 0);
        let j = choose|j: int| 0 <= j < sc.enums.len() && (#[trigger] sc.enums[j]).name == nm;
        assert(es.contains(sc.enums[j]));
        let k = choose|k: int| 0 <= k < es.len() && es[k] == sc.enums[j];
        assert(parsed[k].name == es[k].name);
    }
    lemma_struct_names_transfer(sc.root, sc.enums, parsed);
    // the root struct
    lemma_spells_at(s, 0, rt, 0);
    assert(rt[0] == "(\n"@[0]);
    lemma_skip_blank(s, 0, 0);
    assert(!at_import(s, 0));
    assert(imports_at(s, 0, Seq::empty()) == Ok::<(Seq<Spanned<Seq<char>>>, int), crate::error::SpecSchemaParseError>((Seq::empty(), 0)));
    lemma_struct(s, 0, sc.root, 0, parsed);
    let root2 = struct_at(s, 0)->Ok_0.0;
    assert(enums_text(es, 0).len() == 0);
    assert(schema_parts(s) == Ok::<
        (Seq<Spanned<Seq<char>>>, SpecStructDef, Seq<SpecEnumDef>, Seq<(Seq<char>, Spanned<SpecSchemaType>)>),
        crate::error::SpecSchemaParseError,
    >((Seq::empty(), root2, parsed, Seq::empty())));
    // the checks
    let no_aliases = Seq::<(Seq<char>, Spanned<SpecSchemaType>)>::empty();
    let names = alias_names(no_aliases);
    assert(names.len() == 0);
    lemma_reclass_struct_none(root2, names);
    assert(reclass_aliases(no_aliases, names) =~= no_aliases);
    lemma_struct_defaults_none(root2, parsed, no_aliases, 0);
    crate::schema::check::lemma_fields_keys_none(root2.fields, 0);
    assert(crate::schema::check::alias_keys(no_aliases, 0, no_aliases) is None);
    assert(crate::schema::check::alias_refs(no_aliases, 0, parsed, no_aliases) is None);
}

// ===========================================================================
// Inferred schemas read back
// ===========================================================================

/// The name of the enum inferred for the bare identifiers of a field.
pub open spec fn enum_name_for(field: Seq<char>) -> Seq<char> {
    pascal(field, field.len() as int)
}

/// Whether the first key of a map read in field `name` gives a key type.
pub open spec fn key_inferable(name: Seq<char>, kv: SpecRonValue) -> bool {
    match kv {
        SpecRonValue::String(_) => true,
        SpecRonValue::Integer(_) => true,
        SpecRonValue::Identifier(_) => enum_name_for(name) != "Float"@ && enum_name_for(name) != "Bool"@,
        SpecRonValue::EnumVariant(_, _) => enum_name_for(name) != "Float"@ && enum_name_for(name) != "Bool"@,
        _ => false,
    }
}

/// Data whose inferred schema can be written and read back, for a value of the field `name`:
/// field and variant names are identifiers; where a field holds bare identifiers or variants,
/// the enum named after the field has a name that a type may refer to; the first key of a
/// non-empty map is a string, an integer, or an identifier or variant whose enum name does not
/// read back as `Float` or `Bool`.
pub open spec fn inferable(name: Seq<char>, v: SpecRonValue) -> bool
    decreases v, 0int,
{
    match v {
        SpecRonValue::Option(Some(iv)) => inferable(name, iv.value),
        SpecRonValue::List(els) => if els.len() == 0 {
            true
        } else if all_identifiers(els) {
            ref_name(enum_name_for(name)) && forall|i: int|
                0 <= i < els.len() ==> ident_name((#[trigger] els[i]).value->Identifier_0)
        } else {
            inferable(name, els[0].value)
        },
        SpecRonValue::Identifier(var) => ref_name(enum_name_for(name)) && ident_name(var),
        SpecRonValue::EnumVariant(var, data) => ref_name(enum_name_for(name)) && ident_name(var) && inferable(
            name,
            data.value,
        ),
        SpecRonValue::Dict(entries) => entries.len() == 0 || (key_inferable(name, entries[0].0.value) && inferable(
            name,
            entries[0].0.value,
        ) && inferable(name, entries[0].1.value)),
        SpecRonValue::Tuple(els) => forall|i: int| 0 <= i < els.len() ==> inferable(name, (#[trigger] els[i]).value),
        SpecRonValue::Struct(st) => (forall|i: int|
            0 <= i < st.fields.len() ==> ident_name((#[trigger] st.fields[i]).0.value) && inferable(
                st.fields[i].0.value,
                st.fields[i].1.value,
            )) && (forall|a: int, b: int|
            0 <= a < b < st.fields.len() ==> (#[trigger] st.fields[a]).0.value != (#[trigger] st.fields[b]).0.value),
        _ => true,
    }
}

/// Enums with distinct names, each of which reads back.
pub open spec fn enums_writable(es: Enums) -> bool {
    keys_distinct(es, enum_key()) && forall|k: int| 0 <= k < es.len() ==> writable_enum(#[trigger] es[k])
}

/// Every name of an enum in `e1` names an enum in `e2`.
pub open spec fn grows(e1: Enums, e2: Enums) -> bool {
    forall|n: Seq<char>| #[trigger] find_enum(e1, n, 0) is Some ==> find_enum(e2, n, 0) is Some
}

proof fn lemma_enum_index(es: Enums, n: Seq<char>, k: int)
    requires
        0 <= k,
    ensures
        enum_index(es, n, k) >= 0 ==> k <= enum_index(es, n, k) < es.len() && es[enum_index(es, n, k)].name == n,
        enum_index(es, n, k) < 0 ==> forall|j: int| k <= j < es.len() ==> (#[trigger] es[j]).name != n,
        find_enum(es, n, k) is Some <==> enum_index(es, n, k) >= 0,
    decreases es.len() - k,
{
    if k < es.len() {
        lemma_enum_index(es, n, k + 1);
    }
}

proof fn lemma_grows_trans(e1: Enums, e2: Enums, e3: Enums)
    requires
        grows(e1, e2),
        grows(e2, e3),
    ensures
        grows(e1, e3),
{
}

/// Putting in an enum, or a variant of one, under an existing name keeps the names; under a
/// new name it adds one after the others.
proof fn lemma_replace_or_push(es: Enums, e: SpecEnumDef, r: Enums)
    requires
        enums_writable(es),
        writable_enum(e),
        enum_index(es, e.name, 0) >= 0 ==> r == es.update(enum_index(es, e.name, 0), e),
        enum_index(es, e.name, 0) < 0 ==> r == es.push(e),
    ensures
        enums_writable(r),
        grows(es, r),
        find_enum(r, e.name, 0) is Some,
{
    lemma_enum_index(es, e.name, 0);
    let k = enum_index(es, e.name, 0);
    assert forall|a: int, b: int| 0 <= a < b < r.len() implies (enum_key())(#[trigger] r[a]) != (enum_key())(#[trigger] r[b]) by {
        if k >= 0 {
            if a != k && b != k {
                assert((enum_key())(es[a]) != (enum_key())(es[b]));
            } else if a == k {
                assert((enum_key())(es[k]) != (enum_key())(es[b]));
            } else {
                assert((enum_key())(es[a]) != (enum_key())(es[k]));
            }
        } else {
            if b == es.len() {
                assert(es[a].name != e.name);
            } else {
                assert((enum_key())(es[a]) != (enum_key())(es[b]));
            }
        }
    }
    assert forall|j: int| 0 <= j < r.len() implies writable_enum(#[trigger] r[j]) by {
        if k >= 0 && j == k {
        } else if k < 0 && j == es.len() {
        } else {
            assert(r[j] == es[j]);
        }
    }
    assert forall|n: Seq<char>| #[trigger] find_enum(es, n, 0) is Some implies find_enum(r, n, 0) is Some by {
        lemma_find_enum(es, n, 0);
        lemma_find_enum(r, n, 0);
        let j = choose|j: int| 0 <= j < es.len() && (#[trigger] es[j]).name == n;
        if k >= 0 && j == k {
            assert(r[k].name == n);
        } else {
            assert(r[j] == es[j]);
        }
    }
    lemma_find_enum(r, e.name, 0);
    if k >= 0 {
        assert(r[k].name == e.name);
    } else {
        assert(r[es.len() as int].name == e.name);
    }
}

proof fn lemma_insert_variant_writable(vs: Seq<(Seq<char>, Option<SpecSchemaType>)>, var: Seq<char>, data: Option<SpecSchemaType>)
    requires
        forall|k: int| 0 <= k < vs.len() ==> writable_variant(#[trigger] vs[k]),
        keys_distinct(vs, variant_key()),
        writable_variant((var, data)),
    ensures
        forall|k: int|
            0 <= k < insert_variant(vs, var, data).len() ==> writable_variant(#[trigger] insert_variant(vs, var, data)[k]),
        keys_distinct(insert_variant(vs, var, data), variant_key()),
{
    let r = insert_variant(vs, var, data);
    if exists|k: int| 0 <= k < vs.len() && #[trigger] vs[k].0 == var {
        let q = choose|k: int| 0 <= k < vs.len() && #[trigger] vs[k].0 == var;
        assert(r == vs.update(q, (var, data)));
        assert forall|k: int| 0 <= k < r.len() implies writable_variant(#[trigger] r[k]) by {
            if r[k] != (var, data) {
                assert(r[k] == vs[k]);
            }
        }
        assert forall|a: int, b: int| 0 <= a < b < r.len() implies variant_key()(#[trigger] r[a]) != variant_key()(#[trigger] r[b]) by {
            assert(variant_key()(vs[a]) != variant_key()(vs[b]));
        }
    } else {
        assert forall|k: int| 0 <= k < r.len() implies writable_variant(#[trigger] r[k]) by {
            if k < vs.len() {
                assert(r[k] == vs[k]);
            }
        }
        assert forall|a: int, b: int| 0 <= a < b < r.len() implies variant_key()(#[trigger] r[a]) != variant_key()(#[trigger] r[b]) by {
            if b < vs.len() {
                assert(variant_key()(vs[a]) != variant_key()(vs[b]));
            } else {
                assert(r[a] == vs[a]);
                assert(vs[a].0 != var);
            }
        }
    }
}

proof fn lemma_identifier_variants(els: Seq<Spanned<SpecRonValue>>, n: int)
    requires
        0 <= n <= els.len(),
        all_identifiers(els),
        forall|i: int| 0 <= i < els.len() ==> ident_name((#[trigger] els[i]).value->Identifier_0),
    ensures
        forall|k: int|
            0 <= k < identifier_variants(els, n).len() ==> writable_variant(#[trigger] identifier_variants(els, n)[k]),
        keys_distinct(identifier_variants(els, n), variant_key()),
    decreases n,
{
    if n > 0 {
        lemma_identifier_variants(els, n - 1);
        assert(ident_name(els[n - 1].value->Identifier_0));
        lemma_insert_variant_writable(identifier_variants(els, n - 1), els[n - 1].value->Identifier_0, None);
    }
}

proof fn lemma_add_variant(es: Enums, name: Seq<char>, var: Seq<char>, data: Option<SpecSchemaType>)
    requires
        enums_writable(es),
        ident_name(name),
        writable_variant((var, data)),
    ensures
        enums_writable(add_variant(es, name, var, data)),
        grows(es, add_variant(es, name, var, data)),
        find_enum(add_variant(es, name, var, data), name, 0) is Some,
{
    lemma_enum_index(es, name, 0);
    let k = enum_index(es, name, 0);
    let e = if k >= 0 {
        SpecEnumDef { name: es[k].name, variants: insert_variant(es[k].variants, var, data) }
    } else {
        SpecEnumDef { name, variants: seq![(var, data)] }
    };
    if k >= 0 {
        assert(writable_enum(es[k]));
        lemma_insert_variant_writable(es[k].variants, var, data);
    }
    lemma_replace_or_push(es, e, add_variant(es, name, var, data));
}

/// The type inferred for a value, and the enums after it, read back: the type is writable, its
/// references name enums that are there, and the enums only gain names.
proof fn lemma_infer_type(name: Seq<char>, v: SpecRonValue, es: Enums)
    requires
        inferable(name, v),
        enums_writable(es),
    ensures
        writable_type(infer_type(name, v, es).0),
        enums_writable(infer_type(name, v, es).1),
        grows(es, infer_type(name, v, es).1),
        names_defined(infer_type(name, v, es).0, infer_type(name, v, es).1),
    decreases v, 1int, 0int,
{
    let pn = enum_name_for(name);
    match v {
        SpecRonValue::Option(Some(iv)) => {
            lemma_infer_type(name, iv.value, es);
            let r = infer_type(name, iv.value, es);
            assert(infer_type(name, v, es) == (SpecSchemaType::Option(Box::new(r.0)), r.1));
            assert(writable_type(SpecSchemaType::Option(Box::new(r.0))));
            assert(names_defined(SpecSchemaType::Option(Box::new(r.0)), r.1));
        },
        SpecRonValue::Option(None) => {
            assert(infer_type(name, v, es) == (SpecSchemaType::Option(Box::new(SpecSchemaType::String)), es));
            assert(writable_type(SpecSchemaType::String) && names_defined(SpecSchemaType::String, es));
        },
        SpecRonValue::List(els) => {
            if els.len() == 0 {
                assert(infer_type(name, v, es) == (SpecSchemaType::List(Box::new(SpecSchemaType::String)), es));
                assert(writable_type(SpecSchemaType::String) && names_defined(SpecSchemaType::String, es));
            } else if all_identifiers(els) {
                lemma_identifier_variants(els, els.len() as int);
                let e = SpecEnumDef { name: pn, variants: identifier_variants(els, els.len() as int) };
                lemma_replace_or_push(es, e, put_enum(es, e));
                assert(infer_type(name, v, es) == (SpecSchemaType::List(Box::new(SpecSchemaType::EnumRef(pn))), put_enum(es, e)));
                assert(writable_type(SpecSchemaType::EnumRef(pn)) && names_defined(SpecSchemaType::EnumRef(pn), put_enum(es, e)));
            } else {
                lemma_infer_type(name, els[0].value, es);
                let r = infer_type(name, els[0].value, es);
                assert(infer_type(name, v, es) == (SpecSchemaType::List(Box::new(r.0)), r.1));
                assert(writable_type(SpecSchemaType::List(Box::new(r.0))));
                assert(names_defined(SpecSchemaType::List(Box::new(r.0)), r.1));
            }
        },
        SpecRonValue::Identifier(var) => {
            lemma_add_variant(es, pn, var, None);
            assert(infer_type(name, v, es) == (SpecSchemaType::EnumRef(pn), add_variant(es, pn, var, None)));
        },
        SpecRonValue::EnumVariant(var, data) => {
            lemma_infer_type(name, data.value, es);
            let r = infer_type(name, data.value, es);
            lemma_add_variant(r.1, pn, var, Some(r.0));
            lemma_grows_trans(es, r.1, add_variant(r.1, pn, var, Some(r.0)));
            assert(infer_type(name, v, es) == (SpecSchemaType::EnumRef(pn), add_variant(r.1, pn, var, Some(r.0))));
        },
        SpecRonValue::Dict(entries) => {
            if entries.len() == 0 {
                assert(infer_type(name, v, es) == (
                    SpecSchemaType::Dict(Box::new(SpecSchemaType::String), Box::new(SpecSchemaType::String)),
                    es,
                ));
                assert(writable_type(SpecSchemaType::String) && names_defined(SpecSchemaType::String, es));
            } else {
                lemma_infer_type(name, entries[0].0.value, es);
                let k = infer_type(name, entries[0].0.value, es);
                lemma_infer_type(name, entries[0].1.value, k.1);
                let w = infer_type(name, entries[0].1.value, k.1);
                lemma_grows_trans(es, k.1, w.1);
                lemma_names_transfer(k.0, k.1, w.1);
                assert(infer_type(name, v, es) == (SpecSchemaType::Dict(Box::new(k.0), Box::new(w.0)), w.1));
                match entries[0].0.value {
                    SpecRonValue::String(_) => assert(k.0 == SpecSchemaType::String),
                    SpecRonValue::Integer(_) => assert(k.0 == SpecSchemaType::Integer),
                    SpecRonValue::Identifier(_) => assert(k.0 == SpecSchemaType::EnumRef(pn)),
                    SpecRonValue::EnumVariant(_, _) => assert(k.0 == SpecSchemaType::EnumRef(pn)),
                    _ => {},
                }
                assert(key_ok(k.0));
            }
        },
        SpecRonValue::Tuple(els) => {
            lemma_infer_types(name, els, els.len() as int, es);
            let r = infer_types(name, els, els.len() as int, es);
            assert(infer_type(name, v, es) == (SpecSchemaType::Tuple(r.0), r.1));
            assert(writable_type(SpecSchemaType::Tuple(r.0)));
            assert(names_defined(SpecSchemaType::Tuple(r.0), r.1));
        },
        SpecRonValue::Struct(st) => {
            lemma_infer_fields(st.fields, st.fields.len() as int, es);
            let r = infer_fields(st.fields, st.fields.len() as int, es);
            let sd = SpecStructDef { fields: r.0, annotations: Seq::empty() };
            assert forall|a: int, b: int| 0 <= a < b < sd.fields.len() implies (#[trigger] sd.fields[a]).name.value != (#[trigger] sd.fields[b]).name.value by {
                assert(st.fields[a].0.value != st.fields[b].0.value);
            }
            assert(writable_struct(sd));
            assert(struct_names_defined(sd, r.1));
            assert(infer_type(name, v, es) == (SpecSchemaType::Struct(sd), r.1));
        },
        SpecRonValue::String(_) => {
            assert(infer_type(name, v, es) == (SpecSchemaType::String, es));
        },
        SpecRonValue::Integer(_) => {
            assert(infer_type(name, v, es) == (SpecSchemaType::Integer, es));
        },
        SpecRonValue::Float(_) => {
            assert(infer_type(name, v, es) == (SpecSchemaType::Float, es));
        },
        SpecRonValue::Bool(_) => {
            assert(infer_type(name, v, es) == (SpecSchemaType::Bool, es));
        },
    }
}

proof fn lemma_infer_types(name: Seq<char>, els: Seq<Spanned<SpecRonValue>>, n: int, es: Enums)
    requires
        0 <= n <= els.len(),
        forall|i: int| 0 <= i < els.len() ==> inferable(name, (#[trigger] els[i]).value),
        enums_writable(es),
    ensures
        infer_types(name, els, n, es).0.len() == n,
        forall|j: int| 0 <= j < n ==> writable_type(#[trigger] infer_types(name, els, n, es).0[j]),
        forall|j: int| 0 <= j < n ==> names_defined(#[trigger] infer_types(name, els, n, es).0[j], infer_types(name, els, n, es).1),
        enums_writable(infer_types(name, els, n, es).1),
        grows(es, infer_types(name, els, n, es).1),
    decreases els, 0int, n,
{
    if n > 0 {
        lemma_infer_types(name, els, n - 1, es);
        let p = infer_types(name, els, n - 1, es);
        assert(inferable(name, els[n - 1].value));
        lemma_infer_type(name, els[n - 1].value, p.1);
        let r = infer_type(name, els[n - 1].value, p.1);
        lemma_grows_trans(es, p.1, r.1);
        let out = p.0.push(r.0);
        assert forall|j: int| 0 <= j < n implies names_defined(#[trigger] out[j], r.1) by {
            if j < n - 1 {
                assert(out[j] == p.0[j]);
                lemma_names_transfer(p.0[j], p.1, r.1);
            }
        }
        assert forall|j: int| 0 <= j < n implies writable_type(#[trigger] out[j]) by {
            if j < n - 1 {
                assert(out[j] == p.0[j]);
            }
        }
    }
}

proof fn lemma_infer_fields(fs: Seq<(Spanned<Seq<char>>, Spanned<SpecRonValue>)>, n: int, es: Enums)
    requires
        0 <= n <= fs.len(),
        forall|i: int|
            0 <= i < fs.len() ==> ident_name((#[trigger] fs[i]).0.value) && inferable(fs[i].0.value, fs[i].1.value),
        enums_writable(es),
    ensures
        infer_fields(fs, n, es).0.len() == n,
        forall|j: int|
            0 <= j < n ==> ident_name((#[trigger] infer_fields(fs, n, es).0[j]).name.value) && writable_type(
                infer_fields(fs, n, es).0[j].type_.value,
            ),
        forall|j: int|
            0 <= j < n ==> names_defined((#[trigger] infer_fields(fs, n, es).0[j]).type_.value, infer_fields(fs, n, es).1),
        forall|j: int| 0 <= j < n ==> (#[trigger] infer_fields(fs, n, es).0[j]).name.value == fs[j].0.value,
        forall|j: int| 0 <= j < n ==> (#[trigger] infer_fields(fs, n, es).0[j]).default is None
            && infer_fields(fs, n, es).0[j].annotations.len() == 0,
        enums_writable(infer_fields(fs, n, es).1),
        grows(es, infer_fields(fs, n, es).1),
    decreases fs, 0int, n,
{
    if n > 0 {
        lemma_infer_fields(fs, n - 1, es);
        let p = infer_fields(fs, n - 1, es);
        let f = fs[n - 1];
        assert(ident_name(f.0.value) && inferable(f.0.value, f.1.value));
        lemma_infer_type(f.0.value, f.1.value, p.1);
        let r = infer_type(f.0.value, f.1.value, p.1);
        lemma_grows_trans(es, p.1, r.1);
        let out = p.0.push(inferred_field(f.0.value, r.0));
        assert forall|j: int| 0 <= j < n implies names_defined((#[trigger] out[j]).type_.value, r.1) by {
            if j < n - 1 {
                assert(out[j] == p.0[j]);
                lemma_names_transfer(p.0[j].type_.value, p.1, r.1);
            }
        }
        assert forall|j: int|
            0 <= j < n implies ident_name((#[trigger] out[j]).name.value) && writable_type(out[j].type_.value) by {
            if j < n - 1 {
                assert(out[j] == p.0[j]);
            }
        }
        assert forall|j: int| 0 <= j < n implies (#[trigger] out[j]).name.value == fs[j].0.value by {
            if j < n - 1 {
                assert(out[j] == p.0[j]);
            }
        }
        assert forall|j: int| 0 <= j < n implies (#[trigger] out[j]).default is None && out[j].annotations.len() == 0 by {
            if j < n - 1 {
                assert(out[j] == p.0[j]);
            }
        }
    }
}

/// The schema inferred from data is written by `format_schema` as text that `parse_schema`
/// reads back without error, when the data's names allow it (see [`inferable`]).
pub proof fn inferred_schema_parses(v: SpecRonValue)
    requires
        v is Struct ==> inferable(Seq::empty(), v),
    ensures
        schema_of_source(encode_utf8(schema_text(inferred_schema(v)))) is Ok,
{
    let sc = inferred_schema(v);
    match v {
        SpecRonValue::Struct(st) => {
            let e0 = Seq::<SpecEnumDef>::empty();
            lemma_infer_fields(st.fields, st.fields.len() as int, e0);
            let r = infer_fields(st.fields, st.fields.len() as int, e0);
            assert forall|a: int, b: int| 0 <= a < b < sc.root.fields.len() implies (#[trigger] sc.root.fields[a]).name.value != (#[trigger] sc.root.fields[b]).name.value by {
                assert(st.fields[a].0.value != st.fields[b].0.value);
            }
            assert(writable_struct(sc.root));
            assert(struct_names_defined(sc.root, sc.enums));
        },
        _ => {
            assert(keys_distinct(sc.enums, enum_key()));
        },
    }
    formatted_schema_parses(sc);
}

} // verus!
