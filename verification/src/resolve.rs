use vstd::prelude::*;
use vstd::string::StringSliceAdditionalSpecFns;
use crate::error::{SchemaErrorKind, SchemaParseError, SpecSchemaErrorKind, SpecSchemaParseError};
use crate::schema::{EnumDef, Schema, SchemaType, SpecEnumDef, SpecSchema, SpecStructDef, StructDef, aliases_view, enums_view};
use crate::schema::check::{SpecAliases, alias_names, check_defaults, check_field_refs, check_field_keys, fields_keys, contains_name, fields_refs, find_alias, find_enum, lookup_alias, lookup_enum, names_of_aliases, reclass_struct, reclassify_struct, struct_defaults};
use crate::schema::parser::{imports_view, parse_schema};
use crate::schema::check::schema_of_source;
use crate::schema::grammar::names_distinct;
use crate::schema::parser::distinct_variants;
use vstd::utf8::encode_utf8;
use crate::span::{Position, Span, Spanned};
use crate::text::{copy_string, owned};
use crate::error::strings_view;

verus! {

/// Abstracts file resolution for schema imports.
///
/// The library cannot perform file I/O; this trait lets callers (such as the command-line tool)
/// provide their own loading strategy.
pub trait SchemaResolver {
    /// Loads the source text of a schema at the given import path, or says why it cannot.
    fn resolve(&self, import_path: &str) -> Result<String, String>;
}

/// Maximum import nesting depth.
pub const MAX_IMPORT_DEPTH: usize = 10;

// ===========================================================================
// Specification
// ===========================================================================

/// The error for imports nested too deeply, reported at the first import.
pub open spec fn depth_error(imports: Seq<Spanned<Seq<char>>>) -> SpecSchemaParseError {
    SpecSchemaParseError {
        span: if imports.len() > 0 {
            imports[0].span
        } else {
            Span { start: Position { offset: 0, line: 1, column: 1 }, end: Position { offset: 0, line: 1, column: 1 } }
        },
        kind: SpecSchemaErrorKind::UnexpectedToken {
            expected: "import depth within limit"@,
            found: "import nesting exceeds 10 levels"@,
        },
    }
}

/// Whether an enum or an alias bears the name.
pub open spec fn name_taken(enums: Seq<SpecEnumDef>, aliases: SpecAliases, name: Seq<char>) -> bool {
    find_enum(enums, name, 0) is Some || find_alias(aliases, name, 0) is Some
}

pub open spec fn collision(name: Seq<char>, path: Seq<char>, span: Span) -> SpecSchemaParseError {
    SpecSchemaParseError { span, kind: SpecSchemaErrorKind::ImportNameCollision { name, import_path: path } }
}

/// The enums after adding the imported ones from index `k` on, each refused when its name is
/// taken.
pub open spec fn merge_enums(
    enums: Seq<SpecEnumDef>,
    aliases: SpecAliases,
    imported: Seq<SpecEnumDef>,
    k: int,
    path: Seq<char>,
    span: Span,
) -> Result<Seq<SpecEnumDef>, SpecSchemaParseError>
    decreases imported.len() - k,
{
    if k < 0 || k >= imported.len() {
        Ok(enums)
    } else if name_taken(enums, aliases, imported[k].name) {
        Err(collision(imported[k].name, path, span))
    } else {
        merge_enums(enums.push(imported[k]), aliases, imported, k + 1, path, span)
    }
}

/// The aliases after adding the imported ones from index `k` on, each refused when its name is
/// taken.
pub open spec fn merge_aliases(
    enums: Seq<SpecEnumDef>,
    aliases: SpecAliases,
    imported: SpecAliases,
    k: int,
    path: Seq<char>,
    span: Span,
) -> Result<SpecAliases, SpecSchemaParseError>
    decreases imported.len() - k,
{
    if k < 0 || k >= imported.len() {
        Ok(aliases)
    } else if name_taken(enums, aliases, imported[k].0) {
        Err(collision(imported[k].0, path, span))
    } else {
        merge_aliases(enums, aliases.push(imported[k]), imported, k + 1, path, span)
    }
}

/// A schema's enums and aliases with an imported schema's merged in: enums first, then aliases.
pub open spec fn merged(s: SpecSchema, imported: SpecSchema, path: Seq<char>, span: Span) -> Result<(Seq<SpecEnumDef>, SpecAliases), SpecSchemaParseError> {
    match merge_enums(s.enums, s.aliases, imported.enums, 0, path, span) {
        Err(e) => Err(e),
        Ok(es) => match merge_aliases(es, s.aliases, imported.aliases, 0, path, span) {
            Err(e) => Err(e),
            Ok(als) => Ok((es, als)),
        },
    }
}

/// The root struct once all imports are in: references to aliases reclassified, then checked
/// for undefined names, map keys that are aliases for types no key may have, and ill-fitting
/// defaults.
pub open spec fn finished_root(s: SpecSchema) -> Result<SpecStructDef, SpecSchemaParseError> {
    let root = reclass_struct(s.root, alias_names(s.aliases));
    match fields_refs(root.fields, 0, s.enums, s.aliases) {
        Some(e) => Err(e),
        None => match fields_keys(root.fields, 0, s.aliases) {
            Some(e) => Err(e),
            None => match struct_defaults(root, s.enums, s.aliases, s.aliases.len()) {
                Some(e) => Err(e),
                None => Ok(root),
            },
        },
    }
}

/// The kinds of error that resolving imports reports itself.
pub open spec fn import_error_kind(k: SchemaErrorKind) -> bool {
    k is UnexpectedToken || k is CircularImport || k is UnresolvedImport || k is ImportParseError
        || k is ImportNameCollision
}

/// `b` starts with `a`.
pub open spec fn extends_seq<T>(a: Seq<T>, b: Seq<T>) -> bool {
    a.len() <= b.len() && b.take(a.len() as int) == a
}

pub proof fn lemma_extends_trans<T>(a: Seq<T>, b: Seq<T>, c: Seq<T>)
    requires
        extends_seq(a, b),
        extends_seq(b, c),
    ensures
        extends_seq(a, c),
{
    assert(c.take(a.len() as int) =~= c.take(b.len() as int).take(a.len() as int));
}

pub proof fn lemma_extends_push<T>(a: Seq<T>, x: T)
    ensures
        extends_seq(a, a.push(x)),
{
    assert(a.push(x).take(a.len() as int) =~= a);
}

pub proof fn lemma_merge_enums_extends(
    enums: Seq<SpecEnumDef>,
    aliases: SpecAliases,
    imported: Seq<SpecEnumDef>,
    k: int,
    path: Seq<char>,
    span: Span,
)
    ensures
        merge_enums(enums, aliases, imported, k, path, span) is Ok ==> extends_seq(
            enums,
            merge_enums(enums, aliases, imported, k, path, span)->Ok_0,
        ),
    decreases imported.len() - k,
{
    if k < 0 || k >= imported.len() {
        assert(enums.take(enums.len() as int) =~= enums);
    } else if !name_taken(enums, aliases, imported[k].name) {
        lemma_merge_enums_extends(enums.push(imported[k]), aliases, imported, k + 1, path, span);
        lemma_extends_push(enums, imported[k]);
        if merge_enums(enums, aliases, imported, k, path, span) is Ok {
            lemma_extends_trans(enums, enums.push(imported[k]), merge_enums(enums, aliases, imported, k, path, span)->Ok_0);
        }
    }
}

pub proof fn lemma_merge_aliases_extends(
    enums: Seq<SpecEnumDef>,
    aliases: SpecAliases,
    imported: SpecAliases,
    k: int,
    path: Seq<char>,
    span: Span,
)
    ensures
        merge_aliases(enums, aliases, imported, k, path, span) is Ok ==> extends_seq(
            aliases,
            merge_aliases(enums, aliases, imported, k, path, span)->Ok_0,
        ),
    decreases imported.len() - k,
{
    if k < 0 || k >= imported.len() {
        assert(aliases.take(aliases.len() as int) =~= aliases);
    } else if !name_taken(enums, aliases, imported[k].0) {
        lemma_merge_aliases_extends(enums, aliases.push(imported[k]), imported, k + 1, path, span);
        lemma_extends_push(aliases, imported[k]);
        if merge_aliases(enums, aliases, imported, k, path, span) is Ok {
            lemma_extends_trans(aliases, aliases.push(imported[k]), merge_aliases(enums, aliases, imported, k, path, span)->Ok_0);
        }
    }
}

/// Merging an import only ever adds enums and aliases after those already there.
pub proof fn lemma_merged_extends(s: SpecSchema, imported: SpecSchema, path: Seq<char>, span: Span)
    ensures
        merged(s, imported, path, span) is Ok ==> extends_seq(s.enums, merged(s, imported, path, span)->Ok_0.0)
            && extends_seq(s.aliases, merged(s, imported, path, span)->Ok_0.1),
{
    lemma_merge_enums_extends(s.enums, s.aliases, imported.enums, 0, path, span);
    if merge_enums(s.enums, s.aliases, imported.enums, 0, path, span) is Ok {
        let es = merge_enums(s.enums, s.aliases, imported.enums, 0, path, span)->Ok_0;
        lemma_merge_aliases_extends(es, s.aliases, imported.aliases, 0, path, span);
    }
}

proof fn lemma_no_enum(es: Seq<SpecEnumDef>, n: Seq<char>, k: int)
    requires
        0 <= k,
        find_enum(es, n, k) is None,
    ensures
        forall|j: int| k <= j < es.len() ==> (#[trigger] es[j]).name != n,
    decreases es.len() - k,
{
    if k < es.len() {
        lemma_no_enum(es, n, k + 1);
    }
}

proof fn lemma_no_alias(als: SpecAliases, n: Seq<char>, k: int)
    requires
        0 <= k,
        find_alias(als, n, k) is None,
    ensures
        forall|j: int| k <= j < als.len() ==> (#[trigger] als[j]).0 != n,
    decreases als.len() - k,
{
    if k < als.len() {
        lemma_no_alias(als, n, k + 1);
    }
}

/// Merging enums whose names are not taken keeps the names distinct.
proof fn lemma_merge_enums_distinct(
    enums: Seq<SpecEnumDef>,
    aliases: SpecAliases,
    imported: Seq<SpecEnumDef>,
    k: int,
    path: Seq<char>,
    span: Span,
)
    requires
        names_distinct(enums, aliases),
        forall|j: int| 0 <= j < imported.len() ==> distinct_variants(#[trigger] imported[j].variants),
    ensures
        merge_enums(enums, aliases, imported, k, path, span) is Ok ==> names_distinct(
            merge_enums(enums, aliases, imported, k, path, span)->Ok_0,
            aliases,
        ),
    decreases imported.len() - k,
{
    if 0 <= k < imported.len() && !name_taken(enums, aliases, imported[k].name) {
        lemma_no_enum(enums, imported[k].name, 0);
        let e2 = enums.push(imported[k]);
        assert forall|a: int, b: int| 0 <= a < b < e2.len() implies #[trigger] e2[a].name != #[trigger] e2[b].name by {
            if b == enums.len() {
                assert(e2[a] == enums[a]);
            } else {
                assert(e2[a] == enums[a] && e2[b] == enums[b]);
            }
        }
        assert forall|j: int| 0 <= j < e2.len() implies distinct_variants(#[trigger] e2[j].variants) by {
            if j < enums.len() {
                assert(e2[j] == enums[j]);
            }
        }
        lemma_merge_enums_distinct(e2, aliases, imported, k + 1, path, span);
    }
}

/// Merging aliases whose names are not taken keeps the names distinct.
proof fn lemma_merge_aliases_distinct(
    enums: Seq<SpecEnumDef>,
    aliases: SpecAliases,
    imported: SpecAliases,
    k: int,
    path: Seq<char>,
    span: Span,
)
    requires
        names_distinct(enums, aliases),
    ensures
        merge_aliases(enums, aliases, imported, k, path, span) is Ok ==> names_distinct(
            enums,
            merge_aliases(enums, aliases, imported, k, path, span)->Ok_0,
        ),
    decreases imported.len() - k,
{
    if 0 <= k < imported.len() && !name_taken(enums, aliases, imported[k].0) {
        lemma_no_alias(aliases, imported[k].0, 0);
        let a2 = aliases.push(imported[k]);
        assert forall|a: int, b: int| 0 <= a < b < a2.len() implies #[trigger] a2[a].0 != #[trigger] a2[b].0 by {
            if b == aliases.len() {
                assert(a2[a] == aliases[a]);
            } else {
                assert(a2[a] == aliases[a] && a2[b] == aliases[b]);
            }
        }
        lemma_merge_aliases_distinct(enums, a2, imported, k + 1, path, span);
    }
}

/// Merging an import whose variant names are distinct keeps a schema's names distinct.
pub proof fn lemma_merged_distinct(s: SpecSchema, imported: SpecSchema, path: Seq<char>, span: Span)
    requires
        names_distinct(s.enums, s.aliases),
        names_distinct(imported.enums, imported.aliases),
    ensures
        merged(s, imported, path, span) is Ok ==> names_distinct(
            merged(s, imported, path, span)->Ok_0.0,
            merged(s, imported, path, span)->Ok_0.1,
        ),
{
    lemma_merge_enums_distinct(s.enums, s.aliases, imported.enums, 0, path, span);
    if merge_enums(s.enums, s.aliases, imported.enums, 0, path, span) is Ok {
        let es = merge_enums(s.enums, s.aliases, imported.enums, 0, path, span)->Ok_0;
        lemma_merge_aliases_distinct(es, s.aliases, imported.aliases, 0, path, span);
    }
}

// ===========================================================================
// Merging
// ===========================================================================

fn name_is_taken(enums: &Vec<EnumDef>, aliases: &Vec<(String, Spanned<SchemaType>)>, name: &String) -> (r: bool)
    ensures
        r == name_taken(enums_view(enums@), aliases_view(aliases@), name@),
{
    lookup_enum(enums, name).is_some() || lookup_alias(aliases, name).is_some()
}

fn collision_error(name: &String, path: &String, span: Span) -> (r: SchemaParseError)
    ensures
        r@ == collision(name@, path@, span),
        r.kind is ImportNameCollision,
{
    SchemaParseError { span, kind: SchemaErrorKind::ImportNameCollision { name: copy_string(name), import_path: copy_string(path) } }
}

/// Merges an imported schema's enums and aliases into a schema (see [`merged`]): enums first,
/// then aliases, each in order, refusing the first whose name an enum or alias already bears.
pub fn merge_into(schema: &mut Schema, imported: Schema, path: &String, span: Span) -> (r: Result<(), SchemaParseError>)
    ensures
        final(schema).root == old(schema).root,
        final(schema).imports == old(schema).imports,
        match merged(old(schema)@, imported@, path@, span) {
            Ok((es, als)) => r is Ok && enums_view(final(schema).enums@) == es && aliases_view(final(schema).aliases@) == als,
            Err(e) => r is Err && r->Err_0@ == e,
        },
        r is Err ==> r->Err_0.kind is ImportNameCollision,
{
    let ghost s0 = schema@;
    let ghost iv = imported@;
    let Schema { root: _, enums: imp_enums, aliases: imp_aliases, imports: _ } = imported;
    let mut rest = imp_enums;
    let ghost ie = enums_view(rest@);
    let mut k: usize = 0;
    let n_enums = rest.len();
    assert(ie.len() == n_enums);
    assert(ie.skip(0) =~= ie);
    while rest.len() > 0
        invariant
            rest@.len() + k == ie.len(),
            ie.len() <= usize::MAX,
            s0 == old(schema)@,
            iv == imported@,
            schema.root == old(schema).root,
            schema.imports == old(schema).imports,
            aliases_view(schema.aliases@) == s0.aliases,
            ie == iv.enums,
            k <= ie.len(),
            enums_view(rest@) == ie.skip(k as int),
            merge_enums(s0.enums, s0.aliases, ie, 0, path@, span) == merge_enums(enums_view(schema.enums@), s0.aliases, ie, k as int, path@, span),
        decreases rest@.len(),
    {
        let ghost r0 = rest@;
        let e = rest.remove(0);
        assert(enums_view(r0)[0] == ie.skip(k as int)[0]);
        assert(e@ == ie[k as int]);
        if name_is_taken(&schema.enums, &schema.aliases, &e.name) {
            return Err(collision_error(&e.name, path, span));
        }
        let ghost before = schema.enums@;
        let ghost ev = e@;
        schema.enums.push(e);
        proof {
            assert(enums_view(schema.enums@) =~= enums_view(before).push(ev));
            assert(rest@ =~= r0.skip(1));
            assert(enums_view(r0.skip(1)) =~= enums_view(r0).skip(1));
            assert(ie.skip(k as int).skip(1) =~= ie.skip(k + 1));
            assert(enums_view(rest@) =~= ie.skip(k + 1));
        }
        k = k + 1;
    }
    assert(k == ie.len());
    let mut rest_a = imp_aliases;
    let ghost ia = aliases_view(rest_a@);
    let ghost es = enums_view(schema.enums@);
    let mut j: usize = 0;
    let n_aliases = rest_a.len();
    assert(ia.len() == n_aliases);
    assert(ia.skip(0) =~= ia);
    while rest_a.len() > 0
        invariant
            rest_a@.len() + j == ia.len(),
            ia.len() <= usize::MAX,
            s0 == old(schema)@,
            iv == imported@,
            merge_enums(s0.enums, s0.aliases, iv.enums, 0, path@, span) == Ok::<Seq<SpecEnumDef>, SpecSchemaParseError>(es),
            schema.root == old(schema).root,
            schema.imports == old(schema).imports,
            enums_view(schema.enums@) == es,
            ia == iv.aliases,
            j <= ia.len(),
            aliases_view(rest_a@) == ia.skip(j as int),
            merge_aliases(es, s0.aliases, ia, 0, path@, span) == merge_aliases(es, aliases_view(schema.aliases@), ia, j as int, path@, span),
        decreases rest_a@.len(),
    {
        let ghost r0 = rest_a@;
        let a = rest_a.remove(0);
        assert(aliases_view(r0)[0] == ia.skip(j as int)[0]);
        assert((a.0@, a.1@) == ia[j as int]);
        if name_is_taken(&schema.enums, &schema.aliases, &a.0) {
            return Err(collision_error(&a.0, path, span));
        }
        let ghost before = schema.aliases@;
        let ghost av = (a.0@, a.1@);
        schema.aliases.push(a);
        proof {
            assert(aliases_view(schema.aliases@) =~= aliases_view(before).push(av));
            assert(rest_a@ =~= r0.skip(1));
            assert(aliases_view(r0.skip(1)) =~= aliases_view(r0).skip(1));
            assert(ia.skip(j as int).skip(1) =~= ia.skip(j + 1));
            assert(aliases_view(rest_a@) =~= ia.skip(j + 1));
        }
        j = j + 1;
    }
    Ok(())
}

// ===========================================================================
// Resolution
// ===========================================================================

fn depth_error_of(imports: &Vec<Spanned<String>>) -> (r: SchemaParseError)
    ensures
        r@ == depth_error(imports_view(imports@)),
{
    let span = if imports.len() > 0 {
        imports[0].span
    } else {
        Span { start: Position { offset: 0, line: 1, column: 1 }, end: Position { offset: 0, line: 1, column: 1 } }
    };
    SchemaParseError {
        span,
        kind: SchemaErrorKind::UnexpectedToken {
            expected: owned("import depth within limit"),
            found: owned("import nesting exceeds 10 levels"),
        },
    }
}

/// The error for an import whose path is already on the way to it.
pub open spec fn circular(path: Seq<char>, span: Span) -> SpecSchemaParseError {
    SpecSchemaParseError { span, kind: SpecSchemaErrorKind::CircularImport { path } }
}

/// What an import comes to, given the resolver's answer for its path: the reason it gives as an
/// unresolved import; a source too large to address as an unresolved import; a source that does
/// not parse as its error, wrapped with the import's path (at the error's own place); else the
/// imported schema.
pub open spec fn import_outcome(
    path: Seq<char>,
    span: Span,
    answer: Result<Seq<char>, Seq<char>>,
) -> Result<SpecSchema, SpecSchemaParseError> {
    match answer {
        Err(reason) => Err(SpecSchemaParseError { span, kind: SpecSchemaErrorKind::UnresolvedImport { path, reason } }),
        Ok(src) => if encode_utf8(src).len() >= usize::MAX {
            Err(SpecSchemaParseError { span, kind: SpecSchemaErrorKind::UnresolvedImport { path, reason: "source too large"@ } })
        } else {
            match schema_of_source(encode_utf8(src)) {
                Err(e) => Err(SpecSchemaParseError {
                    span: e.span,
                    kind: SpecSchemaErrorKind::ImportParseError { path, inner: Box::new(e.kind) },
                }),
                Ok(s) => Ok(s),
            }
        },
    }
}

/// Turns the resolver's answer for an import into the imported schema or the import's error
/// (see [`import_outcome`]).
pub fn load_import(path: &String, span: Span, answer: Result<String, String>) -> (r: Result<Schema, SchemaParseError>)
    ensures
        match import_outcome(path@, span, answer_view(answer)) {
            Ok(s) => r is Ok && r->Ok_0@ == s,
            Err(e) => r is Err && r->Err_0@ == e,
        },
        r is Err ==> import_error_kind(r->Err_0.kind),
        r is Ok ==> names_distinct(r->Ok_0@.enums, r->Ok_0@.aliases),
{
    let source = match answer {
        Ok(s) => s,
        Err(msg) => {
            return Err(SchemaParseError { span, kind: SchemaErrorKind::UnresolvedImport { path: copy_string(path), reason: msg } });
        },
    };
    if source.as_str().as_bytes().len() == usize::MAX {
        return Err(SchemaParseError { span, kind: SchemaErrorKind::UnresolvedImport { path: copy_string(path), reason: owned("source too large") } });
    }
    match parse_schema(source.as_str()) {
        Ok(s) => Ok(s),
        Err(e) => Err(SchemaParseError { span: e.span, kind: SchemaErrorKind::ImportParseError { path: copy_string(path), inner: Box::new(e.kind) } }),
    }
}

/// The resolver's calls, in the order they were made: the import path it was asked for, and its
/// answer, the source text of that import or the reason it gives for not having one.
pub type Answers = Seq<(Seq<char>, Result<Seq<char>, Seq<char>>)>;

/// Whether the call at position `pos` is there and asked for `path`.
pub open spec fn answered(log: Answers, pos: int, path: Seq<char>) -> bool {
    0 <= pos < log.len() && log[pos].0 == path
}

/// Resolving the imports of `s` from index `k` on, at nesting `depth`, the import paths on the
/// way here being `visited` and those already merged being `done`, when the resolver's calls
/// from position `pos` on are those of `log`. The outcome is the schema with the imported enums
/// and aliases merged in and the paths merged by now, or the first error; together with the
/// position after the last call read.
///
/// In order, for each import: nesting deeper than 10 levels is refused; a path on the way here
/// is a circular import; a path already merged is skipped without asking the resolver; else the
/// resolver is asked for the path (the next call must be for that path: where the calls end or
/// the next one is for another path, the position given is past the end of the calls, which no
/// complete record of them has), the answer is turned into a schema ([`import_outcome`]), that
/// schema's own imports are resolved one level deeper, and its enums and aliases are merged in
/// ([`merged`]).
#[verifier::opaque]
pub open spec fn resolve_from(
    s: SpecSchema,
    log: Answers,
    pos: int,
    visited: Seq<Seq<char>>,
    done: Seq<Seq<char>>,
    depth: int,
    k: int,
) -> (Result<(SpecSchema, Seq<Seq<char>>), SpecSchemaParseError>, int)
    decreases MAX_IMPORT_DEPTH + 1 - depth, s.imports.len() - k,
{
    if depth > MAX_IMPORT_DEPTH {
        (Err(depth_error(s.imports)), pos)
    } else if k < 0 || k >= s.imports.len() {
        (Ok((s, done)), pos)
    } else {
        let path = s.imports[k].value;
        let span = s.imports[k].span;
        if visited.contains(path) {
            (Err(circular(path, span)), pos)
        } else if done.contains(path) {
            resolve_from(s, log, pos, visited, done, depth, k + 1)
        } else if !answered(log, pos, path) {
            (Err(SpecSchemaParseError { span, kind: SpecSchemaErrorKind::UnresolvedImport { path, reason: Seq::empty() } }), pos + log.len() + 1)
        } else {
            match import_outcome(path, span, log[pos].1) {
                Err(e) => (Err(e), pos + 1),
                Ok(im) => {
                    let inner = resolve_from(im, log, pos + 1, visited.push(path), done, depth + 1, 0);
                    match inner.0 {
                        Err(e) => (Err(e), inner.1),
                        Ok((im2, done2)) => match merged(s, im2, path, span) {
                            Err(e) => (Err(e), inner.1),
                            Ok((es, als)) => resolve_from(
                                SpecSchema { root: s.root, enums: es, aliases: als, imports: s.imports },
                                log,
                                inner.1,
                                visited,
                                done2.push(path),
                                depth,
                                k + 1,
                            ),
                        },
                    }
                },
            }
        }
    }
}

/// Nesting deeper than 10 levels is refused with the depth error, before anything is asked.
pub proof fn lemma_resolve_too_deep(s: SpecSchema, log: Answers, pos: int, visited: Seq<Seq<char>>, done: Seq<Seq<char>>, depth: int, k: int)
    requires
        depth > MAX_IMPORT_DEPTH,
    ensures
        resolve_from(s, log, pos, visited, done, depth, k) == (Err::<(SpecSchema, Seq<Seq<char>>), SpecSchemaParseError>(depth_error(s.imports)), pos),
{
    reveal(resolve_from);
}

/// Once every import is done, the schema as merged so far is the outcome, and nothing more is
/// asked.
pub proof fn lemma_resolve_end(s: SpecSchema, log: Answers, pos: int, visited: Seq<Seq<char>>, done: Seq<Seq<char>>, depth: int, k: int)
    requires
        depth <= MAX_IMPORT_DEPTH,
        k >= s.imports.len(),
    ensures
        resolve_from(s, log, pos, visited, done, depth, k) == (Ok::<(SpecSchema, Seq<Seq<char>>), SpecSchemaParseError>((s, done)), pos),
{
    reveal(resolve_from);
}

/// An import whose path is on the way to it is a circular import, and nothing is asked.
pub proof fn lemma_resolve_circular(s: SpecSchema, log: Answers, pos: int, visited: Seq<Seq<char>>, done: Seq<Seq<char>>, depth: int, k: int)
    requires
        depth <= MAX_IMPORT_DEPTH,
        0 <= k < s.imports.len(),
        visited.contains(s.imports[k].value),
    ensures
        resolve_from(s, log, pos, visited, done, depth, k) == (
            Err::<(SpecSchema, Seq<Seq<char>>), SpecSchemaParseError>(circular(s.imports[k].value, s.imports[k].span)),
            pos,
        ),
{
    reveal(resolve_from);
}

/// An import whose path is already merged is skipped: the resolver is not asked for it.
pub proof fn lemma_resolve_skip(s: SpecSchema, log: Answers, pos: int, visited: Seq<Seq<char>>, done: Seq<Seq<char>>, depth: int, k: int)
    requires
        depth <= MAX_IMPORT_DEPTH,
        0 <= k < s.imports.len(),
        !visited.contains(s.imports[k].value),
        done.contains(s.imports[k].value),
    ensures
        resolve_from(s, log, pos, visited, done, depth, k) == resolve_from(s, log, pos, visited, done, depth, k + 1),
{
    reveal(resolve_from);
}

/// An import whose answer does not give a schema (the resolver refuses the path, or the source
/// does not parse) ends the resolution with that error, after one call.
pub proof fn lemma_resolve_refused(s: SpecSchema, log: Answers, pos: int, visited: Seq<Seq<char>>, done: Seq<Seq<char>>, depth: int, k: int)
    requires
        depth <= MAX_IMPORT_DEPTH,
        0 <= k < s.imports.len(),
        !visited.contains(s.imports[k].value),
        !done.contains(s.imports[k].value),
        answered(log, pos, s.imports[k].value),
        import_outcome(s.imports[k].value, s.imports[k].span, log[pos].1) is Err,
    ensures
        resolve_from(s, log, pos, visited, done, depth, k) == (
            Err::<(SpecSchema, Seq<Seq<char>>), SpecSchemaParseError>(
                import_outcome(s.imports[k].value, s.imports[k].span, log[pos].1)->Err_0,
            ),
            pos + 1,
        ),
{
    reveal(resolve_from);
}

/// An import that is neither on the way nor merged yet, whose answer gives a schema, is
/// resolved one level deeper with its path on the way, then merged, and the imports after it
/// follow ([`after_import`]).
pub proof fn lemma_resolve_import(s: SpecSchema, log: Answers, pos: int, visited: Seq<Seq<char>>, done: Seq<Seq<char>>, depth: int, k: int)
    requires
        depth <= MAX_IMPORT_DEPTH,
        0 <= k < s.imports.len(),
        !visited.contains(s.imports[k].value),
        !done.contains(s.imports[k].value),
        answered(log, pos, s.imports[k].value),
        import_outcome(s.imports[k].value, s.imports[k].span, log[pos].1) is Ok,
    ensures
        resolve_from(s, log, pos, visited, done, depth, k) == after_import(
            s,
            log,
            resolve_from(
                import_outcome(s.imports[k].value, s.imports[k].span, log[pos].1)->Ok_0,
                log,
                pos + 1,
                visited.push(s.imports[k].value),
                done,
                depth + 1,
                0,
            ),
            visited,
            s.imports[k].value,
            s.imports[k].span,
            depth,
            k,
        ),
{
    reveal(resolve_from);
}

/// `b` begins with `a`.
pub open spec fn log_extends(a: Answers, b: Answers) -> bool {
    a.len() <= b.len() && b.subrange(0, a.len() as int) == a
}

/// Resolution reads the calls forward only, and reads nothing past where it stops: calls added
/// after those read do not change it.
pub proof fn lemma_resolve_frame(
    s: SpecSchema,
    log: Answers,
    pos: int,
    visited: Seq<Seq<char>>,
    done: Seq<Seq<char>>,
    depth: int,
    k: int,
    log2: Answers,
)
    requires
        0 <= pos,
    ensures
        resolve_from(s, log, pos, visited, done, depth, k).1 >= pos,
        log_extends(log, log2) && resolve_from(s, log, pos, visited, done, depth, k).1 <= log.len() ==> resolve_from(
            s,
            log2,
            pos,
            visited,
            done,
            depth,
            k,
        ) == resolve_from(s, log, pos, visited, done, depth, k),
    decreases MAX_IMPORT_DEPTH + 1 - depth, s.imports.len() - k,
{
    reveal(resolve_from);
    if depth > MAX_IMPORT_DEPTH {
    } else if k < 0 || k >= s.imports.len() {
    } else {
        let path = s.imports[k].value;
        let span = s.imports[k].span;
        if visited.contains(path) {
        } else if done.contains(path) {
            lemma_resolve_frame(s, log, pos, visited, done, depth, k + 1, log2);
        } else {
            if log_extends(log, log2) && pos < log.len() {
                assert(log2[pos] == log2.subrange(0, log.len() as int)[pos]);
            }
            if answered(log, pos, path) {
                match import_outcome(path, span, log[pos].1) {
                    Err(e) => {},
                    Ok(im) => {
                        lemma_resolve_frame(im, log, pos + 1, visited.push(path), done, depth + 1, 0, log2);
                        let inner = resolve_from(im, log, pos + 1, visited.push(path), done, depth + 1, 0);
                        match inner.0 {
                            Err(e) => {},
                            Ok((im2, done2)) => match merged(s, im2, path, span) {
                                Err(e) => {},
                                Ok((es, als)) => {
                                    let s2 = SpecSchema { root: s.root, enums: es, aliases: als, imports: s.imports };
                                    lemma_resolve_frame(s2, log, inner.1, visited, done2.push(path), depth, k + 1, log2);
                                },
                            },
                        }
                    },
                }
            }
        }
    }
}

/// The mathematical content of a resolver's answer.
pub open spec fn answer_view(a: Result<String, String>) -> Result<Seq<char>, Seq<char>> {
    match a {
        Ok(t) => Ok(t@),
        Err(m) => Err(m@),
    }
}

/// What resolution comes to after one import's own resolution gave `inner`: its error, or the
/// merge of what it gave and the imports after it.
pub open spec fn after_import(
    s: SpecSchema,
    log: Answers,
    inner: (Result<(SpecSchema, Seq<Seq<char>>), SpecSchemaParseError>, int),
    visited: Seq<Seq<char>>,
    path: Seq<char>,
    span: Span,
    depth: int,
    k: int,
) -> (Result<(SpecSchema, Seq<Seq<char>>), SpecSchemaParseError>, int) {
    match inner.0 {
        Err(e) => (Err(e), inner.1),
        Ok((im2, done2)) => match merged(s, im2, path, span) {
            Err(e) => (Err(e), inner.1),
            Ok((es, als)) => resolve_from(
                SpecSchema { root: s.root, enums: es, aliases: als, imports: s.imports },
                log,
                inner.1,
                visited,
                done2.push(path),
                depth,
                k + 1,
            ),
        },
    }
}

/// One import that is neither on the way nor merged yet, whose answer (at `pos` of `l3`) turns
/// into schema `im`: for all calls that begin with `l3`, where the import's own resolution
/// reads nothing past `l3`, resolution is that of the import followed by the rest.
proof fn lemma_step(
    sk: SpecSchema,
    pos: int,
    v0: Seq<Seq<char>>,
    dk: Seq<Seq<char>>,
    depth: int,
    k: int,
    path: Seq<char>,
    span: Span,
    im: SpecSchema,
    l3: Answers,
)
    requires
        0 <= pos < l3.len(),
        0 <= k < sk.imports.len(),
        depth <= MAX_IMPORT_DEPTH,
        sk.imports[k].value == path,
        sk.imports[k].span == span,
        !v0.contains(path),
        !dk.contains(path),
        answered(l3, pos, path),
        import_outcome(path, span, l3[pos].1) == Ok::<SpecSchema, SpecSchemaParseError>(im),
        resolve_from(im, l3, pos + 1, v0.push(path), dk, depth + 1, 0).1 <= l3.len(),
    ensures
        forall|l: Answers|
            #![trigger resolve_from(sk, l, pos, v0, dk, depth, k)]
            log_extends(l3, l) ==> resolve_from(sk, l, pos, v0, dk, depth, k) == after_import(
                sk,
                l,
                resolve_from(im, l3, pos + 1, v0.push(path), dk, depth + 1, 0),
                v0,
                path,
                span,
                depth,
                k,
            ),
{
    assert forall|l: Answers|
        #![trigger resolve_from(sk, l, pos, v0, dk, depth, k)]
        log_extends(l3, l) implies resolve_from(sk, l, pos, v0, dk, depth, k) == after_import(
            sk,
            l,
            resolve_from(im, l3, pos + 1, v0.push(path), dk, depth + 1, 0),
            v0,
            path,
            span,
            depth,
            k,
        ) by {
        assert(l[pos] == l3[pos]) by {
            assert(l.subrange(0, l3.len() as int)[pos] == l[pos]);
        }
        reveal(resolve_from);
        lemma_resolve_frame(im, l3, pos + 1, v0.push(path), dk, depth + 1, 0, l);
    }
}

/// Resolves and merges one import, neither on the way here nor merged yet: asks the resolver
/// for its path, reads the answer, resolves the imported schema one level deeper and merges it
/// (see [`resolve_from`]).
#[verifier::spinoff_prover]
#[verifier::rlimit(60)]
fn import_one<R: SchemaResolver>(
    schema: &mut Schema,
    resolver: &R,
    visited: &mut Vec<String>,
    done: &mut Vec<String>,
    depth: usize,
    k: usize,
    path: String,
    span: Span,
    log: Ghost<Answers>,
) -> (r: (Result<(), SchemaParseError>, Ghost<Answers>))
    requires
        depth <= MAX_IMPORT_DEPTH,
        k < old(schema).imports@.len(),
        old(schema)@.imports[k as int].value == path@,
        old(schema)@.imports[k as int].span == span,
        !strings_view(old(visited)@).contains(path@),
        !strings_view(old(done)@).contains(path@),
    ensures
        log_extends(log@, r.1@),
        forall|l: Answers|
            #![trigger resolve_from(old(schema)@, l, log@.len() as int, strings_view(old(visited)@), strings_view(old(done)@), depth as int, k as int)]
            log_extends(r.1@, l) ==> resolve_from(
                old(schema)@,
                l,
                log@.len() as int,
                strings_view(old(visited)@),
                strings_view(old(done)@),
                depth as int,
                k as int,
            ) == match r.0 {
                Err(e) => (Err::<(SpecSchema, Seq<Seq<char>>), SpecSchemaParseError>(e@), r.1@.len() as int),
                Ok(()) => resolve_from(final(schema)@, l, r.1@.len() as int, strings_view(old(visited)@), strings_view(final(done)@), depth as int, k + 1),
            },
        final(schema).root == old(schema).root,
        final(schema).imports == old(schema).imports,
        r.0 is Ok ==> strings_view(final(visited)@) == strings_view(old(visited)@),
        r.0 is Ok && names_distinct(old(schema)@.enums, old(schema)@.aliases) ==> names_distinct(
            final(schema)@.enums,
            final(schema)@.aliases,
        ),
        r.0 is Ok ==> extends_seq(enums_view(old(schema).enums@), enums_view(final(schema).enums@)),
        r.0 is Ok ==> extends_seq(aliases_view(old(schema).aliases@), aliases_view(final(schema).aliases@)),
        r.0 is Err ==> import_error_kind(r.0->Err_0.kind),
    decreases MAX_IMPORT_DEPTH + 1 - depth, 0int,
{
    let ghost sk = schema@;
    let ghost v0 = strings_view(visited@);
    let ghost dk = strings_view(done@);
    let ghost pos = log@.len() as int;
    let ghost vv = visited@;
    visited.push(copy_string(&path));
    proof {
        assert(strings_view(visited@) =~= strings_view(vv).push(path@));
    }
    let answer = resolver.resolve(path.as_str());
    let ghost av = answer_view(answer);
    let ghost cur: Answers = log@.push((path@, av));
    proof {
        assert(cur.subrange(0, log@.len() as int) =~= log@);
    }
    let mut imported = match load_import(&path, span, answer) {
        Ok(s) => s,
        Err(e) => {
            proof {
                assert(cur.subrange(0, cur.len() as int) =~= cur);
                assert forall|l: Answers|
                    #![trigger resolve_from(sk, l, pos, v0, dk, depth as int, k as int)]
                    log_extends(cur, l) implies resolve_from(sk, l, pos, v0, dk, depth as int, k as int)
                        == (Err::<(SpecSchema, Seq<Seq<char>>), SpecSchemaParseError>(e@), cur.len() as int) by {
                    assert(l[pos] == (path@, av)) by {
                        assert(l.subrange(0, cur.len() as int)[pos] == l[pos]);
                    }
                    lemma_resolve_refused(sk, l, pos, v0, dk, depth as int, k as int);
                }
            }
            return (Err(e), Ghost(cur));
        },
    };
    let ghost im = imported@;
    let (res, Ghost(l3)) = resolve_level(&mut imported, resolver, visited, done, depth + 1, Ghost(cur));
    proof {
        assert(log_extends(log@, l3)) by {
            assert(l3.subrange(0, log@.len() as int) =~= l3.subrange(0, cur.len() as int).subrange(0, log@.len() as int));
        }
        assert(l3[pos] == (path@, av)) by {
            assert(l3.subrange(0, cur.len() as int)[pos] == l3[pos]);
        }
        lemma_step(sk, pos, v0, dk, depth as int, k as int, path@, span, im, l3);
    }
    let ghost d2 = strings_view(done@);
    match res {
        Ok(()) => {},
        Err(e) => {
            return (Err(e), Ghost(l3));
        },
    }
    let ghost im2 = imported@;
    match merge_into(schema, imported, &path, span) {
        Ok(()) => {},
        Err(e) => {
            return (Err(e), Ghost(l3));
        },
    }
    proof {
        if names_distinct(sk.enums, sk.aliases) {
            lemma_merged_distinct(sk, im2, path@, span);
        }
        lemma_merged_extends(sk, im2, path@, span);
    }
    done.push(copy_string(&path));
    let ghost v1 = visited@;
    visited.pop();
    proof {
        assert(strings_view(visited@) =~= strings_view(v1).drop_last());
        assert(strings_view(done@) =~= d2.push(path@));
    }
    (Ok(()), Ghost(l3))
}

/// The outcome of a resolution as an executable result gives it.
pub open spec fn level_outcome(r: Result<(), SchemaParseError>, s: SpecSchema, done: Seq<Seq<char>>) -> Result<(SpecSchema, Seq<Seq<char>>), SpecSchemaParseError> {
    match r {
        Ok(()) => Ok((s, done)),
        Err(e) => Err(e@),
    }
}

/// Resolves the imports of a schema at the given nesting depth, merging what they define;
/// `visited` holds the import paths on the way here, and `done` the paths already resolved and
/// merged elsewhere, which are not merged again (a file may be imported from several branches).
/// The resolver's calls before are `log`; those after extend them with the calls made here,
/// and the outcome is what [`resolve_from`] gives for them.
fn resolve_level<R: SchemaResolver>(
    schema: &mut Schema,
    resolver: &R,
    visited: &mut Vec<String>,
    done: &mut Vec<String>,
    depth: usize,
    log: Ghost<Answers>,
) -> (r: (Result<(), SchemaParseError>, Ghost<Answers>))
    requires
        depth <= MAX_IMPORT_DEPTH + 1,
    ensures
        log_extends(log@, r.1@),
        resolve_from(
            old(schema)@,
            r.1@,
            log@.len() as int,
            strings_view(old(visited)@),
            strings_view(old(done)@),
            depth as int,
            0,
        ) == (level_outcome(r.0, final(schema)@, strings_view(final(done)@)), r.1@.len() as int),
        final(schema).root == old(schema).root,
        final(schema).imports == old(schema).imports,
        r.0 is Ok ==> strings_view(final(visited)@) == strings_view(old(visited)@),
        r.0 is Ok && names_distinct(old(schema)@.enums, old(schema)@.aliases) ==> names_distinct(
            final(schema)@.enums,
            final(schema)@.aliases,
        ),
        r.0 is Ok ==> extends_seq(enums_view(old(schema).enums@), enums_view(final(schema).enums@)),
        r.0 is Ok ==> extends_seq(aliases_view(old(schema).aliases@), aliases_view(final(schema).aliases@)),
        r.0 is Err ==> import_error_kind(r.0->Err_0.kind),
    decreases MAX_IMPORT_DEPTH + 1 - depth, 1int,
{
    let ghost s0 = schema@;
    let ghost v0 = strings_view(visited@);
    let ghost p0 = log@.len() as int;
    if depth > MAX_IMPORT_DEPTH {
        proof {
            assert(log@.subrange(0, log@.len() as int) =~= log@);
            lemma_resolve_too_deep(s0, log@, p0, v0, strings_view(old(done)@), depth as int, 0);
        }
        return (Err(depth_error_of(&schema.imports)), log);
    }
    let ghost mut cur: Answers = log@;
    let mut k: usize = 0;
    proof {
        assert(enums_view(schema.enums@).take(enums_view(schema.enums@).len() as int) =~= enums_view(schema.enums@));
        assert(aliases_view(schema.aliases@).take(aliases_view(schema.aliases@).len() as int) =~= aliases_view(schema.aliases@));
        assert(log@.subrange(0, log@.len() as int) =~= log@);
    }
    while k < schema.imports.len()
        invariant
            k <= schema.imports@.len(),
            depth <= MAX_IMPORT_DEPTH,
            s0 == old(schema)@,
            v0 == strings_view(old(visited)@),
            p0 == log@.len(),
            log_extends(log@, cur),
            schema.root == old(schema).root,
            schema.imports == old(schema).imports,
            strings_view(visited@) == v0,
            names_distinct(old(schema)@.enums, old(schema)@.aliases) ==> names_distinct(schema@.enums, schema@.aliases),
            extends_seq(enums_view(old(schema).enums@), enums_view(schema.enums@)),
            extends_seq(aliases_view(old(schema).aliases@), aliases_view(schema.aliases@)),
            forall|l: Answers|
                #![trigger resolve_from(s0, l, p0, v0, strings_view(old(done)@), depth as int, 0)]
                log_extends(cur, l) ==> resolve_from(s0, l, p0, v0, strings_view(old(done)@), depth as int, 0)
                    == resolve_from(schema@, l, cur.len() as int, v0, strings_view(done@), depth as int, k as int),
        decreases schema.imports@.len() - k,
    {
        let path = copy_string(&schema.imports[k].value);
        let span = schema.imports[k].span;
        let ghost sk = schema@;
        let ghost dk = strings_view(done@);
        let ghost pos = cur.len() as int;
        proof {
            assert(sk.imports[k as int].value == path@);
            assert(sk.imports[k as int].span == span);
            assert(log_extends(cur, cur)) by {
                assert(cur.subrange(0, cur.len() as int) =~= cur);
            }
        }
        if contains_name(visited, &path) {
            proof {
                assert(log_extends(cur, cur));
                lemma_resolve_circular(sk, cur, pos, v0, dk, depth as int, k as int);
            }
            return (Err(SchemaParseError { span, kind: SchemaErrorKind::CircularImport { path } }), Ghost(cur));
        }
        if contains_name(done, &path) {
            proof {
                assert forall|l: Answers|
                    #![trigger resolve_from(s0, l, p0, v0, strings_view(old(done)@), depth as int, 0)]
                    log_extends(cur, l) implies resolve_from(s0, l, p0, v0, strings_view(old(done)@), depth as int, 0)
                        == resolve_from(schema@, l, cur.len() as int, v0, strings_view(done@), depth as int, k + 1) by {
                    lemma_resolve_skip(schema@, l, pos, v0, dk, depth as int, k as int);
                }
            }
            k = k + 1;
            continue;
        }
        let (res, Ghost(l3)) = import_one(schema, resolver, visited, done, depth, k, path, span, Ghost(cur));
        match res {
            Ok(()) => {},
            Err(e) => {
                proof {
                    assert(l3.subrange(0, l3.len() as int) =~= l3);
                    assert(log_extends(log@, l3)) by {
                        assert(l3.subrange(0, log@.len() as int) =~= l3.subrange(0, cur.len() as int).subrange(0, log@.len() as int));
                    }
                    assert(log_extends(cur, l3));
                }
                return (Err(e), Ghost(l3));
            },
        }
        proof {
            lemma_extends_trans(enums_view(old(schema).enums@), sk.enums, enums_view(schema.enums@));
            lemma_extends_trans(aliases_view(old(schema).aliases@), sk.aliases, aliases_view(schema.aliases@));
            assert(log_extends(log@, l3)) by {
                assert(l3.subrange(0, log@.len() as int) =~= l3.subrange(0, cur.len() as int).subrange(0, log@.len() as int));
            }
            assert forall|l: Answers|
                #![trigger resolve_from(s0, l, p0, v0, strings_view(old(done)@), depth as int, 0)]
                log_extends(l3, l) implies resolve_from(s0, l, p0, v0, strings_view(old(done)@), depth as int, 0)
                    == resolve_from(schema@, l, l3.len() as int, v0, strings_view(done@), depth as int, k + 1) by {
                assert(log_extends(cur, l)) by {
                    assert(l.subrange(0, cur.len() as int) =~= l.subrange(0, l3.len() as int).subrange(0, cur.len() as int));
                }
            }
            cur = l3;
        }
        k = k + 1;
    }
    proof {
        assert(cur.subrange(0, cur.len() as int) =~= cur);
        lemma_resolve_end(schema@, cur, cur.len() as int, v0, strings_view(done@), depth as int, k as int);
    }
    (Ok(()), Ghost(cur))
}


/// Reclassifies the root struct's references against all aliases, then checks its names and
/// defaults (see [`finished_root`]).
pub fn finish_root(schema: &mut Schema) -> (r: Result<(), SchemaParseError>)
    ensures
        final(schema).enums == old(schema).enums,
        final(schema).aliases == old(schema).aliases,
        final(schema).imports == old(schema).imports,
        final(schema).root@ == reclass_struct(old(schema).root@, alias_names(aliases_view(old(schema).aliases@))),
        match finished_root(old(schema)@) {
            Ok(root) => r is Ok && final(schema).root@ == root,
            Err(e) => r is Err && r->Err_0@ == e,
        },
{
    let names = names_of_aliases(&schema.aliases);
    let mut root = StructDef { fields: Vec::new(), annotations: Vec::new() };
    std::mem::swap(&mut root, &mut schema.root);
    schema.root = reclassify_struct(root, &names);
    match check_field_refs(&schema.root, &schema.enums, &schema.aliases) {
        Ok(()) => {},
        Err(e) => {
            return Err(e);
        },
    }
    match check_field_keys(&schema.root, &schema.aliases) {
        Ok(()) => {},
        Err(e) => {
            return Err(e);
        },
    }
    let fuel = schema.aliases.len();
    check_defaults(&schema.root, &schema.enums, &schema.aliases, fuel)
}

/// Resolves all imports of a parsed schema, merging the imported enums and type aliases into
/// the schema's namespace, then checks the root struct's names and defaults against the whole.
///
/// - Rejects name collisions between imported and already defined types.
/// - Detects circular import chains; import nesting is limited to 10 levels.
/// - A file imported from several branches is merged once.
/// - Only enums and aliases are imported; the root struct stays the schema's own.
///
/// The resolver's calls, in the order they were made, are some `log` of paths asked and answers
/// given: [`resolve_from`] from the schema as it was reads all of them and no more, asking the
/// resolver for exactly those paths in that order, and the outcome is what it gives for those
/// answers (what is merged, or the error), followed by the check of the root struct
/// ([`finished_root`]).
pub fn resolve_imports<R: SchemaResolver>(schema: &mut Schema, resolver: &R) -> (r: Result<(), SchemaParseError>)
    ensures
        exists|log: Answers|
            #![trigger resolve_from(old(schema)@, log, 0, Seq::empty(), Seq::empty(), 0, 0)]
            resolved(old(schema)@, log, r, final(schema)@),
        final(schema).imports == old(schema).imports,
        r is Ok && names_distinct(old(schema)@.enums, old(schema)@.aliases) ==> names_distinct(
            final(schema)@.enums,
            final(schema)@.aliases,
        ),
{
    let mut visited: Vec<String> = Vec::new();
    let mut done: Vec<String> = Vec::new();
    let ghost s0 = schema@;
    proof {
        assert(strings_view(visited@) =~= Seq::<Seq<char>>::empty());
        assert(strings_view(done@) =~= Seq::<Seq<char>>::empty());
    }
    let (res, Ghost(log)) = resolve_level(schema, resolver, &mut visited, &mut done, 0, Ghost(Seq::empty()));
    let ghost s1 = schema@;
    match res {
        Ok(()) => {},
        Err(e) => {
            proof {
                assert(resolved(s0, log, Err(e), schema@));
            }
            return Err(e);
        },
    }
    let r = finish_root(schema);
    proof {
        assert(resolved(s0, log, r, schema@));
    }
    r
}

/// Whether `r` and the schema `after` are the outcome of resolving the imports of `before` when
/// the resolver's calls were `log`: resolution asks for exactly the paths of `log`, in order,
/// and gives the error it comes to, or, when it merges, the merged enums and aliases and the
/// checked root struct (or the check's error).
pub open spec fn resolved(before: SpecSchema, log: Answers, r: Result<(), SchemaParseError>, after: SpecSchema) -> bool {
    let o = resolve_from(before, log, 0, Seq::empty(), Seq::empty(), 0, 0);
    &&& o.1 == log.len()
    &&& match o.0 {
        Err(e) => r is Err && r->Err_0@ == e,
        Ok((s2, _)) => {
            &&& after.enums == s2.enums
            &&& after.aliases == s2.aliases
            &&& after.imports == s2.imports
            &&& match finished_root(s2) {
                Ok(root) => r is Ok && after.root == root,
                Err(e) => r is Err && r->Err_0@ == e,
            }
        },
    }
}

} // verus!
