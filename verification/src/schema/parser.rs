use vstd::prelude::*;
use vstd::string::StringSliceAdditionalSpecFns;
use crate::error::{RonErrorKind, RonParseError, SchemaErrorKind, SchemaParseError, SpecSchemaParseError};
use crate::ron::parser::{Parser as RonParser, quoted_text, paren_is_struct};
use crate::ron::{RonValue, SpecRonValue};
use crate::span::{Position, Span, Spanned};
use crate::text::{skip_ws, pos_at, lemma_skip_ws_bounds, push_char, append_str, owned, chars_of, str_eq, copy_string};
use super::{SchemaType, SpecSchemaType, types_view, FieldAnnotation, RequireConstraint, CompareOp, SpecFieldAnnotation, FieldDef, StructDef, field_defs_view, requires_view, SpecFieldDef, SpecRequire, EnumDef, variants_view, SpecEnumDef, enums_view, aliases_view, Schema};
use super::check::{schema_of_source, check_schema};
use crate::number::Decimal;
use super::grammar::{variant_named, field_repeated_at, field_named_before, at_import, imports_at, defs_at, has_enum, has_alias, schema_parts, insert_variant, variant_data_at, variants_at, enum_def_at, alias_def_at, struct_of, items_after, lemma_items_after_empty, lemma_items_after_assoc, lemma_items_end, lemma_items_annotation, lemma_items_field, field_default, list_type_at, dict_type_at, named_type_at, option_type_at, annotation_item, field_item, ron_value_at, lemma_ron_value_at, SpecAnnotation, number_arg, length_arg, string_arg, operator_at, close_annotation, annotation_at, field_at, struct_at, struct_items, type_at, tuple_type_at, tuple_types, escape_char, escape_chars, debug_quoted, ron_kind_text, type_debug_text, types_debug_text, value_kind_text, as_schema_error, value_error, sexpect, sident};

verus! {

// ===========================================================================
// Texts of error messages
// ===========================================================================

/// Appends `s` with `"`, `\`, newline, tab and carriage return escaped.
fn push_escaped(out: &mut String, s: &str)
    ensures
        final(out)@ == old(out)@ + escape_chars(s@),
{
    let cs = chars_of(s);
    let mut i: usize = 0;
    while i < cs.len()
        invariant
            cs@ == s@,
            i <= cs@.len(),
            out@ == old(out)@ + escape_chars(cs@.take(i as int)),
        decreases cs@.len() - i,
    {
        let c = cs[i];
        let ghost before = out@;
        if c == '"' {
            push_char(out, '\\');
            push_char(out, '"');
        } else if c == '\\' {
            push_char(out, '\\');
            push_char(out, '\\');
        } else if c == '\n' {
            push_char(out, '\\');
            push_char(out, 'n');
        } else if c == '\t' {
            push_char(out, '\\');
            push_char(out, 't');
        } else if c == '\r' {
            push_char(out, '\\');
            push_char(out, 'r');
        } else {
            push_char(out, c);
        }
        assert(out@ =~= before + escape_char(c));
        assert(cs@.take(i + 1).drop_last() =~= cs@.take(i as int));
        assert(cs@.take(i + 1).last() == c);
        i = i + 1;
        assert(out@ =~= old(out)@ + escape_chars(cs@.take(i as int)));
    }
    assert(cs@.take(cs@.len() as int) =~= cs@);
}

/// The string written in double quotes, escaped as in a debug listing.
pub fn debug_quoted_text(s: &str) -> (r: String)
    ensures
        r@ == debug_quoted(s@),
{
    let mut out = String::new();
    push_char(&mut out, '"');
    push_escaped(&mut out, s);
    push_char(&mut out, '"');
    assert(out@ =~= debug_quoted(s@));
    out
}

/// The text of a RON parse error kind.
pub fn ron_kind_string(k: &RonErrorKind) -> (r: String)
    ensures
        r@ == ron_kind_text(k@),
{
    let mut out = String::new();
    match k {
        RonErrorKind::UnexpectedToken { expected, found } => {
            append_str(&mut out, "UnexpectedToken { expected: ");
            let q = debug_quoted_text(expected.as_str());
            append_str(&mut out, q.as_str());
            append_str(&mut out, ", found: ");
            let q2 = debug_quoted_text(found.as_str());
            append_str(&mut out, q2.as_str());
            append_str(&mut out, " }");
        },
        RonErrorKind::UnterminatedString => {
            append_str(&mut out, "UnterminatedString");
        },
        RonErrorKind::DuplicateField { field_name } => {
            append_str(&mut out, "DuplicateField { field_name: ");
            let q = debug_quoted_text(field_name.as_str());
            append_str(&mut out, q.as_str());
            append_str(&mut out, " }");
        },
        RonErrorKind::InvalidNumber { text } => {
            append_str(&mut out, "InvalidNumber { text: ");
            let q = debug_quoted_text(text.as_str());
            append_str(&mut out, q.as_str());
            append_str(&mut out, " }");
        },
    }
    assert(out@ =~= ron_kind_text(k@));
    out
}

/// The text of a schema type in the style of a debug listing.
pub fn type_debug_string(t: &SchemaType) -> (r: String)
    ensures
        r@ == type_debug_text(t@),
    decreases t,
{
    let mut out = String::new();
    match t {
        SchemaType::String => append_str(&mut out, "String"),
        SchemaType::Integer => append_str(&mut out, "Integer"),
        SchemaType::Float => append_str(&mut out, "Float"),
        SchemaType::Bool => append_str(&mut out, "Bool"),
        SchemaType::Option(b) => {
            append_str(&mut out, "Option(");
            let x = type_debug_string(b);
            append_str(&mut out, x.as_str());
            append_str(&mut out, ")");
        },
        SchemaType::List(b) => {
            append_str(&mut out, "List(");
            let x = type_debug_string(b);
            append_str(&mut out, x.as_str());
            append_str(&mut out, ")");
        },
        SchemaType::EnumRef(n) => {
            append_str(&mut out, "EnumRef(");
            let x = debug_quoted_text(n.as_str());
            append_str(&mut out, x.as_str());
            append_str(&mut out, ")");
        },
        SchemaType::AliasRef(n) => {
            append_str(&mut out, "AliasRef(");
            let x = debug_quoted_text(n.as_str());
            append_str(&mut out, x.as_str());
            append_str(&mut out, ")");
        },
        SchemaType::Dict(k, v) => {
            append_str(&mut out, "Map(");
            let x = type_debug_string(k);
            append_str(&mut out, x.as_str());
            append_str(&mut out, ", ");
            let y = type_debug_string(v);
            append_str(&mut out, y.as_str());
            append_str(&mut out, ")");
        },
        SchemaType::Tuple(ts) => {
            append_str(&mut out, "Tuple([");
            let ghost tv = crate::schema::types_view(ts@);
            let mut i: usize = 0;
            while i < ts.len()
                invariant
                    i <= ts@.len(),
                    *t == SchemaType::Tuple(*ts),
                    tv == crate::schema::types_view(ts@),
                    out@ == "Tuple(["@ + types_debug_text(tv, i as int),
                decreases ts@.len() - i,
            {
                let ghost before = out@;
                if i > 0 {
                    append_str(&mut out, ", ");
                }
                proof {
                    vstd::std_specs::vec::axiom_vec_index_decreases(*ts, i as int);
                    assert(decreases_to!(*t => (*t)->Tuple_0));
                }
                let x = type_debug_string(&ts[i]);
                append_str(&mut out, x.as_str());
                assert(tv[i as int] == ts@[i as int]@);
                i = i + 1;
                assert(out@ =~= "Tuple(["@ + types_debug_text(tv, i as int));
            }
            append_str(&mut out, "])");
            assert(tv.len() == ts@.len());
        },
        SchemaType::Struct(_) => append_str(&mut out, "Struct(StructDef { .. })"),
    }
    assert(out@ =~= type_debug_text(t@));
    out
}

/// The name of the kind of a RON value.
pub fn value_kind_string(v: &RonValue) -> (r: String)
    ensures
        r@ == value_kind_text(crate::ron::value_view(*v)),
{
    match v {
        RonValue::String(_) => owned("String"),
        RonValue::Integer(_) => owned("Integer"),
        RonValue::Float(_) => owned("Float"),
        RonValue::Bool(_) => owned("Bool"),
        RonValue::Option(_) => owned("Option"),
        RonValue::Identifier(_) => owned("Identifier"),
        RonValue::EnumVariant(_, _) => owned("EnumVariant"),
        RonValue::List(_) => owned("List"),
        RonValue::Dict(_) => owned("Map"),
        RonValue::Tuple(_) => owned("Tuple"),
        RonValue::Struct(_) => owned("Struct"),
    }
}

// ===========================================================================
// Errors
// ===========================================================================

/// A token error of the RON scanner as a schema error.
fn schema_error_of(e: RonParseError) -> (r: SchemaParseError)
    requires
        e.kind is UnexpectedToken,
    ensures
        r@ == as_schema_error(e@),
{
    match e.kind {
        RonErrorKind::UnexpectedToken { expected, found } => SchemaParseError {
            span: e.span,
            kind: SchemaErrorKind::UnexpectedToken { expected, found },
        },
        _ => {
            proof {
                assert(false);
            }
            SchemaParseError { span: e.span, kind: SchemaErrorKind::UnexpectedToken { expected: String::new(), found: String::new() } }
        },
    }
}

/// A RON value error reported against what was being read.
fn value_error_of(e: RonParseError, what: &str) -> (r: SchemaParseError)
    ensures
        r@ == value_error(e@, what@),
{
    let found = ron_kind_string(&e.kind);
    SchemaParseError { span: e.span, kind: SchemaErrorKind::UnexpectedToken { expected: owned(what), found } }
}

fn token_error_at(span: Span, expected: &str, found: String) -> (r: SchemaParseError)
    ensures
        r@ == super::grammar::token_error(span, expected@, found@),
{
    SchemaParseError { span, kind: SchemaErrorKind::UnexpectedToken { expected: owned(expected), found } }
}

/// Whether an exec parse result agrees with the grammar's outcome `g`, the parser having
/// stopped at offset `end`.
pub open spec fn sagrees<T: View>(
    r: Result<T, SchemaParseError>,
    g: Result<(T::V, int), SpecSchemaParseError>,
    end: int,
) -> bool {
    match g {
        Ok((v, e)) => r is Ok && r->Ok_0@ == v && end == e,
        Err(x) => r is Err && r->Err_0@ == x,
    }
}

// ===========================================================================
// The parser
// ===========================================================================

/// A cursor over schema source bytes that tracks line and column as it advances.
pub struct Parser<'a> {
    /// The source bytes.
    pub bytes: &'a [u8],
    /// Byte offset of the next unread byte.
    pub offset: usize,
    /// Line of the next unread byte (1-based).
    pub line: usize,
    /// Column of the next unread byte (1-based).
    pub column: usize,
}

impl<'a> Parser<'a> {
    /// The cursor is within the source and its line and column are those of its offset.
    pub open spec fn wf(&self) -> bool {
        self.ron().wf()
    }

    pub open spec fn ron(&self) -> RonParser<'a> {
        RonParser { bytes: self.bytes, offset: self.offset, line: self.line, column: self.column }
    }

    fn cursor(&self) -> (c: RonParser<'a>)
        ensures
            c == self.ron(),
    {
        RonParser { bytes: self.bytes, offset: self.offset, line: self.line, column: self.column }
    }

    fn take(&mut self, c: RonParser<'a>)
        requires
            c.bytes == old(self).bytes,
        ensures
            final(self).ron() == c,
    {
        self.offset = c.offset;
        self.line = c.line;
        self.column = c.column;
    }

    /// A parser at the start of `source`.
    pub fn new(source: &'a str) -> (p: Self)
        requires
            source.spec_bytes().len() < usize::MAX,
        ensures
            p.wf(),
            p.bytes@ == source.spec_bytes(),
            p.offset == 0,
    {
        let c = RonParser::new(source);
        Parser { bytes: c.bytes, offset: c.offset, line: c.line, column: c.column }
    }

    /// The current position.
    pub fn position(&self) -> (p: Position)
        requires
            self.wf(),
        ensures
            p == pos_at(self.bytes@, self.offset as int),
    {
        self.cursor().position()
    }

    /// The next byte, if any.
    pub fn peek(&self) -> (r: Option<u8>)
        ensures
            r == if self.offset < self.bytes@.len() {
                Some(self.bytes@[self.offset as int])
            } else {
                None::<u8>
            },
    {
        self.cursor().peek()
    }

    /// Moves past the next byte, if any, keeping line and column in step.
    pub fn advance(&mut self)
        requires
            old(self).wf(),
        ensures
            final(self).wf(),
            final(self).bytes == old(self).bytes,
            final(self).offset == if old(self).offset < old(self).bytes@.len() {
                old(self).offset + 1
            } else {
                old(self).offset as int
            },
    {
        let mut c = self.cursor();
        c.advance();
        self.take(c);
    }

    /// Moves past whitespace and `//` line comments.
    pub fn skip_whitespace(&mut self)
        requires
            old(self).wf(),
        ensures
            final(self).wf(),
            final(self).bytes == old(self).bytes,
            final(self).offset == skip_ws(old(self).bytes@, old(self).offset as int),
            final(self).offset >= old(self).offset,
    {
        proof {
            lemma_skip_ws_bounds(self.bytes@, self.offset as int);
        }
        let mut c = self.cursor();
        c.skip_whitespace();
        self.take(c);
    }

    /// Consumes the byte `expected`, or reports what stands there instead.
    pub fn expect_char(&mut self, expected: u8) -> (r: Result<(), SchemaParseError>)
        requires
            old(self).wf(),
        ensures
            final(self).wf(),
            final(self).bytes == old(self).bytes,
            match sexpect(old(self).bytes@, old(self).offset as int, expected) {
                Ok(e) => r is Ok && final(self).offset == e,
                Err(x) => r is Err && r->Err_0@ == x,
            },
    {
        let mut c = self.cursor();
        let r = c.expect_char(expected);
        self.take(c);
        match r {
            Ok(()) => Ok(()),
            Err(e) => Err(schema_error_of(e)),
        }
    }

    /// Reads an identifier: a letter or `_`, then letters, digits and `_`.
    pub fn parse_identifier(&mut self) -> (r: Result<Spanned<String>, SchemaParseError>)
        requires
            old(self).wf(),
        ensures
            final(self).wf(),
            final(self).bytes == old(self).bytes,
            sagrees(r, sident(old(self).bytes@, old(self).offset as int), final(self).offset as int),
            r is Ok ==> final(self).offset > old(self).offset,
    {
        proof {
            crate::text::lemma_ident_end_bounds(self.bytes@, self.offset as int);
        }
        let mut c = self.cursor();
        let r = c.parse_identifier();
        self.take(c);
        match r {
            Ok(id) => Ok(id),
            Err(e) => Err(schema_error_of(e)),
        }
    }
}


impl<'a> Parser<'a> {
    /// Reads one RON value (after optional whitespace) at the cursor.
    fn ron_value(&mut self) -> (r: Result<Spanned<RonValue>, RonParseError>)
        requires
            old(self).wf(),
        ensures
            final(self).wf(),
            final(self).bytes == old(self).bytes,
            crate::ron::parser::agrees(r, ron_value_at(old(self).bytes@, old(self).offset as int), final(self).offset as int),
            r is Ok ==> final(self).offset > old(self).offset,
    {
        proof {
            lemma_ron_value_at(self.bytes@, self.offset as int);
        }
        let mut c = self.cursor();
        let r = c.parse_value();
        self.take(c);
        r
    }

    /// Whether the parenthesis under the cursor opens a struct rather than a tuple; the cursor
    /// does not move.
    fn paren_is_struct_here(&self) -> (r: bool)
        requires
            self.wf(),
        ensures
            r == paren_is_struct(self.bytes@, self.offset as int),
    {
        let mut c = self.cursor();
        let ghost s = self.bytes@;
        let ghost j = self.offset as int;
        c.advance();
        proof {
            if j >= s.len() {
                lemma_skip_ws_bounds(s, j);
            }
        }
        c.skip_whitespace();
        let r = if c.peek() == Some(0x29u8) {
            true
        } else {
            match c.parse_identifier() {
                Ok(_) => {
                    c.skip_whitespace();
                    c.peek() == Some(0x3au8)
                },
                Err(_) => false,
            }
        };
        r
    }

    /// Parses a type after optional whitespace.
    pub fn parse_type(&mut self) -> (r: Result<Spanned<SchemaType>, SchemaParseError>)
        requires
            old(self).wf(),
        ensures
            final(self).wf(),
            final(self).bytes == old(self).bytes,
            sagrees(r, type_at(old(self).bytes@, old(self).offset as int), final(self).offset as int),
            r is Ok ==> final(self).offset > old(self).offset,
        decreases old(self).bytes@.len() - old(self).offset, 2int,
    {
        let ghost s = self.bytes@;
        let ghost i = self.offset as int;
        proof {
            lemma_skip_ws_bounds(s, i);
        }
        self.skip_whitespace();
        let start = self.position();
        match self.peek() {
            None => Err(token_error_at(Span { start, end: start }, "type", owned("end of input"))),
            Some(b) => {
                if b == 0x5b {
                    self.parse_list_type()
                } else if b == 0x7b {
                    self.parse_dict_type()
                } else if b == 0x28 {
                    if self.paren_is_struct_here() {
                        let sd = match self.parse_struct() {
                            Ok(sd) => sd,
                            Err(e) => {
                                return Err(e);
                            },
                        };
                        let end = self.position();
                        Ok(Spanned { value: SchemaType::Struct(sd), span: Span { start, end } })
                    } else {
                        let ts = match self.parse_tuple_type() {
                            Ok(ts) => ts,
                            Err(e) => {
                                return Err(e);
                            },
                        };
                        let end = self.position();
                        Ok(Spanned { value: SchemaType::Tuple(ts), span: Span { start, end } })
                    }
                } else if crate::text::byte_is_alpha(b) {
                    self.parse_named_type()
                } else {
                    self.advance();
                    let end = self.position();
                    Err(token_error_at(Span { start, end }, "type", quoted_text(b)))
                }
            },
        }
    }

    fn parse_list_type(&mut self) -> (r: Result<Spanned<SchemaType>, SchemaParseError>)
        requires
            old(self).wf(),
            old(self).offset < old(self).bytes@.len(),
        ensures
            final(self).wf(),
            final(self).bytes == old(self).bytes,
            sagrees(r, list_type_at(old(self).bytes@, old(self).offset as int), final(self).offset as int),
            r is Ok ==> final(self).offset > old(self).offset,
        decreases old(self).bytes@.len() - old(self).offset, 1int,
    {
        let ghost s = self.bytes@;
        let ghost w = self.offset as int;
        let start = self.position();
        self.advance();
        proof {
            lemma_skip_ws_bounds(s, w + 1);
        }
        self.skip_whitespace();
        let inner = match self.parse_type() {
            Ok(t) => t,
            Err(e) => {
                return Err(e);
            },
        };
        let ghost ie = self.offset as int;
        proof {
            lemma_skip_ws_bounds(s, ie);
        }
        self.skip_whitespace();
        match self.expect_char(0x5d) {
            Ok(()) => {},
            Err(e) => {
                return Err(e);
            },
        }
        let end = self.position();
        Ok(Spanned { value: SchemaType::List(Box::new(inner.value)), span: Span { start, end } })
    }

    fn parse_dict_type(&mut self) -> (r: Result<Spanned<SchemaType>, SchemaParseError>)
        requires
            old(self).wf(),
            old(self).offset < old(self).bytes@.len(),
        ensures
            final(self).wf(),
            final(self).bytes == old(self).bytes,
            sagrees(r, dict_type_at(old(self).bytes@, old(self).offset as int), final(self).offset as int),
            r is Ok ==> final(self).offset > old(self).offset,
        decreases old(self).bytes@.len() - old(self).offset, 1int,
    {
        let ghost s = self.bytes@;
        let ghost w = self.offset as int;
        let start = self.position();
        self.advance();
        proof {
            lemma_skip_ws_bounds(s, w + 1);
        }
        self.skip_whitespace();
        let key = match self.parse_type() {
            Ok(t) => t,
            Err(e) => {
                return Err(e);
            },
        };
        let key_ok = match &key.value {
            SchemaType::String => true,
            SchemaType::Integer => true,
            SchemaType::EnumRef(_) => true,
            _ => false,
        };
        if !key_ok {
            let found = type_debug_string(&key.value);
            return Err(SchemaParseError { span: key.span, kind: SchemaErrorKind::InvalidMapKeyType { found } });
        }
        let ghost ke = self.offset as int;
        proof {
            lemma_skip_ws_bounds(s, ke);
        }
        self.skip_whitespace();
        match self.expect_char(0x3a) {
            Ok(()) => {},
            Err(e) => {
                return Err(e);
            },
        }
        let ghost o = self.offset as int;
        proof {
            lemma_skip_ws_bounds(s, o);
        }
        self.skip_whitespace();
        let value = match self.parse_type() {
            Ok(t) => t,
            Err(e) => {
                return Err(e);
            },
        };
        let ghost ve = self.offset as int;
        proof {
            lemma_skip_ws_bounds(s, ve);
        }
        self.skip_whitespace();
        match self.expect_char(0x7d) {
            Ok(()) => {},
            Err(e) => {
                return Err(e);
            },
        }
        let end = self.position();
        Ok(Spanned { value: SchemaType::Dict(Box::new(key.value), Box::new(value.value)), span: Span { start, end } })
    }

    fn parse_named_type(&mut self) -> (r: Result<Spanned<SchemaType>, SchemaParseError>)
        requires
            old(self).wf(),
            old(self).offset < old(self).bytes@.len(),
        ensures
            final(self).wf(),
            final(self).bytes == old(self).bytes,
            sagrees(r, named_type_at(old(self).bytes@, old(self).offset as int), final(self).offset as int),
            r is Ok ==> final(self).offset > old(self).offset,
        decreases old(self).bytes@.len() - old(self).offset, 1int,
    {
        let ghost s = self.bytes@;
        let ghost w = self.offset as int;
        let start = self.position();
        let id = match self.parse_identifier() {
            Ok(id) => id,
            Err(e) => {
                return Err(e);
            },
        };
        proof {
            crate::text::lemma_ident_end_bounds(s, w);
        }
        if str_eq(id.value.as_str(), "String") {
            Ok(Spanned { value: SchemaType::String, span: id.span })
        } else if str_eq(id.value.as_str(), "Integer") {
            Ok(Spanned { value: SchemaType::Integer, span: id.span })
        } else if str_eq(id.value.as_str(), "Float") {
            Ok(Spanned { value: SchemaType::Float, span: id.span })
        } else if str_eq(id.value.as_str(), "Bool") {
            Ok(Spanned { value: SchemaType::Bool, span: id.span })
        } else if str_eq(id.value.as_str(), "Option") {
            self.parse_option_rest(start)
        } else {
            Ok(Spanned { value: SchemaType::EnumRef(id.value), span: id.span })
        }
    }

    fn parse_option_rest(&mut self, start: Position) -> (r: Result<Spanned<SchemaType>, SchemaParseError>)
        requires
            old(self).wf(),
            start.offset < old(self).offset,
            start == pos_at(old(self).bytes@, start.offset as int),
        ensures
            final(self).wf(),
            final(self).bytes == old(self).bytes,
            sagrees(r, option_type_at(old(self).bytes@, start.offset as int, old(self).offset as int), final(self).offset as int),
            r is Ok ==> final(self).offset > old(self).offset,
        decreases old(self).bytes@.len() - old(self).offset, 3int,
    {
        let ghost s = self.bytes@;
        let ghost e = self.offset as int;
        proof {
            lemma_skip_ws_bounds(s, e);
        }
        self.skip_whitespace();
        match self.expect_char(0x28) {
            Ok(()) => {},
            Err(e) => {
                return Err(e);
            },
        }
        let ghost o = self.offset as int;
        proof {
            lemma_skip_ws_bounds(s, o);
        }
        self.skip_whitespace();
        let inner = match self.parse_type() {
            Ok(t) => t,
            Err(e) => {
                return Err(e);
            },
        };
        let ghost ie = self.offset as int;
        proof {
            lemma_skip_ws_bounds(s, ie);
        }
        self.skip_whitespace();
        match self.expect_char(0x29) {
            Ok(()) => {},
            Err(e) => {
                return Err(e);
            },
        }
        let end = self.position();
        Ok(Spanned { value: SchemaType::Option(Box::new(inner.value)), span: Span { start, end } })
    }

    /// Parses a tuple type `(T, T, ...)` after optional whitespace.
    pub fn parse_tuple_type(&mut self) -> (r: Result<Vec<SchemaType>, SchemaParseError>)
        requires
            old(self).wf(),
        ensures
            final(self).wf(),
            final(self).bytes == old(self).bytes,
            match tuple_type_at(old(self).bytes@, old(self).offset as int) {
                Ok((ts, e)) => r is Ok && types_view(r->Ok_0@) == ts && final(self).offset == e,
                Err(x) => r is Err && r->Err_0@ == x,
            },
            r is Ok ==> final(self).offset > old(self).offset,
        decreases old(self).bytes@.len() - old(self).offset, 1int,
    {
        let ghost s = self.bytes@;
        let ghost i = self.offset as int;
        proof {
            lemma_skip_ws_bounds(s, i);
        }
        self.skip_whitespace();
        match self.expect_char(0x28) {
            Ok(()) => {},
            Err(e) => {
                return Err(e);
            },
        }
        let ghost o = self.offset as int;
        let mut types: Vec<SchemaType> = Vec::new();
        loop
            invariant
                self.wf(),
                self.bytes@ == s,
                self.bytes == old(self).bytes,
                s == old(self).bytes@,
                i == old(self).offset,
                i < o <= self.offset <= s.len(),
                tuple_type_at(s, i) == tuple_types(s, o),
                match tuple_types(s, self.offset as int) {
                    Ok((rest, e)) => tuple_types(s, o) == Ok::<(Seq<SpecSchemaType>, int), SpecSchemaParseError>((types_view(types@) + rest, e)),
                    Err(x) => tuple_types(s, o) == Err::<(Seq<SpecSchemaType>, int), SpecSchemaParseError>(x),
                },
            decreases s.len() - self.offset,
        {
            let ghost c = self.offset as int;
            proof {
                lemma_skip_ws_bounds(s, c);
            }
            self.skip_whitespace();
            if self.peek() == Some(0x29u8) {
                self.advance();
                assert(types_view(types@) + Seq::<SpecSchemaType>::empty() =~= types_view(types@));
                return Ok(types);
            }
            let t = match self.parse_type() {
                Ok(t) => t,
                Err(e) => {
                    return Err(e);
                },
            };
            let ghost te = self.offset as int;
            proof {
                lemma_skip_ws_bounds(s, te);
            }
            let ghost before = types@;
            let ghost tv = t.value@;
            types.push(t.value);
            self.skip_whitespace();
            if self.peek() == Some(0x2cu8) {
                self.advance();
            }
            proof {
                assert(types_view(types@) =~= types_view(before).push(tv));
                match tuple_types(s, self.offset as int) {
                    Ok((rest, end)) => {
                        assert(types_view(before) + (seq![tv] + rest) =~= types_view(types@) + rest);
                    },
                    Err(x) => {},
                }
            }
        }
    }
}


/// An annotation as read: one on the next field, or a cross-field constraint on the struct.
pub enum Annotation {
    Field(Spanned<FieldAnnotation>),
    Require(Spanned<RequireConstraint>),
}

impl View for Annotation {
    type V = SpecAnnotation;

    open spec fn view(&self) -> SpecAnnotation {
        match self {
            Annotation::Field(f) => SpecAnnotation::Field(f@),
            Annotation::Require(r) => SpecAnnotation::Require(r@),
        }
    }
}

pub open spec fn anns_view(a: Seq<Spanned<FieldAnnotation>>) -> Seq<Spanned<SpecFieldAnnotation>> {
    a.map_values(|x: Spanned<FieldAnnotation>| x@)
}

impl<'a> Parser<'a> {
    /// A number argument of an annotation at the cursor.
    fn number_argument(&mut self) -> (r: Result<Decimal, SchemaParseError>)
        requires
            old(self).wf(),
        ensures
            final(self).wf(),
            final(self).bytes == old(self).bytes,
            sagrees(r, number_arg(old(self).bytes@, old(self).offset as int), final(self).offset as int),
            r is Ok ==> final(self).offset > old(self).offset,
    {
        match self.ron_value() {
            Err(x) => Err(value_error_of(x, "annotation argument")),
            Ok(v) => match v.value {
                RonValue::Integer(n) => Ok(Decimal::from_i64(n)),
                RonValue::Float(d) => Ok(d),
                other => {
                    let found = value_kind_string(&other);
                    Err(token_error_at(v.span, "number", found))
                },
            },
        }
    }

    /// A length argument of an annotation at the cursor.
    fn length_argument(&mut self) -> (r: Result<usize, SchemaParseError>)
        requires
            old(self).wf(),
        ensures
            final(self).wf(),
            final(self).bytes == old(self).bytes,
            match length_arg(old(self).bytes@, old(self).offset as int) {
                Ok((n, e)) => r == Ok::<usize, SchemaParseError>(n) && final(self).offset == e,
                Err(x) => r is Err && r->Err_0@ == x,
            },
            r is Ok ==> final(self).offset > old(self).offset,
    {
        match self.ron_value() {
            Err(x) => Err(value_error_of(x, "annotation argument")),
            Ok(v) => match v.value {
                RonValue::Integer(n) => {
                    if n >= 0 && (n as u64) <= (usize::MAX as u64) {
                        Ok(n as usize)
                    } else {
                        Err(token_error_at(v.span, "non-negative integer", owned("negative integer")))
                    }
                },
                other => {
                    let found = value_kind_string(&other);
                    Err(token_error_at(v.span, "non-negative integer", found))
                },
            },
        }
    }

    /// A string argument of an annotation at the cursor.
    fn string_argument(&mut self) -> (r: Result<String, SchemaParseError>)
        requires
            old(self).wf(),
        ensures
            final(self).wf(),
            final(self).bytes == old(self).bytes,
            sagrees(r, string_arg(old(self).bytes@, old(self).offset as int), final(self).offset as int),
            r is Ok ==> final(self).offset > old(self).offset,
    {
        match self.ron_value() {
            Err(x) => Err(value_error_of(x, "annotation argument")),
            Ok(v) => match v.value {
                RonValue::String(t) => Ok(t),
                other => {
                    let found = value_kind_string(&other);
                    Err(token_error_at(v.span, "string", found))
                },
            },
        }
    }

    /// A comparison operator at the cursor.
    fn comparison(&mut self) -> (r: Result<CompareOp, SchemaParseError>)
        requires
            old(self).wf(),
        ensures
            final(self).wf(),
            final(self).bytes == old(self).bytes,
            match operator_at(old(self).bytes@, old(self).offset as int) {
                Ok((op, e)) => r == Ok::<CompareOp, SchemaParseError>(op) && final(self).offset == e,
                Err(x) => r is Err && r->Err_0@ == x,
            },
            final(self).offset >= old(self).offset,
    {
        let start = self.position();
        let c = self.offset;
        let two = c + 1 < self.bytes.len() && self.bytes[c + 1] == 0x3d;
        match self.peek() {
            None => Err(token_error_at(Span { start, end: start }, "comparison operator", owned("end of input"))),
            Some(b) => {
                if b == 0x3c {
                    self.advance();
                    if two {
                        self.advance();
                        Ok(CompareOp::Le)
                    } else {
                        Ok(CompareOp::Lt)
                    }
                } else if b == 0x3e {
                    self.advance();
                    if two {
                        self.advance();
                        Ok(CompareOp::Ge)
                    } else {
                        Ok(CompareOp::Gt)
                    }
                } else if b == 0x3d && two {
                    self.advance();
                    self.advance();
                    Ok(CompareOp::Eq)
                } else if b == 0x21 && two {
                    self.advance();
                    self.advance();
                    Ok(CompareOp::Ne)
                } else {
                    self.advance();
                    let end = self.position();
                    Err(token_error_at(Span { start, end }, "comparison operator", quoted_text(b)))
                }
            },
        }
    }

    /// The closing `)` of an annotation.
    fn close_paren(&mut self) -> (r: Result<(), SchemaParseError>)
        requires
            old(self).wf(),
        ensures
            final(self).wf(),
            final(self).bytes == old(self).bytes,
            match close_annotation(old(self).bytes@, old(self).offset as int) {
                Ok(e) => r is Ok && final(self).offset == e,
                Err(x) => r is Err && r->Err_0@ == x,
            },
            r is Ok ==> final(self).offset > old(self).offset,
    {
        self.skip_whitespace();
        self.expect_char(0x29)
    }

    /// Parses an annotation; the cursor stands on its `@`.
    pub fn parse_annotation(&mut self) -> (r: Result<Annotation, SchemaParseError>)
        requires
            old(self).wf(),
            old(self).offset < old(self).bytes@.len(),
        ensures
            final(self).wf(),
            final(self).bytes == old(self).bytes,
            sagrees(r, annotation_at(old(self).bytes@, old(self).offset as int), final(self).offset as int),
            r is Ok ==> final(self).offset > old(self).offset,
    {
        let ghost s = self.bytes@;
        let ghost w = self.offset as int;
        proof {
            reveal(annotation_at);
        }
        let start = self.position();
        self.advance();
        let name = match self.parse_identifier() {
            Ok(n) => n,
            Err(e) => {
                return Err(e);
            },
        };
        self.skip_whitespace();
        match self.expect_char(0x28) {
            Ok(()) => {},
            Err(e) => {
                return Err(e);
            },
        }
        self.skip_whitespace();
        if str_eq(name.value.as_str(), "range") {
            let lo = match self.number_argument() {
                Ok(d) => d,
                Err(e) => {
                    return Err(e);
                },
            };
            self.skip_whitespace();
            match self.expect_char(0x2c) {
                Ok(()) => {},
                Err(e) => {
                    return Err(e);
                },
            }
            self.skip_whitespace();
            let hi = match self.number_argument() {
                Ok(d) => d,
                Err(e) => {
                    return Err(e);
                },
            };
            match self.close_paren() {
                Ok(()) => {},
                Err(e) => {
                    return Err(e);
                },
            }
            let end = self.position();
            Ok(Annotation::Field(Spanned { value: FieldAnnotation::Range(lo, hi), span: Span { start, end } }))
        } else if str_eq(name.value.as_str(), "min_length") || str_eq(name.value.as_str(), "max_length") {
            let n = match self.length_argument() {
                Ok(n) => n,
                Err(e) => {
                    return Err(e);
                },
            };
            match self.close_paren() {
                Ok(()) => {},
                Err(e) => {
                    return Err(e);
                },
            }
            let end = self.position();
            let value = if str_eq(name.value.as_str(), "min_length") {
                FieldAnnotation::MinLength(n)
            } else {
                FieldAnnotation::MaxLength(n)
            };
            Ok(Annotation::Field(Spanned { value, span: Span { start, end } }))
        } else if str_eq(name.value.as_str(), "pattern") {
            let p = match self.string_argument() {
                Ok(p) => p,
                Err(e) => {
                    return Err(e);
                },
            };
            match self.close_paren() {
                Ok(()) => {},
                Err(e) => {
                    return Err(e);
                },
            }
            let end = self.position();
            Ok(Annotation::Field(Spanned { value: FieldAnnotation::Pattern(p), span: Span { start, end } }))
        } else if str_eq(name.value.as_str(), "require") {
            let left = match self.parse_identifier() {
                Ok(l) => l,
                Err(e) => {
                    return Err(e);
                },
            };
            self.skip_whitespace();
            let op = match self.comparison() {
                Ok(op) => op,
                Err(e) => {
                    return Err(e);
                },
            };
            self.skip_whitespace();
            let right = match self.parse_identifier() {
                Ok(r) => r,
                Err(e) => {
                    return Err(e);
                },
            };
            match self.close_paren() {
                Ok(()) => {},
                Err(e) => {
                    return Err(e);
                },
            }
            let end = self.position();
            Ok(Annotation::Require(Spanned {
                value: RequireConstraint { left: left.value, op, right: right.value },
                span: Span { start, end },
            }))
        } else {
            Err(SchemaParseError { span: name.span, kind: SchemaErrorKind::UnexpectedToken { expected: owned("annotation"), found: name.value } })
        }
    }
}


impl<'a> Parser<'a> {
    /// Parses a field `name: Type` with an optional `= default`, after optional whitespace.
    pub fn parse_field(&mut self) -> (r: Result<FieldDef, SchemaParseError>)
        requires
            old(self).wf(),
        ensures
            final(self).wf(),
            final(self).bytes == old(self).bytes,
            sagrees(r, field_at(old(self).bytes@, old(self).offset as int, Seq::empty()), final(self).offset as int),
    {
        let r = self.parse_field_with(Vec::new());
        proof {
            assert(anns_view(Seq::<Spanned<FieldAnnotation>>::empty()) =~= Seq::<Spanned<SpecFieldAnnotation>>::empty());
        }
        r
    }

    /// Parses a field carrying the annotations written before it.
    fn parse_field_with(&mut self, annotations: Vec<Spanned<FieldAnnotation>>) -> (r: Result<FieldDef, SchemaParseError>)
        requires
            old(self).wf(),
        ensures
            final(self).wf(),
            final(self).bytes == old(self).bytes,
            sagrees(r, field_at(old(self).bytes@, old(self).offset as int, anns_view(annotations@)), final(self).offset as int),
            r is Ok ==> final(self).offset > old(self).offset,
        decreases old(self).bytes@.len() - old(self).offset, 2int,
    {
        let ghost s = self.bytes@;
        let ghost i = self.offset as int;
        proof {
            lemma_skip_ws_bounds(s, i);
        }
        self.skip_whitespace();
        let ghost w = self.offset as int;
        let name = match self.parse_identifier() {
            Ok(n) => n,
            Err(e) => {
                return Err(e);
            },
        };
        let ghost ne = self.offset as int;
        proof {
            crate::text::lemma_ident_end_bounds(s, w);
            lemma_skip_ws_bounds(s, ne);
        }
        self.skip_whitespace();
        match self.expect_char(0x3a) {
            Ok(()) => {},
            Err(e) => {
                return Err(e);
            },
        }
        let ghost o = self.offset as int;
        proof {
            lemma_skip_ws_bounds(s, o);
        }
        self.skip_whitespace();
        let type_ = match self.parse_type() {
            Ok(t) => t,
            Err(e) => {
                return Err(e);
            },
        };
        let ghost te = self.offset as int;
        proof {
            lemma_skip_ws_bounds(s, te);
        }
        self.skip_whitespace();
        self.parse_default(name, type_, annotations)
    }

    /// The optional `= default` after a field's type.
    fn parse_default(
        &mut self,
        name: Spanned<String>,
        type_: Spanned<SchemaType>,
        annotations: Vec<Spanned<FieldAnnotation>>,
    ) -> (r: Result<FieldDef, SchemaParseError>)
        requires
            old(self).wf(),
        ensures
            final(self).wf(),
            final(self).bytes == old(self).bytes,
            sagrees(r, field_default(old(self).bytes@, old(self).offset as int, name@, type_@, anns_view(annotations@)), final(self).offset as int),
            r is Ok ==> final(self).offset >= old(self).offset,
    {
        let ghost s = self.bytes@;
        let ghost d = self.offset as int;
        if self.peek() == Some(0x3du8) {
            proof {
                lemma_skip_ws_bounds(s, d + 1);
            }
            self.advance();
            self.skip_whitespace();
            match self.ron_value() {
                Err(x) => Err(value_error_of(x, "default value")),
                Ok(v) => Ok(FieldDef { name, type_, default: Some(v), annotations }),
            }
        } else {
            Ok(FieldDef { name, type_, default: None, annotations })
        }
    }

    /// Parses a struct `( fields )` after optional whitespace.
    pub fn parse_struct(&mut self) -> (r: Result<StructDef, SchemaParseError>)
        requires
            old(self).wf(),
        ensures
            final(self).wf(),
            final(self).bytes == old(self).bytes,
            sagrees(r, struct_at(old(self).bytes@, old(self).offset as int), final(self).offset as int),
            r is Ok ==> final(self).offset > old(self).offset,
        decreases old(self).bytes@.len() - old(self).offset, 1int,
    {
        let ghost s = self.bytes@;
        let ghost i = self.offset as int;
        proof {
            lemma_skip_ws_bounds(s, i);
        }
        self.skip_whitespace();
        match self.expect_char(0x28) {
            Ok(()) => {},
            Err(e) => {
                return Err(e);
            },
        }
        let ghost o = self.offset as int;
        let mut fields: Vec<FieldDef> = Vec::new();
        let mut reqs: Vec<Spanned<RequireConstraint>> = Vec::new();
        let mut pending: Vec<Spanned<FieldAnnotation>> = Vec::new();
        proof {
            assert(field_defs_view(fields@) =~= Seq::<SpecFieldDef>::empty());
            assert(requires_view(reqs@) =~= Seq::<Spanned<SpecRequire>>::empty());
            assert(anns_view(pending@) =~= Seq::<Spanned<SpecFieldAnnotation>>::empty());
            lemma_items_after_empty(struct_items(s, o, Seq::empty()));
        }
        loop
            invariant
                self.wf(),
                self.bytes@ == s,
                self.bytes == old(self).bytes,
                s == old(self).bytes@,
                i == old(self).offset,
                i < o <= self.offset <= s.len(),
                struct_at(s, i) == struct_of(struct_items(s, o, Seq::empty())),
                struct_items(s, o, Seq::empty()) == items_after(
                    field_defs_view(fields@),
                    requires_view(reqs@),
                    struct_items(s, self.offset as int, anns_view(pending@)),
                ),
            decreases s.len() - self.offset,
        {
            let ghost c = self.offset as int;
            let ghost fv = field_defs_view(fields@);
            let ghost rv = requires_view(reqs@);
            let ghost pv = anns_view(pending@);
            proof {
                lemma_skip_ws_bounds(s, c);
            }
            self.skip_whitespace();
            let ghost w = self.offset as int;
            let here = self.position();
            match self.peek() {
                None => {
                    proof {
                        lemma_items_end(s, c, pv);
                    }
                    return Err(token_error_at(Span { start: here, end: here }, ")", owned("end of file")));
                },
                Some(b) => {
                    if b == 0x29 {
                        proof {
                            lemma_items_end(s, c, pv);
                        }
                        self.advance();
                        if pending.len() > 0 {
                            let end = self.position();
                            return Err(token_error_at(Span { start: here, end }, "field", quoted_text(b)));
                        }
                        assert(fv + Seq::<SpecFieldDef>::empty() =~= fv);
                        assert(rv + Seq::<Spanned<SpecRequire>>::empty() =~= rv);
                        match first_repeated_field(&fields) {
                            Some(d) => {
                                assert(field_defs_view(fields@)[d as int] == crate::schema::field_view(fields@[d as int]));
                                return Err(SchemaParseError {
                                    span: fields[d].name.span,
                                    kind: SchemaErrorKind::DuplicateField { field_name: copy_string(&fields[d].name.value) },
                                });
                            },
                            None => {},
                        }
                        return Ok(StructDef { fields, annotations: reqs });
                    } else if b == 0x40 {
                        proof {
                            lemma_items_annotation(s, c, pv);
                        }
                        let ann = match self.parse_annotation() {
                            Ok(a) => a,
                            Err(e) => {
                                return Err(e);
                            },
                        };
                        let ghost ae = self.offset as int;
                        match ann {
                            Annotation::Require(r) => {
                                reqs.push(r);
                                proof {
                                    assert(requires_view(reqs@) =~= rv.push(r@));
                                    lemma_items_after_assoc(fv, rv, Seq::empty(), seq![r@], struct_items(s, ae, pv));
                                    assert(fv + Seq::<SpecFieldDef>::empty() =~= fv);
                                    assert(rv + seq![r@] =~= rv.push(r@));
                                }
                            },
                            Annotation::Field(fa) => {
                                pending.push(fa);
                                proof {
                                    assert(anns_view(pending@) =~= pv.push(fa@));
                                }
                            },
                        }
                    } else {
                        proof {
                            lemma_items_field(s, c, pv);
                        }
                        let mut taken: Vec<Spanned<FieldAnnotation>> = Vec::new();
                        std::mem::swap(&mut taken, &mut pending);
                        let f = match self.parse_field_with(taken) {
                            Ok(f) => f,
                            Err(e) => {
                                return Err(e);
                            },
                        };
                        let ghost fe = self.offset as int;
                        proof {
                            lemma_skip_ws_bounds(s, fe);
                        }
                        let ghost fd = f@;
                        fields.push(f);
                        self.skip_whitespace();
                        if self.peek() == Some(0x2cu8) {
                            self.advance();
                        }
                        proof {
                            assert(anns_view(pending@) =~= Seq::<Spanned<SpecFieldAnnotation>>::empty());
                            assert(field_defs_view(fields@) =~= fv.push(fd));
                            lemma_items_after_assoc(fv, rv, seq![fd], Seq::empty(), struct_items(s, self.offset as int, Seq::empty()));
                            assert(fv + seq![fd] =~= fv.push(fd));
                            assert(rv + Seq::<Spanned<SpecRequire>>::empty() =~= rv);
                        }
                    }
                },
            }
        }
    }
}


pub open spec fn opt_type_view(o: Option<SchemaType>) -> Option<SpecSchemaType> {
    match o {
        Some(t) => Some(t@),
        None => None,
    }
}

/// No two variants share a name.
pub open spec fn distinct_variants(vs: Seq<(Seq<char>, Option<SpecSchemaType>)>) -> bool {
    forall|j: int, k: int| 0 <= j < k < vs.len() ==> #[trigger] vs[j].0 != #[trigger] vs[k].0
}

/// Finds the first field that repeats the name of an earlier field (see [`field_repeated_at`]).
fn first_repeated_field(fs: &Vec<FieldDef>) -> (r: Option<usize>)
    ensures
        match r {
            Some(d) => d < fs@.len() && d as int == field_repeated_at(field_defs_view(fs@), 0),
            None => field_repeated_at(field_defs_view(fs@), 0) == -1,
        },
{
    let ghost fv = field_defs_view(fs@);
    let mut j: usize = 0;
    while j < fs.len()
        invariant
            j <= fs@.len(),
            fv == field_defs_view(fs@),
            fv.len() == fs@.len(),
            field_repeated_at(fv, 0) == field_repeated_at(fv, j as int),
        decreases fs@.len() - j,
    {
        let mut i: usize = 0;
        let mut hit = false;
        while i < j && !hit
            invariant
                i <= j < fs@.len(),
                fv == field_defs_view(fs@),
                fv.len() == fs@.len(),
                hit ==> field_named_before(fv, j as int),
                !hit ==> forall|k: int| 0 <= k < i ==> fv[k].name.value != fv[j as int].name.value,
            decreases j - i,
        {
            assert(fv[i as int] == crate::schema::field_view(fs@[i as int]));
            assert(fv[j as int] == crate::schema::field_view(fs@[j as int]));
            if str_eq(fs[i].name.value.as_str(), fs[j].name.value.as_str()) {
                hit = true;
                assert(fv[i as int].name.value == fv[j as int].name.value);
            }
            i = i + 1;
        }
        if hit {
            return Some(j);
        }
        assert(!field_named_before(fv, j as int));
        j = j + 1;
    }
    None
}

/// Whether a variant of the given name is among `vs`.
fn has_variant(vs: &Vec<(String, Option<SchemaType>)>, name: &String) -> (r: bool)
    ensures
        r == variant_named(variants_view(vs@), name@),
{
    let ghost vv = variants_view(vs@);
    let mut k: usize = 0;
    while k < vs.len()
        invariant
            k <= vs@.len(),
            vv == variants_view(vs@),
            forall|j: int| 0 <= j < k ==> #[trigger] vv[j].0 != name@,
        decreases vs@.len() - k,
    {
        assert(vv[k as int].0 == vs@[k as int].0@);
        if str_eq(vs[k].0.as_str(), name.as_str()) {
            return true;
        }
        k = k + 1;
    }
    false
}

/// Records a variant in place: a name already present has its data replaced, a new name is
/// appended.
pub(crate) fn record_variant(acc: &mut Vec<(String, Option<SchemaType>)>, name: String, data: Option<SchemaType>)
    requires
        distinct_variants(variants_view(old(acc)@)),
    ensures
        variants_view(final(acc)@) == insert_variant(variants_view(old(acc)@), name@, opt_type_view(data)),
        distinct_variants(variants_view(final(acc)@)),
{
    let ghost vs = variants_view(acc@);
    let ghost entry = (name@, opt_type_view(data));
    let mut k: usize = 0;
    while k < acc.len()
        invariant
            k <= acc@.len(),
            vs == variants_view(acc@),
            vs == variants_view(old(acc)@),
            distinct_variants(vs),
            entry == (name@, opt_type_view(data)),
            forall|j: int| 0 <= j < k ==> #[trigger] vs[j].0 != name@,
        decreases acc@.len() - k,
    {
        if str_eq(acc[k].0.as_str(), name.as_str()) {
            proof {
                let found = k as int;
                assert(vs[found] == (acc@[found].0@, opt_type_view(acc@[found].1)));
                assert(vs[found].0 == entry.0);
                assert(exists|q: int| 0 <= q < vs.len() && #[trigger] vs[q].0 == entry.0);
                let q = choose|q: int| 0 <= q < vs.len() && #[trigger] vs[q].0 == entry.0;
                assert(q == found) by {
                    if q < found {
                        assert(vs[q].0 != vs[found].0);
                    } else if q > found {
                        assert(vs[found].0 != vs[q].0);
                    }
                }
            }
            acc.set(k, (name, data));
            proof {
                assert(variants_view(acc@) =~= vs.update(k as int, entry));
            }
            return;
        }
        k = k + 1;
    }
    acc.push((name, data));
    proof {
        assert(!exists|q: int| 0 <= q < vs.len() && #[trigger] vs[q].0 == entry.0);
        assert(variants_view(acc@) =~= vs.push(entry));
    }
}

impl<'a> Parser<'a> {
    /// The optional data type `(T)` of a variant at the cursor.
    fn parse_variant_data(&mut self) -> (r: Result<Option<SchemaType>, SchemaParseError>)
        requires
            old(self).wf(),
        ensures
            final(self).wf(),
            final(self).bytes == old(self).bytes,
            match variant_data_at(old(self).bytes@, old(self).offset as int) {
                Ok((dt, e)) => r is Ok && opt_type_view(r->Ok_0) == dt && final(self).offset == e,
                Err(x) => r is Err && r->Err_0@ == x,
            },
            r is Ok ==> final(self).offset >= old(self).offset,
    {
        proof {
            reveal(variant_data_at);
        }
        if self.peek() == Some(0x28u8) {
            self.advance();
            self.skip_whitespace();
            let t = match self.parse_type() {
                Ok(t) => t,
                Err(e) => {
                    return Err(e);
                },
            };
            self.skip_whitespace();
            match self.expect_char(0x29) {
                Ok(()) => {},
                Err(e) => {
                    return Err(e);
                },
            }
            Ok(Some(t.value))
        } else {
            Ok(None)
        }
    }

    /// Parses an enum definition `enum Name { ... }` after optional whitespace.
    pub fn parse_enum_def(&mut self) -> (r: Result<EnumDef, SchemaParseError>)
        requires
            old(self).wf(),
        ensures
            final(self).wf(),
            final(self).bytes == old(self).bytes,
            sagrees(r, enum_def_at(old(self).bytes@, old(self).offset as int), final(self).offset as int),
            r is Ok ==> final(self).offset > old(self).offset,
            r is Ok ==> distinct_variants(r->Ok_0@.variants),
    {
        let ghost s = self.bytes@;
        self.skip_whitespace();
        let kw = match self.parse_identifier() {
            Ok(k) => k,
            Err(e) => {
                return Err(e);
            },
        };
        if !str_eq(kw.value.as_str(), "enum") {
            return Err(SchemaParseError { span: kw.span, kind: SchemaErrorKind::UnexpectedToken { expected: owned("\"enum\""), found: kw.value } });
        }
        self.skip_whitespace();
        let name = match self.parse_identifier() {
            Ok(n) => n,
            Err(e) => {
                return Err(e);
            },
        };
        self.skip_whitespace();
        match self.expect_char(0x7b) {
            Ok(()) => {},
            Err(e) => {
                return Err(e);
            },
        }
        let variants = match self.parse_variants(&name.value) {
            Ok(v) => v,
            Err(e) => {
                return Err(e);
            },
        };
        Ok(EnumDef { name: name.value, variants })
    }

    /// Parses the variants of an enum up to and including the closing `}`.
    fn parse_variants(&mut self, en: &String) -> (r: Result<Vec<(String, Option<SchemaType>)>, SchemaParseError>)
        requires
            old(self).wf(),
        ensures
            final(self).wf(),
            final(self).bytes == old(self).bytes,
            match variants_at(old(self).bytes@, en@, old(self).offset as int, Seq::empty()) {
                Ok((vs, e)) => r is Ok && variants_view(r->Ok_0@) == vs && final(self).offset == e,
                Err(x) => r is Err && r->Err_0@ == x,
            },
            r is Ok ==> final(self).offset > old(self).offset,
            r is Ok ==> distinct_variants(variants_view(r->Ok_0@)),
    {
        let ghost s = self.bytes@;
        let ghost o = self.offset as int;
        let mut variants: Vec<(String, Option<SchemaType>)> = Vec::new();
        proof {
            assert(variants_view(variants@) =~= Seq::<(Seq<char>, Option<SpecSchemaType>)>::empty());
        }
        loop
            invariant
                self.wf(),
                self.bytes@ == s,
                self.bytes == old(self).bytes,
                s == old(self).bytes@,
                o == old(self).offset,
                o <= self.offset <= s.len(),
                variants_at(s, en@, o, Seq::empty()) == variants_at(s, en@, self.offset as int, variants_view(variants@)),
                distinct_variants(variants_view(variants@)),
            decreases s.len() - self.offset,
        {
            let ghost c = self.offset as int;
            self.skip_whitespace();
            let here = self.position();
            match self.peek() {
                None => {
                    return Err(token_error_at(Span { start: here, end: here }, "}", owned("end of file")));
                },
                Some(b) => {
                    if b == 0x7d {
                        self.advance();
                        return Ok(variants);
                    }
                    let v = match self.parse_identifier() {
                        Ok(v) => v,
                        Err(e) => {
                            return Err(e);
                        },
                    };
                    self.skip_whitespace();
                    let data = match self.parse_variant_data() {
                        Ok(d) => d,
                        Err(e) => {
                            return Err(e);
                        },
                    };
                    if has_variant(&variants, &v.value) {
                        return Err(SchemaParseError {
                            span: v.span,
                            kind: SchemaErrorKind::DuplicateVariant { enum_name: copy_string(en), variant: v.value },
                        });
                    }
                    let ghost before = variants@;
                    let ghost entry = (v.value@, opt_type_view(data));
                    variants.push((v.value, data));
                    proof {
                        assert(variants_view(variants@) =~= variants_view(before).push(entry));
                    }
                    self.skip_whitespace();
                    if self.peek() == Some(0x2cu8) {
                        self.advance();
                    }
                },
            }
        }
    }

    /// Parses an alias definition `type Name = T` after optional whitespace; the first word is
    /// taken as the keyword.
    pub fn parse_alias_def(&mut self) -> (r: Result<(String, Spanned<SchemaType>), SchemaParseError>)
        requires
            old(self).wf(),
        ensures
            final(self).wf(),
            final(self).bytes == old(self).bytes,
            match alias_def_at(old(self).bytes@, old(self).offset as int) {
                Ok(((n, t), e)) => r is Ok && r->Ok_0.0@ == n && r->Ok_0.1@ == t && final(self).offset == e,
                Err(x) => r is Err && r->Err_0@ == x,
            },
            r is Ok ==> final(self).offset > old(self).offset,
    {
        self.skip_whitespace();
        match self.parse_identifier() {
            Ok(_) => {},
            Err(e) => {
                return Err(e);
            },
        }
        self.skip_whitespace();
        let name = match self.parse_identifier() {
            Ok(n) => n,
            Err(e) => {
                return Err(e);
            },
        };
        self.skip_whitespace();
        match self.expect_char(0x3d) {
            Ok(()) => {},
            Err(e) => {
                return Err(e);
            },
        }
        self.skip_whitespace();
        let t = match self.parse_type() {
            Ok(t) => t,
            Err(e) => {
                return Err(e);
            },
        };
        Ok((name.value, t))
    }
}


pub open spec fn imports_view(v: Seq<Spanned<String>>) -> Seq<Spanned<Seq<char>>> {
    v.map_values(|x: Spanned<String>| x@)
}

/// Whether an enum of the given name is among `enums`.
pub fn contains_enum(enums: &Vec<EnumDef>, name: &String) -> (r: bool)
    ensures
        r == has_enum(enums_view(enums@), name@),
{
    let ghost ev = enums_view(enums@);
    let mut k: usize = 0;
    while k < enums.len()
        invariant
            k <= enums@.len(),
            ev == enums_view(enums@),
            forall|j: int| 0 <= j < k ==> #[trigger] ev[j].name != name@,
        decreases enums@.len() - k,
    {
        if str_eq(enums[k].name.as_str(), name.as_str()) {
            assert(ev[k as int].name == name@);
            return true;
        }
        k = k + 1;
    }
    false
}

/// Whether an alias of the given name is among `aliases`.
pub fn contains_alias(aliases: &Vec<(String, Spanned<SchemaType>)>, name: &String) -> (r: bool)
    ensures
        r == has_alias(aliases_view(aliases@), name@),
{
    let ghost av = aliases_view(aliases@);
    let mut k: usize = 0;
    while k < aliases.len()
        invariant
            k <= aliases@.len(),
            av == aliases_view(aliases@),
            forall|j: int| 0 <= j < k ==> #[trigger] av[j].0 != name@,
        decreases aliases@.len() - k,
    {
        if str_eq(aliases[k].0.as_str(), name.as_str()) {
            assert(av[k as int].0 == name@);
            return true;
        }
        k = k + 1;
    }
    false
}

impl<'a> Parser<'a> {
    /// Whether the word at the cursor is `import`; the cursor does not move.
    fn at_import_here(&self) -> (r: bool)
        requires
            self.wf(),
        ensures
            r == at_import(self.bytes@, self.offset as int),
    {
        let mut c = self.cursor();
        match c.parse_identifier() {
            Ok(id) => str_eq(id.value.as_str(), "import"),
            Err(_) => false,
        }
    }

    /// Reads the `import "path"` statements at the cursor.
    fn parse_imports(&mut self) -> (r: Result<Vec<Spanned<String>>, SchemaParseError>)
        requires
            old(self).wf(),
        ensures
            final(self).wf(),
            final(self).bytes == old(self).bytes,
            match imports_at(old(self).bytes@, old(self).offset as int, Seq::empty()) {
                Ok((v, e)) => r is Ok && imports_view(r->Ok_0@) == v && final(self).offset == e,
                Err(x) => r is Err && r->Err_0@ == x,
            },
    {
        let ghost s = self.bytes@;
        let ghost i0 = self.offset as int;
        let mut imports: Vec<Spanned<String>> = Vec::new();
        proof {
            assert(imports_view(imports@) =~= Seq::<Spanned<Seq<char>>>::empty());
        }
        loop
            invariant
                self.wf(),
                self.bytes@ == s,
                self.bytes == old(self).bytes,
                s == old(self).bytes@,
                i0 == old(self).offset,
                imports_at(s, i0, Seq::empty()) == imports_at(s, self.offset as int, imports_view(imports@)),
            decreases s.len() - self.offset,
        {
            let ghost i = self.offset as int;
            if !self.at_import_here() {
                return Ok(imports);
            }
            let start = self.position();
            match self.parse_identifier() {
                Ok(_) => {},
                Err(e) => {
                    return Err(e);
                },
            }
            self.skip_whitespace();
            let v = match self.ron_value() {
                Ok(v) => v,
                Err(x) => {
                    return Err(value_error_of(x, "import path string"));
                },
            };
            match v.value {
                RonValue::String(p) => {
                    let end = self.position();
                    let ghost before = imports@;
                    let item = Spanned { value: p, span: Span { start, end } };
                    let ghost iv = item@;
                    imports.push(item);
                    proof {
                        assert(imports_view(imports@) =~= imports_view(before).push(iv));
                    }
                    self.skip_whitespace();
                },
                other => {
                    let found = value_kind_string(&other);
                    return Err(token_error_at(v.span, "import path string", found));
                },
            }
        }
    }

    /// Reads the enum and alias definitions from the cursor to the end of the source.
    fn parse_defs(&mut self) -> (r: Result<(Vec<EnumDef>, Vec<(String, Spanned<SchemaType>)>), SchemaParseError>)
        requires
            old(self).wf(),
        ensures
            match defs_at(old(self).bytes@, old(self).offset as int, Seq::empty(), Seq::empty()) {
                Ok((es, als)) => r is Ok && enums_view(r->Ok_0.0@) == es && aliases_view(r->Ok_0.1@) == als,
                Err(x) => r is Err && r->Err_0@ == x,
            },
    {
        let ghost s = self.bytes@;
        let ghost i0 = self.offset as int;
        let mut enums: Vec<EnumDef> = Vec::new();
        let mut aliases: Vec<(String, Spanned<SchemaType>)> = Vec::new();
        proof {
            assert(enums_view(enums@) =~= Seq::<SpecEnumDef>::empty());
            assert(aliases_view(aliases@) =~= Seq::<(Seq<char>, Spanned<SpecSchemaType>)>::empty());
        }
        loop
            invariant
                self.wf(),
                self.bytes@ == s,
                s == old(self).bytes@,
                i0 == old(self).offset,
                defs_at(s, i0, Seq::empty(), Seq::empty()) == defs_at(s, self.offset as int, enums_view(enums@), aliases_view(aliases@)),
            decreases s.len() - self.offset,
        {
            self.skip_whitespace();
            if self.peek().is_none() {
                return Ok((enums, aliases));
            }
            let ghost w = self.offset as int;
            let mut c = self.cursor();
            let kw = match c.parse_identifier() {
                Ok(k) => k,
                Err(e) => {
                    return Err(schema_error_of(e));
                },
            };
            if str_eq(kw.value.as_str(), "enum") {
                let ed = match self.parse_enum_def() {
                    Ok(ed) => ed,
                    Err(e) => {
                        return Err(e);
                    },
                };
                if contains_enum(&enums, &ed.name) {
                    let here = self.position();
                    return Err(SchemaParseError { span: Span { start: here, end: here }, kind: SchemaErrorKind::DuplicateEnum { name: ed.name } });
                }
                let ghost before = enums@;
                let ghost ev = ed@;
                enums.push(ed);
                proof {
                    assert(enums_view(enums@) =~= enums_view(before).push(ev));
                }
            } else if str_eq(kw.value.as_str(), "type") {
                let (name, t) = match self.parse_alias_def() {
                    Ok(a) => a,
                    Err(e) => {
                        return Err(e);
                    },
                };
                if contains_alias(&aliases, &name) {
                    return Err(SchemaParseError { span: t.span, kind: SchemaErrorKind::DuplicateAlias { name } });
                }
                let ghost before = aliases@;
                let ghost av = (name@, t@);
                aliases.push((name, t));
                proof {
                    assert(aliases_view(aliases@) =~= aliases_view(before).push(av));
                }
            } else {
                return Err(SchemaParseError {
                    span: kw.span,
                    kind: SchemaErrorKind::UnexpectedToken { expected: owned("\"enum\" or \"type\""), found: kw.value },
                });
            }
        }
    }
}

/// The schema text read into its parts, before the checks: imports, root struct, enums and
/// aliases.
pub fn parse_parts(source: &str) -> (r: Result<(Vec<Spanned<String>>, StructDef, Vec<EnumDef>, Vec<(String, Spanned<SchemaType>)>), SchemaParseError>)
    requires
        source.spec_bytes().len() < usize::MAX,
    ensures
        match schema_parts(source.spec_bytes()) {
            Ok((im, root, es, als)) => r is Ok && imports_view(r->Ok_0.0@) == im && r->Ok_0.1@ == root
                && enums_view(r->Ok_0.2@) == es && aliases_view(r->Ok_0.3@) == als,
            Err(x) => r is Err && r->Err_0@ == x,
        },
{
    let mut parser = Parser::new(source);
    parser.skip_whitespace();
    let imports = match parser.parse_imports() {
        Ok(v) => v,
        Err(e) => {
            return Err(e);
        },
    };
    let root = if parser.peek() == Some(0x28u8) {
        match parser.parse_struct() {
            Ok(r) => r,
            Err(e) => {
                return Err(e);
            },
        }
    } else {
        let r = StructDef { fields: Vec::new(), annotations: Vec::new() };
        proof {
            assert(field_defs_view(r.fields@) =~= Seq::<SpecFieldDef>::empty());
            assert(requires_view(r.annotations@) =~= Seq::<Spanned<SpecRequire>>::empty());
        }
        r
    };
    match parser.parse_defs() {
        Ok((enums, aliases)) => Ok((imports, root, enums, aliases)),
        Err(e) => Err(e),
    }
}


/// Parses a `.ronschema` source string into a [`Schema`]: import statements, an optional root
/// struct, then enum and alias definitions; references to aliases are reclassified, and
/// undefined names, recursive aliases and defaults that do not fit their types are errors.
pub fn parse_schema(source: &str) -> (r: Result<Schema, SchemaParseError>)
    requires
        source.spec_bytes().len() < usize::MAX,
    ensures
        match schema_of_source(source.spec_bytes()) {
            Ok(sch) => r is Ok && r->Ok_0@ == sch,
            Err(x) => r is Err && r->Err_0@ == x,
        },
        r is Ok ==> super::grammar::names_distinct(r->Ok_0@.enums, r->Ok_0@.aliases),
{
    proof {
        super::check::lemma_source_names_distinct(source.spec_bytes());
    }
    match parse_parts(source) {
        Err(e) => Err(e),
        Ok((imports, root, enums, aliases)) => check_schema(imports, root, enums, aliases),
    }
}

} // verus!
