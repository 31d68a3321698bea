use ron_schema::{parse_ron, parse_schema, Decimal, RonValue, SchemaErrorKind, SchemaType};
use ron_schema::schema::parser::Parser;

/// Constructs a parser for direct method testing.
fn parser(source: &str) -> Parser<'_> {
    Parser::new(source)
}

/// The decimal written by a number literal such as `3.14` or `-0.5`.
#[allow(dead_code)]
fn dec(text: &str) -> Decimal {
    let negative = text.starts_with('-');
    let body = text.trim_start_matches('-');
    let (int_part, frac) = body.split_once('.').unwrap_or((body, ""));
    let digits: i64 = format!("{int_part}{frac}").parse().expect("digits");
    Decimal::from_scaled(if negative { -digits } else { digits }, frac.len())
}

// Returns the current byte without advancing.
#[test]
fn peek_returns_current_byte() {
    let p = parser("abc");
    assert_eq!(p.peek(), Some(b'a'));
}

// Returns None when at end of input.
#[test]
fn peek_returns_none_at_end() {
    let p = parser("");
    assert_eq!(p.peek(), None);
}

// Moves to the next byte and increments column.
#[test]
fn advance_increments_offset_and_column() {
    let mut p = parser("ab");
    p.advance();
    assert_eq!(p.offset, 1);
    assert_eq!(p.column, 2);
    assert_eq!(p.peek(), Some(b'b'));
}

// Newline resets column to 1 and increments line.
#[test]
fn advance_past_newline_increments_line() {
    let mut p = parser("a\nb");
    p.advance(); // past 'a'
    p.advance(); // past '\n'
    assert_eq!(p.line, 2);
    assert_eq!(p.column, 1);
}

// Advancing at end of input is a no-op.
#[test]
fn advance_at_end_is_noop() {
    let mut p = parser("");
    p.advance();
    assert_eq!(p.offset, 0);
}

// Initial position is offset 0, line 1, column 1.
#[test]
fn position_initial_state() {
    let p = parser("abc");
    let pos = p.position();
    assert_eq!(pos.offset, 0);
    assert_eq!(pos.line, 1);
    assert_eq!(pos.column, 1);
}

// Position tracks correctly after advancing.
#[test]
fn position_after_advance() {
    let mut p = parser("ab\nc");
    p.advance(); // 'a'
    p.advance(); // 'b'
    p.advance(); // '\n'
    let pos = p.position();
    assert_eq!(pos.offset, 3);
    assert_eq!(pos.line, 2);
    assert_eq!(pos.column, 1);
}

// Skips spaces, tabs, and newlines.
#[test]
fn skip_whitespace_skips_spaces_tabs_newlines() {
    let mut p = parser("  \t\nabc");
    p.skip_whitespace();
    assert_eq!(p.peek(), Some(b'a'));
}

// Skips line comments.
#[test]
fn skip_whitespace_skips_line_comment() {
    let mut p = parser("// comment\nabc");
    p.skip_whitespace();
    assert_eq!(p.peek(), Some(b'a'));
}

// Skips whitespace after a comment.
#[test]
fn skip_whitespace_skips_comment_then_whitespace() {
    let mut p = parser("// comment\n  abc");
    p.skip_whitespace();
    assert_eq!(p.peek(), Some(b'a'));
}

// Does nothing when already on a non-whitespace character.
#[test]
fn skip_whitespace_noop_on_nonwhitespace() {
    let mut p = parser("abc");
    p.skip_whitespace();
    assert_eq!(p.offset, 0);
}

// Consumes the expected character and returns Ok.
#[test]
fn expect_char_consumes_matching_byte() {
    let mut p = parser("(abc");
    assert!(p.expect_char(b'(').is_ok());
    assert_eq!(p.peek(), Some(b'a'));
}

// Returns error when character doesn't match.
#[test]
fn expect_char_error_on_mismatch() {
    let mut p = parser("abc");
    let err = p.expect_char(b'(').unwrap_err();
    assert!(matches!(err.kind, SchemaErrorKind::UnexpectedToken { .. }));
}

// Returns error at end of input.
#[test]
fn expect_char_error_at_end_of_input() {
    let mut p = parser("");
    let err = p.expect_char(b'(').unwrap_err();
    match err.kind {
        SchemaErrorKind::UnexpectedToken { found, .. } => {
            assert_eq!(found, "end of input");
        }
        other => panic!("expected UnexpectedToken, got {:?}", other),
    }
}

// Reads a simple alphabetic identifier.
#[test]
fn parse_identifier_reads_alpha() {
    let mut p = parser("name:");
    let id = p.parse_identifier().unwrap();
    assert_eq!(id.value, "name");
}

// Reads an identifier with underscores.
#[test]
fn parse_identifier_reads_snake_case() {
    let mut p = parser("field_name:");
    let id = p.parse_identifier().unwrap();
    assert_eq!(id.value, "field_name");
}

// Reads an identifier with digits.
#[test]
fn parse_identifier_reads_alphanumeric() {
    let mut p = parser("cost2:");
    let id = p.parse_identifier().unwrap();
    assert_eq!(id.value, "cost2");
}

// Reads a PascalCase identifier (for types/enums).
#[test]
fn parse_identifier_reads_pascal_case() {
    let mut p = parser("CardType ");
    let id = p.parse_identifier().unwrap();
    assert_eq!(id.value, "CardType");
}

// Stops at non-identifier characters.
#[test]
fn parse_identifier_stops_at_delimiter() {
    let mut p = parser("name: String");
    let id = p.parse_identifier().unwrap();
    assert_eq!(id.value, "name");
    assert_eq!(p.peek(), Some(b':'));
}

// Records correct span for the identifier.
#[test]
fn parse_identifier_span_is_correct() {
    let mut p = parser("name:");
    let id = p.parse_identifier().unwrap();
    assert_eq!(id.span.start.offset, 0);
    assert_eq!(id.span.end.offset, 4);
}

// Error when starting with a digit.
#[test]
fn parse_identifier_error_on_digit_start() {
    let mut p = parser("42abc");
    assert!(p.parse_identifier().is_err());
}

// Error at end of input.
#[test]
fn parse_identifier_error_at_end_of_input() {
    let mut p = parser("");
    assert!(p.parse_identifier().is_err());
}

// Parses "String" as SchemaType::String.
#[test]
fn parse_type_string() {
    let mut p = parser("String");
    let t = p.parse_type().unwrap();
    assert_eq!(t.value, SchemaType::String);
}

// Parses "Integer" as SchemaType::Integer.
#[test]
fn parse_type_integer() {
    let mut p = parser("Integer");
    let t = p.parse_type().unwrap();
    assert_eq!(t.value, SchemaType::Integer);
}

// Parses "Float" as SchemaType::Float.
#[test]
fn parse_type_float() {
    let mut p = parser("Float");
    let t = p.parse_type().unwrap();
    assert_eq!(t.value, SchemaType::Float);
}

// Parses "Bool" as SchemaType::Bool.
#[test]
fn parse_type_bool() {
    let mut p = parser("Bool");
    let t = p.parse_type().unwrap();
    assert_eq!(t.value, SchemaType::Bool);
}

// Parses "[String]" as a List wrapping String.
#[test]
fn parse_type_list() {
    let mut p = parser("[String]");
    let t = p.parse_type().unwrap();
    assert_eq!(t.value, SchemaType::List(Box::new(SchemaType::String)));
}

// Parses "Option(Integer)" as an Option wrapping Integer.
#[test]
fn parse_type_option() {
    let mut p = parser("Option(Integer)");
    let t = p.parse_type().unwrap();
    assert_eq!(t.value, SchemaType::Option(Box::new(SchemaType::Integer)));
}

// Parses an unknown PascalCase name as an EnumRef.
#[test]
fn parse_type_enum_ref() {
    let mut p = parser("Faction");
    let t = p.parse_type().unwrap();
    assert_eq!(t.value, SchemaType::EnumRef("Faction".to_string()));
}

// Parses nested composites: [Option(String)].
#[test]
fn parse_type_nested_list_of_option() {
    let mut p = parser("[Option(String)]");
    let t = p.parse_type().unwrap();
    assert_eq!(
        t.value,
        SchemaType::List(Box::new(SchemaType::Option(Box::new(SchemaType::String))))
    );
}

// Parses an inline struct type.
#[test]
fn parse_type_inline_struct() {
    let mut p = parser("(\n  x: Integer,\n)");
    let t = p.parse_type().unwrap();
    if let SchemaType::Struct(s) = &t.value {
        assert_eq!(s.fields.len(), 1);
        assert_eq!(s.fields[0].name.value, "x");
    } else {
        panic!("expected SchemaType::Struct");
    }
}

// Error on unexpected token in type position.
#[test]
fn parse_type_error_on_unexpected_token() {
    let mut p = parser("42");
    let err = p.parse_type().unwrap_err();
    match err.kind {
        SchemaErrorKind::UnexpectedToken { expected, .. } => {
            assert_eq!(expected, "type");
        }
        other => panic!("expected UnexpectedToken, got {:?}", other),
    }
}

// Parses "name: String" into a FieldDef.
#[test]
fn parse_field_name_and_type() {
    let mut p = parser("name: String,");
    let f = p.parse_field().unwrap();
    assert_eq!(f.name.value, "name");
    assert_eq!(f.type_.value, SchemaType::String);
}

// Error when colon is missing.
#[test]
fn parse_field_error_missing_colon() {
    let mut p = parser("name String");
    let err = p.parse_field().unwrap_err();
    assert!(matches!(err.kind, SchemaErrorKind::UnexpectedToken { .. }));
}

// Field without default has None.
#[test]
fn parse_field_no_default() {
    let mut p = parser("name: String,");
    let f = p.parse_field().unwrap();
    assert!(f.default.is_none());
}

// Field with string default.
#[test]
fn parse_field_default_string() {
    let mut p = parser("name: String = \"unnamed\",");
    let f = p.parse_field().unwrap();
    assert!(f.default.is_some());
    assert_eq!(f.default.unwrap().value, RonValue::String("unnamed".to_string()));
}

// Field with integer default.
#[test]
fn parse_field_default_integer() {
    let mut p = parser("count: Integer = 0,");
    let f = p.parse_field().unwrap();
    assert_eq!(f.default.unwrap().value, RonValue::Integer(0));
}

// Field with float default.
#[test]
fn parse_field_default_float() {
    let mut p = parser("weight: Float = 1.0,");
    let f = p.parse_field().unwrap();
    assert_eq!(f.default.unwrap().value, RonValue::Float(dec("1.0")));
}

// Field with bool default.
#[test]
fn parse_field_default_bool() {
    let mut p = parser("active: Bool = false,");
    let f = p.parse_field().unwrap();
    assert_eq!(f.default.unwrap().value, RonValue::Bool(false));
}

// Field with None default.
#[test]
fn parse_field_default_none() {
    let mut p = parser("label: Option(String) = None,");
    let f = p.parse_field().unwrap();
    assert_eq!(f.default.unwrap().value, RonValue::Option(None));
}

// Field with Some default.
#[test]
fn parse_field_default_some() {
    let mut p = parser("label: Option(String) = Some(\"default\"),");
    let f = p.parse_field().unwrap();
    if let RonValue::Option(Some(inner)) = &f.default.unwrap().value {
        assert_eq!(inner.value, RonValue::String("default".to_string()));
    } else {
        panic!("expected Option(Some(...))");
    }
}

// Field with empty list default.
#[test]
fn parse_field_default_empty_list() {
    let mut p = parser("tags: [String] = [],");
    let f = p.parse_field().unwrap();
    assert_eq!(f.default.unwrap().value, RonValue::List(vec![]));
}

// Field with identifier default.
#[test]
fn parse_field_default_identifier() {
    let mut p = parser("status: Status = Active,");
    let f = p.parse_field().unwrap();
    assert_eq!(f.default.unwrap().value, RonValue::Identifier("Active".to_string()));
}

// Default value has correct span.
#[test]
fn parse_field_default_has_span() {
    let mut p = parser("name: String = \"hi\",");
    let f = p.parse_field().unwrap();
    let default = f.default.unwrap();
    assert!(default.span.start.column > 1);
}

// String default matches String type.
#[test]
fn default_type_check_string_accepts_string() {
    let result = parse_schema("(\n  name: String = \"hi\",\n)");
    assert!(result.is_ok());
}

// Integer default rejected for String type.
#[test]
fn default_type_check_string_rejects_integer() {
    let err = parse_schema("(\n  name: String = 42,\n)").unwrap_err();
    assert!(matches!(err.kind, SchemaErrorKind::InvalidDefault { field_name, .. } if field_name == "name"));
}

// Integer default matches Integer type.
#[test]
fn default_type_check_integer_accepts_integer() {
    assert!(parse_schema("(\n  count: Integer = 0,\n)").is_ok());
}

// String default rejected for Integer type.
#[test]
fn default_type_check_integer_rejects_string() {
    let err = parse_schema("(\n  count: Integer = \"zero\",\n)").unwrap_err();
    assert!(matches!(err.kind, SchemaErrorKind::InvalidDefault { .. }));
}

// Float default matches Float type.
#[test]
fn default_type_check_float_accepts_float() {
    assert!(parse_schema("(\n  weight: Float = 1.0,\n)").is_ok());
}

// Integer default rejected for Float type.
#[test]
fn default_type_check_float_rejects_integer() {
    let err = parse_schema("(\n  weight: Float = 1,\n)").unwrap_err();
    assert!(matches!(err.kind, SchemaErrorKind::InvalidDefault { .. }));
}

// Bool default matches Bool type.
#[test]
fn default_type_check_bool_accepts_bool() {
    assert!(parse_schema("(\n  active: Bool = false,\n)").is_ok());
}

// String default rejected for Bool type.
#[test]
fn default_type_check_bool_rejects_string() {
    let err = parse_schema("(\n  active: Bool = \"false\",\n)").unwrap_err();
    assert!(matches!(err.kind, SchemaErrorKind::InvalidDefault { .. }));
}

// None default matches Option type.
#[test]
fn default_type_check_option_accepts_none() {
    assert!(parse_schema("(\n  label: Option(String) = None,\n)").is_ok());
}

// Some with correct inner type matches Option type.
#[test]
fn default_type_check_option_accepts_some_correct() {
    assert!(parse_schema("(\n  label: Option(String) = Some(\"hi\"),\n)").is_ok());
}

// Some with wrong inner type rejected for Option type.
#[test]
fn default_type_check_option_rejects_some_wrong_type() {
    let err = parse_schema("(\n  label: Option(String) = Some(42),\n)").unwrap_err();
    assert!(matches!(err.kind, SchemaErrorKind::InvalidDefault { .. }));
}

// Empty list matches list type.
#[test]
fn default_type_check_list_accepts_empty() {
    assert!(parse_schema("(\n  tags: [String] = [],\n)").is_ok());
}

// List with correct element type matches.
#[test]
fn default_type_check_list_accepts_correct_elements() {
    assert!(parse_schema("(\n  tags: [String] = [\"a\", \"b\"],\n)").is_ok());
}

// List with wrong element type rejected.
#[test]
fn default_type_check_list_rejects_wrong_elements() {
    let err = parse_schema("(\n  tags: [String] = [1, 2],\n)").unwrap_err();
    assert!(matches!(err.kind, SchemaErrorKind::InvalidDefault { .. }));
}

// Valid enum variant accepted as default.
#[test]
fn default_type_check_enum_accepts_valid_variant() {
    assert!(parse_schema("(\n  status: Status = Active,\n)\nenum Status { Active, Inactive }").is_ok());
}

// Invalid enum variant rejected as default.
#[test]
fn default_type_check_enum_rejects_invalid_variant() {
    let err = parse_schema("(\n  status: Status = Unknown,\n)\nenum Status { Active, Inactive }").unwrap_err();
    assert!(matches!(err.kind, SchemaErrorKind::InvalidDefault { .. }));
}

// InvalidDefault error includes expected type.
#[test]
fn default_type_check_error_includes_expected() {
    let err = parse_schema("(\n  name: String = 42,\n)").unwrap_err();
    if let SchemaErrorKind::InvalidDefault { expected, .. } = &err.kind {
        assert_eq!(expected, "String");
    } else {
        panic!("expected InvalidDefault");
    }
}

// InvalidDefault error includes found value description.
#[test]
fn default_type_check_error_includes_found() {
    let err = parse_schema("(\n  name: String = 42,\n)").unwrap_err();
    if let SchemaErrorKind::InvalidDefault { found, .. } = &err.kind {
        assert!(found.contains("Integer"));
    } else {
        panic!("expected InvalidDefault");
    }
}

// InvalidDefault error span points to the default value.
#[test]
fn default_type_check_error_has_span() {
    let err = parse_schema("(\n  name: String = 42,\n)").unwrap_err();
    assert!(err.span.start.line > 0);
}

// Type alias resolved for default type checking.
#[test]
fn default_type_check_alias_resolved() {
    assert!(parse_schema("(\n  name: Name = \"hi\",\n)\ntype Name = String").is_ok());
}

// Type alias with wrong default rejected.
#[test]
fn default_type_check_alias_rejects_wrong_type() {
    let err = parse_schema("(\n  name: Name = 42,\n)\ntype Name = String").unwrap_err();
    assert!(matches!(err.kind, SchemaErrorKind::InvalidDefault { .. }));
}

// Parses an empty struct.
#[test]
fn parse_struct_empty() {
    let mut p = parser("()");
    let s = p.parse_struct().unwrap();
    assert!(s.fields.is_empty());
}

// Parses a struct with one field.
#[test]
fn parse_struct_single_field() {
    let mut p = parser("(\n  name: String,\n)");
    let s = p.parse_struct().unwrap();
    assert_eq!(s.fields.len(), 1);
    assert_eq!(s.fields[0].name.value, "name");
}

// Parses a struct with multiple fields.
#[test]
fn parse_struct_multiple_fields() {
    let mut p = parser("(\n  a: String,\n  b: Integer,\n)");
    let s = p.parse_struct().unwrap();
    assert_eq!(s.fields.len(), 2);
}

// Struct without trailing comma is valid.
#[test]
fn parse_struct_no_trailing_comma() {
    let mut p = parser("(\n  name: String\n)");
    let s = p.parse_struct().unwrap();
    assert_eq!(s.fields.len(), 1);
}

// Error on unclosed struct.
#[test]
fn parse_struct_error_on_unclosed() {
    let mut p = parser("(\n  name: String,\n");
    assert!(p.parse_struct().is_err());
}

// Parses a simple enum definition.
#[test]
fn parse_enum_def_simple() {
    let mut p = parser("enum Dir { North, South }");
    let e = p.parse_enum_def().unwrap();
    assert_eq!(e.name, "Dir");
    assert_eq!(e.variants.len(), 2);
    assert!(e.variant("North").is_some());
    assert!(e.variant("South").is_some());
}

// Trailing comma in variant list is allowed.
#[test]
fn parse_enum_def_trailing_comma() {
    let mut p = parser("enum Dir { North, South, }");
    let e = p.parse_enum_def().unwrap();
    assert_eq!(e.variants.len(), 2);
}

// Single variant enum is valid.
#[test]
fn parse_enum_def_single_variant() {
    let mut p = parser("enum Single { Only }");
    let e = p.parse_enum_def().unwrap();
    assert_eq!(e.variants.len(), 1);
}

// Error when keyword is not "enum".
#[test]
fn parse_enum_def_error_wrong_keyword() {
    let mut p = parser("struct Dir { North }");
    let err = p.parse_enum_def().unwrap_err();
    assert!(matches!(err.kind, SchemaErrorKind::UnexpectedToken { .. }));
}

// Error on unclosed enum.
#[test]
fn parse_enum_def_error_on_unclosed() {
    let mut p = parser("enum Dir { North, South");
    assert!(p.parse_enum_def().is_err());
}

// Empty input produces an empty schema.
#[test]
fn schema_empty_input() {
    let schema = parse_schema("").unwrap();
    assert!(schema.root.fields.is_empty());
}

// Empty input produces no enums.
#[test]
fn schema_empty_input_no_enums() {
    let schema = parse_schema("").unwrap();
    assert!(schema.enums.is_empty());
}

// Root struct with enum ref resolves when enum is defined.
#[test]
fn schema_enum_ref_resolves() {
    let source = "(\n  faction: Faction,\n)\nenum Faction { Sentinels, Reavers }";
    let schema = parse_schema(source).unwrap();
    assert_eq!(schema.root.fields[0].type_.value, SchemaType::EnumRef("Faction".to_string()));
}

// Multiple enum definitions are all stored.
#[test]
fn schema_multiple_enums_stored() {
    let source = "enum A { X }\nenum B { Y }";
    let schema = parse_schema(source).unwrap();
    assert_eq!(schema.enums.len(), 2);
}

// Comments before root struct are ignored.
#[test]
fn schema_comments_before_root() {
    let source = "// comment\n(\n  name: String,\n)";
    let schema = parse_schema(source).unwrap();
    assert_eq!(schema.root.fields.len(), 1);
}

// Inline comment after field is ignored.
#[test]
fn schema_inline_comment_after_field() {
    let source = "(\n  name: String, // a name\n)";
    let schema = parse_schema(source).unwrap();
    assert_eq!(schema.root.fields[0].name.value, "name");
}

// Unresolved type ref is an error.
#[test]
fn schema_unresolved_type_ref() {
    let err = parse_schema("(\n  f: Faction,\n)").unwrap_err();
    assert_eq!(err.kind, SchemaErrorKind::UnresolvedType { name: "Faction".to_string() });
}

// Unresolved type ref inside Option is an error.
#[test]
fn schema_unresolved_type_ref_in_option() {
    let err = parse_schema("(\n  t: Option(Timing),\n)").unwrap_err();
    assert_eq!(err.kind, SchemaErrorKind::UnresolvedType { name: "Timing".to_string() });
}

// Unresolved type ref inside List is an error.
#[test]
fn schema_unresolved_type_ref_in_list() {
    let err = parse_schema("(\n  t: [CardType],\n)").unwrap_err();
    assert_eq!(err.kind, SchemaErrorKind::UnresolvedType { name: "CardType".to_string() });
}

// Duplicate enum name is an error.
#[test]
fn schema_duplicate_enum_name() {
    let err = parse_schema("enum A { X }\nenum A { Y }").unwrap_err();
    assert_eq!(err.kind, SchemaErrorKind::DuplicateEnum { name: "A".to_string() });
}

// Basic type alias is stored in schema.aliases.
#[test]
fn alias_stored_in_schema() {
    let source = "(\n  cost: Cost,\n)\ntype Cost = (generic: Integer,)";
    let schema = parse_schema(source).unwrap();
    assert!(schema.alias_named("Cost").is_some());
}

// Alias field is reclassified from EnumRef to AliasRef.
#[test]
fn alias_ref_reclassified() {
    let source = "(\n  cost: Cost,\n)\ntype Cost = (generic: Integer,)";
    let schema = parse_schema(source).unwrap();
    assert_eq!(schema.root.fields[0].type_.value, SchemaType::AliasRef("Cost".to_string()));
}

// Alias to a primitive type.
#[test]
fn alias_to_primitive() {
    let source = "(\n  name: Name,\n)\ntype Name = String";
    let schema = parse_schema(source).unwrap();
    assert_eq!(schema.alias_named("Name").unwrap().value, SchemaType::String);
}

// Alias to a list type.
#[test]
fn alias_to_list() {
    let source = "(\n  tags: Tags,\n)\ntype Tags = [String]";
    let schema = parse_schema(source).unwrap();
    assert_eq!(schema.alias_named("Tags").unwrap().value, SchemaType::List(Box::new(SchemaType::String)));
}

// Alias to an option type.
#[test]
fn alias_to_option() {
    let source = "(\n  power: Power,\n)\ntype Power = Option(Integer)";
    let schema = parse_schema(source).unwrap();
    assert_eq!(schema.alias_named("Power").unwrap().value, SchemaType::Option(Box::new(SchemaType::Integer)));
}

// Alias inside a list field is reclassified.
#[test]
fn alias_ref_inside_list_reclassified() {
    let source = "(\n  costs: [Cost],\n)\ntype Cost = (generic: Integer,)";
    let schema = parse_schema(source).unwrap();
    assert_eq!(
        schema.root.fields[0].type_.value,
        SchemaType::List(Box::new(SchemaType::AliasRef("Cost".to_string())))
    );
}

// Alias inside an option field is reclassified.
#[test]
fn alias_ref_inside_option_reclassified() {
    let source = "(\n  cost: Option(Cost),\n)\ntype Cost = (generic: Integer,)";
    let schema = parse_schema(source).unwrap();
    assert_eq!(
        schema.root.fields[0].type_.value,
        SchemaType::Option(Box::new(SchemaType::AliasRef("Cost".to_string())))
    );
}

// Enums and aliases can coexist.
#[test]
fn alias_and_enum_coexist() {
    let source = "(\n  cost: Cost,\n  kind: Kind,\n)\ntype Cost = (generic: Integer,)\nenum Kind { A, B }";
    let schema = parse_schema(source).unwrap();
    assert!(schema.alias_named("Cost").is_some());
    assert!(schema.enum_named("Kind").is_some());
}

// Duplicate alias name is an error.
#[test]
fn alias_duplicate_name() {
    let source = "type A = String\ntype A = Integer";
    let err = parse_schema(source).unwrap_err();
    assert_eq!(err.kind, SchemaErrorKind::DuplicateAlias { name: "A".to_string() });
}

// Recursive alias is an error.
#[test]
fn alias_recursive_direct() {
    let source = "(\n  x: Foo,\n)\ntype Foo = Option(Foo)";
    let err = parse_schema(source).unwrap_err();
    assert_eq!(err.kind, SchemaErrorKind::RecursiveAlias { name: "Foo".to_string() });
}

// Indirect recursive alias is an error.
#[test]
fn alias_recursive_indirect() {
    let source = "(\n  x: Foo,\n)\ntype Foo = Option(Bar)\ntype Bar = [Foo]";
    let err = parse_schema(source).unwrap_err();
    assert!(matches!(err.kind, SchemaErrorKind::RecursiveAlias { .. }));
}

// Parses a map type with String keys and Integer values.
#[test]
fn parse_type_map_string_to_integer() {
    let mut p = parser("{String: Integer}");
    let t = p.parse_type().unwrap();
    assert_eq!(
        t.value,
        SchemaType::Dict(Box::new(SchemaType::String), Box::new(SchemaType::Integer))
    );
}

// Parses a map type with Integer keys.
#[test]
fn parse_type_map_integer_keys() {
    let mut p = parser("{Integer: String}");
    let t = p.parse_type().unwrap();
    assert_eq!(
        t.value,
        SchemaType::Dict(Box::new(SchemaType::Integer), Box::new(SchemaType::String))
    );
}

// Map type field in a schema.
#[test]
fn schema_map_field() {
    let source = "(\n  attrs: {String: Integer},\n)";
    let schema = parse_schema(source).unwrap();
    assert_eq!(
        schema.root.fields[0].type_.value,
        SchemaType::Dict(Box::new(SchemaType::String), Box::new(SchemaType::Integer))
    );
}

// Map with enum key type is allowed.
#[test]
fn schema_map_enum_key() {
    let source = "(\n  scores: {Stat: Integer},\n)\nenum Stat { Str, Dex, Con }";
    let schema = parse_schema(source).unwrap();
    assert_eq!(
        schema.root.fields[0].type_.value,
        SchemaType::Dict(Box::new(SchemaType::EnumRef("Stat".to_string())), Box::new(SchemaType::Integer))
    );
}

// Map with Float key type is rejected.
#[test]
fn schema_map_float_key_rejected() {
    let source = "(\n  bad: {Float: String},\n)";
    let err = parse_schema(source).unwrap_err();
    assert!(matches!(err.kind, SchemaErrorKind::InvalidMapKeyType { .. }));
}

// Map with Bool key type is rejected.
#[test]
fn schema_map_bool_key_rejected() {
    let source = "(\n  bad: {Bool: String},\n)";
    let err = parse_schema(source).unwrap_err();
    assert!(matches!(err.kind, SchemaErrorKind::InvalidMapKeyType { .. }));
}

// Parses a tuple type with two elements.
#[test]
fn parse_type_tuple() {
    let mut p = parser("(Float, Float)");
    let t = p.parse_type().unwrap();
    assert_eq!(t.value, SchemaType::Tuple(vec![SchemaType::Float, SchemaType::Float]));
}

// Parses a tuple type with mixed types.
#[test]
fn parse_type_tuple_mixed() {
    let mut p = parser("(String, Integer, Bool)");
    let t = p.parse_type().unwrap();
    assert_eq!(
        t.value,
        SchemaType::Tuple(vec![SchemaType::String, SchemaType::Integer, SchemaType::Bool])
    );
}

// Tuple type in a schema field.
#[test]
fn schema_tuple_field() {
    let source = "(\n  pos: (Float, Float),\n)";
    let schema = parse_schema(source).unwrap();
    assert_eq!(
        schema.root.fields[0].type_.value,
        SchemaType::Tuple(vec![SchemaType::Float, SchemaType::Float])
    );
}

// Inline struct still works after tuple disambiguation.
#[test]
fn schema_struct_still_works() {
    let source = "(\n  cost: (generic: Integer,),\n)";
    let schema = parse_schema(source).unwrap();
    if let SchemaType::Struct(s) = &schema.root.fields[0].type_.value {
        assert_eq!(s.fields[0].name.value, "generic");
    } else {
        panic!("expected Struct");
    }
}

// Empty parens still parse as empty struct.
#[test]
fn schema_empty_parens_is_struct() {
    let source = "(\n  empty: (),\n)";
    let schema = parse_schema(source).unwrap();
    assert!(matches!(schema.root.fields[0].type_.value, SchemaType::Struct(_)));
}

// Parses enum with data variants.
#[test]
fn parse_enum_data_variant() {
    let source = "enum Effect { Damage(Integer), Heal(Integer), Draw }";
    let schema = parse_schema(source).unwrap();
    let effect = schema.enum_named("Effect").unwrap();
    assert_eq!(effect.variant("Damage"), Some(&Some(SchemaType::Integer)));
    assert_eq!(effect.variant("Heal"), Some(&Some(SchemaType::Integer)));
    assert_eq!(effect.variant("Draw"), Some(&None));
}

// Enum with struct data variant.
#[test]
fn parse_enum_struct_data_variant() {
    let source = "enum Action { Move((Integer, Integer)), Wait }";
    let schema = parse_schema(source).unwrap();
    let action = schema.enum_named("Action").unwrap();
    assert!(matches!(action.variant("Move"), Some(Some(SchemaType::Tuple(_)))));
    assert_eq!(action.variant("Wait"), Some(&None));
}

// A variant named twice in one enum is refused at its second name.
#[test]
fn enum_duplicate_variant() {
    let mut p = parser("enum A { X, X }");
    let err = p.parse_enum_def().unwrap_err();
    assert_eq!(err.kind, SchemaErrorKind::DuplicateVariant { enum_name: "A".to_string(), variant: "X".to_string() });
    assert_eq!(err.span.start.offset, 12);
}

// A field named twice in one struct is refused at its second name.
#[test]
fn struct_duplicate_field() {
    let mut p = parser("(\n  a: String,\n  a: Integer,\n)");
    let err = p.parse_struct().unwrap_err();
    assert_eq!(err.kind, SchemaErrorKind::DuplicateField { field_name: "a".to_string() });
    assert_eq!(err.span.start.line, 3);
}

// A map key that is an alias for Float is refused.
#[test]
fn map_key_alias_to_float_rejected() {
    let err = parse_schema("(\n  m: {K: Integer},\n)\ntype K = Float").unwrap_err();
    assert_eq!(err.kind, SchemaErrorKind::InvalidMapKeyType { found: "Float".to_string() });
}

// A map key that is an alias for String is accepted.
#[test]
fn map_key_alias_to_string_accepted() {
    let schema = parse_schema("(\n  m: {K: Integer},\n)\ntype K = String").unwrap();
    assert_eq!(schema.aliases.len(), 1);
}

// An undefined name inside an alias body is refused.
#[test]
fn alias_body_undefined_name_rejected() {
    let err = parse_schema("(\n  x: A,\n)\ntype A = [Missing]").unwrap_err();
    assert_eq!(err.kind, SchemaErrorKind::UnresolvedType { name: "Missing".to_string() });
}

// A default inside a struct nested in a list is checked against its type.
#[test]
fn nested_default_in_list_checked() {
    let err = parse_schema("(\n  items: [(n: Integer = \"x\",)],\n)").unwrap_err();
    assert_eq!(
        err.kind,
        SchemaErrorKind::InvalidDefault { field_name: "n".to_string(), expected: "Integer".to_string(), found: "String(\"x\")".to_string() }
    );
}

// A struct default that validates against its struct type is accepted.
#[test]
fn struct_default_accepted() {
    let schema = parse_schema("(\n  pos: (x: Integer, y: Integer) = (x: 1, y: 2),\n)").unwrap();
    assert!(schema.root.fields[0].default.is_some());
}

// A bare name for a variant that carries data is not a fitting default.
#[test]
fn data_variant_bare_default_rejected() {
    let err = parse_schema("(\n  e: Effect = Damage,\n)\nenum Effect { Damage(Integer), Draw }").unwrap_err();
    assert!(matches!(err.kind, SchemaErrorKind::InvalidDefault { .. }));
}
