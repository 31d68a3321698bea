use ron_schema::{parse_ron, parse_schema, validate, Decimal, ErrorKind, RonValue, ValidationError, ValidationResult, WarningKind};
use ron_schema::validate::{build_path, describe_value};

/// Parses both a schema and data string, runs validation, returns errors.
fn validate_str(schema_src: &str, data_src: &str) -> Vec<ValidationError> {
    validate_full(schema_src, data_src).errors
}

/// Parses both a schema and data string, runs validation, returns the full result.
fn validate_full(schema_src: &str, data_src: &str) -> ValidationResult {
    let schema = parse_schema(schema_src).expect("test schema should parse");
    let data = parse_ron(data_src).expect("test data should parse");
    validate(&schema, &data)
}

/// The decimal written by a number literal such as `3.14` or `-0.5`.
#[allow(dead_code)]
fn dec(text: &str) -> Decimal {
    let negative = text.starts_with('-');
    let body = text.trim_start_matches('-');
    let (int_part, frac) = body.split_once('.').unwrap_or((body, ""));
    let digits: i64 = format!("{int_part}{frac}").parse().expect("digits");
    Decimal::from_scaled(if negative { -digits } else { digits }, frac.len())
}

// Describes a string value.
#[test]
fn describe_string() {
    assert_eq!(describe_value(&RonValue::String("hi".to_string())), "String(\"hi\")");
}

// Truncates long strings at 20 characters.
#[test]
fn describe_string_truncated() {
    let long = "a".repeat(30);
    let desc = describe_value(&RonValue::String(long));
    assert!(desc.contains("..."));
}

// Describes an integer.
#[test]
fn describe_integer() {
    assert_eq!(describe_value(&RonValue::Integer(42)), "Integer(42)");
}

// Describes a float.
#[test]
fn describe_float() {
    assert_eq!(describe_value(&RonValue::Float(dec("3.14"))), "Float(3.14)");
}

// Describes a bool.
#[test]
fn describe_bool() {
    assert_eq!(describe_value(&RonValue::Bool(true)), "Bool(true)");
}

// Describes an identifier.
#[test]
fn describe_identifier() {
    assert_eq!(describe_value(&RonValue::Identifier("Creature".to_string())), "Identifier(Creature)");
}

// Root-level field has no dot prefix.
#[test]
fn build_path_root() {
    assert_eq!(build_path("", "name"), "name");
}

// Nested field gets dot notation.
#[test]
fn build_path_nested() {
    assert_eq!(build_path("cost", "generic"), "cost.generic");
}

// Deeply nested path.
#[test]
fn build_path_deep() {
    assert_eq!(build_path("a.b", "c"), "a.b.c");
}

// Valid data with a single string field.
#[test]
fn valid_single_string_field() {
    let errs = validate_str("(\n  name: String,\n)", "(name: \"hello\")");
    assert!(errs.is_empty());
}

// Valid data with all primitive types.
#[test]
fn valid_all_primitives() {
    let schema = "(\n  s: String,\n  i: Integer,\n  f: Float,\n  b: Bool,\n)";
    let data = "(s: \"hi\", i: 42, f: 3.14, b: true)";
    let errs = validate_str(schema, data);
    assert!(errs.is_empty());
}

// Valid data with None option.
#[test]
fn valid_option_none() {
    let errs = validate_str("(\n  power: Option(Integer),\n)", "(power: None)");
    assert!(errs.is_empty());
}

// Valid data with Some option.
#[test]
fn valid_option_some() {
    let errs = validate_str("(\n  power: Option(Integer),\n)", "(power: Some(5))");
    assert!(errs.is_empty());
}

// Valid data with empty list.
#[test]
fn valid_list_empty() {
    let errs = validate_str("(\n  tags: [String],\n)", "(tags: [])");
    assert!(errs.is_empty());
}

// Valid data with populated list.
#[test]
fn valid_list_populated() {
    let errs = validate_str("(\n  tags: [String],\n)", "(tags: [\"a\", \"b\"])");
    assert!(errs.is_empty());
}

// Valid data with enum variant.
#[test]
fn valid_enum_variant() {
    let schema = "(\n  kind: Kind,\n)\nenum Kind { A, B, C }";
    let data = "(kind: B)";
    let errs = validate_str(schema, data);
    assert!(errs.is_empty());
}

// Valid data with list of enum variants.
#[test]
fn valid_enum_list() {
    let schema = "(\n  types: [CardType],\n)\nenum CardType { Creature, Trap }";
    let data = "(types: [Creature, Trap])";
    let errs = validate_str(schema, data);
    assert!(errs.is_empty());
}

// Valid data with nested struct.
#[test]
fn valid_nested_struct() {
    let schema = "(\n  cost: (\n    generic: Integer,\n    sigil: Integer,\n  ),\n)";
    let data = "(cost: (generic: 2, sigil: 1))";
    let errs = validate_str(schema, data);
    assert!(errs.is_empty());
}

// String field rejects integer value.
#[test]
fn type_mismatch_string_got_integer() {
    let errs = validate_str("(\n  name: String,\n)", "(name: 42)");
    assert_eq!(errs.len(), 1);
    assert!(matches!(&errs[0].kind, ErrorKind::TypeMismatch { expected, .. } if expected == "String"));
}

// Integer field rejects string value.
#[test]
fn type_mismatch_integer_got_string() {
    let errs = validate_str("(\n  age: Integer,\n)", "(age: \"five\")");
    assert_eq!(errs.len(), 1);
    assert!(matches!(&errs[0].kind, ErrorKind::TypeMismatch { expected, .. } if expected == "Integer"));
}

// Float field rejects integer value.
#[test]
fn type_mismatch_float_got_integer() {
    let errs = validate_str("(\n  rate: Float,\n)", "(rate: 5)");
    assert_eq!(errs.len(), 1);
    assert!(matches!(&errs[0].kind, ErrorKind::TypeMismatch { expected, .. } if expected == "Float"));
}

// Bool field rejects string value.
#[test]
fn type_mismatch_bool_got_string() {
    let errs = validate_str("(\n  flag: Bool,\n)", "(flag: \"yes\")");
    assert_eq!(errs.len(), 1);
    assert!(matches!(&errs[0].kind, ErrorKind::TypeMismatch { expected, .. } if expected == "Bool"));
}

// Error path is correct for type mismatch.
#[test]
fn type_mismatch_has_correct_path() {
    let errs = validate_str("(\n  name: String,\n)", "(name: 42)");
    assert_eq!(errs[0].path, "name");
}

// Missing field is detected.
#[test]
fn missing_field_detected() {
    let errs = validate_str("(\n  name: String,\n  age: Integer,\n)", "(name: \"hi\")");
    assert_eq!(errs.len(), 1);
    assert!(matches!(&errs[0].kind, ErrorKind::MissingField { field_name } if field_name == "age"));
}

// Missing field path is correct.
#[test]
fn missing_field_has_correct_path() {
    let errs = validate_str("(\n  name: String,\n  age: Integer,\n)", "(name: \"hi\")");
    assert_eq!(errs[0].path, "age");
}

// Missing field span points to close paren.
#[test]
fn missing_field_span_points_to_close_paren() {
    let data = "(name: \"hi\")";
    let errs = validate_str("(\n  name: String,\n  age: Integer,\n)", data);
    // close paren is the last character
    assert_eq!(errs[0].span.start.offset, data.len() - 1);
}

// Multiple missing fields are all reported.
#[test]
fn missing_fields_all_reported() {
    let errs = validate_str("(\n  a: String,\n  b: Integer,\n  c: Bool,\n)", "()");
    assert_eq!(errs.len(), 3);
}

// No warning when fields are in schema order.
#[test]
fn field_order_correct_no_warning() {
    let result = validate_full("(\n  a: String,\n  b: Integer,\n)", "(a: \"hi\", b: 1)");
    assert!(result.warnings.is_empty());
}

// Warning when fields are swapped.
#[test]
fn field_order_swapped_produces_warning() {
    let result = validate_full("(\n  a: String,\n  b: Integer,\n)", "(b: 1, a: \"hi\")");
    assert_eq!(result.warnings.len(), 1);
}

// Warning has FieldOrderMismatch kind.
#[test]
fn field_order_warning_has_correct_kind() {
    let result = validate_full("(\n  a: String,\n  b: Integer,\n)", "(b: 1, a: \"hi\")");
    assert!(matches!(&result.warnings[0].kind, WarningKind::FieldOrderMismatch { .. }));
}

// Warning identifies the out-of-order field.
#[test]
fn field_order_warning_identifies_field() {
    let result = validate_full("(\n  a: String,\n  b: Integer,\n)", "(b: 1, a: \"hi\")");
    if let WarningKind::FieldOrderMismatch { field_name, .. } = &result.warnings[0].kind {
        assert_eq!(field_name, "a");
    } else {
        panic!("expected FieldOrderMismatch");
    }
}

// Warning identifies the field it should come after.
#[test]
fn field_order_warning_identifies_expected_after() {
    let result = validate_full("(\n  a: String,\n  b: Integer,\n)", "(b: 1, a: \"hi\")");
    if let WarningKind::FieldOrderMismatch { expected_after, .. } = &result.warnings[0].kind {
        assert_eq!(expected_after, "b");
    } else {
        panic!("expected FieldOrderMismatch");
    }
}

// Warning has correct path.
#[test]
fn field_order_warning_has_correct_path() {
    let result = validate_full("(\n  a: String,\n  b: Integer,\n)", "(b: 1, a: \"hi\")");
    assert_eq!(result.warnings[0].path, "a");
}

// Warning span points to the field name.
#[test]
fn field_order_warning_has_span() {
    let result = validate_full("(\n  a: String,\n  b: Integer,\n)", "(b: 1, a: \"hi\")");
    assert!(result.warnings[0].span.start.line > 0);
}

// Correct order with three fields produces no warning.
#[test]
fn field_order_three_fields_correct() {
    let result = validate_full(
        "(\n  a: String,\n  b: Integer,\n  c: Bool,\n)",
        "(a: \"hi\", b: 1, c: true)",
    );
    assert!(result.warnings.is_empty());
}

// Middle field out of order.
#[test]
fn field_order_middle_field_swapped() {
    let result = validate_full(
        "(\n  a: String,\n  b: Integer,\n  c: Bool,\n)",
        "(a: \"hi\", c: true, b: 1)",
    );
    assert_eq!(result.warnings.len(), 1);
    if let WarningKind::FieldOrderMismatch { field_name, .. } = &result.warnings[0].kind {
        assert_eq!(field_name, "b");
    } else {
        panic!("expected FieldOrderMismatch");
    }
}

// Field order warning does not produce errors.
#[test]
fn field_order_warning_no_errors() {
    let result = validate_full("(\n  a: String,\n  b: Integer,\n)", "(b: 1, a: \"hi\")");
    assert!(result.errors.is_empty());
}

// Unknown fields don't affect order checking.
#[test]
fn field_order_with_unknown_field() {
    let result = validate_full("(\n  a: String,\n  b: Integer,\n)", "(b: 1, x: true, a: \"hi\")");
    assert_eq!(result.warnings.len(), 1);
}

// Field with default does not produce MissingField when absent.
#[test]
fn default_field_not_required() {
    let errs = validate_str("(\n  name: String,\n  label: String = \"none\",\n)", "(name: \"hi\")");
    assert!(errs.is_empty());
}

// Field with default still validates type when present.
#[test]
fn default_field_still_validates_type() {
    let errs = validate_str("(\n  name: String,\n  label: String = \"none\",\n)", "(name: \"hi\", label: 42)");
    assert_eq!(errs.len(), 1);
    assert!(matches!(&errs[0].kind, ErrorKind::TypeMismatch { .. }));
}

// Field with default accepts correct type when present.
#[test]
fn default_field_accepts_correct_type() {
    let errs = validate_str("(\n  name: String,\n  label: String = \"none\",\n)", "(name: \"hi\", label: \"custom\")");
    assert!(errs.is_empty());
}

// Field without default still produces MissingField.
#[test]
fn non_default_field_still_required() {
    let errs = validate_str("(\n  name: String,\n  label: String = \"none\",\n)", "(label: \"hi\")");
    assert_eq!(errs.len(), 1);
    assert!(matches!(&errs[0].kind, ErrorKind::MissingField { field_name } if field_name == "name"));
}

// Multiple fields with defaults can all be absent.
#[test]
fn multiple_default_fields_all_absent() {
    let errs = validate_str(
        "(\n  name: String,\n  a: Integer = 0,\n  b: Bool = false,\n  c: String = \"x\",\n)",
        "(name: \"hi\")",
    );
    assert!(errs.is_empty());
}

// Default on Option field allows absence.
#[test]
fn default_option_field_not_required() {
    let errs = validate_str("(\n  name: String,\n  tag: Option(String) = None,\n)", "(name: \"hi\")");
    assert!(errs.is_empty());
}

// Default on list field allows absence.
#[test]
fn default_list_field_not_required() {
    let errs = validate_str("(\n  name: String,\n  tags: [String] = [],\n)", "(name: \"hi\")");
    assert!(errs.is_empty());
}

// Unknown field is detected.
#[test]
fn unknown_field_detected() {
    let errs = validate_str("(\n  name: String,\n)", "(name: \"hi\", colour: \"red\")");
    assert_eq!(errs.len(), 1);
    assert!(matches!(&errs[0].kind, ErrorKind::UnknownField { field_name } if field_name == "colour"));
}

// Unknown field path is correct.
#[test]
fn unknown_field_has_correct_path() {
    let errs = validate_str("(\n  name: String,\n)", "(name: \"hi\", extra: 5)");
    assert_eq!(errs[0].path, "extra");
}

// Invalid enum variant is detected.
#[test]
fn invalid_enum_variant() {
    let schema = "(\n  kind: Kind,\n)\nenum Kind { A, B }";
    let errs = validate_str(schema, "(kind: C)");
    assert_eq!(errs.len(), 1);
    assert!(matches!(&errs[0].kind, ErrorKind::InvalidEnumVariant { variant, .. } if variant == "C"));
}

// Enum field rejects string value (should be bare identifier).
#[test]
fn enum_rejects_string() {
    let schema = "(\n  kind: Kind,\n)\nenum Kind { A, B }";
    let errs = validate_str(schema, "(kind: \"A\")");
    assert_eq!(errs.len(), 1);
    assert!(matches!(&errs[0].kind, ErrorKind::TypeMismatch { .. }));
}

// Option field rejects bare integer (not wrapped in Some).
#[test]
fn expected_option_got_bare_value() {
    let errs = validate_str("(\n  power: Option(Integer),\n)", "(power: 5)");
    assert_eq!(errs.len(), 1);
    assert!(matches!(&errs[0].kind, ErrorKind::ExpectedOption { .. }));
}

// Some wrapping wrong type is an error.
#[test]
fn option_some_wrong_inner_type() {
    let errs = validate_str("(\n  power: Option(Integer),\n)", "(power: Some(\"five\"))");
    assert_eq!(errs.len(), 1);
    assert!(matches!(&errs[0].kind, ErrorKind::TypeMismatch { expected, .. } if expected == "Integer"));
}

// List field rejects non-list value.
#[test]
fn expected_list_got_string() {
    let errs = validate_str("(\n  tags: [String],\n)", "(tags: \"hi\")");
    assert_eq!(errs.len(), 1);
    assert!(matches!(&errs[0].kind, ErrorKind::ExpectedList { .. }));
}

// List element with wrong type is an error.
#[test]
fn list_element_wrong_type() {
    let errs = validate_str("(\n  tags: [String],\n)", "(tags: [\"ok\", 42])");
    assert_eq!(errs.len(), 1);
    assert!(matches!(&errs[0].kind, ErrorKind::TypeMismatch { expected, .. } if expected == "String"));
}

// List element error has bracket path.
#[test]
fn list_element_error_has_bracket_path() {
    let errs = validate_str("(\n  tags: [String],\n)", "(tags: [\"ok\", 42])");
    assert_eq!(errs[0].path, "tags[1]");
}

// Struct field rejects non-struct value.
#[test]
fn expected_struct_got_integer() {
    let schema = "(\n  cost: (\n    generic: Integer,\n  ),\n)";
    let errs = validate_str(schema, "(cost: 5)");
    assert_eq!(errs.len(), 1);
    assert!(matches!(&errs[0].kind, ErrorKind::ExpectedStruct { .. }));
}

// Type mismatch in nested struct has correct path.
#[test]
fn nested_struct_type_mismatch_path() {
    let schema = "(\n  cost: (\n    generic: Integer,\n  ),\n)";
    let errs = validate_str(schema, "(cost: (generic: \"two\"))");
    assert_eq!(errs.len(), 1);
    assert_eq!(errs[0].path, "cost.generic");
}

// Missing field in nested struct has correct path.
#[test]
fn nested_struct_missing_field_path() {
    let schema = "(\n  cost: (\n    generic: Integer,\n    sigil: Integer,\n  ),\n)";
    let errs = validate_str(schema, "(cost: (generic: 1))");
    assert_eq!(errs.len(), 1);
    assert_eq!(errs[0].path, "cost.sigil");
}

// Multiple errors in one struct are all reported.
#[test]
fn multiple_errors_collected() {
    let schema = "(\n  name: String,\n  age: Integer,\n  active: Bool,\n)";
    let data = "(name: 42, age: \"five\", active: \"yes\")";
    let errs = validate_str(schema, data);
    assert_eq!(errs.len(), 3);
}

// Mixed error types are all collected.
#[test]
fn mixed_error_types_collected() {
    let schema = "(\n  name: String,\n  age: Integer,\n)";
    let data = "(name: \"hi\", age: \"five\", extra: true)";
    let errs = validate_str(schema, data);
    // age is TypeMismatch, extra is UnknownField
    assert_eq!(errs.len(), 2);
}

// Valid card data produces no errors.
#[test]
fn valid_card_data() {
    let schema = r#"(
        name: String,
        card_types: [CardType],
        legendary: Bool,
        power: Option(Integer),
        toughness: Option(Integer),
        keywords: [String],
    )
    enum CardType { Creature, Trap, Artifact }"#;
    let data = r#"(
        name: "Ashborn Hound",
        card_types: [Creature],
        legendary: false,
        power: Some(1),
        toughness: Some(1),
        keywords: [],
    )"#;
    let errs = validate_str(schema, data);
    assert!(errs.is_empty());
}

// Card data with multiple errors reports all of them.
#[test]
fn card_data_multiple_errors() {
    let schema = r#"(
        name: String,
        card_types: [CardType],
        legendary: Bool,
        power: Option(Integer),
    )
    enum CardType { Creature, Trap }"#;
    let data = r#"(
        name: 42,
        card_types: [Pirates],
        legendary: false,
        power: Some("five"),
    )"#;
    let errs = validate_str(schema, data);
    // name: TypeMismatch, card_types[0]: InvalidEnumVariant, power: TypeMismatch
    assert_eq!(errs.len(), 3);
}

// Alias to a struct type validates correctly.
#[test]
fn alias_struct_valid() {
    let schema = "(\n  cost: Cost,\n)\ntype Cost = (generic: Integer,)";
    let data = "(cost: (generic: 5))";
    let errs = validate_str(schema, data);
    assert!(errs.is_empty());
}

// Alias to a struct type catches type mismatch inside.
#[test]
fn alias_struct_type_mismatch() {
    let schema = "(\n  cost: Cost,\n)\ntype Cost = (generic: Integer,)";
    let data = "(cost: (generic: \"five\"))";
    let errs = validate_str(schema, data);
    assert_eq!(errs.len(), 1);
    assert!(matches!(&errs[0].kind, ErrorKind::TypeMismatch { expected, .. } if expected == "Integer"));
}

// Alias to a primitive type validates correctly.
#[test]
fn alias_primitive_valid() {
    let schema = "(\n  name: Name,\n)\ntype Name = String";
    let data = "(name: \"hello\")";
    let errs = validate_str(schema, data);
    assert!(errs.is_empty());
}

// Alias to a primitive type catches mismatch.
#[test]
fn alias_primitive_mismatch() {
    let schema = "(\n  name: Name,\n)\ntype Name = String";
    let data = "(name: 42)";
    let errs = validate_str(schema, data);
    assert_eq!(errs.len(), 1);
}

// Alias used inside a list validates each element.
#[test]
fn alias_in_list_valid() {
    let schema = "(\n  costs: [Cost],\n)\ntype Cost = (generic: Integer,)";
    let data = "(costs: [(generic: 1), (generic: 2)])";
    let errs = validate_str(schema, data);
    assert!(errs.is_empty());
}

// Alias used inside a list catches element errors.
#[test]
fn alias_in_list_element_error() {
    let schema = "(\n  costs: [Cost],\n)\ntype Cost = (generic: Integer,)";
    let data = "(costs: [(generic: 1), (generic: \"two\")])";
    let errs = validate_str(schema, data);
    assert_eq!(errs.len(), 1);
    assert_eq!(errs[0].path, "costs[1].generic");
}

// Valid map with string keys and integer values.
#[test]
fn map_valid() {
    let schema = "(\n  attrs: {String: Integer},\n)";
    let data = "(attrs: {\"str\": 5, \"dex\": 3})";
    let errs = validate_str(schema, data);
    assert!(errs.is_empty());
}

// Empty map is always valid.
#[test]
fn map_empty_valid() {
    let schema = "(\n  attrs: {String: Integer},\n)";
    let data = "(attrs: {})";
    let errs = validate_str(schema, data);
    assert!(errs.is_empty());
}

// Non-map value where map expected.
#[test]
fn map_expected_got_string() {
    let schema = "(\n  attrs: {String: Integer},\n)";
    let data = "(attrs: \"not a map\")";
    let errs = validate_str(schema, data);
    assert_eq!(errs.len(), 1);
    assert!(matches!(&errs[0].kind, ErrorKind::ExpectedMap { .. }));
}

// Map value with wrong type.
#[test]
fn map_wrong_value_type() {
    let schema = "(\n  attrs: {String: Integer},\n)";
    let data = "(attrs: {\"str\": \"five\"})";
    let errs = validate_str(schema, data);
    assert_eq!(errs.len(), 1);
    assert!(matches!(&errs[0].kind, ErrorKind::TypeMismatch { expected, .. } if expected == "Integer"));
}

// Map key with wrong type.
#[test]
fn map_wrong_key_type() {
    let schema = "(\n  attrs: {String: Integer},\n)";
    let data = "(attrs: {42: 5})";
    let errs = validate_str(schema, data);
    assert_eq!(errs.len(), 1);
    assert!(matches!(&errs[0].kind, ErrorKind::TypeMismatch { expected, .. } if expected == "String"));
}

// Valid tuple.
#[test]
fn tuple_valid() {
    let schema = "(\n  pos: (Float, Float),\n)";
    let data = "(pos: (1.0, 2.5))";
    let errs = validate_str(schema, data);
    assert!(errs.is_empty());
}

// Non-tuple value where tuple expected.
#[test]
fn tuple_expected_got_string() {
    let schema = "(\n  pos: (Float, Float),\n)";
    let data = "(pos: \"not a tuple\")";
    let errs = validate_str(schema, data);
    assert_eq!(errs.len(), 1);
    assert!(matches!(&errs[0].kind, ErrorKind::ExpectedTuple { .. }));
}

// Tuple with wrong element count.
#[test]
fn tuple_wrong_length() {
    let schema = "(\n  pos: (Float, Float),\n)";
    let data = "(pos: (1.0, 2.5, 3.0))";
    let errs = validate_str(schema, data);
    assert_eq!(errs.len(), 1);
    assert!(matches!(&errs[0].kind, ErrorKind::TupleLengthMismatch { expected: 2, found: 3 }));
}

// Tuple with wrong element type.
#[test]
fn tuple_wrong_element_type() {
    let schema = "(\n  pos: (Float, Float),\n)";
    let data = "(pos: (1.0, \"bad\"))";
    let errs = validate_str(schema, data);
    assert_eq!(errs.len(), 1);
    assert!(matches!(&errs[0].kind, ErrorKind::TypeMismatch { expected, .. } if expected == "Float"));
}

// Tuple element error has correct path.
#[test]
fn tuple_element_error_path() {
    let schema = "(\n  pos: (Float, Float),\n)";
    let data = "(pos: (1.0, \"bad\"))";
    let errs = validate_str(schema, data);
    assert_eq!(errs[0].path, "pos.1");
}

// Valid data variant.
#[test]
fn enum_data_variant_valid() {
    let schema = "(\n  effect: Effect,\n)\nenum Effect { Damage(Integer), Draw }";
    let data = "(effect: Damage(5))";
    let errs = validate_str(schema, data);
    assert!(errs.is_empty());
}

// Valid unit variant alongside data variants.
#[test]
fn enum_unit_variant_valid() {
    let schema = "(\n  effect: Effect,\n)\nenum Effect { Damage(Integer), Draw }";
    let data = "(effect: Draw)";
    let errs = validate_str(schema, data);
    assert!(errs.is_empty());
}

// Data variant with wrong inner type.
#[test]
fn enum_data_variant_wrong_type() {
    let schema = "(\n  effect: Effect,\n)\nenum Effect { Damage(Integer), Draw }";
    let data = "(effect: Damage(\"five\"))";
    let errs = validate_str(schema, data);
    assert_eq!(errs.len(), 1);
    assert!(matches!(&errs[0].kind, ErrorKind::TypeMismatch { expected, .. } if expected == "Integer"));
}

// Unknown variant name with data.
#[test]
fn enum_data_variant_unknown() {
    let schema = "(\n  effect: Effect,\n)\nenum Effect { Damage(Integer), Draw }";
    let data = "(effect: Explode(10))";
    let errs = validate_str(schema, data);
    assert_eq!(errs.len(), 1);
    assert!(matches!(&errs[0].kind, ErrorKind::InvalidEnumVariant { .. }));
}

// Bare identifier for a variant that expects data.
#[test]
fn enum_missing_data() {
    let schema = "(\n  effect: Effect,\n)\nenum Effect { Damage(Integer), Draw }";
    let data = "(effect: Damage)";
    let errs = validate_str(schema, data);
    assert_eq!(errs.len(), 1);
    assert!(matches!(&errs[0].kind, ErrorKind::InvalidVariantData { .. }));
}

// Data provided for a unit variant.
#[test]
fn enum_unexpected_data() {
    let schema = "(\n  effect: Effect,\n)\nenum Effect { Damage(Integer), Draw }";
    let data = "(effect: Draw(5))";
    let errs = validate_str(schema, data);
    assert_eq!(errs.len(), 1);
    assert!(matches!(&errs[0].kind, ErrorKind::InvalidVariantData { .. }));
}

// Integer within range passes.
#[test]
fn range_integer_within_bounds() {
    let errs = validate_str("(\n  @range(0, 100)\n  health: Integer,\n)", "(health: 50)");
    assert!(errs.is_empty());
}

// Integer at lower bound passes.
#[test]
fn range_integer_at_min() {
    let errs = validate_str("(\n  @range(0, 100)\n  health: Integer,\n)", "(health: 0)");
    assert!(errs.is_empty());
}

// Integer at upper bound passes.
#[test]
fn range_integer_at_max() {
    let errs = validate_str("(\n  @range(0, 100)\n  health: Integer,\n)", "(health: 100)");
    assert!(errs.is_empty());
}

// Integer below range fails.
#[test]
fn range_integer_below_min() {
    let errs = validate_str("(\n  @range(0, 100)\n  health: Integer,\n)", "(health: -1)");
    assert_eq!(errs.len(), 1);
    assert!(matches!(&errs[0].kind, ErrorKind::ValueOutOfRange { .. }));
}

// Integer above range fails.
#[test]
fn range_integer_above_max() {
    let errs = validate_str("(\n  @range(0, 100)\n  health: Integer,\n)", "(health: 101)");
    assert_eq!(errs.len(), 1);
    assert!(matches!(&errs[0].kind, ErrorKind::ValueOutOfRange { .. }));
}

// Float within range passes.
#[test]
fn range_float_within_bounds() {
    let errs = validate_str("(\n  @range(0.0, 1.0)\n  ratio: Float,\n)", "(ratio: 0.5)");
    assert!(errs.is_empty());
}

// Float below range fails.
#[test]
fn range_float_below_min() {
    let errs = validate_str("(\n  @range(0.0, 1.0)\n  ratio: Float,\n)", "(ratio: -0.1)");
    assert_eq!(errs.len(), 1);
    assert!(matches!(&errs[0].kind, ErrorKind::ValueOutOfRange { .. }));
}

// Negative range bounds work.
#[test]
fn range_negative_bounds() {
    let errs = validate_str("(\n  @range(-50, 50)\n  offset: Integer,\n)", "(offset: -50)");
    assert!(errs.is_empty());
}

// Range error contains correct field name.
#[test]
fn range_error_has_field_name() {
    let errs = validate_str("(\n  @range(0, 100)\n  health: Integer,\n)", "(health: 200)");
    if let ErrorKind::ValueOutOfRange { field_name, .. } = &errs[0].kind {
        assert_eq!(field_name, "health");
    } else {
        panic!("expected ValueOutOfRange");
    }
}

// Range error contains correct bounds and found value.
#[test]
fn range_error_has_bounds_and_value() {
    let errs = validate_str("(\n  @range(0, 100)\n  health: Integer,\n)", "(health: 200)");
    if let ErrorKind::ValueOutOfRange { min, max, found, .. } = &errs[0].kind {
        assert_eq!(min.to_text().parse::<f64>().unwrap(), 0.0);
        assert_eq!(max.to_text().parse::<f64>().unwrap(), 100.0);
        assert_eq!(found.to_text().parse::<f64>().unwrap(), 200.0);
    } else {
        panic!("expected ValueOutOfRange");
    }
}

// String meeting min_length passes.
#[test]
fn min_length_string_passes() {
    let errs = validate_str("(\n  @min_length(3)\n  name: String,\n)", "(name: \"abc\")");
    assert!(errs.is_empty());
}

// String shorter than min_length fails.
#[test]
fn min_length_string_fails() {
    let errs = validate_str("(\n  @min_length(3)\n  name: String,\n)", "(name: \"ab\")");
    assert_eq!(errs.len(), 1);
    assert!(matches!(&errs[0].kind, ErrorKind::LengthTooShort { .. }));
}

// List meeting min_length passes.
#[test]
fn min_length_list_passes() {
    let errs = validate_str("(\n  @min_length(2)\n  tags: [String],\n)", "(tags: [\"a\", \"b\"])");
    assert!(errs.is_empty());
}

// List shorter than min_length fails.
#[test]
fn min_length_list_fails() {
    let errs = validate_str("(\n  @min_length(2)\n  tags: [String],\n)", "(tags: [\"a\"])");
    assert_eq!(errs.len(), 1);
    assert!(matches!(&errs[0].kind, ErrorKind::LengthTooShort { .. }));
}

// min_length error contains correct values.
#[test]
fn min_length_error_has_values() {
    let errs = validate_str("(\n  @min_length(3)\n  name: String,\n)", "(name: \"ab\")");
    if let ErrorKind::LengthTooShort { min, found, .. } = &errs[0].kind {
        assert_eq!(*min, 3);
        assert_eq!(*found, 2);
    } else {
        panic!("expected LengthTooShort");
    }
}

// String within max_length passes.
#[test]
fn max_length_string_passes() {
    let errs = validate_str("(\n  @max_length(5)\n  name: String,\n)", "(name: \"abc\")");
    assert!(errs.is_empty());
}

// String exceeding max_length fails.
#[test]
fn max_length_string_fails() {
    let errs = validate_str("(\n  @max_length(3)\n  name: String,\n)", "(name: \"abcd\")");
    assert_eq!(errs.len(), 1);
    assert!(matches!(&errs[0].kind, ErrorKind::LengthTooLong { .. }));
}

// List exceeding max_length fails.
#[test]
fn max_length_list_fails() {
    let errs = validate_str("(\n  @max_length(2)\n  tags: [String],\n)", "(tags: [\"a\", \"b\", \"c\"])");
    assert_eq!(errs.len(), 1);
    assert!(matches!(&errs[0].kind, ErrorKind::LengthTooLong { .. }));
}

// max_length error contains correct values.
#[test]
fn max_length_error_has_values() {
    let errs = validate_str("(\n  @max_length(3)\n  name: String,\n)", "(name: \"abcde\")");
    if let ErrorKind::LengthTooLong { max, found, .. } = &errs[0].kind {
        assert_eq!(*max, 3);
        assert_eq!(*found, 5);
    } else {
        panic!("expected LengthTooLong");
    }
}

// Both min and max length on same field — passes.
#[test]
fn min_and_max_length_passes() {
    let errs = validate_str("(\n  @min_length(1)\n  @max_length(10)\n  name: String,\n)", "(name: \"hello\")");
    assert!(errs.is_empty());
}

// Both min and max length on same field — too short.
#[test]
fn min_and_max_length_too_short() {
    let errs = validate_str("(\n  @min_length(3)\n  @max_length(10)\n  name: String,\n)", "(name: \"ab\")");
    assert_eq!(errs.len(), 1);
    assert!(matches!(&errs[0].kind, ErrorKind::LengthTooShort { .. }));
}

// Both min and max length on same field — too long.
#[test]
fn min_and_max_length_too_long() {
    let errs = validate_str("(\n  @min_length(1)\n  @max_length(3)\n  name: String,\n)", "(name: \"abcde\")");
    assert_eq!(errs.len(), 1);
    assert!(matches!(&errs[0].kind, ErrorKind::LengthTooLong { .. }));
}

// Annotation on field that doesn't match type is silently ignored.
#[test]
fn range_on_string_field_ignored() {
    let errs = validate_str("(\n  @range(0, 100)\n  name: String,\n)", "(name: \"hello\")");
    assert!(errs.is_empty());
}

// Annotation not checked when field has type mismatch.
#[test]
fn annotation_skipped_on_type_mismatch() {
    let errs = validate_str("(\n  @range(0, 100)\n  health: Integer,\n)", "(health: \"hello\")");
    assert_eq!(errs.len(), 1);
    assert!(matches!(&errs[0].kind, ErrorKind::TypeMismatch { .. }));
}

// String matching pattern passes.
#[test]
fn pattern_matching_string_passes() {
    let errs = validate_str("(\n  @pattern(\"^[a-z]+$\")\n  tag: String,\n)", "(tag: \"hello\")");
    assert!(errs.is_empty());
}

// String not matching pattern fails.
#[test]
fn pattern_non_matching_string_fails() {
    let errs = validate_str("(\n  @pattern(\"^[a-z]+$\")\n  tag: String,\n)", "(tag: \"Hello123\")");
    assert_eq!(errs.len(), 1);
    assert!(matches!(&errs[0].kind, ErrorKind::PatternMismatch { .. }));
}

// Pattern error contains correct field name and pattern.
#[test]
fn pattern_error_has_field_and_pattern() {
    let errs = validate_str("(\n  @pattern(\"^[0-9]+$\")\n  code: String,\n)", "(code: \"abc\")");
    if let ErrorKind::PatternMismatch { field_name, pattern } = &errs[0].kind {
        assert_eq!(field_name, "code");
        assert_eq!(pattern, "^[0-9]+$");
    } else {
        panic!("expected PatternMismatch");
    }
}

// Pattern on non-string field is silently ignored.
#[test]
fn pattern_on_integer_field_ignored() {
    let errs = validate_str("(\n  @pattern(\"^[0-9]+$\")\n  count: Integer,\n)", "(count: 42)");
    assert!(errs.is_empty());
}

// Satisfied <= constraint passes.
#[test]
fn require_le_satisfied() {
    let schema = "(\n  @require(min <= max)\n  min: Integer,\n  max: Integer,\n)";
    let errs = validate_str(schema, "(min: 5, max: 10)");
    assert!(errs.is_empty());
}

// Equal values satisfy <=.
#[test]
fn require_le_equal_satisfied() {
    let schema = "(\n  @require(min <= max)\n  min: Integer,\n  max: Integer,\n)";
    let errs = validate_str(schema, "(min: 5, max: 5)");
    assert!(errs.is_empty());
}

// Violated <= constraint fails.
#[test]
fn require_le_violated() {
    let schema = "(\n  @require(min <= max)\n  min: Integer,\n  max: Integer,\n)";
    let errs = validate_str(schema, "(min: 10, max: 5)");
    assert_eq!(errs.len(), 1);
    assert!(matches!(&errs[0].kind, ErrorKind::CrossFieldViolation { .. }));
}

// Satisfied < constraint passes.
#[test]
fn require_lt_satisfied() {
    let schema = "(\n  @require(start < end)\n  start: Integer,\n  end: Integer,\n)";
    let errs = validate_str(schema, "(start: 1, end: 10)");
    assert!(errs.is_empty());
}

// Equal values violate <.
#[test]
fn require_lt_equal_violated() {
    let schema = "(\n  @require(start < end)\n  start: Integer,\n  end: Integer,\n)";
    let errs = validate_str(schema, "(start: 5, end: 5)");
    assert_eq!(errs.len(), 1);
    assert!(matches!(&errs[0].kind, ErrorKind::CrossFieldViolation { .. }));
}

// Satisfied == constraint passes.
#[test]
fn require_eq_satisfied() {
    let schema = "(\n  @require(a == b)\n  a: Integer,\n  b: Integer,\n)";
    let errs = validate_str(schema, "(a: 5, b: 5)");
    assert!(errs.is_empty());
}

// Violated == constraint fails.
#[test]
fn require_eq_violated() {
    let schema = "(\n  @require(a == b)\n  a: Integer,\n  b: Integer,\n)";
    let errs = validate_str(schema, "(a: 5, b: 10)");
    assert_eq!(errs.len(), 1);
    assert!(matches!(&errs[0].kind, ErrorKind::CrossFieldViolation { .. }));
}

// Satisfied != constraint passes.
#[test]
fn require_ne_satisfied() {
    let schema = "(\n  @require(a != b)\n  a: Integer,\n  b: Integer,\n)";
    let errs = validate_str(schema, "(a: 5, b: 10)");
    assert!(errs.is_empty());
}

// Violated != constraint fails.
#[test]
fn require_ne_violated() {
    let schema = "(\n  @require(a != b)\n  a: Integer,\n  b: Integer,\n)";
    let errs = validate_str(schema, "(a: 5, b: 5)");
    assert_eq!(errs.len(), 1);
    assert!(matches!(&errs[0].kind, ErrorKind::CrossFieldViolation { .. }));
}

// CrossFieldViolation error contains constraint string.
#[test]
fn require_error_has_constraint() {
    let schema = "(\n  @require(min <= max)\n  min: Integer,\n  max: Integer,\n)";
    let errs = validate_str(schema, "(min: 10, max: 5)");
    if let ErrorKind::CrossFieldViolation { constraint } = &errs[0].kind {
        assert_eq!(constraint, "min <= max");
    } else {
        panic!("expected CrossFieldViolation");
    }
}

// @require with float fields.
#[test]
fn require_float_comparison() {
    let schema = "(\n  @require(low < high)\n  low: Float,\n  high: Float,\n)";
    let errs = validate_str(schema, "(low: 1.5, high: 2.5)");
    assert!(errs.is_empty());
}

// @require with mixed integer and float fields.
#[test]
fn require_mixed_int_float() {
    let schema = "(\n  @require(count <= limit)\n  count: Integer,\n  limit: Float,\n)";
    let errs = validate_str(schema, "(count: 5, limit: 10.0)");
    assert!(errs.is_empty());
}

// @require skipped when field is missing (missing field error takes priority).
#[test]
fn require_skipped_when_field_missing() {
    let schema = "(\n  @require(min <= max)\n  min: Integer,\n  max: Integer,\n)";
    let errs = validate_str(schema, "(min: 5)");
    assert_eq!(errs.len(), 1);
    assert!(matches!(&errs[0].kind, ErrorKind::MissingField { .. }));
}

// @require uses default value for absent field.
#[test]
fn require_uses_default_for_absent_field() {
    let schema = "(\n  @require(min <= max)\n  min: Integer,\n  max: Integer = 100,\n)";
    let errs = validate_str(schema, "(min: 5)");
    assert!(errs.is_empty());
}

// @require violated with default value.
#[test]
fn require_violated_with_default() {
    let schema = "(\n  @require(min <= max)\n  min: Integer,\n  max: Integer = 0,\n)";
    let errs = validate_str(schema, "(min: 5)");
    assert_eq!(errs.len(), 1);
    assert!(matches!(&errs[0].kind, ErrorKind::CrossFieldViolation { .. }));
}

// Multiple @require constraints both checked.
#[test]
fn require_multiple_constraints() {
    let schema = "(\n  @require(a < b)\n  @require(b < c)\n  a: Integer,\n  b: Integer,\n  c: Integer,\n)";
    let errs = validate_str(schema, "(a: 1, b: 2, c: 3)");
    assert!(errs.is_empty());
}

// Multiple @require constraints — both violated.
#[test]
fn require_multiple_constraints_both_violated() {
    let schema = "(\n  @require(a < b)\n  @require(b < c)\n  a: Integer,\n  b: Integer,\n  c: Integer,\n)";
    let errs = validate_str(schema, "(a: 3, b: 2, c: 1)");
    assert_eq!(errs.len(), 2);
}

// @require on non-numeric fields is skipped.
#[test]
fn require_non_numeric_skipped() {
    let schema = "(\n  @require(a <= b)\n  a: String,\n  b: String,\n)";
    let errs = validate_str(schema, "(a: \"hello\", b: \"world\")");
    assert!(errs.is_empty());
}

// A string longer than twenty characters is cut at its twentieth character, never inside one.
#[test]
fn describe_long_string_cut_at_characters() {
    let text = "é".repeat(25);
    let desc = describe_value(&RonValue::String(text));
    assert_eq!(desc, format!("String(\"{}...\")", "é".repeat(20)));
}

// A float for an Integer field with @range gives only the type mismatch.
#[test]
fn annotation_skipped_on_float_for_integer() {
    let errs = validate_str("(\n  @range(0, 100)\n  health: Integer,\n)", "(health: 200.0)");
    assert_eq!(errs.len(), 1);
    assert!(matches!(&errs[0].kind, ErrorKind::TypeMismatch { .. }));
}

// A mismatch at an alias names the alias, not the type it stands for.
#[test]
fn alias_mismatch_names_alias() {
    let errs = validate_str("(\n  name: Name,\n)\ntype Name = String", "(name: 42)");
    assert_eq!(errs.len(), 1);
    assert_eq!(errs[0].path, "name");
    assert_eq!(errs[0].kind, ErrorKind::TypeMismatch { expected: "Name".to_string(), found: "Integer(42)".to_string() });
}

// Errors inside a struct behind an alias keep their own expected types.
#[test]
fn alias_struct_inner_errors_keep_types() {
    let errs = validate_str("(\n  pos: Pos,\n)\ntype Pos = (x: Integer,)", "(pos: (x: \"a\"))");
    assert_eq!(errs.len(), 1);
    assert_eq!(errs[0].path, "pos.x");
    assert_eq!(errs[0].kind, ErrorKind::TypeMismatch { expected: "Integer".to_string(), found: "String(\"a\")".to_string() });
}

// An enum that the schema does not define is reported, not skipped.
#[test]
fn undefined_enum_reported() {
    let mut schema = parse_schema("(\n  kind: Kind,\n)\nenum Kind { A }").unwrap();
    schema.enums.clear();
    let data = parse_ron("(kind: A)").unwrap();
    let r = validate(&schema, &data);
    assert_eq!(r.errors.len(), 1);
    assert_eq!(r.errors[0].kind, ErrorKind::UnresolvedType { name: "Kind".to_string() });
}

// Reordering the data fields leaves the errors the same, as a multiset.
#[test]
fn reordered_fields_keep_errors() {
    let schema = parse_schema("(\n  a: Integer,\n  b: String,\n  d: Bool,\n)").unwrap();
    let value = parse_ron("(a: \"x\", b: 1, c: true, e: 2)").unwrap();
    let mut value2 = parse_ron("(a: \"x\", b: 1, c: true, e: 2)").unwrap();
    if let RonValue::Struct(s) = &mut value2.value {
        s.fields.reverse();
    } else {
        panic!("expected a struct");
    }
    let r1 = validate(&schema, &value);
    let r2 = validate(&schema, &value2);
    assert_eq!(r1.errors.len(), 5);
    assert_eq!(r2.errors.len(), r1.errors.len());
    for e in &r1.errors {
        let n1 = r1.errors.iter().filter(|x| *x == e).count();
        let n2 = r2.errors.iter().filter(|x| *x == e).count();
        assert_eq!(n1, n2);
    }
    assert_ne!(r1.errors, r2.errors);
}
