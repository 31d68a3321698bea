use ron_schema::infer::to_pascal_case;
use ron_schema::{format_schema, infer_schema, parse_ron, parse_schema, Schema, SchemaType};

fn infer(data_src: &str) -> Schema {
    let value = parse_ron(data_src).expect("test data should parse");
    infer_schema(&value)
}

// String field inferred.
#[test]
fn infer_string_field() {
    let schema = infer("(name: \"hello\")");
    assert_eq!(schema.root.fields[0].type_.value, SchemaType::String);
}

// Integer field inferred.
#[test]
fn infer_integer_field() {
    let schema = infer("(count: 42)");
    assert_eq!(schema.root.fields[0].type_.value, SchemaType::Integer);
}

// Float field inferred.
#[test]
fn infer_float_field() {
    let schema = infer("(ratio: 3.14)");
    assert_eq!(schema.root.fields[0].type_.value, SchemaType::Float);
}

// Bool field inferred.
#[test]
fn infer_bool_field() {
    let schema = infer("(active: true)");
    assert_eq!(schema.root.fields[0].type_.value, SchemaType::Bool);
}

// Some(value) inferred as Option(type).
#[test]
fn infer_option_some() {
    let schema = infer("(desc: Some(\"hello\"))");
    assert_eq!(schema.root.fields[0].type_.value, SchemaType::Option(Box::new(SchemaType::String)));
}

// None inferred as Option(String).
#[test]
fn infer_option_none() {
    let schema = infer("(desc: None)");
    assert_eq!(schema.root.fields[0].type_.value, SchemaType::Option(Box::new(SchemaType::String)));
}

// Non-empty list infers element type from first element.
#[test]
fn infer_list_of_strings() {
    let schema = infer("(tags: [\"a\", \"b\"])");
    assert_eq!(schema.root.fields[0].type_.value, SchemaType::List(Box::new(SchemaType::String)));
}

// Empty list defaults to [String].
#[test]
fn infer_empty_list() {
    let schema = infer("(tags: [])");
    assert_eq!(schema.root.fields[0].type_.value, SchemaType::List(Box::new(SchemaType::String)));
}

// List of identifiers creates an enum.
#[test]
fn infer_list_of_identifiers_creates_enum() {
    let schema = infer("(card_types: [Creature, Trap, Spell])");
    assert!(schema.enum_named("CardTypes").is_some());
    let enum_def = schema.enum_named("CardTypes").unwrap();
    assert!(enum_def.variant("Creature").is_some());
    assert!(enum_def.variant("Trap").is_some());
    assert!(enum_def.variant("Spell").is_some());
}

// List of identifiers produces List(EnumRef).
#[test]
fn infer_list_of_identifiers_type() {
    let schema = infer("(tags: [Fast, Slow])");
    assert_eq!(schema.root.fields[0].type_.value, SchemaType::List(Box::new(SchemaType::EnumRef("Tags".to_string()))));
}

// Bare identifier creates an enum.
#[test]
fn infer_identifier_creates_enum() {
    let schema = infer("(status: Active)");
    assert!(schema.enum_named("Status").is_some());
    assert!(schema.enum_named("Status").unwrap().variant("Active").is_some());
}

// Identifier field type is EnumRef.
#[test]
fn infer_identifier_type() {
    let schema = infer("(status: Active)");
    assert_eq!(schema.root.fields[0].type_.value, SchemaType::EnumRef("Status".to_string()));
}

// Enum variant with data creates an enum with data type.
#[test]
fn infer_enum_variant_with_data() {
    let schema = infer("(effect: Damage(5))");
    assert!(schema.enum_named("Effect").is_some());
    assert_eq!(schema.enum_named("Effect").unwrap().variant("Damage"), Some(&Some(SchemaType::Integer)));
}

// Non-empty map infers key/value types.
#[test]
fn infer_map_types() {
    let schema = infer("(attrs: {\"str\": 5})");
    assert_eq!(schema.root.fields[0].type_.value, SchemaType::Dict(Box::new(SchemaType::String), Box::new(SchemaType::Integer)));
}

// Empty map defaults to {String: String}.
#[test]
fn infer_empty_map() {
    let schema = infer("(attrs: {})");
    assert_eq!(schema.root.fields[0].type_.value, SchemaType::Dict(Box::new(SchemaType::String), Box::new(SchemaType::String)));
}

// Tuple infers element types.
#[test]
fn infer_tuple_types() {
    let schema = infer("(pos: (1.0, 2.5))");
    assert_eq!(schema.root.fields[0].type_.value, SchemaType::Tuple(vec![SchemaType::Float, SchemaType::Float]));
}

// Nested struct inferred recursively.
#[test]
fn infer_nested_struct() {
    let schema = infer("(window: (width: 1920, height: 1080))");
    if let SchemaType::Struct(inner) = &schema.root.fields[0].type_.value {
        assert_eq!(inner.fields[0].name.value, "width");
        assert_eq!(inner.fields[0].type_.value, SchemaType::Integer);
        assert_eq!(inner.fields[1].name.value, "height");
    } else {
        panic!("expected nested struct");
    }
}

// snake_case converted to PascalCase.
#[test]
fn pascal_case_from_snake_case() {
    assert_eq!(to_pascal_case("card_type"), "CardType");
}

// Already PascalCase stays the same.
#[test]
fn pascal_case_unchanged() {
    assert_eq!(to_pascal_case("Status"), "Status");
}

// Single word capitalized.
#[test]
fn pascal_case_single_word() {
    assert_eq!(to_pascal_case("status"), "Status");
}

// Multiple fields inferred correctly.
#[test]
fn infer_multiple_fields() {
    let schema = infer("(name: \"test\", count: 5, active: true)");
    assert_eq!(schema.root.fields.len(), 3);
    assert_eq!(schema.root.fields[0].type_.value, SchemaType::String);
    assert_eq!(schema.root.fields[1].type_.value, SchemaType::Integer);
    assert_eq!(schema.root.fields[2].type_.value, SchemaType::Bool);
}

// Non-struct root produces empty schema.
#[test]
fn infer_non_struct_root() {
    let value = parse_ron("\"hello\"").unwrap();
    let schema = infer_schema(&value);
    assert!(schema.root.fields.is_empty());
}

// Inferred schema formats and parses back.
#[test]
fn infer_format_parse_roundtrip() {
    let data = "(name: \"test\", count: 5, tags: [\"a\"], active: true, desc: Some(\"hi\"), status: Active)";
    let schema = infer(data);
    let formatted = format_schema(&schema);
    parse_schema(&formatted).expect("inferred schema should parse");
}

// Complex data roundtrips.
#[test]
fn infer_complex_roundtrip() {
    let data = "(name: \"app\", window: (width: 1920, height: 1080), attrs: {\"str\": 5}, pos: (1.0, 2.5))";
    let schema = infer(data);
    let formatted = format_schema(&schema);
    parse_schema(&formatted).expect("inferred schema should parse");
}

// Snake-case words with several underscores each start upper case; non-letters stay.
#[test]
fn pascal_case_several_words() {
    assert_eq!(to_pascal_case("max_hp_2x"), "MaxHp2x");
    assert_eq!(to_pascal_case(""), "");
    assert_eq!(to_pascal_case("a__b"), "AB");
}

// An identifier repeated in a list yields one variant; a second field adds its own enum.
#[test]
fn infer_identifier_variants_deduplicated() {
    let schema = infer("(kinds: [Fire, Water, Fire], mood: Calm)");
    let kinds = schema.enum_named("Kinds").unwrap();
    assert_eq!(kinds.variants.len(), 2);
    assert_eq!(kinds.variants[0].0, "Fire");
    assert_eq!(kinds.variants[1].0, "Water");
    assert!(schema.enum_named("Mood").is_some());
}

// A field named `option` holding an identifier infers an enum `Option`, whose name reads back
// as the start of an option type: that schema text does not parse.
#[test]
fn inferred_enum_named_option_does_not_read_back() {
    let schema = infer("(option: Yes)");
    let formatted = format_schema(&schema);
    assert!(parse_schema(&formatted).is_err());
}

// A map whose first key is a float infers a float key type, which a schema refuses.
#[test]
fn inferred_float_key_does_not_read_back() {
    let schema = infer("(weights: {1.5: 2})");
    let formatted = format_schema(&schema);
    assert!(parse_schema(&formatted).is_err());
}

// Snake-case names become PascalCase, the ASCII letters by their capitals.
#[test]
fn pascal_case_ascii_words() {
    assert_eq!(to_pascal_case("card_types"), "CardTypes");
    assert_eq!(to_pascal_case("x"), "X");
}
