use ron_schema::{format_schema, parse_schema};

fn roundtrip(source: &str) -> String {
    let schema = parse_schema(source).expect("test schema should parse");
    format_schema(&schema)
}

// Single string field.
#[test]
fn format_single_string_field() {
    let out = roundtrip("(\n  name: String,\n)");
    assert!(out.contains("name: String,"));
}

// All primitive types.
#[test]
fn format_all_primitives() {
    let out = roundtrip("(\n  s: String,\n  i: Integer,\n  f: Float,\n  b: Bool,\n)");
    assert!(out.contains("s: String,"));
    assert!(out.contains("i: Integer,"));
    assert!(out.contains("f: Float,"));
    assert!(out.contains("b: Bool,"));
}

// Option type.
#[test]
fn format_option_type() {
    let out = roundtrip("(\n  desc: Option(String),\n)");
    assert!(out.contains("desc: Option(String),"));
}

// List type.
#[test]
fn format_list_type() {
    let out = roundtrip("(\n  tags: [String],\n)");
    assert!(out.contains("tags: [String],"));
}

// Map type.
#[test]
fn format_map_type() {
    let out = roundtrip("(\n  attrs: {String: Integer},\n)");
    assert!(out.contains("attrs: {String: Integer},"));
}

// Tuple type.
#[test]
fn format_tuple_type() {
    let out = roundtrip("(\n  pos: (Integer, Integer),\n)");
    assert!(out.contains("pos: (Integer, Integer),"));
}

// Nested struct is indented.
#[test]
fn format_nested_struct() {
    let out = roundtrip("(\n  inner: (\n    x: Integer,\n  ),\n)");
    assert!(out.contains("inner: (\n    x: Integer,\n  ),"));
}

// Enum definition appears after the root struct.
#[test]
fn format_enum_after_struct() {
    let out = roundtrip("(\n  status: Status,\n)\nenum Status { Active, Inactive }");
    let struct_end = out.find(')').unwrap();
    let enum_start = out.find("enum Status").unwrap();
    assert!(enum_start > struct_end);
}

// Enum variants are present.
#[test]
fn format_enum_has_variants() {
    let out = roundtrip("(\n  status: Status,\n)\nenum Status { Active, Inactive }");
    assert!(out.contains("Active"));
    assert!(out.contains("Inactive"));
}

// Enum with data variant.
#[test]
fn format_enum_with_data_variant() {
    let out = roundtrip("(\n  effect: Effect,\n)\nenum Effect { Damage(Integer), Draw }");
    assert!(out.contains("Damage(Integer)"));
    assert!(out.contains("Draw"));
}

// Multiple enums sorted by name.
#[test]
fn format_multiple_enums_sorted() {
    let out = roundtrip("(\n  a: B,\n  b: A,\n)\nenum B { X }\nenum A { Y }");
    let a_pos = out.find("enum A").unwrap();
    let b_pos = out.find("enum B").unwrap();
    assert!(a_pos < b_pos);
}

// Roundtripped output parses without error.
#[test]
fn format_roundtrip_parses() {
    let source = "(\n  name: String,\n  tags: [Integer],\n  pos: (Float, Float),\n)\nenum Status { Active, Inactive }";
    let formatted = roundtrip(source);
    parse_schema(&formatted).expect("formatted output should parse");
}

// Complex schema roundtrips.
#[test]
fn format_complex_roundtrip() {
    let source = "(\n  name: String,\n  health: Integer,\n  stats: {String: Integer},\n  effect: Effect,\n  window: (\n    width: Integer,\n    height: Integer,\n  ),\n)\nenum Effect { Damage(Integer), Heal(Integer), Draw }";
    let formatted = roundtrip(source);
    parse_schema(&formatted).expect("formatted output should parse");
}

// The whole text of a small schema, with variants sorted by name.
#[test]
fn format_exact_output() {
    let out = roundtrip("(\n  status: Status,\n  tags: [Option(Integer)],\n)\nenum Status { Inactive, Active }");
    assert_eq!(out, "(\n  status: Status,\n  tags: [Option(Integer)],\n)\n\nenum Status { Active, Inactive }\n");
}

// Formatting a formatted schema gives the same text again.
#[test]
fn format_is_stable() {
    let once = roundtrip("(\n  a: {String: [Bool]},\n  b: (\n    c: (Integer, Float),\n  ),\n)\nenum Z { Q(String), P }\nenum Y { R }");
    let twice = roundtrip(&once);
    assert_eq!(once, twice);
}

// A schema using a type alias formats to text that parses back with the alias.
#[test]
fn format_alias_roundtrip_parses() {
    let out = roundtrip("(\n  cost: Cost,\n)\ntype Cost = Option(Integer)");
    assert!(out.contains("type Cost = Option(Integer)"));
    let again = parse_schema(&out).expect("formatted schema should parse");
    assert_eq!(again.aliases.len(), 1);
    assert_eq!(again.aliases[0].0, "Cost");
}

// Defaults, annotations and cross-field constraints are written and read back.
#[test]
fn format_defaults_and_annotations_roundtrip() {
    let source = "(\n  @range(0, 100)\n  hp: Integer = 10,\n  @min_length(1)\n  @pattern(\"^[a-z]+$\")\n  name: String = \"a \\\"b\\\"\",\n  low: Integer,\n  high: Integer,\n  @require(low <= high)\n)";
    let out = roundtrip(source);
    assert!(out.contains("@range(0, 100)"));
    assert!(out.contains("hp: Integer = 10,"));
    assert!(out.contains("@pattern(\"^[a-z]+$\")"));
    assert!(out.contains("@require(low <= high)"));
    let again = parse_schema(&out).expect("formatted schema should parse");
    assert_eq!(again.root.fields.len(), 4);
    assert_eq!(again.root.fields[0].annotations.len(), 1);
    assert_eq!(again.root.fields[1].annotations.len(), 2);
    assert_eq!(again.root.annotations.len(), 1);
    assert_eq!(format_schema(&again), out);
}
