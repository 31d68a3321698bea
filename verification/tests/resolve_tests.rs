use std::collections::HashMap;

use ron_schema::{parse_schema, resolve_imports, Schema, SchemaErrorKind, SchemaParseError, SchemaResolver};

/// A mock resolver backed by an in-memory map of path -> source.
struct MockResolver {
    files: HashMap<String, String>,
}

impl MockResolver {
    fn new() -> Self {
        Self { files: HashMap::new() }
    }

    fn add(mut self, path: &str, source: &str) -> Self {
        self.files.insert(path.to_string(), source.to_string());
        self
    }
}

impl SchemaResolver for MockResolver {
    fn resolve(&self, import_path: &str) -> Result<String, String> {
        self.files.get(import_path).cloned().ok_or_else(|| format!("file not found: {import_path}"))
    }
}

fn parse_and_resolve<R: SchemaResolver>(source: &str, resolver: &R) -> Result<Schema, SchemaParseError> {
    let mut schema = parse_schema(source)?;
    resolve_imports(&mut schema, resolver)?;
    Ok(schema)
}

// Schema with no imports has empty imports vec.
#[test]
fn no_imports() {
    let schema = parse_schema("(\n  name: String,\n)").unwrap();
    assert!(schema.imports.is_empty());
}

// Single import is parsed.
#[test]
fn single_import_parsed() {
    let schema = parse_schema("import \"types.ronschema\"\n(\n  name: String,\n)").unwrap();
    assert_eq!(schema.imports.len(), 1);
    assert_eq!(schema.imports[0].value, "types.ronschema");
}

// Multiple imports are parsed.
#[test]
fn multiple_imports_parsed() {
    let schema = parse_schema("import \"a.ronschema\"\nimport \"b.ronschema\"\n(\n  name: String,\n)").unwrap();
    assert_eq!(schema.imports.len(), 2);
    assert_eq!(schema.imports[0].value, "a.ronschema");
    assert_eq!(schema.imports[1].value, "b.ronschema");
}

// Import has correct span.
#[test]
fn import_has_span() {
    let schema = parse_schema("import \"types.ronschema\"\n(\n  name: String,\n)").unwrap();
    assert_eq!(schema.imports[0].span.start.line, 1);
}

// Imported enum is available for validation.
#[test]
fn imported_enum_available() {
    let resolver = MockResolver::new().add("types.ronschema", "enum Status { Active, Inactive }");
    let schema = parse_and_resolve("import \"types.ronschema\"\n(\n  status: Status,\n)", &resolver).unwrap();
    assert!(schema.enum_named("Status").is_some());
}

// Imported alias is available.
#[test]
fn imported_alias_available() {
    let resolver = MockResolver::new().add("types.ronschema", "type Name = String");
    let schema = parse_and_resolve("import \"types.ronschema\"\n(\n  name: Name,\n)", &resolver).unwrap();
    assert!(schema.alias_named("Name").is_some());
}

// Local enums and imported enums coexist.
#[test]
fn local_and_imported_enums_coexist() {
    let resolver = MockResolver::new().add("types.ronschema", "enum Color { Red, Blue }");
    let schema = parse_and_resolve(
        "import \"types.ronschema\"\n(\n  status: Status,\n  color: Color,\n)\nenum Status { Active, Inactive }",
        &resolver,
    )
    .unwrap();
    assert!(schema.enum_named("Status").is_some());
    assert!(schema.enum_named("Color").is_some());
}

// Imported enum has correct variants.
#[test]
fn imported_enum_has_variants() {
    let resolver = MockResolver::new().add("types.ronschema", "enum Status { Active, Inactive }");
    let schema = parse_and_resolve("import \"types.ronschema\"\n(\n  status: Status,\n)", &resolver).unwrap();
    let status = schema.enum_named("Status").unwrap();
    assert!(status.variant("Active").is_some());
    assert!(status.variant("Inactive").is_some());
}

// Transitive imports resolve.
#[test]
fn transitive_import_resolves() {
    let resolver = MockResolver::new()
        .add("a.ronschema", "import \"b.ronschema\"\nenum Color { Red }")
        .add("b.ronschema", "enum Size { Small, Large }");
    let schema = parse_and_resolve("import \"a.ronschema\"\n(\n  color: Color,\n  size: Size,\n)", &resolver).unwrap();
    assert!(schema.enum_named("Color").is_some());
    assert!(schema.enum_named("Size").is_some());
}

// Schema with no root struct and only imports works.
#[test]
fn import_only_schema() {
    let resolver = MockResolver::new().add("types.ronschema", "enum Status { Active }");
    let schema = parse_and_resolve("import \"types.ronschema\"", &resolver).unwrap();
    assert!(schema.enum_named("Status").is_some());
}

// Unresolved import produces error.
#[test]
fn unresolved_import_error() {
    let resolver = MockResolver::new();
    let err = parse_and_resolve("import \"missing.ronschema\"\n(\n  name: String,\n)", &resolver).unwrap_err();
    assert!(matches!(err.kind, SchemaErrorKind::UnresolvedImport { .. }));
}

// Unresolved import error contains the path.
#[test]
fn unresolved_import_error_has_path() {
    let resolver = MockResolver::new();
    let err = parse_and_resolve("import \"missing.ronschema\"\n(\n  name: String,\n)", &resolver).unwrap_err();
    if let SchemaErrorKind::UnresolvedImport { path, .. } = &err.kind {
        assert_eq!(path, "missing.ronschema");
    } else {
        panic!("expected UnresolvedImport");
    }
}

// Circular import detected.
#[test]
fn circular_import_detected() {
    let resolver = MockResolver::new()
        .add("a.ronschema", "import \"b.ronschema\"\nenum A { X }")
        .add("b.ronschema", "import \"a.ronschema\"\nenum B { Y }");
    let err = parse_and_resolve("import \"a.ronschema\"\n(\n  a: A,\n)", &resolver).unwrap_err();
    assert!(matches!(err.kind, SchemaErrorKind::CircularImport { .. }));
}

// Name collision between import and local enum.
#[test]
fn name_collision_import_and_local_enum() {
    let resolver = MockResolver::new().add("types.ronschema", "enum Status { Active }");
    let err = parse_and_resolve(
        "import \"types.ronschema\"\n(\n  status: Status,\n)\nenum Status { Inactive }",
        &resolver,
    )
    .unwrap_err();
    assert!(matches!(err.kind, SchemaErrorKind::ImportNameCollision { .. }));
}

// Name collision error contains the colliding name.
#[test]
fn name_collision_error_has_name() {
    let resolver = MockResolver::new().add("types.ronschema", "enum Status { Active }");
    let err = parse_and_resolve(
        "import \"types.ronschema\"\n(\n  status: Status,\n)\nenum Status { Inactive }",
        &resolver,
    )
    .unwrap_err();
    if let SchemaErrorKind::ImportNameCollision { name, .. } = &err.kind {
        assert_eq!(name, "Status");
    } else {
        panic!("expected ImportNameCollision");
    }
}

// Name collision between two imported schemas.
#[test]
fn name_collision_between_imports() {
    let resolver = MockResolver::new()
        .add("a.ronschema", "enum Status { Active }")
        .add("b.ronschema", "enum Status { Inactive }");
    let err = parse_and_resolve(
        "import \"a.ronschema\"\nimport \"b.ronschema\"\n(\n  status: Status,\n)",
        &resolver,
    )
    .unwrap_err();
    assert!(matches!(err.kind, SchemaErrorKind::ImportNameCollision { .. }));
}

// Parse error in imported file is reported.
#[test]
fn import_parse_error_reported() {
    let resolver = MockResolver::new().add("bad.ronschema", "(\n  name: Strang,\n)");
    let err = parse_and_resolve("import \"bad.ronschema\"\n(\n  name: String,\n)", &resolver).unwrap_err();
    assert!(matches!(err.kind, SchemaErrorKind::ImportParseError { .. }));
}

// Import parse error contains the path.
#[test]
fn import_parse_error_has_path() {
    let resolver = MockResolver::new().add("bad.ronschema", "(\n  name: Strang,\n)");
    let err = parse_and_resolve("import \"bad.ronschema\"\n(\n  name: String,\n)", &resolver).unwrap_err();
    if let SchemaErrorKind::ImportParseError { path, .. } = &err.kind {
        assert_eq!(path, "bad.ronschema");
    } else {
        panic!("expected ImportParseError");
    }
}

// The same file imported from two branches is not a cycle.
#[test]
fn diamond_import_is_not_circular() {
    let resolver = MockResolver::new()
        .add("a.ronschema", "import \"c.ronschema\"\nenum A { X }")
        .add("b.ronschema", "enum B { Y }")
        .add("c.ronschema", "type Code = Integer");
    let schema = parse_and_resolve(
        "import \"a.ronschema\"\nimport \"b.ronschema\"\n(\n  a: A,\n  b: B,\n  c: Code,\n)",
        &resolver,
    )
    .unwrap();
    assert!(schema.alias_named("Code").is_some());
    assert_eq!(schema.enums.len(), 2);
}

// An imported alias collides with a local enum of the same name.
#[test]
fn alias_collides_with_local_enum() {
    let resolver = MockResolver::new().add("t.ronschema", "type Status = String");
    let err = parse_and_resolve("import \"t.ronschema\"\n(\n  s: Status,\n)\nenum Status { A }", &resolver).unwrap_err();
    if let SchemaErrorKind::ImportNameCollision { name, import_path } = &err.kind {
        assert_eq!(name, "Status");
        assert_eq!(import_path, "t.ronschema");
    } else {
        panic!("expected ImportNameCollision");
    }
}

// A root field naming a type no import defines is refused after resolution.
#[test]
fn unknown_type_after_imports_is_refused() {
    let resolver = MockResolver::new().add("t.ronschema", "enum Color { Red }");
    let err = parse_and_resolve("import \"t.ronschema\"\n(\n  c: Shade,\n)", &resolver).unwrap_err();
    assert!(matches!(err.kind, SchemaErrorKind::UnresolvedType { .. }));
}

// A self-import is a cycle of length one.
#[test]
fn self_import_is_circular() {
    let resolver = MockResolver::new().add("me.ronschema", "import \"me.ronschema\"\nenum M { X }");
    let err = parse_and_resolve("import \"me.ronschema\"", &resolver).unwrap_err();
    if let SchemaErrorKind::CircularImport { path } = &err.kind {
        assert_eq!(path, "me.ronschema");
    } else {
        panic!("expected CircularImport");
    }
}

// A schema without imports asks the resolver nothing and keeps its definitions.
#[test]
fn no_imports_keeps_schema() {
    let resolver = MockResolver::new();
    let schema = parse_and_resolve("(\n  s: Status,\n)\nenum Status { A }", &resolver).unwrap();
    assert_eq!(schema.enums.len(), 1);
}

// A file imported from two branches is merged once.
#[test]
fn diamond_import_allowed() {
    let resolver = MockResolver::new()
        .add("a.ronschema", "import \"c.ronschema\"\n(\n)")
        .add("b.ronschema", "import \"c.ronschema\"\n(\n)")
        .add("c.ronschema", "(\n)\nenum Shared { X, Y }");
    let schema = parse_and_resolve("import \"a.ronschema\"\nimport \"b.ronschema\"\n(\n  s: Shared,\n)", &resolver).unwrap();
    assert_eq!(schema.enums.len(), 1);
    assert_eq!(schema.enums[0].name, "Shared");
}

// A resolver's refusal becomes an unresolved import at the import's span, with its reason.
#[test]
fn resolver_refusal_reported_with_reason() {
    let resolver = MockResolver::new();
    let err = parse_and_resolve("import \"gone.ronschema\"\n(\n)", &resolver).unwrap_err();
    assert_eq!(
        err.kind,
        SchemaErrorKind::UnresolvedImport { path: "gone.ronschema".to_string(), reason: "file not found: gone.ronschema".to_string() }
    );
    assert_eq!(err.span.start.offset, 7);
}

/// A resolver that records the paths it is asked for.
struct RecordingResolver {
    inner: MockResolver,
    asked: std::cell::RefCell<Vec<String>>,
}

impl SchemaResolver for RecordingResolver {
    fn resolve(&self, import_path: &str) -> Result<String, String> {
        self.asked.borrow_mut().push(import_path.to_string());
        self.inner.resolve(import_path)
    }
}

/// A resolver for a chain of `n` files, each importing the next; the last imports nothing.
fn chain_resolver(n: usize) -> MockResolver {
    let mut resolver = MockResolver::new();
    for i in 1..=n {
        let source = if i < n {
            format!("import \"f{}\"\nenum E{} {{ V }}", i + 1, i)
        } else {
            format!("enum E{} {{ V }}", i)
        };
        resolver = resolver.add(&format!("f{}", i), &source);
    }
    resolver
}

// The resolver is asked for each import once, depth first, in order.
#[test]
fn transitive_import_asks_each_path_in_order() {
    let resolver = RecordingResolver {
        inner: MockResolver::new()
            .add("a.ronschema", "import \"b.ronschema\"\nenum Color { Red }")
            .add("b.ronschema", "enum Size { Small, Large }"),
        asked: std::cell::RefCell::new(Vec::new()),
    };
    let schema = parse_and_resolve("import \"a.ronschema\"\n(\n  color: Color,\n  size: Size,\n)", &resolver).unwrap();
    assert_eq!(*resolver.asked.borrow(), vec!["a.ronschema".to_string(), "b.ronschema".to_string()]);
    assert_eq!(schema.enums.len(), 2);
    assert_eq!(schema.root.fields.len(), 2);
    assert_eq!(schema.root.fields[0].name.value, "color");
    assert_eq!(schema.root.fields[1].name.value, "size");
}

// Ten levels of nested imports resolve, and every level's enum is merged.
#[test]
fn ten_nested_imports_resolve() {
    let resolver = chain_resolver(10);
    let schema = parse_and_resolve("import \"f1\"", &resolver).unwrap();
    assert_eq!(schema.enums.len(), 10);
    for i in 1..=10 {
        assert!(schema.enum_named(&format!("E{}", i)).is_some());
    }
}

// Eleven levels of nested imports exceed the limit.
#[test]
fn eleven_nested_imports_exceed_depth() {
    let resolver = chain_resolver(11);
    let err = parse_and_resolve("import \"f1\"", &resolver).unwrap_err();
    assert_eq!(
        err.kind,
        SchemaErrorKind::UnexpectedToken {
            expected: "import depth within limit".to_string(),
            found: "import nesting exceeds 10 levels".to_string(),
        }
    );
}

// A nested cycle names the path that closes it.
#[test]
fn nested_cycle_names_path() {
    let resolver = MockResolver::new()
        .add("a.ronschema", "import \"b.ronschema\"\nenum A { X }")
        .add("b.ronschema", "import \"a.ronschema\"\nenum B { Y }");
    let err = parse_and_resolve("import \"a.ronschema\"\n(\n  a: A,\n)", &resolver).unwrap_err();
    assert_eq!(err.kind, SchemaErrorKind::CircularImport { path: "a.ronschema".to_string() });
}

// A file imported from two branches is asked for once and merged without a collision.
#[test]
fn diamond_import_asks_shared_file_once() {
    let resolver = RecordingResolver {
        inner: MockResolver::new()
            .add("a", "import \"c\"\nenum A { X }")
            .add("b", "import \"c\"\nenum B { Y }")
            .add("c", "enum C { Z }"),
        asked: std::cell::RefCell::new(Vec::new()),
    };
    let schema = parse_and_resolve("import \"a\"\nimport \"b\"", &resolver).unwrap();
    assert_eq!(*resolver.asked.borrow(), vec!["a".to_string(), "c".to_string(), "b".to_string()]);
    assert_eq!(schema.enums.len(), 3);
    assert!(schema.enum_named("A").is_some());
    assert!(schema.enum_named("B").is_some());
    assert!(schema.enum_named("C").is_some());
}
