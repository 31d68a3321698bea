use ron_schema::report::{check_source, format_error, format_warning, parse_error_entry};
use ron_schema::{extract_source_line, parse_ron, parse_schema, validate, ErrorKind, Position, Span, WarningKind};

// A field that has a default may be left out of the data.
#[test]
fn defaulted_field_may_be_absent() {
    let schema = parse_schema("(\n  name: String,\n  label: String = \"x\",\n)").unwrap();
    let value = parse_ron("(name: \"a\")").unwrap();
    assert!(validate(&schema, &value).errors.is_empty());
}

// Every required field left out is reported, each once, at the closing parenthesis.
#[test]
fn each_absent_required_field_is_reported() {
    let schema = parse_schema("(\n  a: Integer,\n  b: Integer = 3,\n  c: Bool,\n)").unwrap();
    let value = parse_ron("()").unwrap();
    let errs = validate(&schema, &value).errors;
    assert_eq!(errs.len(), 2);
    assert!(matches!(&errs[0].kind, ErrorKind::MissingField { field_name } if field_name == "a"));
    assert!(matches!(&errs[1].kind, ErrorKind::MissingField { field_name } if field_name == "c"));
    assert_eq!(errs[0].span.start.offset, 1);
}

// A data field the schema does not declare is reported as unknown, at its name.
#[test]
fn undeclared_field_is_unknown() {
    let schema = parse_schema("(\n  a: Integer,\n)").unwrap();
    let value = parse_ron("(a: 1, b: 2)").unwrap();
    let errs = validate(&schema, &value).errors;
    assert_eq!(errs.len(), 1);
    assert!(matches!(&errs[0].kind, ErrorKind::UnknownField { field_name } if field_name == "b"));
    assert_eq!(errs[0].path, "b");
    assert_eq!(errs[0].span.start.offset, 7);
}

// Range bounds are inclusive: both ends pass, one past the end fails.
#[test]
fn range_bounds_are_inclusive() {
    let schema = parse_schema("(\n  @range(0, 10)\n  x: Integer,\n)").unwrap();
    for (data, bad) in [("(x: 0)", false), ("(x: 10)", false), ("(x: 11)", true), ("(x: -1)", true)] {
        let value = parse_ron(data).unwrap();
        let errs = validate(&schema, &value).errors;
        assert_eq!(!errs.is_empty(), bad, "{data}");
    }
}

// Data fields in the schema's order draw no warning; a field after a later one draws one.
#[test]
fn order_warning_only_when_out_of_order() {
    let schema = parse_schema("(\n  a: Integer,\n  b: Integer,\n)").unwrap();
    let in_order = validate(&schema, &parse_ron("(a: 1, b: 2)").unwrap());
    assert!(in_order.warnings.is_empty());
    let swapped = validate(&schema, &parse_ron("(b: 1, a: 2)").unwrap());
    assert!(swapped.errors.is_empty());
    assert_eq!(swapped.warnings.len(), 1);
    assert_eq!(
        swapped.warnings[0].kind,
        WarningKind::FieldOrderMismatch { field_name: "a".to_string(), expected_after: "b".to_string() }
    );
}

// A warning is written with its code, place and message.
#[test]
fn warning_is_rendered() {
    let schema = parse_schema("(\n  a: Integer,\n  b: Integer,\n)").unwrap();
    let result = validate(&schema, &parse_ron("(b: 1, a: 2)").unwrap());
    let text = format_warning(&result.warnings[0], "f.ron");
    assert_eq!(text, "warning[field-order] at f.ron:1:8\n    field `a` comes before `b`, unlike the schema");
}

// An error is written with its code, place, message, source line and underline.
#[test]
fn error_is_rendered_with_source_line() {
    let schema = parse_schema("(\n  n: Integer,\n)").unwrap();
    let source = "(n: \"two\")";
    let result = validate(&schema, &parse_ron(source).unwrap());
    assert_eq!(result.errors.len(), 1);
    let text = format_error(&result.errors[0], source, "f.ron");
    assert_eq!(
        text,
        "error[type-mismatch] at f.ron:1:5\n    field `n`: expected Integer, found String(\"two\")\n  1 │ (n: \"two\")\n    │     ^^^^^ expected Integer"
    );
}

// The source line of a span on a later line is that line, without its newline.
#[test]
fn source_line_of_second_line() {
    let source = "(\n  name: 5,\n)";
    let value = parse_ron(source).unwrap();
    let span: Span = match &value.value {
        ron_schema::RonValue::Struct(s) => s.fields[0].1.span,
        _ => panic!("expected a struct"),
    };
    let line = extract_source_line(source, span);
    assert_eq!(line.line_number, 2);
    assert_eq!(line.line_text, "  name: 5,");
    assert_eq!(line.highlight_start, 8);
    assert_eq!(line.highlight_end, 9);
}

// A source line after a multi-byte character is still cut at its own boundaries.
#[test]
fn source_line_after_multibyte_text() {
    let source = "(a: \"é\",\n b: 1)";
    let value = parse_ron(source).unwrap();
    let span: Span = match &value.value {
        ron_schema::RonValue::Struct(s) => s.fields[1].1.span,
        _ => panic!("expected a struct"),
    };
    let line = extract_source_line(source, span);
    assert_eq!(line.line_text, " b: 1)");
}

// A file's results list each validation error as an entry.
#[test]
fn file_results_list_errors() {
    let schema = parse_schema("(\n  n: Integer,\n  m: Bool,\n)").unwrap();
    let report = check_source(&schema, "(n: \"two\")", "data.ron");
    assert_eq!(report.file, "data.ron");
    assert_eq!(report.errors.len(), 2);
    assert_eq!(report.errors[0].code, "missing-field");
    assert_eq!(report.errors[0].message, "missing required field `m`");
    assert_eq!(report.errors[1].code, "type-mismatch");
    assert_eq!(report.errors[1].severity, "error");
    assert_eq!(report.errors[1].path, "n");
    assert_eq!(report.errors[1].line, 1);
    assert_eq!(report.errors[1].column, 5);
    assert!(report.warnings.is_empty());
}

// A file that does not parse gives a single parse entry.
#[test]
fn file_results_for_unparsable_source() {
    let schema = parse_schema("(\n  n: Integer,\n)").unwrap();
    let report = check_source(&schema, "(n: ", "bad.ron");
    assert_eq!(report.errors.len(), 1);
    assert_eq!(report.errors[0].code, "parse");
    assert_eq!(report.errors[0].path, "");
    assert!(report.warnings.is_empty());
    let err = parse_ron("(n: ").unwrap_err();
    let entry = parse_error_entry(&err);
    assert_eq!(entry.message, format!("{:?}", err.kind));
}

// Warnings become warning entries.
#[test]
fn file_results_list_warnings() {
    let schema = parse_schema("(\n  a: Integer,\n  b: Integer,\n)").unwrap();
    let report = check_source(&schema, "(b: 1, a: 2)", "w.ron");
    assert!(report.errors.is_empty());
    assert_eq!(report.warnings.len(), 1);
    assert_eq!(report.warnings[0].code, "field-order");
    assert_eq!(report.warnings[0].severity, "warning");
    assert_eq!(report.warnings[0].path, "a");
}

// A line ending in CRLF is shown without its carriage return.
#[test]
fn source_line_trims_crlf() {
    let span = Span { start: Position { offset: 0, line: 1, column: 1 }, end: Position { offset: 2, line: 1, column: 3 } };
    let line = extract_source_line("ab\r\ncd", span);
    assert_eq!(line.line_text, "ab");
    assert_eq!(line.line_number, 1);
    assert_eq!(line.highlight_start, 0);
    assert_eq!(line.highlight_end, 2);
}
