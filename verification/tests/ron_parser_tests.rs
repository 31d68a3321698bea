use ron_schema::{parse_ron, Decimal, RonErrorKind, RonValue};
use ron_schema::ron::parser::Parser;

/// Constructs a parser for direct method testing.
fn parser(source: &str) -> Parser<'_> {
    Parser::new(source)
}

/// The decimal written by a number literal such as `3.14` or `-0.5`.
#[allow(dead_code)]
fn dec(text: &str) -> Decimal {
    let negative = text.starts_with('-');
    let body = text.trim_start_matches('-');
    let (int_part, frac) = body.split_once('.').unwrap_or((body, ""));
    let digits: i64 = format!("{int_part}{frac}").parse().expect("digits");
    Decimal::from_scaled(if negative { -digits } else { digits }, frac.len())
}

// Parses a simple quoted string.
#[test]
fn string_simple() {
    let mut p = parser("\"hello\"");
    let v = p.parse_value().unwrap();
    assert_eq!(v.value, RonValue::String("hello".to_string()));
}

// Parses an empty string.
#[test]
fn string_empty() {
    let mut p = parser("\"\"");
    let v = p.parse_value().unwrap();
    assert_eq!(v.value, RonValue::String("".to_string()));
}

// Parses a string with spaces.
#[test]
fn string_with_spaces() {
    let mut p = parser("\"Ashborn Hound\"");
    let v = p.parse_value().unwrap();
    assert_eq!(v.value, RonValue::String("Ashborn Hound".to_string()));
}

// Escape sequence: \" becomes a literal quote.
#[test]
fn string_escaped_quote() {
    let mut p = parser("\"say \\\"hi\\\"\"");
    let v = p.parse_value().unwrap();
    assert_eq!(v.value, RonValue::String("say \"hi\"".to_string()));
}

// Escape sequence: \\ becomes a single backslash.
#[test]
fn string_escaped_backslash() {
    let mut p = parser("\"a\\\\b\"");
    let v = p.parse_value().unwrap();
    assert_eq!(v.value, RonValue::String("a\\b".to_string()));
}

// Escape sequence: \n becomes a newline.
#[test]
fn string_escaped_newline() {
    let mut p = parser("\"line1\\nline2\"");
    let v = p.parse_value().unwrap();
    assert_eq!(v.value, RonValue::String("line1\nline2".to_string()));
}

// Escape sequence: \t becomes a tab.
#[test]
fn string_escaped_tab() {
    let mut p = parser("\"col1\\tcol2\"");
    let v = p.parse_value().unwrap();
    assert_eq!(v.value, RonValue::String("col1\tcol2".to_string()));
}

// Unterminated string is an error.
#[test]
fn string_unterminated() {
    let mut p = parser("\"hello");
    let err = p.parse_value().unwrap_err();
    assert_eq!(err.kind, RonErrorKind::UnterminatedString);
}

// Parses a positive integer.
#[test]
fn integer_positive() {
    let mut p = parser("42");
    let v = p.parse_value().unwrap();
    assert_eq!(v.value, RonValue::Integer(42));
}

// Parses zero.
#[test]
fn integer_zero() {
    let mut p = parser("0");
    let v = p.parse_value().unwrap();
    assert_eq!(v.value, RonValue::Integer(0));
}

// Parses a negative integer.
#[test]
fn integer_negative() {
    let mut p = parser("-7");
    let v = p.parse_value().unwrap();
    assert_eq!(v.value, RonValue::Integer(-7));
}

// Parses a simple float.
#[test]
fn float_simple() {
    let mut p = parser("3.14");
    let v = p.parse_value().unwrap();
    assert_eq!(v.value, RonValue::Float(dec("3.14")));
}

// Parses a negative float.
#[test]
fn float_negative() {
    let mut p = parser("-0.5");
    let v = p.parse_value().unwrap();
    assert_eq!(v.value, RonValue::Float(dec("-0.5")));
}

// Parses 1.0 as a float, not an integer.
#[test]
fn float_one_point_zero() {
    let mut p = parser("1.0");
    let v = p.parse_value().unwrap();
    assert_eq!(v.value, RonValue::Float(dec("1.0")));
}

// Parses "true" as Bool(true).
#[test]
fn bool_true() {
    let mut p = parser("true");
    let v = p.parse_value().unwrap();
    assert_eq!(v.value, RonValue::Bool(true));
}

// Parses "false" as Bool(false).
#[test]
fn bool_false() {
    let mut p = parser("false");
    let v = p.parse_value().unwrap();
    assert_eq!(v.value, RonValue::Bool(false));
}

// Parses "None" as Option(None).
#[test]
fn option_none() {
    let mut p = parser("None");
    let v = p.parse_value().unwrap();
    assert_eq!(v.value, RonValue::Option(None));
}

// Parses "Some(5)" as Option(Some(Integer(5))).
#[test]
fn option_some_integer() {
    let mut p = parser("Some(5)");
    let v = p.parse_value().unwrap();
    if let RonValue::Option(Some(inner)) = &v.value {
        assert_eq!(inner.value, RonValue::Integer(5));
    } else {
        panic!("expected Option(Some(...))");
    }
}

// Parses "Some(\"hi\")" as Option(Some(String)).
#[test]
fn option_some_string() {
    let mut p = parser("Some(\"hi\")");
    let v = p.parse_value().unwrap();
    if let RonValue::Option(Some(inner)) = &v.value {
        assert_eq!(inner.value, RonValue::String("hi".to_string()));
    } else {
        panic!("expected Option(Some(...))");
    }
}

// Bare identifier is parsed as Identifier.
#[test]
fn identifier_bare() {
    let mut p = parser("Creature");
    let v = p.parse_value().unwrap();
    assert_eq!(v.value, RonValue::Identifier("Creature".to_string()));
}

// Another bare identifier.
#[test]
fn identifier_another() {
    let mut p = parser("Sentinels");
    let v = p.parse_value().unwrap();
    assert_eq!(v.value, RonValue::Identifier("Sentinels".to_string()));
}

// Parses an empty list.
#[test]
fn list_empty() {
    let mut p = parser("[]");
    let v = p.parse_value().unwrap();
    if let RonValue::List(elems) = &v.value {
        assert!(elems.is_empty());
    } else {
        panic!("expected List");
    }
}

// Parses a list with one element.
#[test]
fn list_single_element() {
    let mut p = parser("[Creature]");
    let v = p.parse_value().unwrap();
    if let RonValue::List(elems) = &v.value {
        assert_eq!(elems.len(), 1);
        assert_eq!(elems[0].value, RonValue::Identifier("Creature".to_string()));
    } else {
        panic!("expected List");
    }
}

// Parses a list with multiple elements.
#[test]
fn list_multiple_elements() {
    let mut p = parser("[Creature, Trap, Artifact]");
    let v = p.parse_value().unwrap();
    if let RonValue::List(elems) = &v.value {
        assert_eq!(elems.len(), 3);
    } else {
        panic!("expected List");
    }
}

// Trailing comma in list is allowed.
#[test]
fn list_trailing_comma() {
    let mut p = parser("[Creature, Trap,]");
    let v = p.parse_value().unwrap();
    if let RonValue::List(elems) = &v.value {
        assert_eq!(elems.len(), 2);
    } else {
        panic!("expected List");
    }
}

// List of strings.
#[test]
fn list_of_strings() {
    let mut p = parser("[\"Vigilance\", \"Haste\"]");
    let v = p.parse_value().unwrap();
    if let RonValue::List(elems) = &v.value {
        assert_eq!(elems.len(), 2);
        assert_eq!(elems[0].value, RonValue::String("Vigilance".to_string()));
        assert_eq!(elems[1].value, RonValue::String("Haste".to_string()));
    } else {
        panic!("expected List");
    }
}

// Parses an empty struct.
#[test]
fn struct_empty() {
    let mut p = parser("()");
    let v = p.parse_value().unwrap();
    if let RonValue::Struct(s) = &v.value {
        assert!(s.fields.is_empty());
    } else {
        panic!("expected Struct");
    }
}

// Parses a struct with one field.
#[test]
fn struct_single_field() {
    let mut p = parser("(name: \"Ashborn Hound\")");
    let v = p.parse_value().unwrap();
    if let RonValue::Struct(s) = &v.value {
        assert_eq!(s.fields.len(), 1);
        assert_eq!(s.fields[0].0.value, "name");
        assert_eq!(s.fields[0].1.value, RonValue::String("Ashborn Hound".to_string()));
    } else {
        panic!("expected Struct");
    }
}

// Parses a struct with multiple fields.
#[test]
fn struct_multiple_fields() {
    let mut p = parser("(name: \"foo\", age: 5)");
    let v = p.parse_value().unwrap();
    if let RonValue::Struct(s) = &v.value {
        assert_eq!(s.fields.len(), 2);
    } else {
        panic!("expected Struct");
    }
}

// Trailing comma in struct is allowed.
#[test]
fn struct_trailing_comma() {
    let mut p = parser("(name: \"foo\",)");
    let v = p.parse_value().unwrap();
    if let RonValue::Struct(s) = &v.value {
        assert_eq!(s.fields.len(), 1);
    } else {
        panic!("expected Struct");
    }
}

// Struct captures close_span for the closing paren.
#[test]
fn struct_close_span_captured() {
    let mut p = parser("(x: 1)");
    let v = p.parse_value().unwrap();
    if let RonValue::Struct(s) = &v.value {
        assert_eq!(s.close_span.start.offset, 5);
        assert_eq!(s.close_span.end.offset, 6);
    } else {
        panic!("expected Struct");
    }
}

// Nested struct.
#[test]
fn struct_nested() {
    let mut p = parser("(cost: (generic: 2, sigil: 1))");
    let v = p.parse_value().unwrap();
    if let RonValue::Struct(s) = &v.value {
        assert_eq!(s.fields.len(), 1);
        assert_eq!(s.fields[0].0.value, "cost");
        if let RonValue::Struct(inner) = &s.fields[0].1.value {
            assert_eq!(inner.fields.len(), 2);
        } else {
            panic!("expected nested Struct");
        }
    } else {
        panic!("expected Struct");
    }
}

// Leading whitespace is skipped.
#[test]
fn whitespace_leading() {
    let mut p = parser("  42");
    let v = p.parse_value().unwrap();
    assert_eq!(v.value, RonValue::Integer(42));
}

// Comments are skipped.
#[test]
fn comment_before_value() {
    let mut p = parser("// comment\n42");
    let v = p.parse_value().unwrap();
    assert_eq!(v.value, RonValue::Integer(42));
}

// Span start is after whitespace, not before.
#[test]
fn span_starts_after_whitespace() {
    let mut p = parser("  42");
    let v = p.parse_value().unwrap();
    assert_eq!(v.span.start.offset, 2);
}

// Span covers the full value.
#[test]
fn span_covers_string() {
    let mut p = parser("\"hello\"");
    let v = p.parse_value().unwrap();
    assert_eq!(v.span.start.offset, 0);
    assert_eq!(v.span.end.offset, 7);
}

// Empty input is an error.
#[test]
fn error_empty_input() {
    let mut p = parser("");
    let err = p.parse_value().unwrap_err();
    match err.kind {
        RonErrorKind::UnexpectedToken { found, .. } => {
            assert_eq!(found, "end of file");
        }
        other => panic!("expected UnexpectedToken, got {:?}", other),
    }
}

// Unexpected character is an error.
#[test]
fn error_unexpected_char() {
    let mut p = parser("@");
    assert!(p.parse_value().is_err());
}

// Parses a complete card-like struct.
#[test]
fn ron_full_struct() {
    let source = r#"(
        name: "Ashborn Hound",
        card_types: [Creature],
        legendary: false,
        power: Some(1),
        toughness: None,
        keywords: [],
        flavor_text: "placeholder",
    )"#;
    let v = parse_ron(source).unwrap();
    if let RonValue::Struct(s) = &v.value {
        assert_eq!(s.fields.len(), 7);
        assert_eq!(s.fields[0].0.value, "name");
        assert_eq!(s.fields[0].1.value, RonValue::String("Ashborn Hound".to_string()));
    } else {
        panic!("expected Struct");
    }
}

// Text after the single top-level value is a syntax error.
#[test]
fn trailing_value_rejected() {
    let err = parse_ron("42 43").unwrap_err();
    assert_eq!(err.kind, RonErrorKind::UnexpectedToken { expected: "end of input".to_string(), found: "'4'".to_string() });
    assert_eq!(err.span.start.offset, 3);
}

// Whitespace and comments after the value are allowed.
#[test]
fn trailing_comment_accepted() {
    let v = parse_ron("42 // the answer\n").unwrap();
    assert_eq!(v.value, RonValue::Integer(42));
}

// A struct naming a field twice is refused at the second name.
#[test]
fn duplicate_struct_field_rejected() {
    let mut p = parser("(a: 1, a: 2)");
    let err = p.parse_value().unwrap_err();
    assert_eq!(err.kind, RonErrorKind::DuplicateField { field_name: "a".to_string() });
    assert_eq!(err.span.start.offset, 7);
}

// A string with non-ASCII text comes back as written.
#[test]
fn string_non_ascii_kept() {
    let mut p = parser("\"é\"");
    let v = p.parse_value().unwrap();
    assert_eq!(v.value, RonValue::String("é".to_string()));
    assert_eq!(v.span.end.offset, 4);
}

// An escaped non-ASCII character stands for itself.
#[test]
fn string_escaped_non_ascii() {
    let v = parse_ron("\"a\\ñb\"").unwrap();
    assert_eq!(v.value, RonValue::String("añb".to_string()));
}
