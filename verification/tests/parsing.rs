//! Tests for pattern building, matching and typed extraction.

use gullwing::{build_regex_pattern, FloatVal, Parser, TypeSpec, Value, ValueMap};

#[test]
fn test_simple_pattern() {
    let (pattern, captures) = build_regex_pattern("{name}").unwrap();
    assert_eq!(pattern, r"(?P<name>.+?)");
    assert_eq!(captures.len(), 1);
    assert_eq!(captures[0].name, "name");
}

#[test]
fn test_multiple_fields() {
    let (pattern, captures) = build_regex_pattern("{first} {last}").unwrap();
    assert_eq!(pattern, r"(?P<first>.+?) (?P<last>.+?)");
    assert_eq!(captures.len(), 2);
}

#[test]
fn test_decimal_field() {
    let (pattern, captures) = build_regex_pattern("{value:d}").unwrap();
    assert!(pattern.contains(r"[-+]?\d+"));
    assert_eq!(captures[0].spec.type_spec, Some(TypeSpec::Decimal));
}

#[test]
fn test_float_field() {
    let (pattern, _) = build_regex_pattern("{value:f}").unwrap();
    assert!(pattern.contains(r"[-+]?"));
    assert!(pattern.contains(r"\d+"));
}

#[test]
fn builder_test_escaped_braces() {
    let (pattern, _) = build_regex_pattern("{{literal}}").unwrap();
    assert_eq!(pattern, r"\{literal\}");
}

#[test]
fn test_regex_special_chars() {
    let (pattern, _) = build_regex_pattern("value = {x}").unwrap();
    assert!(pattern.contains("value = "));
}

#[test]
fn test_parse_simple() {
    let parser = Parser::new("{name}").unwrap();
    let result = parser.parse("Alice").unwrap().unwrap();
    assert_eq!(result.get("name").unwrap().as_str(), Some("Alice"));
}

#[test]
fn test_parse_integers() {
    let parser = Parser::new("{x:d} + {y:d} = {z:d}").unwrap();
    let result = parser.parse("2 + 3 = 5").unwrap().unwrap();

    assert_eq!(result.get("x").unwrap().as_int(), Some(2));
    assert_eq!(result.get("y").unwrap().as_int(), Some(3));
    assert_eq!(result.get("z").unwrap().as_int(), Some(5));
}

#[test]
fn test_parse_floats() {
    let parser = Parser::new("{value:f}").unwrap();
    let result = parser.parse("3.14").unwrap().unwrap();
    assert_eq!(
        result.get("value").unwrap().as_float(),
        Some(FloatVal::from_text("3.14").unwrap())
    );
}

#[test]
fn test_parse_hex() {
    let parser = Parser::new("{value:x}").unwrap();
    let result = parser.parse("0xff").unwrap().unwrap();
    assert_eq!(result.get("value").unwrap().as_int(), Some(255));

    let result = parser.parse("ff").unwrap().unwrap();
    assert_eq!(result.get("value").unwrap().as_int(), Some(255));
}

#[test]
fn test_parse_hex_above_signed_range() {
    let parser = Parser::new("{v:x}").unwrap();
    let result = parser.parse("ffffffffffffffff").unwrap().unwrap();
    assert_eq!(result.get("v").unwrap().as_uint(), Some(u64::MAX));
    assert_eq!(result.get("v").unwrap().as_int(), None);
}

#[test]
fn test_search() {
    let parser = Parser::new("{number:d}").unwrap();
    let result = parser.search("The answer is 42!").unwrap().unwrap();
    assert_eq!(result.get("number").unwrap().as_int(), Some(42));
}

#[test]
fn test_no_match() {
    let parser = Parser::new("{number:d}").unwrap();
    let result = parser.parse("no numbers here").unwrap();
    assert!(result.is_none());
}

#[test]
fn test_findall() {
    let parser = Parser::new("{num:d}").unwrap();
    let results = parser.findall("Numbers: 1, 2, 3").unwrap();

    assert_eq!(results.len(), 3);
    assert_eq!(results[0].get("num").unwrap().as_int(), Some(1));
    assert_eq!(results[1].get("num").unwrap().as_int(), Some(2));
    assert_eq!(results[2].get("num").unwrap().as_int(), Some(3));
}

#[test]
fn test_parse_binary_with_prefix() {
    let parser = Parser::new("{v:b}").unwrap();
    let result = parser.parse("0b1010").unwrap().unwrap();
    assert_eq!(result.get("v").unwrap().as_int(), Some(10));
}

#[test]
fn test_parse_octal() {
    let parser = Parser::new("{v:o}").unwrap();
    let result = parser.parse("0o17").unwrap().unwrap();
    assert_eq!(result.get("v").unwrap().as_int(), Some(15));
}

#[test]
fn test_parse_percentage() {
    let parser = Parser::new("{v:%}").unwrap();
    let result = parser.parse("25%").unwrap().unwrap();
    assert_eq!(
        result.get("v").unwrap().as_float(),
        Some(FloatVal::from_text("0.25").unwrap())
    );
}

#[test]
fn test_parse_character() {
    let parser = Parser::new("{v:c}").unwrap();
    let result = parser.parse("A").unwrap().unwrap();
    assert_eq!(result.get("v").unwrap().as_char(), Some('A'));
}

#[test]
fn test_parse_scientific_text() {
    let parser = Parser::new("{v:e}").unwrap();
    let result = parser.parse("1.5e2").unwrap().unwrap();
    assert_eq!(
        result.get("v").unwrap().as_float(),
        Some(FloatVal::from_text("150").unwrap())
    );
}

#[test]
fn test_result_text_and_contains() {
    let parser = Parser::new("{a} is {b}").unwrap();
    let result = parser.parse("x is y").unwrap().unwrap();
    assert_eq!(result.text(), "x is y");
    assert!(result.contains("a"));
    assert!(result.contains("b"));
    assert!(!result.contains("c"));
}

#[test]
fn roundtrip_string() {
    let test_strings = vec![
        "hello",
        "world",
        "test123",
        "with-dashes",
        "with_underscores",
    ];

    for s in test_strings {
        let formatter = gullwing::Formatter::new("{value}").unwrap();
        let parser = Parser::new("{value}").unwrap();

        let mut values = ValueMap::new();
        values.insert("value".to_string(), Value::from(s));

        let formatted = formatter.format_map(&values).unwrap();
        let parsed = parser.parse(&formatted).unwrap().unwrap();

        assert_eq!(parsed.get("value").unwrap().as_str(), Some(s));
    }
}

#[test]
fn roundtrip_multiple_fields() {
    let formatter = gullwing::Formatter::new("{name} {age:d} {score:.1f}").unwrap();
    let parser = Parser::new("{name} {age:d} {score:f}").unwrap();

    let mut values = ValueMap::new();
    values.insert("name".to_string(), Value::from("Alice"));
    values.insert("age".to_string(), Value::from(30));
    values.insert("score".to_string(), Value::Float(FloatVal::from_text("95.7").unwrap()));

    let formatted = formatter.format_map(&values).unwrap();
    let parsed = parser.parse(&formatted).unwrap().unwrap();

    assert_eq!(parsed.get("name").unwrap().as_str(), Some("Alice"));
    assert_eq!(parsed.get("age").unwrap().as_int(), Some(30));
    let score = parsed.get("score").unwrap().as_float().unwrap();
    let back: f64 = score.to_text().parse().unwrap();
    assert!((back - 95.7).abs() < 0.01);
}

#[test]
fn roundtrip_with_alignment() {
    let formatter = gullwing::Formatter::new("{value:>10d}").unwrap();
    let parser = Parser::new("{value:d}").unwrap();

    let mut values = ValueMap::new();
    values.insert("value".to_string(), Value::from(42));

    let formatted = formatter.format_map(&values).unwrap();
    assert_eq!(formatted, "        42");

    let parsed = parser.parse(formatted.trim()).unwrap().unwrap();
    assert_eq!(parsed.get("value").unwrap().as_int(), Some(42));
}

#[test]
fn roundtrip_with_padding() {
    let formatter = gullwing::Formatter::new("{value:05d}").unwrap();
    let parser = Parser::new("{value:d}").unwrap();

    let mut values = ValueMap::new();
    values.insert("value".to_string(), Value::from(42));

    let formatted = formatter.format_map(&values).unwrap();
    assert_eq!(formatted, "00042");

    let parsed = parser.parse(&formatted).unwrap().unwrap();
    assert_eq!(parsed.get("value").unwrap().as_int(), Some(42));
}

#[test]
fn roundtrip_scientific_notation() {
    let formatter = gullwing::Formatter::new("{value:e}").unwrap();
    let parser = Parser::new("{value:e}").unwrap();

    let mut values = ValueMap::new();
    values.insert("value".to_string(), Value::Float(FloatVal::from_text("1234.0").unwrap()));

    let formatted = formatter.format_map(&values).unwrap();
    let parsed = parser.parse(&formatted).unwrap().unwrap();
    let value = parsed.get("value").unwrap().as_float().unwrap();
    let back: f64 = value.to_text().parse().unwrap();
    assert!((back - 1234.0).abs() < 0.01);
}
