//! Tests for template scanning, per-field writers, and the formatter.

use gullwing::template::parse_format_string;
use gullwing::writers::{apply_grouping, format_binary, format_decimal, format_hex, format_string};
use gullwing::{FloatVal, FormatSpec, Formatter, Grouping, Sign, Value, ValueMap};

#[test]
fn test_parse_simple_pattern() {
    let fields = parse_format_string("Hello {name}!").unwrap();
    assert_eq!(fields.len(), 2);
    assert_eq!(fields[0].prefix, "Hello ");
    assert_eq!(fields[0].name, Some("name".to_string()));
    assert_eq!(fields[1].prefix, "!");
}

#[test]
fn test_parse_positional() {
    let fields = parse_format_string("{0} + {1} = {2}").unwrap();
    assert_eq!(fields.len(), 4);
    assert_eq!(fields[0].index, Some(0));
    assert_eq!(fields[1].prefix, " + ");
    assert_eq!(fields[1].index, Some(1));
}

#[test]
fn test_parse_with_spec() {
    let fields = parse_format_string("{value:05d}").unwrap();
    assert_eq!(fields[0].name, Some("value".to_string()));
    assert_eq!(fields[0].spec.width, Some(5));
    assert_eq!(fields[0].spec.zero_pad, true);
}

#[test]
fn engine_test_escaped_braces() {
    let fields = parse_format_string("{{escaped}}").unwrap();
    assert_eq!(fields[0].prefix, "{escaped}");
}

#[test]
fn test_format_string() {
    let value = Value::from("hello");
    let spec = FormatSpec::default();
    assert_eq!(format_string(&value, &spec).unwrap(), "hello");

    let mut spec = FormatSpec::default();
    spec.precision = Some(3);
    assert_eq!(format_string(&value, &spec).unwrap(), "hel");
}

#[test]
fn test_format_decimal() {
    let value = Value::from(42);
    let spec = FormatSpec::default();
    assert_eq!(format_decimal(&value, &spec).unwrap(), "42");

    let mut spec = FormatSpec::default();
    spec.sign = Some(Sign::Plus);
    assert_eq!(format_decimal(&value, &spec).unwrap(), "+42");

    let value = Value::from(-42);
    assert_eq!(format_decimal(&value, &spec).unwrap(), "-42");
}

#[test]
fn test_format_binary() {
    let value = Value::from(10);
    let spec = FormatSpec::default();
    assert_eq!(format_binary(&value, &spec).unwrap(), "1010");

    let mut spec = FormatSpec::default();
    spec.alternate = true;
    assert_eq!(format_binary(&value, &spec).unwrap(), "0b1010");
}

#[test]
fn test_format_hex() {
    let value = Value::from(255);
    let spec = FormatSpec::default();
    assert_eq!(format_hex(&value, &spec, false).unwrap(), "ff");
    assert_eq!(format_hex(&value, &spec, true).unwrap(), "FF");

    let mut spec = FormatSpec::default();
    spec.alternate = true;
    assert_eq!(format_hex(&value, &spec, false).unwrap(), "0xff");
    assert_eq!(format_hex(&value, &spec, true).unwrap(), "0XFF");
}

#[test]
fn writer_test_grouping() {
    assert_eq!(apply_grouping("1000", Grouping::Comma, 3), "1,000");
    assert_eq!(apply_grouping("1000000", Grouping::Comma, 3), "1,000,000");
    assert_eq!(apply_grouping("1111", Grouping::Underscore, 4), "1111");
    assert_eq!(apply_grouping("11111", Grouping::Underscore, 4), "1_1111");
}

#[test]
fn test_format_map_named_fields() {
    let formatter = Formatter::new("{name:>10}").unwrap();
    let mut values = ValueMap::new();
    values.insert("name".to_string(), Value::from("Alice"));
    assert_eq!(formatter.format_map(&values).unwrap(), "     Alice");
}

#[test]
fn test_format_positional_fields() {
    let formatter = Formatter::new("{0} + {1} = {2}").unwrap();
    let values = vec![Value::from(1), Value::from(2), Value::from(3)];
    assert_eq!(formatter.format_positional(&values).unwrap(), "1 + 2 = 3");
}

#[test]
fn test_format_auto_positional_fields() {
    let formatter = Formatter::new("{} and {}").unwrap();
    let values = vec![Value::from(7), Value::from(8)];
    assert_eq!(formatter.format_positional(&values).unwrap(), "7 and 8");
}

#[test]
fn test_format_character_from_scalar() {
    let formatter = Formatter::new("{v:c}").unwrap();
    let mut values = ValueMap::new();
    values.insert("v".to_string(), Value::from(65));
    assert_eq!(formatter.format_map(&values).unwrap(), "A");
}

#[test]
fn test_format_fixed_precision() {
    let formatter = Formatter::new("{v:.2f}").unwrap();
    let mut values = ValueMap::new();
    values.insert(
        "v".to_string(),
        Value::Float(FloatVal::from_text("3.14159").unwrap()),
    );
    assert_eq!(formatter.format_map(&values).unwrap(), "3.14");
}

#[test]
fn test_format_percentage() {
    let formatter = Formatter::new("{v:.1%}").unwrap();
    let mut values = ValueMap::new();
    values.insert("v".to_string(), Value::Float(FloatVal::from_text("0.25").unwrap()));
    assert_eq!(formatter.format_map(&values).unwrap(), "25.0%");
}

#[test]
fn test_format_exponent_notation() {
    let formatter = Formatter::new("{v:e}").unwrap();
    let mut values = ValueMap::new();
    values.insert("v".to_string(), Value::Float(FloatVal::from_text("1234").unwrap()));
    assert_eq!(formatter.format_map(&values).unwrap(), "1.234000e3");
}

#[test]
fn test_format_bool_as_decimal() {
    let formatter = Formatter::new("{v}").unwrap();
    let mut values = ValueMap::new();
    values.insert("v".to_string(), Value::from(true));
    assert_eq!(formatter.format_map(&values).unwrap(), "1");
}

#[test]
fn test_format_center_alignment() {
    let formatter = Formatter::new("{v:*^7}").unwrap();
    let mut values = ValueMap::new();
    values.insert("v".to_string(), Value::from("ab"));
    assert_eq!(formatter.format_map(&values).unwrap(), "**ab***");
}

#[test]
fn test_format_after_sign_alignment() {
    let formatter = Formatter::new("{v:=8d}").unwrap();
    let mut values = ValueMap::new();
    values.insert("v".to_string(), Value::from(-42));
    assert_eq!(formatter.format_map(&values).unwrap(), "-     42");
}

#[test]
fn test_unicode_field_name() {
    let formatter = Formatter::new("{café}").unwrap();
    let mut values = ValueMap::new();
    values.insert("café".to_string(), Value::from("ok"));
    assert_eq!(formatter.format_map(&values).unwrap(), "ok");
}
