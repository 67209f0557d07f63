//! Error paths and edge cases across formatting and parsing.

use gullwing::{Error, FloatVal, Formatter, Parser, Value, ValueMap};

#[test]
fn invalid_format_spec_unclosed_brace() {
    let result = Formatter::new("{value");
    assert!(result.is_err());
}

#[test]
fn invalid_format_spec_unknown_type() {
    // `z` is the zero-flag, not a type specifier; the spec parses and
    // the field formats as a plain string.
    let formatter = Formatter::new("{value:z}");

    if let Ok(formatter) = formatter {
        let mut values = ValueMap::new();
        values.insert("value".to_string(), Value::from("test"));
        let result = formatter.format_map(&values);
        assert!(result.is_ok());
    }
}

#[test]
fn empty_field_name_with_spec() {
    // an empty field name is an auto-positional field
    let result = Formatter::new("{:d}");
    assert!(result.is_ok());
}

#[test]
fn missing_field_error() {
    let formatter = Formatter::new("{missing_field}").unwrap();
    let values = ValueMap::new();
    let result = formatter.format_map(&values);

    assert!(result.is_err());
    match result {
        Err(Error::MissingField(field)) => {
            assert_eq!(field, "missing_field");
        },
        _ => panic!("Expected MissingField error"),
    }
}

#[test]
fn type_mismatch_int_format_on_string() {
    let formatter = Formatter::new("{value:d}").unwrap();
    let mut values = ValueMap::new();
    values.insert("value".to_string(), Value::from("not_a_number"));

    let result = formatter.format_map(&values);
    assert!(result.is_err());
    match result {
        Err(Error::ConversionError(_)) => {},
        _ => panic!("Expected ConversionError"),
    }
}

#[test]
fn type_mismatch_float_format_on_string() {
    let formatter = Formatter::new("{value:.2f}").unwrap();
    let mut values = ValueMap::new();
    values.insert("value".to_string(), Value::from("not_a_number"));

    let result = formatter.format_map(&values);
    assert!(result.is_err());
    match result {
        Err(Error::ConversionError(_)) => {},
        _ => panic!("Expected ConversionError"),
    }
}

#[test]
fn negative_with_unsigned_format() {
    let formatter = Formatter::new("{value:x}").unwrap();
    let mut values = ValueMap::new();
    values.insert("value".to_string(), Value::from(-42));

    // a negative value cannot be coerced to unsigned for hex rendering
    let result = formatter.format_map(&values);
    assert!(matches!(result, Err(Error::ConversionError(_))));
}

#[test]
fn parse_no_match() {
    let parser = Parser::new("{value:d}").unwrap();
    let result = parser.parse("not a number");

    assert!(result.is_ok());
    assert!(result.unwrap().is_none());
}

#[test]
fn parse_partial_match() {
    let parser = Parser::new("{a:d} {b:d}").unwrap();
    let result = parser.parse("42");

    assert!(result.is_ok());
    assert!(result.unwrap().is_none());
}

#[test]
fn parse_type_conversion_error() {
    let parser = Parser::new("{value:d}").unwrap();
    let result = parser.parse("123abc");

    // the anchored pattern does not match the whole input
    assert!(result.is_ok());
}

#[test]
fn invalid_parser_pattern() {
    let result = Parser::new("{value");
    assert!(result.is_err());
}

#[test]
fn numeric_field_name_is_a_matcher_error() {
    // a purely numeric field makes a capture group name that the
    // matcher refuses
    let result = Parser::new("{0}");
    assert!(matches!(result, Err(Error::RegexError(_))));
}

#[test]
fn invalid_field_name_error() {
    let result = Formatter::new("{bad!name}");
    assert!(matches!(result, Err(Error::InvalidFieldName(_))));
}

#[test]
fn value_to_int_error() {
    let value = Value::from("hello");
    let result = value.to_int();

    assert!(result.is_err());
    match result {
        Err(Error::ConversionError(_)) => {},
        _ => panic!("Expected ConversionError"),
    }
}

#[test]
fn value_to_float_error() {
    let value = Value::from("hello");
    let result = value.to_float();

    assert!(result.is_err());
    match result {
        Err(Error::ConversionError(_)) => {},
        _ => panic!("Expected ConversionError"),
    }
}

#[test]
fn value_to_uint_from_negative() {
    let value = Value::from(-42);
    let result = value.to_uint();

    assert!(result.is_err());
}

#[test]
fn empty_format_string() {
    let formatter = Formatter::new("").unwrap();
    let values = ValueMap::new();
    let result = formatter.format_map(&values).unwrap();
    assert_eq!(result, "");
}

#[test]
fn format_string_without_fields() {
    let formatter = Formatter::new("Hello, World!").unwrap();
    let values = ValueMap::new();
    let result = formatter.format_map(&values).unwrap();
    assert_eq!(result, "Hello, World!");
}

#[test]
fn escaped_braces() {
    let formatter = Formatter::new("{{literal}}").unwrap();
    let values = ValueMap::new();
    let result = formatter.format_map(&values).unwrap();
    assert_eq!(result, "{literal}");
}

#[test]
fn mixed_escaped_and_fields() {
    let formatter = Formatter::new("{{before}} {value} {{after}}").unwrap();
    let mut values = ValueMap::new();
    values.insert("value".to_string(), Value::from(42));
    let result = formatter.format_map(&values).unwrap();
    assert_eq!(result, "{before} 42 {after}");
}

#[test]
fn multiple_missing_fields() {
    let formatter = Formatter::new("{a} {b} {c}").unwrap();
    let values = ValueMap::new();
    let result = formatter.format_map(&values);

    assert!(result.is_err());
    match result {
        Err(Error::MissingField(_)) => {},
        _ => panic!("Expected MissingField error"),
    }
}

#[test]
fn complex_pattern_no_match() {
    let parser = Parser::new("{name} is {age:d} years old").unwrap();
    let result = parser.parse("completely different string");

    assert!(result.is_ok());
    assert!(result.unwrap().is_none());
}

#[test]
fn search_vs_parse() {
    let parser = Parser::new("{value:d}").unwrap();

    let parse_result = parser.parse("prefix 42 suffix").unwrap();
    assert!(parse_result.is_none());

    let search_result = parser.search("prefix 42 suffix").unwrap();
    assert!(search_result.is_some());
    assert_eq!(
        search_result.unwrap().get("value").unwrap().as_int().unwrap(),
        42
    );
}

#[test]
fn stray_closing_brace_is_an_error() {
    let result = Formatter::new("oops } here");
    assert!(matches!(result, Err(Error::InvalidFormatSpec(_))));
}

#[test]
fn float_exponent_out_of_range_is_an_error() {
    let result = FloatVal::from_text("1e99999999");
    assert!(matches!(result, Err(Error::ConversionError(_))));
}
