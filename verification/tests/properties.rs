//! Behaviour that must hold across formatting and parsing together:
//! roundtrips, widths and padding, escaping, and match modes.

use gullwing::writers::apply_grouping;
use gullwing::{FloatVal, Formatter, Grouping, Parser, Value, ValueMap};

fn single(name: &str, value: Value) -> ValueMap {
    let mut values = ValueMap::new();
    values.insert(name.to_string(), value);
    values
}

#[test]
fn decimal_roundtrip_recovers_signed_integers() {
    for n in [0i64, 42, -42, 1000, -1000, i64::MAX, i64::MIN] {
        let formatter = Formatter::new("{v:d}").unwrap();
        let parser = Parser::new("{v:d}").unwrap();
        let formatted = formatter.format_map(&single("v", Value::from(n))).unwrap();
        let parsed = parser.parse(&formatted).unwrap().unwrap();
        assert_eq!(parsed.get("v").unwrap().as_int(), Some(n));
    }
}

#[test]
fn grouped_decimal_text_converts_back() {
    // the value conversion strips grouping separators
    let formatter = Formatter::new("{v:,d}").unwrap();
    let formatted = formatter.format_map(&single("v", Value::from(1234567))).unwrap();
    assert_eq!(formatted, "1,234,567");
    let spec = gullwing::FormatSpec::parse(",d").unwrap();
    let back = gullwing::convert_value(&formatted, &spec).unwrap();
    assert_eq!(back.as_int(), Some(1234567));
}

#[test]
fn radix_roundtrips_with_and_without_prefix() {
    for (tpl, n) in [
        ("{v:b}", 10u32),
        ("{v:#b}", 10),
        ("{v:o}", 15),
        ("{v:#o}", 15),
        ("{v:x}", 255),
        ("{v:#x}", 255),
        ("{v:X}", 255),
        ("{v:#X}", 48879),
    ] {
        let formatter = Formatter::new(tpl).unwrap();
        let parser = Parser::new(tpl).unwrap();
        let formatted = formatter.format_map(&single("v", Value::from(n))).unwrap();
        let parsed = parser.parse(&formatted).unwrap().unwrap();
        assert_eq!(parsed.get("v").unwrap().as_int(), Some(n as i64), "template {}", tpl);
    }
}

#[test]
fn radix_roundtrip_covers_full_unsigned_range() {
    // values above the signed range come back as unsigned
    for (tpl, n) in [
        ("{v:x}", u64::MAX),
        ("{v:#X}", u64::MAX),
        ("{v:b}", u64::MAX),
        ("{v:o}", u64::MAX),
        ("{v:x}", i64::MAX as u64 + 1),
        ("{v:x}", i64::MAX as u64),
    ] {
        let formatter = Formatter::new(tpl).unwrap();
        let parser = Parser::new(tpl).unwrap();
        let formatted = formatter.format_map(&single("v", Value::from(n))).unwrap();
        let parsed = parser.parse(&formatted).unwrap().unwrap();
        assert_eq!(parsed.get("v").unwrap().as_uint(), Some(n), "template {}", tpl);
    }
}

#[test]
fn missing_positional_slot_names_its_position() {
    let formatter = Formatter::new("{0} {1} {2}").unwrap();
    let values = vec![Value::from(1), Value::from(2)];
    match formatter.format_positional(&values) {
        Err(gullwing::Error::MissingField(name)) => assert_eq!(name, "position 2"),
        _ => panic!("expected a missing-field error naming the slot"),
    }
}

#[test]
fn fixed_precision_roundtrip_is_close() {
    // formatting at two places then parsing back stays within 0.01
    for text in ["3.14159", "-2.71828", "0.005", "999.999", "-0.3333"] {
        let formatter = Formatter::new("{v:.2f}").unwrap();
        let parser = Parser::new("{v:f}").unwrap();
        let value = FloatVal::from_text(text).unwrap();
        let formatted = formatter.format_map(&single("v", Value::Float(value))).unwrap();
        let parsed = parser.parse(&formatted).unwrap().unwrap();
        let back: f64 = parsed.get("v").unwrap().as_float().unwrap().to_text().parse().unwrap();
        let orig: f64 = text.parse().unwrap();
        assert!((back - orig).abs() < 0.01, "{} came back as {}", text, back);
    }
}

#[test]
fn width_fill_and_padding_examples() {
    let formatter = Formatter::new("{v:>10d}").unwrap();
    let formatted = formatter.format_map(&single("v", Value::from(42))).unwrap();
    assert_eq!(formatted, "        42");
    assert_eq!(formatted.len(), 10);

    let formatter = Formatter::new("{v:05d}").unwrap();
    assert_eq!(formatter.format_map(&single("v", Value::from(42))).unwrap(), "00042");

    let formatter = Formatter::new("{v:#x}").unwrap();
    assert_eq!(formatter.format_map(&single("v", Value::from(255))).unwrap(), "0xff");

    let formatter = Formatter::new("{v:z.2f}").unwrap();
    let neg_zero = FloatVal::from_text("-0.0").unwrap();
    assert_eq!(formatter.format_map(&single("v", Value::Float(neg_zero))).unwrap(), "0.00");
}

#[test]
fn grouping_boundary_examples() {
    assert_eq!(apply_grouping("1000", Grouping::Comma, 3), "1,000");
    assert_eq!(apply_grouping("11111", Grouping::Underscore, 4), "1_1111");
}

#[test]
fn template_escaping_formats_and_parses_literally() {
    let formatter = Formatter::new("{{literal}}").unwrap();
    assert_eq!(formatter.format_map(&ValueMap::new()).unwrap(), "{literal}");

    let parser = Parser::new("{{literal}}").unwrap();
    let result = parser.parse("{literal}").unwrap();
    assert!(result.is_some());
    let parser = Parser::new("{{literal}}").unwrap();
    assert!(parser.parse("other").unwrap().is_none());
}

#[test]
fn full_match_rejects_what_search_finds() {
    let parser = Parser::new("{value:d}").unwrap();
    assert!(parser.parse("prefix 42 suffix").unwrap().is_none());
    let found = parser.search("prefix 42 suffix").unwrap().unwrap();
    assert_eq!(found.get("value").unwrap().as_int(), Some(42));
}

#[test]
fn findall_yields_matches_in_order() {
    let parser = Parser::new("{num:d}").unwrap();
    let results = parser.findall("Numbers: 1, 2, 3").unwrap();
    let nums: Vec<i64> = results.iter().map(|r| r.get("num").unwrap().as_int().unwrap()).collect();
    assert_eq!(nums, vec![1, 2, 3]);
}

#[test]
fn missing_field_names_the_first_unresolved() {
    let formatter = Formatter::new("{a} {b} {c}").unwrap();
    let result = formatter.format_map(&ValueMap::new());
    match result {
        Err(gullwing::Error::MissingField(name)) => assert_eq!(name, "a"),
        _ => panic!("expected a missing-field error for the first field"),
    }
}

#[test]
fn reformatting_parsed_values_is_idempotent() {
    let template = "{name} scored {points:d}";
    let formatter = Formatter::new(template).unwrap();
    let parser = Parser::new(template).unwrap();

    let mut values = ValueMap::new();
    values.insert("name".to_string(), Value::from("Ada"));
    values.insert("points".to_string(), Value::from(99));

    let first = formatter.format_map(&values).unwrap();
    let parsed = parser.parse(&first).unwrap().unwrap();
    let second = formatter.format_map(parsed.values()).unwrap();
    assert_eq!(first, second);

    let reparsed = parser.parse(&second).unwrap().unwrap();
    assert_eq!(reparsed.get("name").unwrap().as_str(), Some("Ada"));
    assert_eq!(reparsed.get("points").unwrap().as_int(), Some(99));
}
