//! Tests for the value model and its coercions.

use gullwing::{FloatVal, Value};

#[test]
fn test_value_conversions() {
    // string conversions
    let v = Value::from("hello");
    assert_eq!(v.as_str(), Some("hello"));

    // integer conversions
    let v = Value::from(42i64);
    assert_eq!(v.as_int(), Some(42));
    assert_eq!(v.as_float(), Some(FloatVal::from_i64(42)));

    // float conversions
    let v = Value::Float(FloatVal::from_text("3.14").unwrap());
    assert_eq!(v.as_float(), Some(FloatVal::from_text("3.14").unwrap()));

    // bool conversions
    let v = Value::from(true);
    assert_eq!(v.as_bool(), Some(true));
    assert_eq!(v.as_int(), Some(1));

    // char conversions
    let v = Value::from('a');
    assert_eq!(v.as_char(), Some('a'));
}

#[test]
fn test_display() {
    assert_eq!(Value::from("hello").to_text(), "hello");
    assert_eq!(Value::from(42).to_text(), "42");
    assert_eq!(Value::Float(FloatVal::from_text("3.14").unwrap()).to_text(), "3.14");
    assert_eq!(Value::from(true).to_text(), "true");
    assert_eq!(Value::from('a').to_text(), "a");
}

#[test]
fn test_uint_int_cross_coercions() {
    assert_eq!(Value::from(7u64).as_int(), Some(7));
    assert_eq!(Value::from(7i64).as_uint(), Some(7));
    assert_eq!(Value::from(u64::MAX).as_int(), None);
    assert_eq!(Value::from(-1).as_uint(), None);
}

#[test]
fn test_single_character_string_as_char() {
    assert_eq!(Value::from("x").as_char(), Some('x'));
    assert_eq!(Value::from("xy").as_char(), None);
}

#[test]
fn test_negative_zero_float() {
    let v = FloatVal::from_text("-0.0").unwrap();
    assert!(v.sign_negative());
    assert!(v.is_zero());
    assert!(!v.is_strictly_negative());
    assert_eq!(v.to_text(), "-0");
}

#[test]
fn test_float_text_normalization() {
    assert_eq!(FloatVal::from_text("003.1400").unwrap().to_text(), "3.14");
    assert_eq!(FloatVal::from_text(".5").unwrap().to_text(), "0.5");
    assert_eq!(FloatVal::from_text("2.").unwrap().to_text(), "2");
    assert_eq!(FloatVal::from_text("1.5e3").unwrap().to_text(), "1500");
    assert_eq!(FloatVal::from_text("25e-2").unwrap().to_text(), "0.25");
}
