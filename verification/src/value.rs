//! The value model: the closed set of datum kinds that can be formatted
//! and parsed, with checked coercions between them.

use vstd::prelude::*;
use vstd::string::StringExecFns;

use crate::decimal::{FloatV, FloatVal, sp_mag_i64, sp_normalized};
use crate::digits::sp_udigits;
use crate::errors::Error;

verus! {

/// A value that can be formatted or parsed.
#[derive(Debug, PartialEq)]
pub enum Value {
    /// String value
    Str(String),
    /// Signed integer value
    Int(i64),
    /// Unsigned integer value
    UInt(u64),
    /// Float value, held as an exact decimal
    Float(FloatVal),
    /// Boolean value
    Bool(bool),
    /// Character value
    Char(char),
}

/// The mathematical shape of a value.
pub enum ValueV {
    /// String value
    Str(Seq<char>),
    /// Signed integer value
    Int(int),
    /// Unsigned integer value
    UInt(int),
    /// Float value
    Float(FloatV),
    /// Boolean value
    Bool(bool),
    /// Character value
    Char(char),
}

impl View for Value {
    type V = ValueV;

    open spec fn view(&self) -> ValueV {
        match self {
            Value::Str(s) => ValueV::Str(s@),
            Value::Int(i) => ValueV::Int(*i as int),
            Value::UInt(u) => ValueV::UInt(*u as int),
            Value::Float(f) => ValueV::Float(f@),
            Value::Bool(b) => ValueV::Bool(*b),
            Value::Char(c) => ValueV::Char(*c),
        }
    }
}

/// The signed integer a value coerces to, if any: integers that fit,
/// and booleans as one and zero.
pub open spec fn sp_as_int(v: ValueV) -> Option<int> {
    match v {
        ValueV::Int(i) => Some(i),
        ValueV::UInt(u) => if u <= i64::MAX {
            Some(u)
        } else {
            None
        },
        ValueV::Bool(b) => Some(
            if b {
                1
            } else {
                0
            },
        ),
        _ => None,
    }
}

/// The unsigned integer a value coerces to, if any: non-negative
/// integers, and booleans as one and zero.
pub open spec fn sp_as_uint(v: ValueV) -> Option<int> {
    match v {
        ValueV::UInt(u) => Some(u),
        ValueV::Int(i) => if i >= 0 {
            Some(i)
        } else {
            None
        },
        ValueV::Bool(b) => Some(
            if b {
                1
            } else {
                0
            },
        ),
        _ => None,
    }
}

/// The float a value coerces to, if any: floats themselves and exact
/// conversions of the integers.
pub open spec fn sp_as_float(v: ValueV) -> Option<FloatV> {
    match v {
        ValueV::Float(f) => Some(f),
        ValueV::Int(i) => Some(
            sp_normalized(i < 0, sp_udigits(sp_mag_i64(i), 10), Seq::<u8>::empty()),
        ),
        ValueV::UInt(u) => Some(
            sp_normalized(false, sp_udigits(u as nat, 10), Seq::<u8>::empty()),
        ),
        _ => None,
    }
}

/// The character a value coerces to, if any: characters themselves and
/// single-character strings.
pub open spec fn sp_as_char(v: ValueV) -> Option<char> {
    match v {
        ValueV::Char(c) => Some(c),
        ValueV::Str(s) => if s.len() == 1 {
            Some(s[0])
        } else {
            None
        },
        _ => None,
    }
}

impl Clone for Value {
    /// An exact copy.
    fn clone(&self) -> (r: Self)
        ensures
            r@ == self@,
    {
        match self {
            Value::Str(s) => Value::Str(s.clone()),
            Value::Int(i) => Value::Int(*i),
            Value::UInt(u) => Value::UInt(*u),
            Value::Float(f) => Value::Float(f.clone()),
            Value::Bool(b) => Value::Bool(*b),
            Value::Char(c) => Value::Char(*c),
        }
    }
}

impl Value {
    /// The string slice held by a string value.
    pub fn as_str(&self) -> (r: Option<&str>)
        ensures
            (match self@ {
                ValueV::Str(s) => r is Some && r->0@ == s,
                _ => r is None,
            }),
    {
        match self {
            Value::Str(s) => Some(s.as_str()),
            _ => None,
        }
    }

    /// This value as a signed integer, if it coerces to one.
    pub fn as_int(&self) -> (r: Option<i64>)
        ensures
            (match sp_as_int(self@) {
                Some(i) => r is Some && r->0 == i,
                None => r is None,
            }),
    {
        match self {
            Value::Int(i) => Some(*i),
            Value::UInt(u) => if *u <= i64::MAX as u64 {
                Some(*u as i64)
            } else {
                None
            },
            Value::Bool(b) => Some(
                if *b {
                    1
                } else {
                    0
                },
            ),
            _ => None,
        }
    }

    /// This value as an unsigned integer, if it coerces to one.
    pub fn as_uint(&self) -> (r: Option<u64>)
        ensures
            (match sp_as_uint(self@) {
                Some(u) => r is Some && r->0 == u,
                None => r is None,
            }),
    {
        match self {
            Value::UInt(u) => Some(*u),
            Value::Int(i) => if *i >= 0 {
                Some(*i as u64)
            } else {
                None
            },
            Value::Bool(b) => Some(
                if *b {
                    1
                } else {
                    0
                },
            ),
            _ => None,
        }
    }

    /// This value as a float, if it coerces to one.
    pub fn as_float(&self) -> (r: Option<FloatVal>)
        ensures
            (match sp_as_float(self@) {
                Some(f) => r is Some && r->0@ == f,
                None => r is None,
            }),
    {
        match self {
            Value::Float(f) => Some(f.clone()),
            Value::Int(i) => Some(FloatVal::from_i64(*i)),
            Value::UInt(u) => Some(FloatVal::from_u64(*u)),
            _ => None,
        }
    }

    /// This value as a boolean, if it is one.
    pub fn as_bool(&self) -> (r: Option<bool>)
        ensures
            (match self@ {
                ValueV::Bool(b) => r == Some(b),
                _ => r is None,
            }),
    {
        match self {
            Value::Bool(b) => Some(*b),
            _ => None,
        }
    }

    /// This value as a character, if it coerces to one: a character or a
    /// single-character string.
    pub fn as_char(&self) -> (r: Option<char>)
        ensures
            r == sp_as_char(self@),
    {
        match self {
            Value::Char(c) => Some(*c),
            Value::Str(s) => {
                if s.as_str().unicode_len() == 1 {
                    Some(s.as_str().get_char(0))
                } else {
                    None
                }
            },
            _ => None,
        }
    }

    /// The plain textual form of this value.
    pub fn to_text(&self) -> (r: String)
        ensures
            r@ == crate::writers::sp_value_text(self@),
    {
        crate::writers::value_to_text(self)
    }

    /// This value as a signed integer, or a conversion error.
    pub fn to_int(&self) -> (r: Result<i64, Error>)
        ensures
            (match sp_as_int(self@) {
                Some(i) => r is Ok && r->Ok_0 == i,
                None => r is Err && r->Err_0 is ConversionError,
            }),
    {
        match self.as_int() {
            Some(i) => Ok(i),
            None => Err(Error::ConversionError(String::from_str("cannot convert to int"))),
        }
    }

    /// This value as an unsigned integer, or a conversion error.
    pub fn to_uint(&self) -> (r: Result<u64, Error>)
        ensures
            (match sp_as_uint(self@) {
                Some(u) => r is Ok && r->Ok_0 == u,
                None => r is Err && r->Err_0 is ConversionError,
            }),
    {
        match self.as_uint() {
            Some(u) => Ok(u),
            None => Err(Error::ConversionError(String::from_str("cannot convert to uint"))),
        }
    }

    /// This value as a float, or a conversion error.
    pub fn to_float(&self) -> (r: Result<FloatVal, Error>)
        ensures
            (match sp_as_float(self@) {
                Some(f) => r is Ok && r->Ok_0@ == f,
                None => r is Err && r->Err_0 is ConversionError,
            }),
    {
        match self.as_float() {
            Some(f) => Ok(f),
            None => Err(Error::ConversionError(String::from_str("cannot convert to float"))),
        }
    }
}

impl From<String> for Value {
    /// A string value.
    fn from(s: String) -> (r: Self)
        ensures
            r == Value::Str(s),
    {
        Value::Str(s)
    }
}

impl vstd::std_specs::convert::FromSpecImpl<String> for Value {
    open spec fn obeys_from_spec() -> bool {
        true
    }

    open spec fn from_spec(s: String) -> Self {
        Value::Str(s)
    }
}

impl<'a> From<&'a str> for Value {
    /// A string value copied from a slice.
    fn from(s: &'a str) -> (r: Self)
        ensures
            r@ == ValueV::Str(s@),
    {
        Value::Str(String::from_str(s))
    }
}

impl<'a> vstd::std_specs::convert::FromSpecImpl<&'a str> for Value {
    open spec fn obeys_from_spec() -> bool {
        // a spec-level `String` cannot be built from a slice's view, so
        // this conversion promises nothing through `from_spec`; its own
        // `ensures` on `from` carries the contract
        false
    }

    open spec fn from_spec(s: &'a str) -> Self {
        Value::Bool(false)
    }
}

impl From<i64> for Value {
    /// A signed integer value.
    fn from(i: i64) -> (r: Self)
        ensures
            r == Value::Int(i),
    {
        Value::Int(i)
    }
}

impl vstd::std_specs::convert::FromSpecImpl<i64> for Value {
    open spec fn obeys_from_spec() -> bool {
        true
    }

    open spec fn from_spec(i: i64) -> Self {
        Value::Int(i)
    }
}

impl From<i32> for Value {
    /// A signed integer value.
    fn from(i: i32) -> (r: Self)
        ensures
            r == Value::Int(i as i64),
    {
        Value::Int(i as i64)
    }
}

impl vstd::std_specs::convert::FromSpecImpl<i32> for Value {
    open spec fn obeys_from_spec() -> bool {
        true
    }

    open spec fn from_spec(i: i32) -> Self {
        Value::Int(i as i64)
    }
}

impl From<u64> for Value {
    /// An unsigned integer value.
    fn from(u: u64) -> (r: Self)
        ensures
            r == Value::UInt(u),
    {
        Value::UInt(u)
    }
}

impl vstd::std_specs::convert::FromSpecImpl<u64> for Value {
    open spec fn obeys_from_spec() -> bool {
        true
    }

    open spec fn from_spec(u: u64) -> Self {
        Value::UInt(u)
    }
}

impl From<u32> for Value {
    /// An unsigned integer value.
    fn from(u: u32) -> (r: Self)
        ensures
            r == Value::UInt(u as u64),
    {
        Value::UInt(u as u64)
    }
}

impl vstd::std_specs::convert::FromSpecImpl<u32> for Value {
    open spec fn obeys_from_spec() -> bool {
        true
    }

    open spec fn from_spec(u: u32) -> Self {
        Value::UInt(u as u64)
    }
}

impl From<usize> for Value {
    /// An unsigned integer value.
    fn from(u: usize) -> (r: Self)
        ensures
            r == Value::UInt(u as u64),
    {
        Value::UInt(u as u64)
    }
}

impl vstd::std_specs::convert::FromSpecImpl<usize> for Value {
    open spec fn obeys_from_spec() -> bool {
        true
    }

    open spec fn from_spec(u: usize) -> Self {
        Value::UInt(u as u64)
    }
}

impl From<FloatVal> for Value {
    /// A float value.
    fn from(f: FloatVal) -> (r: Self)
        ensures
            r == Value::Float(f),
    {
        Value::Float(f)
    }
}

impl vstd::std_specs::convert::FromSpecImpl<FloatVal> for Value {
    open spec fn obeys_from_spec() -> bool {
        true
    }

    open spec fn from_spec(f: FloatVal) -> Self {
        Value::Float(f)
    }
}

impl From<bool> for Value {
    /// A boolean value.
    fn from(b: bool) -> (r: Self)
        ensures
            r == Value::Bool(b),
    {
        Value::Bool(b)
    }
}

impl vstd::std_specs::convert::FromSpecImpl<bool> for Value {
    open spec fn obeys_from_spec() -> bool {
        true
    }

    open spec fn from_spec(b: bool) -> Self {
        Value::Bool(b)
    }
}

impl From<char> for Value {
    /// A character value.
    fn from(c: char) -> (r: Self)
        ensures
            r == Value::Char(c),
    {
        Value::Char(c)
    }
}

impl vstd::std_specs::convert::FromSpecImpl<char> for Value {
    open spec fn obeys_from_spec() -> bool {
        true
    }

    open spec fn from_spec(c: char) -> Self {
        Value::Char(c)
    }
}

} // verus!
