//! Error values surfaced by formatting, spec parsing and pattern matching.

use vstd::prelude::*;

verus! {

/// Everything that can go wrong when building or using a formatter or parser.
#[derive(Debug, Clone, PartialEq, Eq)]
pub enum Error {
    /// Invalid format specification syntax.
    InvalidFormatSpec(String),
    /// Unsupported type specifier.
    UnsupportedType(String),
    /// Parse error when matching a string against a format pattern.
    ParseError(String),
    /// Type conversion error when converting between value variants or when
    /// turning captured text into a typed value.
    ConversionError(String),
    /// Pattern compilation or matching error of the underlying matcher.
    RegexError(String),
    /// A referenced field is missing from the supplied values.
    MissingField(String),
    /// A field name is neither an identifier nor a positional index.
    InvalidFieldName(String),
    /// A width or precision does not fit the numeric type.
    InvalidWidth(String),
    /// No match was found while parsing.
    NoMatch,
}

} // verus!
