//! Runtime string formatting and inverse parsing driven by a format
//! specification mini-language.
//!
//! A template holds literal text and placeholders of the form
//! `{name:spec}`, where `spec` follows the grammar
//! `[[fill]align][sign][z][#][0][width][grouping][.precision][type]`.
//! A [`Formatter`] renders typed [`Value`]s into text under such a
//! template; a [`Parser`] compiles the same template into a matcher and
//! extracts typed values back out of text, by whole-input match, first
//! match, or all matches.
//!
//! Every operation carries a contract: the spec grammar, the template
//! scan, each type-specific writer, the pattern builder and the typed
//! extraction are specified as functions of their inputs, and the
//! inversion laws in [`laws`] prove that converting a rendered decimal,
//! radix or fixed-point text back recovers the value that was written.
//! Matching itself is done by an outside engine behind the trusted
//! declarations in [`rx`]; float values are carried as exact decimals
//! by [`FloatVal`], so the engine's own logic never touches binary
//! floating point.

pub mod convert;
pub mod decimal;
pub mod digits;
pub mod engine;
pub mod errors;
pub mod fmt_spec;
pub mod laws;
pub mod matcher;
pub mod pattern;
pub mod rx;
pub mod template;
pub mod text;
pub mod value;
pub mod value_map;
pub mod writers;

pub use convert::convert_value;
pub use decimal::FloatVal;
pub use engine::Formatter;
pub use errors::Error;
pub use fmt_spec::{Alignment, FormatSpec, Grouping, Sign, TypeSpec};
pub use matcher::{ParseResult, Parser};
pub use pattern::{CaptureInfo, build_regex_pattern};
pub use value::Value;
pub use value_map::ValueMap;
