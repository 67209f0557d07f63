//! The formatter: a compiled template plus per-field rendering.

use vstd::prelude::*;
use vstd::string::StringExecFns;

use crate::errors::Error;
use crate::fmt_spec::{FormatSpec, TypeSpec};
use crate::template::{
    Field, FieldV, fields_view, parse_format_string, sp_scan_template, sp_tpl_issue_matches,
};
use crate::text;
use crate::value::{Value, ValueV};
use crate::value_map::ValueMap;
use crate::writers::{
    apply_alignment, format_binary, format_character, format_decimal, format_exponent,
    format_fixed, format_general, format_hex, format_octal, format_percentage, format_string,
    sp_aligned, sp_fmt_character, sp_fmt_decimal, sp_fmt_exponent, sp_fmt_fixed, sp_fmt_general,
    sp_fmt_percentage, sp_fmt_radix, sp_fmt_string,
};

verus! {

/// The rendering type used for a value when the spec names none:
/// strings and characters render as strings, integers and booleans as
/// decimals, floats in general notation.
pub open spec fn sp_default_type(v: ValueV) -> TypeSpec {
    match v {
        ValueV::Str(_) => TypeSpec::String,
        ValueV::Char(_) => TypeSpec::String,
        ValueV::Int(_) => TypeSpec::Decimal,
        ValueV::UInt(_) => TypeSpec::Decimal,
        ValueV::Bool(_) => TypeSpec::Decimal,
        ValueV::Float(_) => TypeSpec::GeneralLower,
    }
}

/// One value rendered under one spec: the type-specific writer's text,
/// brought to width under the alignment rules; `None` on a value/spec
/// mismatch.
pub open spec fn sp_format_value(v: ValueV, fs: FormatSpec) -> Option<Seq<char>> {
    let t = match fs.type_spec {
        Some(t) => t,
        None => sp_default_type(v),
    };
    let body = match t {
        TypeSpec::String => Some(sp_fmt_string(v, fs)),
        TypeSpec::Decimal => sp_fmt_decimal(v, fs),
        TypeSpec::Number => sp_fmt_decimal(v, fs),
        TypeSpec::Binary => sp_fmt_radix(v, fs, 2, false, 'b'),
        TypeSpec::Octal => sp_fmt_radix(v, fs, 8, false, 'o'),
        TypeSpec::HexLower => sp_fmt_radix(v, fs, 16, false, 'x'),
        TypeSpec::HexUpper => sp_fmt_radix(v, fs, 16, true, 'X'),
        TypeSpec::FixedLower => sp_fmt_fixed(v, fs),
        TypeSpec::FixedUpper => sp_fmt_fixed(v, fs),
        TypeSpec::ExponentLower => sp_fmt_exponent(v, fs, false),
        TypeSpec::ExponentUpper => sp_fmt_exponent(v, fs, true),
        TypeSpec::GeneralLower => sp_fmt_general(v, fs),
        TypeSpec::GeneralUpper => sp_fmt_general(v, fs),
        TypeSpec::Percentage => sp_fmt_percentage(v, fs),
        TypeSpec::Character => sp_fmt_character(v),
    };
    match body {
        Some(b) => Some(sp_aligned(b, fs)),
        None => None,
    }
}

/// Render one value under one spec: resolve the type, run the writer,
/// then align.
pub fn format_value(value: &Value, spec: &FormatSpec) -> (r: Result<String, Error>)
    ensures
        (match sp_format_value(value@, *spec) {
            Some(t) => r is Ok && r->Ok_0@ == t,
            None => r is Err && r->Err_0 is ConversionError,
        }),
{
    let t = match spec.type_spec {
        Some(t) => t,
        None => match value {
            Value::Str(_) => TypeSpec::String,
            Value::Char(_) => TypeSpec::String,
            Value::Int(_) => TypeSpec::Decimal,
            Value::UInt(_) => TypeSpec::Decimal,
            Value::Bool(_) => TypeSpec::Decimal,
            Value::Float(_) => TypeSpec::GeneralLower,
        },
    };
    let body = match t {
        TypeSpec::String => format_string(value, spec),
        TypeSpec::Decimal => format_decimal(value, spec),
        TypeSpec::Number => format_decimal(value, spec),
        TypeSpec::Binary => format_binary(value, spec),
        TypeSpec::Octal => format_octal(value, spec),
        TypeSpec::HexLower => format_hex(value, spec, false),
        TypeSpec::HexUpper => format_hex(value, spec, true),
        TypeSpec::FixedLower => format_fixed(value, spec),
        TypeSpec::FixedUpper => format_fixed(value, spec),
        TypeSpec::ExponentLower => format_exponent(value, spec),
        TypeSpec::ExponentUpper => format_exponent(value, spec),
        TypeSpec::GeneralLower => format_general(value, spec),
        TypeSpec::GeneralUpper => format_general(value, spec),
        TypeSpec::Percentage => format_percentage(value, spec),
        TypeSpec::Character => format_character(value),
    };
    match body {
        Ok(b) => Ok(apply_alignment(b.as_str(), spec)),
        Err(e) => Err(e),
    }
}

/// Why a formatting run fails.
pub enum FmtIssue {
    /// A named field is missing from the supplied values.
    Missing(Seq<char>),
    /// A positional field's slot is missing from the supplied values.
    MissingPos(int),
    /// A value does not fit its field's spec.
    Conv,
    /// The template holds a field this entry point cannot serve.
    Unsupported,
}

/// Which error value corresponds to each formatting issue: a missing
/// named field carries the name, a missing positional slot the text
/// `position` and its decimal index.
pub open spec fn sp_fmt_issue_matches(issue: FmtIssue, e: Error) -> bool {
    match issue {
        FmtIssue::Missing(n) => e matches Error::MissingField(s) && s@ == n,
        FmtIssue::MissingPos(i) => e matches Error::MissingField(s) && s@ == ("position ")@
            + crate::pattern::sp_dec_chars(i as nat),
        FmtIssue::Conv => e is ConversionError,
        FmtIssue::Unsupported => e is InvalidFormatSpec,
    }
}

/// Map-driven formatting of a field list: prefixes verbatim, each named
/// field's value rendered under its spec; the first missing name, value
/// mismatch, or positional field fails, left to right.
pub open spec fn sp_format_map_fields(fs: Seq<FieldV>, m: Map<Seq<char>, ValueV>) -> Result<
    Seq<char>,
    FmtIssue,
>
    decreases fs.len(),
{
    if fs.len() == 0 {
        Ok(Seq::<char>::empty())
    } else {
        let f = fs[0];
        let cur: Result<Seq<char>, FmtIssue> = if f.name is None && f.index is None {
            Ok(f.prefix)
        } else if f.name is Some {
            if m.contains_key(f.name->0) {
                match sp_format_value(m[f.name->0], f.spec) {
                    Some(t) => Ok(f.prefix + t),
                    None => Err(FmtIssue::Conv),
                }
            } else {
                Err(FmtIssue::Missing(f.name->0))
            }
        } else {
            Err(FmtIssue::Unsupported)
        };
        match cur {
            Err(e) => Err(e),
            Ok(txt) => match sp_format_map_fields(fs.drop_first(), m) {
                Err(e) => Err(e),
                Ok(rest) => Ok(txt + rest),
            },
        }
    }
}

/// Position-driven formatting of a field list: prefixes verbatim, each
/// positional field's value rendered under its spec; a slot past the
/// end, a value mismatch, or a named field fails, left to right.
pub open spec fn sp_format_pos_fields(fs: Seq<FieldV>, vs: Seq<ValueV>) -> Result<
    Seq<char>,
    FmtIssue,
>
    decreases fs.len(),
{
    if fs.len() == 0 {
        Ok(Seq::<char>::empty())
    } else {
        let f = fs[0];
        let cur: Result<Seq<char>, FmtIssue> = if f.name is None && f.index is None {
            Ok(f.prefix)
        } else if f.index is Some {
            if 0 <= f.index->0 < vs.len() {
                match sp_format_value(vs[f.index->0], f.spec) {
                    Some(t) => Ok(f.prefix + t),
                    None => Err(FmtIssue::Conv),
                }
            } else {
                Err(FmtIssue::MissingPos(f.index->0))
            }
        } else {
            Err(FmtIssue::Unsupported)
        };
        match cur {
            Err(e) => Err(e),
            Ok(txt) => match sp_format_pos_fields(fs.drop_first(), vs) {
                Err(e) => Err(e),
                Ok(rest) => Ok(txt + rest),
            },
        }
    }
}

/// The views of a value slice.
pub open spec fn vals_view(vs: Seq<Value>) -> Seq<ValueV> {
    vs.map_values(|v: Value| v@)
}

/// A formatter compiled from a template; its view is the field list.
#[derive(Debug)]
pub struct Formatter {
    pattern: String,
    fields: Vec<Field>,
}

impl View for Formatter {
    type V = Seq<FieldV>;

    closed spec fn view(&self) -> Seq<FieldV> {
        fields_view(self.fields@)
    }
}

impl Clone for Formatter {
    /// A copy compiled from the same template.
    fn clone(&self) -> (r: Self)
        ensures
            r@ == self@,
    {
        let mut fields: Vec<Field> = Vec::new();
        let mut i: usize = 0;
        while i < self.fields.len()
            invariant
                i <= self.fields@.len(),
                fields@.len() == i,
                forall|t: int| 0 <= t < i ==> fields@[t]@ == self.fields@[t]@,
            decreases self.fields@.len() - i,
        {
            let f = self.fields[i].clone();
            fields.push(f);
            i = i + 1;
        }
        let r = Formatter { pattern: self.pattern.clone(), fields };
        proof {
            assert(fields_view(r.fields@) =~= fields_view(self.fields@));
        }
        r
    }
}

impl Formatter {
    /// Compile a format pattern: named fields `{name}`, positional
    /// fields `{}` or `{0}`, literal braces `{{` and `}}`, each field
    /// with an optional `:spec`.
    pub fn new(pattern: &str) -> (r: Result<Self, Error>)
        ensures
            (match sp_scan_template(pattern@) {
                Ok(fv) => r is Ok && r->Ok_0@ == fv,
                Err(issue) => r is Err && sp_tpl_issue_matches(issue, r->Err_0),
            }),
    {
        let fields = match parse_format_string(pattern) {
            Ok(fs) => fs,
            Err(e) => {
                return Err(e);
            },
        };
        Ok(Formatter { pattern: String::from_str(pattern), fields })
    }

    /// Format named values from a map: every named field must be bound
    /// and fit its spec; positional fields are not supported here. The
    /// first failure, left to right, is returned.
    #[verifier::loop_isolation(false)]
    pub fn format_map(&self, values: &ValueMap) -> (r: Result<String, Error>)
        ensures
            (match sp_format_map_fields(self@, values@) {
                Ok(t) => r is Ok && r->Ok_0@ == t,
                Err(issue) => r is Err && sp_fmt_issue_matches(issue, r->Err_0),
            }),
    {
        let mut out: Vec<char> = Vec::new();
        let mut i: usize = 0;
        proof {
            assert(self@.skip(0) =~= self@);
            if let Ok(rest) = sp_format_map_fields(self@, values@) {
                assert(out@ + rest =~= rest);
            }
        }
        while i < self.fields.len()
            invariant
                i <= self.fields@.len(),
                self@.len() == self.fields@.len(),
                (match sp_format_map_fields(self@.skip(i as int), values@) {
                    Ok(rest) => sp_format_map_fields(self@, values@) == Ok::<Seq<char>, FmtIssue>(
                        out@ + rest,
                    ),
                    Err(e) => sp_format_map_fields(self@, values@) == Err::<Seq<char>, FmtIssue>(
                        e,
                    ),
                }),
            decreases self.fields@.len() - i,
        {
            let ghost pre = self@.skip(i as int);
            proof {
                assert(pre[0] == self@[i as int]);
                assert(pre.drop_first() =~= self@.skip(i as int + 1));
            }
            let field = &self.fields[i];
            let ghost out0 = out@;
            let ghost mut chunk = pre[0].prefix;
            let pcs = text::chars_of(field.prefix.as_str());
            text::push_all_val(&mut out, &pcs);
            match &field.name {
                Some(name) => {
                    let value = match values.get(name.as_str()) {
                        Some(v) => v,
                        None => {
                            return Err(Error::MissingField(name.clone()));
                        },
                    };
                    let rendered = match format_value(value, &field.spec) {
                        Ok(t) => t,
                        Err(e) => {
                            return Err(e);
                        },
                    };
                    let rcs = text::chars_of(rendered.as_str());
                    text::push_all_val(&mut out, &rcs);
                    proof {
                        chunk = pre[0].prefix + rendered@;
                    }
                },
                None => {
                    if field.index.is_some() {
                        return Err(
                            Error::InvalidFormatSpec(
                                String::from_str(
                                    "positional fields not supported with format_map",
                                ),
                            ),
                        );
                    }
                    // the trailing field: only its prefix is emitted
                },
            }
            i = i + 1;
            proof {
                assert(out@ =~= out0 + chunk);
                if let Ok(rest) = sp_format_map_fields(self@.skip(i as int), values@) {
                    assert(out0 + (chunk + rest) =~= out@ + rest);
                }
            }
        }
        proof {
            assert(self@.skip(self@.len() as int) =~= Seq::<FieldV>::empty());
            if let Ok(t) = sp_format_map_fields(self@, values@) {
                assert(out@ + Seq::<char>::empty() =~= out@);
            }
        }
        Ok(text::string_of(&out))
    }

    /// Format positional values from a slice: every positional field's
    /// slot must exist and fit its spec; named fields are not supported
    /// here. The first failure, left to right, is returned.
    #[verifier::loop_isolation(false)]
    pub fn format_positional(&self, values: &[Value]) -> (r: Result<String, Error>)
        ensures
            (match sp_format_pos_fields(self@, vals_view(values@)) {
                Ok(t) => r is Ok && r->Ok_0@ == t,
                Err(issue) => r is Err && sp_fmt_issue_matches(issue, r->Err_0),
            }),
    {
        let ghost vs = vals_view(values@);
        let mut out: Vec<char> = Vec::new();
        let mut i: usize = 0;
        proof {
            assert(self@.skip(0) =~= self@);
            if let Ok(rest) = sp_format_pos_fields(self@, vs) {
                assert(out@ + rest =~= rest);
            }
        }
        while i < self.fields.len()
            invariant
                i <= self.fields@.len(),
                self@.len() == self.fields@.len(),
                (match sp_format_pos_fields(self@.skip(i as int), vs) {
                    Ok(rest) => sp_format_pos_fields(self@, vs) == Ok::<Seq<char>, FmtIssue>(
                        out@ + rest,
                    ),
                    Err(e) => sp_format_pos_fields(self@, vs) == Err::<Seq<char>, FmtIssue>(e),
                }),
            decreases self.fields@.len() - i,
        {
            let ghost pre = self@.skip(i as int);
            proof {
                assert(pre[0] == self@[i as int]);
                assert(pre.drop_first() =~= self@.skip(i as int + 1));
            }
            let field = &self.fields[i];
            let ghost out0 = out@;
            let ghost mut chunk = pre[0].prefix;
            let pcs = text::chars_of(field.prefix.as_str());
            text::push_all_val(&mut out, &pcs);
            match field.index {
                Some(idx) => {
                    if idx >= values.len() {
                        let mut msg = text::chars_of("position ");
                        let ds = crate::digits::udigits(idx as u64, 10);
                        proof {
                            crate::digits::lemma_udigits_in_range(idx as nat, 10);
                        }
                        crate::digits::push_digit_chars(&ds, false, &mut msg);
                        proof {
                            assert(msg@ == ("position ")@ + crate::pattern::sp_dec_chars(
                                idx as nat,
                            ));
                        }
                        return Err(Error::MissingField(text::string_of(&msg)));
                    }
                    let value = &values[idx];
                    let rendered = match format_value(value, &field.spec) {
                        Ok(t) => t,
                        Err(e) => {
                            return Err(e);
                        },
                    };
                    let rcs = text::chars_of(rendered.as_str());
                    text::push_all_val(&mut out, &rcs);
                    proof {
                        chunk = pre[0].prefix + rendered@;
                    }
                },
                None => {
                    if field.name.is_some() {
                        return Err(
                            Error::InvalidFormatSpec(
                                String::from_str(
                                    "named fields not supported with format_positional",
                                ),
                            ),
                        );
                    }
                    // the trailing field: only its prefix is emitted
                },
            }
            i = i + 1;
            proof {
                assert(out@ =~= out0 + chunk);
                if let Ok(rest) = sp_format_pos_fields(self@.skip(i as int), vs) {
                    assert(out0 + (chunk + rest) =~= out@ + rest);
                }
            }
        }
        proof {
            assert(self@.skip(self@.len() as int) =~= Seq::<FieldV>::empty());
            if let Ok(t) = sp_format_pos_fields(self@, vs) {
                assert(out@ + Seq::<char>::empty() =~= out@);
            }
        }
        Ok(text::string_of(&out))
    }

    /// The names of the named fields, in template order.
    #[verifier::loop_isolation(false)]
    pub fn field_names(&self) -> (r: Vec<String>)
        ensures
            r@.map_values(|s: String| s@) == sp_named_fields(self@),
    {
        let mut names: Vec<String> = Vec::new();
        let mut i: usize = 0;
        proof {
            assert(self@.skip(0) =~= self@);
            assert(names@.map_values(|s: String| s@) + sp_named_fields(self@) =~= sp_named_fields(
                self@,
            ));
        }
        while i < self.fields.len()
            invariant
                i <= self.fields@.len(),
                self@.len() == self.fields@.len(),
                names@.map_values(|s: String| s@) + sp_named_fields(self@.skip(i as int))
                    == sp_named_fields(self@),
            decreases self.fields@.len() - i,
        {
            let ghost done = names@;
            proof {
                assert(self@.skip(i as int)[0] == self@[i as int]);
                assert(self@.skip(i as int).drop_first() =~= self@.skip(i as int + 1));
            }
            match &self.fields[i].name {
                Some(n) => {
                    names.push(n.clone());
                    proof {
                        assert(names@.map_values(|s: String| s@) =~= done.map_values(
                            |s: String| s@,
                        ) + seq![self@[i as int].name->0]);
                    }
                },
                None => {},
            }
            i = i + 1;
            proof {
                assert(names@.map_values(|s: String| s@) + sp_named_fields(
                    self@.skip(i as int),
                ) =~= sp_named_fields(self@));
            }
        }
        proof {
            assert(self@.skip(self@.len() as int) =~= Seq::<FieldV>::empty());
            assert(names@.map_values(|s: String| s@) + Seq::<Seq<char>>::empty() =~= names@.map_values(
                |s: String| s@,
            ));
        }
        names
    }
}

/// The names of a field list's named fields, in order.
pub open spec fn sp_named_fields(fs: Seq<FieldV>) -> Seq<Seq<char>>
    decreases fs.len(),
{
    if fs.len() == 0 {
        Seq::<Seq<char>>::empty()
    } else {
        let rest = sp_named_fields(fs.drop_first());
        match fs[0].name {
            Some(n) => seq![n] + rest,
            None => rest,
        }
    }
}

} // verus!
