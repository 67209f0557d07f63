//! Compiling a template into a regex pattern: literal text escaped, one
//! named capture group per field, each group's inner pattern chosen from
//! the field's resolved type.

use vstd::prelude::*;
use vstd::string::StringExecFns;

use crate::digits::{
    push_digit_chars, sp_digit_chars, sp_udigits, udigits, lemma_udigits_in_range,
};
use crate::errors::Error;
use crate::fmt_spec::{FormatSpec, TypeSpec};
use crate::template::{
    Field, FieldV, fields_view, parse_format_string, sp_scan_template, sp_tpl_issue_matches,
};
use crate::text;

verus! {

/// Whether `c` must be escaped inside literal regex text.
pub open spec fn is_rx_special(c: char) -> bool {
    c == '.' || c == '*' || c == '+' || c == '?' || c == '|' || c == '(' || c == ')' || c == '['
        || c == ']' || c == '^' || c == '$' || c == '\\' || c == '{' || c == '}'
}

/// Literal text with every special character preceded by a backslash.
pub open spec fn sp_rx_escape(t: Seq<char>) -> Seq<char>
    decreases t.len(),
{
    if t.len() == 0 {
        Seq::<char>::empty()
    } else {
        sp_rx_escape(t.drop_last()) + (if is_rx_special(t.last()) {
            seq!['\\', t.last()]
        } else {
            seq![t.last()]
        })
    }
}

/// The decimal digit characters of a non-negative number.
pub open spec fn sp_dec_chars(n: nat) -> Seq<char> {
    sp_digit_chars(sp_udigits(n, 10), false)
}

/// The capture group name of a field: its raw name as written, or an
/// underscore and the auto index for unnamed fields.
pub open spec fn sp_group_name(f: FieldV) -> Seq<char> {
    if f.raw.len() > 0 {
        f.raw
    } else {
        seq!['_'] + sp_dec_chars(f.index->0 as nat)
    }
}

/// The inner regex pattern of a field: the widest textually valid input
/// for its resolved type, not only what the formatter would produce.
pub open spec fn sp_type_pattern(fs: FormatSpec) -> Seq<char> {
    let t = match fs.type_spec {
        Some(t) => t,
        None => TypeSpec::String,
    };
    match t {
        TypeSpec::String => if fs.width is Some {
            if fs.precision is Some {
                (".{")@ + sp_dec_chars(fs.width->0 as nat) + (",")@ + sp_dec_chars(
                    fs.precision->0 as nat,
                ) + ("}")@
            } else {
                (".{")@ + sp_dec_chars(fs.width->0 as nat) + (",}")@
            }
        } else if fs.precision is Some {
            (".{1,")@ + sp_dec_chars(fs.precision->0 as nat) + ("}")@
        } else {
            (".+?")@
        },
        TypeSpec::Decimal => ("[-+]?\\d+")@,
        TypeSpec::Number => ("[-+]?\\d+")@,
        TypeSpec::Binary => ("(?:0[bB])?[01]+")@,
        TypeSpec::Octal => ("(?:0[oO])?[0-7]+")@,
        TypeSpec::HexLower => ("(?:0[xX])?[0-9a-fA-F]+")@,
        TypeSpec::HexUpper => ("(?:0[xX])?[0-9a-fA-F]+")@,
        TypeSpec::FixedLower => ("[-+]?(?:\\d+\\.?\\d*|\\.\\d+)(?:[eE][-+]?\\d+)?")@,
        TypeSpec::FixedUpper => ("[-+]?(?:\\d+\\.?\\d*|\\.\\d+)(?:[eE][-+]?\\d+)?")@,
        TypeSpec::ExponentLower => ("[-+]?(?:\\d+\\.?\\d*|\\.\\d+)(?:[eE][-+]?\\d+)?")@,
        TypeSpec::ExponentUpper => ("[-+]?(?:\\d+\\.?\\d*|\\.\\d+)(?:[eE][-+]?\\d+)?")@,
        TypeSpec::GeneralLower => ("[-+]?(?:\\d+\\.?\\d*|\\.\\d+)(?:[eE][-+]?\\d+)?")@,
        TypeSpec::GeneralUpper => ("[-+]?(?:\\d+\\.?\\d*|\\.\\d+)(?:[eE][-+]?\\d+)?")@,
        TypeSpec::Percentage => ("[-+]?(?:\\d+\\.?\\d*|\\.\\d+)%")@,
        TypeSpec::Character => (".")@,
    }
}

/// Information about one capture group.
pub struct CaptureV {
    /// The group's name in the pattern.
    pub name: Seq<char>,
    /// The format spec that chose the group's pattern.
    pub spec: FormatSpec,
    /// The 1-based position of the group in the pattern.
    pub group_index: int,
}

/// Information about a capture group in a compiled pattern.
#[derive(Debug)]
pub struct CaptureInfo {
    /// The group's name in the pattern.
    pub name: String,
    /// The format spec that chose the group's pattern.
    pub spec: FormatSpec,
    /// The 1-based position of the group in the pattern.
    pub group_index: usize,
}

impl View for CaptureInfo {
    type V = CaptureV;

    open spec fn view(&self) -> CaptureV {
        CaptureV { name: self.name@, spec: self.spec, group_index: self.group_index as int }
    }
}

impl Clone for CaptureInfo {
    /// An exact copy.
    fn clone(&self) -> (r: Self)
        ensures
            r@ == self@,
    {
        CaptureInfo { name: self.name.clone(), spec: self.spec, group_index: self.group_index }
    }
}

/// The views of a capture list.
pub open spec fn caps_view(v: Seq<CaptureInfo>) -> Seq<CaptureV> {
    v.map_values(|c: CaptureInfo| c@)
}

/// The regex pattern and capture list of a field list, group indices
/// starting at `gi`: each field's escaped prefix, then a named group
/// for every non-trailing field.
pub open spec fn sp_build_fields(fs: Seq<FieldV>, gi: int) -> (Seq<char>, Seq<CaptureV>)
    decreases fs.len(),
{
    if fs.len() == 0 {
        (Seq::<char>::empty(), Seq::<CaptureV>::empty())
    } else {
        let f = fs[0];
        let ep = sp_rx_escape(f.prefix);
        if f.name is None && f.index is None {
            let rr = sp_build_fields(fs.drop_first(), gi);
            (ep + rr.0, rr.1)
        } else {
            let chunk = ("(?P<")@ + sp_group_name(f) + (">")@ + sp_type_pattern(f.spec) + (")")@;
            let rr = sp_build_fields(fs.drop_first(), gi + 1);
            (
                ep + chunk + rr.0,
                seq![CaptureV { name: sp_group_name(f), spec: f.spec, group_index: gi }] + rr.1,
            )
        }
    }
}

/// Escape literal text for embedding in a regex pattern.
#[verifier::loop_isolation(false)]
fn rx_escape(t: &Vec<char>) -> (r: Vec<char>)
    ensures
        r@ == sp_rx_escape(t@),
{
    let mut out: Vec<char> = Vec::new();
    let mut i: usize = 0;
    proof {
        assert(t@.take(0) =~= Seq::<char>::empty());
    }
    while i < t.len()
        invariant
            i <= t@.len(),
            out@ == sp_rx_escape(t@.take(i as int)),
        decreases t@.len() - i,
    {
        let c = t[i];
        if c == '.' || c == '*' || c == '+' || c == '?' || c == '|' || c == '(' || c == ')' || c
            == '[' || c == ']' || c == '^' || c == '$' || c == '\\' || c == '{' || c == '}' {
            out.push('\\');
            out.push(c);
        } else {
            out.push(c);
        }
        i = i + 1;
        proof {
            assert(t@.take(i as int).drop_last() =~= t@.take(i as int - 1));
            assert(out@ =~= sp_rx_escape(t@.take(i as int)));
        }
    }
    proof {
        assert(t@.take(t@.len() as int) =~= t@);
    }
    out
}

/// The decimal digit characters of a number, appended to `out`.
fn push_dec_chars(n: usize, out: &mut Vec<char>)
    ensures
        final(out)@ == old(out)@ + sp_dec_chars(n as nat),
{
    let ds = udigits(n as u64, 10);
    proof {
        lemma_udigits_in_range(n as nat, 10);
    }
    push_digit_chars(&ds, false, out);
}

/// The inner regex pattern of a field's resolved type.
fn type_pattern(spec: &FormatSpec) -> (r: Vec<char>)
    ensures
        r@ == sp_type_pattern(*spec),
{
    let t = match spec.type_spec {
        Some(t) => t,
        None => TypeSpec::String,
    };
    match t {
        TypeSpec::String => {
            match (spec.width, spec.precision) {
                (Some(w), Some(p)) => {
                    let mut out = text::chars_of(".{");
                    push_dec_chars(w, &mut out);
                    out.push(',');
                    proof {
                        reveal_strlit(",");
                        assert(out@ =~= (".{")@ + sp_dec_chars(w as nat) + (",")@);
                    }
                    push_dec_chars(p, &mut out);
                    let tail = text::chars_of("}");
                    text::push_all_val(&mut out, &tail);
                    out
                },
                (Some(w), None) => {
                    let mut out = text::chars_of(".{");
                    push_dec_chars(w, &mut out);
                    let tail = text::chars_of(",}");
                    text::push_all_val(&mut out, &tail);
                    out
                },
                (None, Some(p)) => {
                    let mut out = text::chars_of(".{1,");
                    push_dec_chars(p, &mut out);
                    let tail = text::chars_of("}");
                    text::push_all_val(&mut out, &tail);
                    out
                },
                (None, None) => text::chars_of(".+?"),
            }
        },
        TypeSpec::Decimal => text::chars_of("[-+]?\\d+"),
        TypeSpec::Number => text::chars_of("[-+]?\\d+"),
        TypeSpec::Binary => text::chars_of("(?:0[bB])?[01]+"),
        TypeSpec::Octal => text::chars_of("(?:0[oO])?[0-7]+"),
        TypeSpec::HexLower => text::chars_of("(?:0[xX])?[0-9a-fA-F]+"),
        TypeSpec::HexUpper => text::chars_of("(?:0[xX])?[0-9a-fA-F]+"),
        TypeSpec::FixedLower => text::chars_of("[-+]?(?:\\d+\\.?\\d*|\\.\\d+)(?:[eE][-+]?\\d+)?"),
        TypeSpec::FixedUpper => text::chars_of("[-+]?(?:\\d+\\.?\\d*|\\.\\d+)(?:[eE][-+]?\\d+)?"),
        TypeSpec::ExponentLower => text::chars_of(
            "[-+]?(?:\\d+\\.?\\d*|\\.\\d+)(?:[eE][-+]?\\d+)?",
        ),
        TypeSpec::ExponentUpper => text::chars_of(
            "[-+]?(?:\\d+\\.?\\d*|\\.\\d+)(?:[eE][-+]?\\d+)?",
        ),
        TypeSpec::GeneralLower => text::chars_of("[-+]?(?:\\d+\\.?\\d*|\\.\\d+)(?:[eE][-+]?\\d+)?"),
        TypeSpec::GeneralUpper => text::chars_of("[-+]?(?:\\d+\\.?\\d*|\\.\\d+)(?:[eE][-+]?\\d+)?"),
        TypeSpec::Percentage => text::chars_of("[-+]?(?:\\d+\\.?\\d*|\\.\\d+)%"),
        TypeSpec::Character => text::chars_of("."),
    }
}

/// The capture group name of a field: the raw name as written, or an
/// underscore and the auto index.
fn group_name(field: &Field) -> (r: Vec<char>)
    requires
        field@.name is Some || field@.index is Some,
        field@.raw.len() == 0 ==> field@.index is Some,
    ensures
        r@ == sp_group_name(field@),
{
    let raw = text::chars_of(field.raw.as_str());
    if raw.len() > 0 {
        raw
    } else {
        let mut out: Vec<char> = Vec::new();
        out.push('_');
        let idx = match field.index {
            Some(i) => i,
            None => 0,
        };
        proof {
            assert(out@ =~= seq!['_']);
        }
        push_dec_chars(idx, &mut out);
        out
    }
}

/// Build a regex pattern from a format string: literal text escaped,
/// one named capture group per field, patterns chosen from each field's
/// resolved type.
#[verifier::loop_isolation(false)]
#[verifier::rlimit(60)]
pub fn build_regex_pattern(format_str: &str) -> (r: Result<(String, Vec<CaptureInfo>), Error>)
    ensures
        (match sp_scan_template(format_str@) {
            Ok(fv) => r is Ok && r->Ok_0.0@ == sp_build_fields(fv, 1).0 && caps_view(r->Ok_0.1@)
                == sp_build_fields(fv, 1).1,
            Err(issue) => r is Err && sp_tpl_issue_matches(issue, r->Err_0),
        }),
{
    let fields = match parse_format_string(format_str) {
        Ok(fs) => fs,
        Err(e) => {
            return Err(e);
        },
    };
    let ghost fv = fields_view(fields@);
    proof {
        crate::template::lemma_scan_fields_shape(format_str@, 0, 0);
    }
    let mut pattern: Vec<char> = Vec::new();
    let mut captures: Vec<CaptureInfo> = Vec::new();
    let mut i: usize = 0;
    proof {
        assert(fv.skip(0) =~= fv);
        assert(caps_view(captures@) =~= Seq::<CaptureV>::empty());
        let rr = sp_build_fields(fv, 1);
        assert(pattern@ + rr.0 =~= rr.0);
        assert(caps_view(captures@) + rr.1 =~= rr.1);
    }
    while i < fields.len()
        invariant
            i <= fields@.len(),
            fv == fields_view(fields@),
            fv.len() == fields@.len(),
            captures@.len() == (if (i as int) < fv.len() {
                i as int
            } else {
                fv.len() - 1
            }),
            (forall|t: int|
                0 <= t < fv.len() - 1 ==> (#[trigger] fv[t].name is Some || fv[t].index
                    is Some)),
            fv.len() >= 1 && fv.last().name is None && fv.last().index is None,
            ({
                let rr = sp_build_fields(fv.skip(i as int), captures@.len() as int + 1);
                sp_build_fields(fv, 1) == (pattern@ + rr.0, caps_view(captures@) + rr.1)
            }),
        decreases fields@.len() - i,
    {
        let ghost pre = fv.skip(i as int);
        proof {
            assert(pre[0] == fv[i as int]);
            assert(pre.drop_first() =~= fv.skip(i as int + 1));
        }
        let ghost pat0 = pattern@;
        let ghost caps0 = captures@;
        let field = &fields[i];
        let pcs = text::chars_of(field.prefix.as_str());
        let ep = rx_escape(&pcs);
        text::push_all_val(&mut pattern, &ep);
        if field.name.is_some() || field.index.is_some() {
            let head = text::chars_of("(?P<");
            text::push_all_val(&mut pattern, &head);
            let gname = group_name(field);
            text::push_all_val(&mut pattern, &gname);
            pattern.push('>');
            let tp = type_pattern(&field.spec);
            text::push_all_val(&mut pattern, &tp);
            pattern.push(')');
            let gi = captures.len() + 1;
            captures.push(
                CaptureInfo {
                    name: text::string_of(&gname),
                    spec: field.spec,
                    group_index: gi,
                },
            );
            proof {
                reveal_strlit(">");
                reveal_strlit(")");
                assert(pattern@ =~= pat0 + (sp_rx_escape(pre[0].prefix) + (("(?P<")@
                    + sp_group_name(pre[0]) + (">")@ + sp_type_pattern(pre[0].spec) + (")")@)));
                assert(caps_view(captures@) =~= caps_view(caps0) + seq![
                    CaptureV {
                        name: sp_group_name(pre[0]),
                        spec: pre[0].spec,
                        group_index: caps0.len() as int + 1,
                    },
                ]);
            }
        } else {
            proof {
                assert(pattern@ =~= pat0 + sp_rx_escape(pre[0].prefix));
                // only the last field is trailing
                assert(i as int == fv.len() - 1);
            }
        }
        i = i + 1;
        proof {
            let rr = sp_build_fields(fv.skip(i as int), captures@.len() as int + 1);
            assert(pattern@ + rr.0 =~= pat0 + (sp_build_fields(
                fv.skip(i as int - 1),
                caps0.len() as int + 1,
            ).0));
            assert(caps_view(captures@) + rr.1 =~= caps_view(caps0) + sp_build_fields(
                fv.skip(i as int - 1),
                caps0.len() as int + 1,
            ).1);
        }
    }
    proof {
        assert(fv.skip(fv.len() as int) =~= Seq::<FieldV>::empty());
        let rr = sp_build_fields(fv.skip(fv.len() as int), captures@.len() as int + 1);
        assert(pattern@ + rr.0 =~= pattern@);
        assert(caps_view(captures@) + rr.1 =~= caps_view(captures@));
    }
    Ok((text::string_of(&pattern), captures))
}

} // verus!
