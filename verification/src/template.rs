//! Template scanning: splitting a placeholder-bearing pattern into
//! literal text and fields.
//!
//! `{{` and `}}` denote literal braces, `{name[:spec]}` a field; a stray
//! `}` or an unterminated `{` is an error. An empty field name takes the
//! next auto index; a numeric name is an explicit position; any other
//! name must be alphanumeric-or-underscore.

use vstd::prelude::*;
use vstd::string::StringExecFns;

use crate::errors::Error;
use crate::fmt_spec::{
    FormatSpec, SpecIssue, default_spec, sp_digit_run_end, sp_digits_val, sp_parse_spec,
    spec_issue_matches,
};
use crate::text;

verus! {

/// One element of a compiled template: the literal text before the
/// placeholder, the raw field name as written, its resolved name or
/// position, and its format spec. The last element always carries only
/// trailing literal text.
pub struct FieldV {
    /// Literal text before the placeholder.
    pub prefix: Seq<char>,
    /// The field name exactly as written (empty for auto fields).
    pub raw: Seq<char>,
    /// The identifier, for named fields.
    pub name: Option<Seq<char>>,
    /// The position, for positional fields (explicit or auto-assigned).
    pub index: Option<int>,
    /// The format specification after `:`.
    pub spec: FormatSpec,
}

/// Why a template fails to compile.
pub enum TplIssue {
    /// A `}` without a matching `{`.
    UnmatchedClose,
    /// A `{` without a matching `}`.
    Unclosed,
    /// A field name that is neither empty, numeric, nor an identifier.
    BadFieldName(Seq<char>),
    /// The format spec after `:` fails to parse.
    Spec(SpecIssue),
}

/// Whether `c` is alphanumeric in the Unicode sense. The result depends
/// on the character alone.
pub uninterp spec fn is_unicode_alnum(c: char) -> bool;

/// Relies on `char::is_alphanumeric`: true exactly for characters in the
/// Unicode Alphabetic property or one of the Number categories, a
/// function of the character alone. Among ASCII characters, exactly the
/// letters and digits are alphanumeric.
#[verifier::external_body]
fn is_alnum_char(c: char) -> (r: bool)
    ensures
        r == is_unicode_alnum(c),
        (97 <= c as u32 <= 122 || 65 <= c as u32 <= 90 || 48 <= c as u32 <= 57) ==> r,
        ((c as u32) < 128 && !(97 <= c as u32 <= 122 || 65 <= c as u32 <= 90 || 48 <= c as u32
            <= 57)) ==> !r,
{
    c.is_alphanumeric()
}

/// Whether `c` may stand in a field name: an underscore or an
/// alphanumeric character. Among ASCII characters exactly the letters
/// and digits are alphanumeric; beyond ASCII the Unicode tables decide.
pub open spec fn sp_name_char_ok(c: char) -> bool {
    c == '_' || (if (c as u32) < 128 {
        97 <= c as u32 <= 122 || 65 <= c as u32 <= 90 || 48 <= c as u32 <= 57
    } else {
        is_unicode_alnum(c)
    })
}

/// A valid written field name: every character alphanumeric or an
/// underscore.
pub open spec fn sp_field_name_ok(np: Seq<char>) -> bool {
    forall|i: int| 0 <= i < np.len() ==> sp_name_char_ok(np[i])
}

/// The literal run from `i`, with the text collected so far in `acc`:
/// its end (the input's end or the `{` of a field) and the unescaped
/// text, or a stray-`}` error.
pub open spec fn sp_literal_run_acc(s: Seq<char>, i: int, acc: Seq<char>) -> Result<
    (int, Seq<char>),
    TplIssue,
>
    decreases s.len() - i,
{
    if i >= s.len() {
        Ok((i, acc))
    } else if s[i] == '{' {
        if i + 1 < s.len() && s[i + 1] == '{' {
            sp_literal_run_acc(s, i + 2, acc.push('{'))
        } else {
            Ok((i, acc))
        }
    } else if s[i] == '}' {
        if i + 1 < s.len() && s[i + 1] == '}' {
            sp_literal_run_acc(s, i + 2, acc.push('}'))
        } else {
            Err(TplIssue::UnmatchedClose)
        }
    } else {
        sp_literal_run_acc(s, i + 1, acc.push(s[i]))
    }
}

/// The literal run from `i`: its end and unescaped text, or a stray-`}`
/// error.
pub open spec fn sp_literal_run(s: Seq<char>, i: int) -> Result<(int, Seq<char>), TplIssue> {
    sp_literal_run_acc(s, i, Seq::<char>::empty())
}

/// The end of a literal run lies between its start and the input's end,
/// and at a field-opening `{` unless it is the input's end.
pub proof fn lemma_literal_run_bounds(s: Seq<char>, i: int, acc: Seq<char>)
    requires
        0 <= i <= s.len(),
    ensures
        (match sp_literal_run_acc(s, i, acc) {
            Ok((j, t)) => i <= j <= s.len() && (j < s.len() ==> s[j] == '{'),
            Err(e) => true,
        }),
    decreases s.len() - i,
{
    if i < s.len() {
        if s[i] == '{' {
            if i + 1 < s.len() && s[i + 1] == '{' {
                lemma_literal_run_bounds(s, i + 2, acc.push('{'));
            }
        } else if s[i] == '}' {
            if i + 1 < s.len() && s[i + 1] == '}' {
                lemma_literal_run_bounds(s, i + 2, acc.push('}'));
            }
        } else {
            lemma_literal_run_bounds(s, i + 1, acc.push(s[i]));
        }
    }
}

/// The position of the `}` closing a field whose content starts at `i`,
/// skipping balanced nested braces, or `None`.
pub open spec fn sp_brace_end(s: Seq<char>, i: int, depth: int) -> Option<int>
    decreases s.len() - i,
{
    if i >= s.len() {
        None
    } else if s[i] == '{' {
        sp_brace_end(s, i + 1, depth + 1)
    } else if s[i] == '}' {
        if depth == 0 {
            Some(i)
        } else {
            sp_brace_end(s, i + 1, depth - 1)
        }
    } else {
        sp_brace_end(s, i + 1, depth)
    }
}

/// A found closing brace lies between the start and the input's end.
pub proof fn lemma_brace_end_bounds(s: Seq<char>, i: int, depth: int)
    requires
        0 <= i <= s.len(),
    ensures
        (match sp_brace_end(s, i, depth) {
            Some(k) => i <= k < s.len(),
            None => true,
        }),
    decreases s.len() - i,
{
    if i < s.len() {
        if s[i] == '{' {
            lemma_brace_end_bounds(s, i + 1, depth + 1);
        } else if s[i] == '}' {
            if depth != 0 {
                lemma_brace_end_bounds(s, i + 1, depth - 1);
            }
        } else {
            lemma_brace_end_bounds(s, i + 1, depth);
        }
    }
}

/// The position of the first `:` at or after `i`, or the length.
pub open spec fn sp_colon_pos(cs: Seq<char>, i: int) -> int
    decreases cs.len() - i,
{
    if i < cs.len() && cs[i] != ':' {
        sp_colon_pos(cs, i + 1)
    } else {
        i
    }
}

/// A field's content parsed: the raw name, resolved name or index, the
/// spec, and the auto counter after it. An empty name takes the auto
/// index and advances the counter; a digit run that fits is an explicit
/// position; an identifier is a name.
pub open spec fn sp_parse_field(cs: Seq<char>, auto: int) -> Result<
    (Seq<char>, Option<Seq<char>>, Option<int>, FormatSpec, int),
    TplIssue,
> {
    let cp = sp_colon_pos(cs, 0);
    let np = cs.take(cp);
    let spec_part = if cp < cs.len() {
        cs.skip(cp + 1)
    } else {
        Seq::<char>::empty()
    };
    if np.len() == 0 {
        match sp_parse_spec(spec_part) {
            Err(issue) => Err(TplIssue::Spec(issue)),
            Ok(fs) => Ok((np, None, Some(auto), fs, auto + 1)),
        }
    } else if sp_digit_run_end(np, 0) == np.len() && sp_digits_val(np, 0, np.len() as int)
        <= usize::MAX {
        match sp_parse_spec(spec_part) {
            Err(issue) => Err(TplIssue::Spec(issue)),
            Ok(fs) => Ok((np, None, Some(sp_digits_val(np, 0, np.len() as int) as int), fs, auto)),
        }
    } else if sp_field_name_ok(np) {
        match sp_parse_spec(spec_part) {
            Err(issue) => Err(TplIssue::Spec(issue)),
            Ok(fs) => Ok((np, Some(np), None, fs, auto)),
        }
    } else {
        Err(TplIssue::BadFieldName(np))
    }
}

/// The fields of the template from position `i` on, with the auto
/// counter at `auto`: literal text, then either the input's end (a
/// trailing field) or a placeholder and the rest.
pub open spec fn sp_scan_from(s: Seq<char>, i: int, auto: int) -> Result<Seq<FieldV>, TplIssue>
    decreases s.len() - i,
    when 0 <= i <= s.len()
    via sp_scan_from_dec
{
    match sp_literal_run(s, i) {
        Err(e) => Err(e),
        Ok((j, lit)) => {
            if j >= s.len() {
                Ok(
                    seq![
                        FieldV {
                            prefix: lit,
                            raw: Seq::<char>::empty(),
                            name: None,
                            index: None,
                            spec: default_spec(),
                        },
                    ],
                )
            } else {
                match sp_brace_end(s, j + 1, 0) {
                    None => Err(TplIssue::Unclosed),
                    Some(k) => {
                        match sp_parse_field(s.subrange(j + 1, k), auto) {
                            Err(e) => Err(e),
                            Ok((raw, name, index, fs, auto2)) => {
                                match sp_scan_from(s, k + 1, auto2) {
                                    Err(e) => Err(e),
                                    Ok(rest) => Ok(
                                        seq![FieldV { prefix: lit, raw, name, index, spec: fs }]
                                            + rest,
                                    ),
                                }
                            },
                        }
                    },
                }
            }
        },
    }
}

#[via_fn]
proof fn sp_scan_from_dec(s: Seq<char>, i: int, auto: int) {
    lemma_literal_run_bounds(s, i, Seq::<char>::empty());
    if let Ok((j, lit)) = sp_literal_run(s, i) {
        if j < s.len() {
            lemma_brace_end_bounds(s, j + 1, 0);
        }
    }
}

/// The fields of a whole template.
pub open spec fn sp_scan_template(s: Seq<char>) -> Result<Seq<FieldV>, TplIssue> {
    sp_scan_from(s, 0, 0)
}

/// A parsed field resolves to a name or a position.
proof fn lemma_parse_field_shape(cs: Seq<char>, auto: int)
    ensures
        (match sp_parse_field(cs, auto) {
            Ok(t) => (t.1 is Some || t.2 is Some) && (t.0.len() == 0 ==> t.2 is Some),
            Err(e) => true,
        }),
{
}

/// A scanned template has at least one field; every field but the last
/// is named or positional, and the last is neither.
pub proof fn lemma_scan_fields_shape(s: Seq<char>, i: int, auto: int)
    requires
        0 <= i <= s.len(),
    ensures
        (match sp_scan_from(s, i, auto) {
            Ok(fv) => fv.len() >= 1 && (forall|t: int|
                0 <= t < fv.len() - 1 ==> (#[trigger] fv[t].name is Some || fv[t].index is Some))
                && (forall|t: int|
                0 <= t < fv.len() - 1 ==> ((#[trigger] fv[t].raw).len() == 0 ==> fv[t].index
                    is Some)) && fv.last().name is None && fv.last().index is None,
            Err(e) => true,
        }),
    decreases s.len() - i,
{
    lemma_literal_run_bounds(s, i, Seq::<char>::empty());
    if let Ok((j, lit)) = sp_literal_run(s, i) {
        if j < s.len() {
            lemma_brace_end_bounds(s, j + 1, 0);
            if let Some(k) = sp_brace_end(s, j + 1, 0) {
                lemma_parse_field_shape(s.subrange(j + 1, k), auto);
                if let Ok((raw, name, index, fs, auto2)) = sp_parse_field(
                    s.subrange(j + 1, k),
                    auto,
                ) {
                    lemma_scan_fields_shape(s, k + 1, auto2);
                }
            }
        }
    }
}

/// Which error value corresponds to each template issue.
pub open spec fn sp_tpl_issue_matches(issue: TplIssue, e: Error) -> bool {
    match issue {
        TplIssue::UnmatchedClose => e is InvalidFormatSpec,
        TplIssue::Unclosed => e is InvalidFormatSpec,
        TplIssue::BadFieldName(np) => e matches Error::InvalidFieldName(n) && n@ == np,
        TplIssue::Spec(si) => spec_issue_matches(si, e),
    }
}

/// One element of a compiled template.
#[derive(Debug)]
pub struct Field {
    /// Literal text before the placeholder.
    pub prefix: String,
    /// The field name exactly as written (empty for auto fields).
    pub raw: String,
    /// The identifier, for named fields.
    pub name: Option<String>,
    /// The position, for positional fields.
    pub index: Option<usize>,
    /// The format specification after `:`.
    pub spec: FormatSpec,
}

impl View for Field {
    type V = FieldV;

    open spec fn view(&self) -> FieldV {
        FieldV {
            prefix: self.prefix@,
            raw: self.raw@,
            name: match self.name {
                Some(n) => Some(n@),
                None => None,
            },
            index: match self.index {
                Some(i) => Some(i as int),
                None => None,
            },
            spec: self.spec,
        }
    }
}

impl Clone for Field {
    /// An exact copy.
    fn clone(&self) -> (r: Self)
        ensures
            r@ == self@,
    {
        Field {
            prefix: self.prefix.clone(),
            raw: self.raw.clone(),
            name: match &self.name {
                Some(n) => Some(n.clone()),
                None => None,
            },
            index: self.index,
            spec: self.spec,
        }
    }
}

/// The views of a field vector.
pub open spec fn fields_view(v: Seq<Field>) -> Seq<FieldV> {
    v.map_values(|f: Field| f@)
}

/// Scan the literal run starting at `start`: its end and unescaped
/// text, or a stray `}` as an error.
fn scan_literal(s: &Vec<char>, start: usize) -> (r: Result<(usize, Vec<char>), Error>)
    requires
        start <= s@.len(),
    ensures
        (match sp_literal_run(s@, start as int) {
            Ok((j, t)) => r is Ok && r->Ok_0.0 as int == j && r->Ok_0.1@ == t && start
                <= r->Ok_0.0 <= s@.len(),
            Err(e) => r is Err && r->Err_0 is InvalidFormatSpec && e is UnmatchedClose,
        }),
{
    let mut j = start;
    let mut t: Vec<char> = Vec::new();
    loop
        invariant
            start <= j <= s@.len(),
            sp_literal_run(s@, start as int) == sp_literal_run_acc(s@, j as int, t@),
        ensures
            start <= j <= s@.len(),
            sp_literal_run(s@, start as int) == Ok::<(int, Seq<char>), TplIssue>((j as int, t@)),
        decreases s@.len() - j,
    {
        if j >= s.len() {
            break ;
        }
        let c = s[j];
        if c == '{' {
            if j + 1 < s.len() && s[j + 1] == '{' {
                t.push('{');
                j = j + 2;
            } else {
                break ;
            }
        } else if c == '}' {
            if j + 1 < s.len() && s[j + 1] == '}' {
                t.push('}');
                j = j + 2;
            } else {
                return Err(
                    Error::InvalidFormatSpec(
                        String::from_str("unmatched '}' in format string"),
                    ),
                );
            }
        } else {
            t.push(c);
            j = j + 1;
        }
    }
    Ok((j, t))
}

/// Find the `}` closing a field whose content starts at `start`,
/// skipping balanced nested braces.
pub fn parse_until_closing_brace(s: &Vec<char>, start: usize) -> (r: Option<usize>)
    requires
        start <= s@.len(),
    ensures
        (match sp_brace_end(s@, start as int, 0) {
            Some(k) => r is Some && r->0 as int == k && start <= r->0 < s@.len(),
            None => r is None,
        }),
{
    let mut j = start;
    let mut depth: usize = 0;
    while j < s.len()
        invariant
            start <= j <= s@.len(),
            depth <= j,
            sp_brace_end(s@, start as int, 0) == sp_brace_end(s@, j as int, depth as int),
        decreases s@.len() - j,
    {
        let c = s[j];
        if c == '{' {
            depth = depth + 1;
        } else if c == '}' {
            if depth == 0 {
                return Some(j);
            }
            depth = depth - 1;
        }
        j = j + 1;
    }
    None
}

/// Parse a field's content: the raw name, resolved name or index, the
/// spec, and the auto counter after the field.
#[verifier::loop_isolation(false)]
fn parse_field(cs: &Vec<char>, auto: usize) -> (r: Result<
    (String, Option<String>, Option<usize>, FormatSpec, usize),
    Error,
>)
    requires
        auto < usize::MAX,
    ensures
        (match sp_parse_field(cs@, auto as int) {
            Ok(t) => r is Ok && r->Ok_0.0@ == t.0 && (match (r->Ok_0.1, t.1) {
                (Some(a), Some(b)) => a@ == b,
                (None, None) => true,
                _ => false,
            }) && (match (r->Ok_0.2, t.2) {
                (Some(a), Some(b)) => a as int == b,
                (None, None) => true,
                _ => false,
            }) && r->Ok_0.3 == t.3 && r->Ok_0.4 as int == t.4 && auto <= r->Ok_0.4 <= auto
                + 1,
            Err(issue) => r is Err && sp_tpl_issue_matches(issue, r->Err_0),
        }),
{
    // split at the first colon
    let mut cp: usize = 0;
    while cp < cs.len() && cs[cp] != ':'
        invariant
            cp <= cs@.len(),
            sp_colon_pos(cs@, 0) == sp_colon_pos(cs@, cp as int),
        decreases cs@.len() - cp,
    {
        cp = cp + 1;
    }
    let np = text::sub_vec(cs, 0, cp);
    proof {
        assert(np@ =~= cs@.take(cp as int));
    }
    let spec_part = if cp < cs.len() {
        text::sub_vec(cs, cp + 1, cs.len())
    } else {
        Vec::<char>::new()
    };
    proof {
        if (cp as int) < cs@.len() {
            assert(spec_part@ =~= cs@.skip(cp as int + 1));
        } else {
            assert(spec_part@ =~= Seq::<char>::empty());
        }
    }
    let raw = text::string_of(&np);

    // classify the name
    let mut name: Option<String> = None;
    let mut index: Option<usize> = None;
    let mut auto2 = auto;
    if np.len() == 0 {
        index = Some(auto);
        auto2 = auto + 1;
    } else {
        let dend = crate::fmt_spec::digit_run_end(&np, 0);
        let numeric = if dend == np.len() {
            crate::fmt_spec::digits_value(&np, 0, dend)
        } else {
            None
        };
        match numeric {
            Some(v) => {
                index = Some(v);
            },
            None => {
                // must be an identifier: alphanumeric or underscore
                let mut k: usize = 0;
                while k < np.len()
                    invariant
                        k <= np@.len(),
                        forall|t: int| 0 <= t < k ==> sp_name_char_ok(np@[t]),
                    decreases np@.len() - k,
                {
                    let c = np[k];
                    if !(is_alnum_char(c) || c == '_') {
                        let raw2 = text::string_of(&np);
                        proof {
                            assert(!sp_name_char_ok(np@[k as int]));
                            assert(!sp_field_name_ok(np@));
                        }
                        return Err(Error::InvalidFieldName(raw2));
                    }
                    k = k + 1;
                }
                name = Some(text::string_of(&np));
            },
        }
    }

    // parse the spec text
    let spec_str = text::string_of(&spec_part);
    let fs = match FormatSpec::parse(spec_str.as_str()) {
        Ok(fs) => fs,
        Err(e) => {
            return Err(e);
        },
    };
    Ok((raw, name, index, fs, auto2))
}

/// Parse a format string into its ordered fields; the last field always
/// holds only the text after the final placeholder.
#[verifier::loop_isolation(false)]
#[verifier::rlimit(60)]
pub fn parse_format_string(pattern: &str) -> (r: Result<Vec<Field>, Error>)
    ensures
        (match sp_scan_template(pattern@) {
            Ok(fv) => r is Ok && fields_view(r->Ok_0@) == fv,
            Err(issue) => r is Err && sp_tpl_issue_matches(issue, r->Err_0),
        }),
{
    let s = text::chars_of(pattern);
    let mut fields: Vec<Field> = Vec::new();
    let mut pos: usize = 0;
    let mut auto: usize = 0;
    proof {
        assert(fields_view(fields@) =~= Seq::<FieldV>::empty());
        if let Ok(rest) = sp_scan_from(s@, 0, 0) {
            assert(fields_view(fields@) + rest =~= rest);
        }
    }
    loop
        invariant
            pos <= s@.len(),
            auto <= pos,
            s@ == pattern@,
            (match sp_scan_from(s@, pos as int, auto as int) {
                Ok(rest) => sp_scan_template(pattern@) matches Ok(full) && full == fields_view(
                    fields@,
                ) + rest,
                Err(e) => sp_scan_template(pattern@) == Err::<Seq<FieldV>, TplIssue>(e),
            }),
        decreases s@.len() - pos,
    {
        let (j, lit) = match scan_literal(&s, pos) {
            Ok(p) => p,
            Err(e) => {
                return Err(e);
            },
        };
        if j >= s.len() {
            let f = Field {
                prefix: text::string_of(&lit),
                raw: String::new(),
                name: None,
                index: None,
                spec: FormatSpec::default(),
            };
            let ghost fv = f@;
            fields.push(f);
            proof {
                if let Ok(rest) = sp_scan_from(s@, pos as int, auto as int) {
                    assert(fields_view(fields@) =~= fields_view(fields@.drop_last()).push(fv));
                    assert(fields_view(fields@.drop_last()).push(fv) + Seq::<FieldV>::empty()
                        =~= fields_view(fields@.drop_last()) + seq![fv]);
                    assert(fields_view(fields@) =~= fields_view(fields@.drop_last()) + seq![fv]);
                }
            }
            return Ok(fields);
        }
        let k = match parse_until_closing_brace(&s, j + 1) {
            Some(k) => k,
            None => {
                return Err(
                    Error::InvalidFormatSpec(
                        String::from_str("unclosed '{' in format string"),
                    ),
                );
            },
        };
        let content = text::sub_vec(&s, j + 1, k);
        let (raw, name, index, fs2, auto2) = match parse_field(&content, auto) {
            Ok(t) => t,
            Err(e) => {
                return Err(e);
            },
        };
        let f = Field { prefix: text::string_of(&lit), raw, name, index, spec: fs2 };
        let ghost fv = f@;
        let ghost old_fields = fields@;
        fields.push(f);
        pos = k + 1;
        auto = auto2;
        proof {
            assert(fields_view(fields@) =~= fields_view(old_fields) + seq![fv]);
            if let Ok(rest) = sp_scan_from(s@, pos as int, auto as int) {
                assert((fields_view(old_fields) + seq![fv]) + rest =~= fields_view(old_fields) + (
                seq![fv] + rest));
            }
        }
    }
}

} // verus!
