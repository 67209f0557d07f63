//! The parser: a template compiled to a matcher, with full-match,
//! search and find-all queries, and typed extraction of captures.

use vstd::prelude::*;
use vstd::string::StringExecFns;

use crate::convert::{convert_value, sp_convert};
use crate::errors::Error;
use crate::pattern::{CaptureInfo, CaptureV, build_regex_pattern, caps_view, sp_build_fields};
use crate::rx::{rx_all_caps, rx_captures, rx_captures_all, rx_compiles, rx_first_caps,
    rx_try_compile};
use crate::template::{sp_scan_template, sp_tpl_issue_matches};
use crate::text;
use crate::value::{Value, ValueV};
use crate::value_map::ValueMap;

verus! {

/// The values extracted from one match: each capture in order, absent
/// groups skipped, each present group's text converted under its spec;
/// `None` when any conversion fails.
pub open spec fn sp_extract(cis: Seq<CaptureV>, caps: Seq<Option<Seq<char>>>) -> Option<
    Map<Seq<char>, ValueV>,
>
    decreases cis.len(),
{
    if cis.len() == 0 {
        Some(Map::<Seq<char>, ValueV>::empty())
    } else {
        match sp_extract(cis.drop_last(), caps) {
            None => None,
            Some(m) => {
                let ci = cis.last();
                if 0 <= ci.group_index < caps.len() && caps[ci.group_index] is Some {
                    match sp_convert(caps[ci.group_index]->0, ci.spec) {
                        Some(v) => Some(m.insert(ci.name, v)),
                        None => None,
                    }
                } else {
                    Some(m)
                }
            },
        }
    }
}

/// The extractions of a list of matches, in order; `None` when any of
/// them fails.
pub open spec fn sp_extract_all(cis: Seq<CaptureV>, capss: Seq<Seq<Option<Seq<char>>>>) -> Option<
    Seq<Map<Seq<char>, ValueV>>,
>
    decreases capss.len(),
{
    if capss.len() == 0 {
        Some(Seq::<Map<Seq<char>, ValueV>>::empty())
    } else {
        match sp_extract_all(cis, capss.drop_last()) {
            None => None,
            Some(rs) => {
                match sp_extract(cis, capss.last()) {
                    Some(m) => Some(rs.push(m)),
                    None => None,
                }
            },
        }
    }
}

/// An extraction that has already failed stays failed as more captures
/// are taken in.
proof fn lemma_extract_none_extends(cis: Seq<CaptureV>, caps: Seq<Option<Seq<char>>>, k: int, j: int)
    requires
        0 <= k <= j <= cis.len(),
        sp_extract(cis.take(k), caps) is None,
    ensures
        sp_extract(cis.take(j), caps) is None,
    decreases j - k,
{
    if k < j {
        assert(cis.take(k + 1).drop_last() =~= cis.take(k));
        lemma_extract_none_extends(cis, caps, k + 1, j);
    }
}

/// The shape of a parse result: the extracted values and the matched
/// text.
pub struct ParseResultV {
    /// The extracted values, by field name.
    pub values: Map<Seq<char>, ValueV>,
    /// The input text the match was taken from.
    pub text: Seq<char>,
}

/// The result of one successful match: the extracted values and the
/// text they came from.
#[derive(Debug)]
pub struct ParseResult {
    values: ValueMap,
    text: String,
}

impl View for ParseResult {
    type V = ParseResultV;

    closed spec fn view(&self) -> ParseResultV {
        ParseResultV { values: self.values@, text: self.text@ }
    }
}

impl Clone for ParseResult {
    /// A copy holding the same values and text.
    fn clone(&self) -> (r: Self)
        ensures
            r@ == self@,
    {
        ParseResult { values: self.values.clone(), text: self.text.clone() }
    }
}

impl ParseResult {
    /// The value extracted for `name`, if any.
    pub fn get(&self, name: &str) -> (r: Option<&Value>)
        ensures
            (match r {
                Some(v) => self@.values.contains_key(name@) && v@ == self@.values[name@],
                None => !self@.values.contains_key(name@),
            }),
    {
        self.values.get(name)
    }

    /// All extracted values.
    pub fn values(&self) -> (r: &ValueMap)
        ensures
            r@ == self@.values,
    {
        &self.values
    }

    /// The input text the match was taken from.
    pub fn text(&self) -> (r: &str)
        ensures
            r@ == self@.text,
    {
        self.text.as_str()
    }

    /// Whether a value was extracted for `name`.
    pub fn contains(&self, name: &str) -> (r: bool)
        ensures
            r == self@.values.contains_key(name@),
    {
        self.values.contains(name)
    }
}

/// The shape of a compiled parser: the template, the matcher pattern
/// compiled from it, and its captures.
pub struct ParserV {
    /// The template text.
    pub template: Seq<char>,
    /// The matcher pattern compiled from the template.
    pub rx: Seq<char>,
    /// The capture groups, in template order.
    pub captures: Seq<CaptureV>,
}

/// A parser that extracts structured data from text using a format
/// pattern.
#[derive(Debug)]
pub struct Parser {
    pattern: String,
    regex_src: String,
    captures: Vec<CaptureInfo>,
}

impl View for Parser {
    type V = ParserV;

    closed spec fn view(&self) -> ParserV {
        ParserV {
            template: self.pattern@,
            rx: self.regex_src@,
            captures: caps_view(self.captures@),
        }
    }
}

impl Clone for Parser {
    /// A copy compiled from the same template.
    fn clone(&self) -> (r: Self)
        ensures
            r@ == self@,
    {
        proof {
            use_type_invariant(self);
        }
        let mut captures: Vec<CaptureInfo> = Vec::new();
        let mut i: usize = 0;
        while i < self.captures.len()
            invariant
                i <= self.captures@.len(),
                captures@.len() == i,
                forall|t: int| 0 <= t < i ==> captures@[t]@ == self.captures@[t]@,
            decreases self.captures@.len() - i,
        {
            let c = self.captures[i].clone();
            captures.push(c);
            i = i + 1;
        }
        let r = Parser {
            pattern: self.pattern.clone(),
            regex_src: self.regex_src.clone(),
            captures,
        };
        proof {
            assert(caps_view(r.captures@) =~= caps_view(self.captures@));
        }
        r
    }
}

impl Parser {
    /// The compiled matcher pattern always compiles.
    #[verifier::type_invariant]
    closed spec fn inv(self) -> bool {
        rx_compiles(self.regex_src@)
    }

    /// Compile a parser from a format pattern: the same template syntax
    /// as formatting, each field becoming a typed capture.
    pub fn new(pattern: &str) -> (r: Result<Self, Error>)
        ensures
            (match sp_scan_template(pattern@) {
                Ok(fv) => {
                    let built = sp_build_fields(fv, 1);
                    if rx_compiles(built.0) {
                        r is Ok && r->Ok_0@.template == pattern@ && r->Ok_0@.rx == built.0
                            && r->Ok_0@.captures == built.1
                    } else {
                        r is Err && r->Err_0 is RegexError
                    }
                },
                Err(issue) => r is Err && sp_tpl_issue_matches(issue, r->Err_0),
            }),
    {
        let (rx_src, captures) = match build_regex_pattern(pattern) {
            Ok(t) => t,
            Err(e) => {
                return Err(e);
            },
        };
        if !rx_try_compile(rx_src.as_str()) {
            return Err(Error::RegexError(String::from_str("failed to compile regex")));
        }
        Ok(Parser { pattern: String::from_str(pattern), regex_src: rx_src, captures })
    }

    /// Extract and convert the captured values of one match.
    #[verifier::loop_isolation(false)]
    fn extract_values(&self, caps: &Vec<Option<String>>, text_in: &str) -> (r: Result<
        ParseResult,
        Error,
    >)
        ensures
            (match sp_extract(self@.captures, caps.deep_view()) {
                Some(m) => r is Ok && r->Ok_0@.values == m && r->Ok_0@.text == text_in@,
                None => r is Err && r->Err_0 is ConversionError,
            }),
    {
        let ghost cis = caps_view(self.captures@);
        let ghost dv = caps.deep_view();
        let mut vm = ValueMap::new();
        let mut i: usize = 0;
        proof {
            assert(cis.take(0) =~= Seq::<CaptureV>::empty());
        }
        while i < self.captures.len()
            invariant
                i <= self.captures@.len(),
                cis.len() == self.captures@.len(),
                sp_extract(cis.take(i as int), dv) == Some(vm@),
            decreases self.captures@.len() - i,
        {
            let ghost m0 = vm@;
            proof {
                assert(cis.take(i as int + 1).drop_last() =~= cis.take(i as int));
                assert(cis.take(i as int + 1).last() == cis[i as int]);
            }
            let ci = &self.captures[i];
            if ci.group_index < caps.len() {
                let got: Option<String> = match &caps[ci.group_index] {
                    Some(s) => Some(s.clone()),
                    None => None,
                };
                proof {
                    assert(dv[ci.group_index as int] == caps@[ci.group_index as int].deep_view());
                }
                match got {
                    Some(s) => {
                        match convert_value(s.as_str(), &ci.spec) {
                            Ok(v) => {
                                vm.insert(ci.name.clone(), v);
                            },
                            Err(e) => {
                                proof {
                                    assert(sp_extract(cis.take(i as int + 1), dv) is None);
                                    lemma_extract_none_extends(
                                        cis,
                                        dv,
                                        i as int + 1,
                                        cis.len() as int,
                                    );
                                    assert(cis.take(cis.len() as int) =~= cis);
                                }
                                return Err(e);
                            },
                        }
                    },
                    None => {},
                }
            }
            i = i + 1;
        }
        proof {
            assert(cis.take(cis.len() as int) =~= cis);
        }
        Ok(ParseResult { values: vm, text: String::from_str(text_in) })
    }

    /// The matcher pattern anchored to the whole input.
    fn anchored(&self) -> (r: String)
        ensures
            r@ == seq!['^'] + self@.rx + seq!['$'],
    {
        let mut out: Vec<char> = Vec::new();
        out.push('^');
        let src = text::chars_of(self.regex_src.as_str());
        text::push_all_val(&mut out, &src);
        out.push('$');
        proof {
            assert(out@ =~= seq!['^'] + self@.rx + seq!['$']);
        }
        text::string_of(&out)
    }

    /// Match the whole input against the pattern: `Ok(Some(..))` with
    /// the extracted values on a match, `Ok(None)` when the input does
    /// not match, an error only for a matcher that cannot be built or a
    /// capture that cannot be converted.
    pub fn parse(&self, text_in: &str) -> (r: Result<Option<ParseResult>, Error>)
        ensures
            ({
                let ap = seq!['^'] + self@.rx + seq!['$'];
                if !rx_compiles(ap) {
                    r is Err && r->Err_0 is RegexError
                } else {
                    match rx_first_caps(ap, text_in@) {
                        None => r is Ok && r->Ok_0 is None,
                        Some(caps) => match sp_extract(self@.captures, caps) {
                            Some(m) => r is Ok && r->Ok_0 is Some && r->Ok_0->0@.values == m
                                && r->Ok_0->0@.text == text_in@,
                            None => r is Err && r->Err_0 is ConversionError,
                        },
                    }
                }
            }),
    {
        let ap = self.anchored();
        if !rx_try_compile(ap.as_str()) {
            return Err(Error::RegexError(String::from_str("failed to compile regex")));
        }
        match rx_captures(ap.as_str(), text_in) {
            None => Ok(None),
            Some(caps) => {
                match self.extract_values(&caps, text_in) {
                    Ok(pr) => Ok(Some(pr)),
                    Err(e) => Err(e),
                }
            },
        }
    }

    /// Search for the first match of the pattern anywhere in the input:
    /// `Ok(Some(..))` with the extracted values, or `Ok(None)`.
    pub fn search(&self, text_in: &str) -> (r: Result<Option<ParseResult>, Error>)
        ensures
            (match rx_first_caps(self@.rx, text_in@) {
                None => r is Ok && r->Ok_0 is None,
                Some(caps) => match sp_extract(self@.captures, caps) {
                    Some(m) => r is Ok && r->Ok_0 is Some && r->Ok_0->0@.values == m
                        && r->Ok_0->0@.text == text_in@,
                    None => r is Err && r->Err_0 is ConversionError,
                },
            }),
    {
        proof {
            use_type_invariant(self);
        }
        match rx_captures(self.regex_src.as_str(), text_in) {
            None => Ok(None),
            Some(caps) => {
                match self.extract_values(&caps, text_in) {
                    Ok(pr) => Ok(Some(pr)),
                    Err(e) => Err(e),
                }
            },
        }
    }

    /// All non-overlapping matches of the pattern in the input, left to
    /// right, each with its extracted values.
    #[verifier::loop_isolation(false)]
    pub fn findall(&self, text_in: &str) -> (r: Result<Vec<ParseResult>, Error>)
        ensures
            (match sp_extract_all(self@.captures, rx_all_caps(self@.rx, text_in@)) {
                Some(ms) => r is Ok && r->Ok_0@.len() == ms.len() && (forall|i: int|
                    0 <= i < ms.len() ==> (#[trigger] r->Ok_0@[i])@.values == ms[i]
                        && r->Ok_0@[i]@.text == text_in@),
                None => r is Err && r->Err_0 is ConversionError,
            }),
    {
        proof {
            use_type_invariant(self);
        }
        let capss = rx_captures_all(self.regex_src.as_str(), text_in);
        let ghost all = rx_all_caps(self@.rx, text_in@);
        let mut results: Vec<ParseResult> = Vec::new();
        let mut i: usize = 0;
        proof {
            assert(all.take(0) =~= Seq::<Seq<Option<Seq<char>>>>::empty());
        }
        while i < capss.len()
            invariant
                i <= capss@.len(),
                capss.deep_view() == all,
                all.len() == capss@.len(),
                sp_extract_all(self@.captures, all.take(i as int)) matches Some(ms) && ms.len()
                    == results@.len() && (forall|t: int|
                    0 <= t < results@.len() ==> (#[trigger] results@[t])@.values == ms[t]
                        && results@[t]@.text == text_in@),
            decreases capss@.len() - i,
        {
            proof {
                assert(all.take(i as int + 1).drop_last() =~= all.take(i as int));
                assert(all.take(i as int + 1).last() == all[i as int]);
                assert(capss.deep_view()[i as int] == capss@[i as int].deep_view());
            }
            let pr = match self.extract_values(&capss[i], text_in) {
                Ok(pr) => pr,
                Err(e) => {
                    proof {
                        lemma_extract_all_none_extends(
                            self@.captures,
                            all,
                            i as int + 1,
                            all.len() as int,
                        );
                        assert(all.take(all.len() as int) =~= all);
                    }
                    return Err(e);
                },
            };
            results.push(pr);
            i = i + 1;
        }
        proof {
            assert(all.take(all.len() as int) =~= all);
        }
        Ok(results)
    }
}

/// A match list whose extraction has already failed stays failed as
/// more matches are taken in.
proof fn lemma_extract_all_none_extends(
    cis: Seq<CaptureV>,
    capss: Seq<Seq<Option<Seq<char>>>>,
    k: int,
    j: int,
)
    requires
        0 <= k <= j <= capss.len(),
        sp_extract_all(cis, capss.take(k)) is None,
    ensures
        sp_extract_all(cis, capss.take(j)) is None,
    decreases j - k,
{
    if k < j {
        assert(capss.take(k + 1).drop_last() =~= capss.take(k));
        lemma_extract_all_none_extends(cis, capss, k + 1, j);
    }
}

} // verus!
