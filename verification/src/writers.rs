//! Low-level rendering of single values: type-specific writers, digit
//! grouping, sign attachment, zero padding and alignment.

use vstd::prelude::*;
use vstd::string::StringExecFns;

use crate::decimal::{
    FloatV, FloatVal, sp_fixed_digits, sp_float_is_zero, sp_sci_digits, sp_shifted,
    sp_shortest_chars,
};
use crate::digits::{
    push_digit_chars, sp_digit_chars, sp_digits_in_range, sp_udigits, udigits,
    lemma_udigits_in_range,
};
use crate::errors::Error;
use crate::fmt_spec::{
    Alignment, FormatSpec, Grouping, Sign, TypeSpec, char_of_grouping, spec_fill_char,
    spec_is_numeric,
};
use crate::text;
use crate::value::{Value, ValueV, sp_as_float, sp_as_int, sp_as_uint};

verus! {

/// The first `i` characters of `s` with the separator `sep` inserted
/// before every position from which the distance to the end of `s` is a
/// positive multiple of `k`.
pub open spec fn sp_group_take(s: Seq<char>, sep: char, k: nat, i: int) -> Seq<char>
    recommends
        k >= 1,
        i <= s.len(),
    decreases i,
{
    if i <= 0 {
        Seq::<char>::empty()
    } else {
        sp_group_take(s, sep, k, i - 1) + (if i - 1 > 0 && (s.len() - (i - 1)) % (k as int) == 0 {
            seq![sep]
        } else {
            Seq::<char>::empty()
        }) + seq![s[i - 1]]
    }
}

/// `s` with the separator inserted every `k` digits, counted from the
/// right; the leftmost group may be shorter than `k`.
pub open spec fn sp_grouped(s: Seq<char>, sep: char, k: nat) -> Seq<char> {
    sp_group_take(s, sep, k, s.len() as int)
}

/// The sign characters put before a magnitude: `+` always shows a sign,
/// a space shows a blank for non-negative values, the default shows `-`
/// only for negative ones.
pub open spec fn sp_sign_prefix(sign: Option<Sign>, negative: bool) -> Seq<char> {
    match sign {
        Some(Sign::Plus) => if negative {
            seq!['-']
        } else {
            seq!['+']
        },
        Some(Sign::Space) => if negative {
            seq!['-']
        } else {
            seq![' ']
        },
        _ => if negative {
            seq!['-']
        } else {
            Seq::<char>::empty()
        },
    }
}

/// Whether `c` may follow a leading zero in a radix prefix.
pub open spec fn is_radix_tag(c: char) -> bool {
    c == 'x' || c == 'X' || c == 'b' || c == 'B' || c == 'o' || c == 'O'
}

/// The length of the sign or radix prefix of `s`: one character for a
/// leading sign, two for a radix prefix, none otherwise.
pub open spec fn sp_prefix_len(s: Seq<char>) -> int {
    if s.len() >= 1 && (s[0] == '+' || s[0] == '-' || s[0] == ' ') {
        1
    } else if s.len() >= 2 && s[0] == '0' && is_radix_tag(s[1]) {
        2
    } else {
        0
    }
}

/// `s` brought to `width` characters by zeros inserted after its sign
/// or radix prefix; `s` at least as wide as `width` is unchanged.
pub open spec fn sp_zero_pad(s: Seq<char>, width: nat) -> Seq<char> {
    if s.len() >= width {
        s
    } else {
        let pl = sp_prefix_len(s);
        s.take(pl) + Seq::new((width - s.len()) as nat, |i: int| '0') + s.skip(pl)
    }
}

/// Zero padding as the writers apply it: only under the `0` flag, with
/// no explicit alignment, and with a width present.
pub open spec fn sp_maybe_zero_pad(s: Seq<char>, fs: FormatSpec) -> Seq<char> {
    if fs.zero_pad && fs.align is None && fs.width is Some {
        sp_zero_pad(s, fs.width->0 as nat)
    } else {
        s
    }
}

/// `s` brought to the spec's width with the fill character, under the
/// spec's alignment; numeric types align right by default, others left.
/// Sign-aware alignment puts the padding after a leading sign.
pub open spec fn sp_aligned(s: Seq<char>, fs: FormatSpec) -> Seq<char> {
    if fs.width is Some && fs.width->0 > s.len() {
        let pad = (fs.width->0 - s.len()) as nat;
        let fill = spec_fill_char(fs);
        let fills = Seq::new(pad, |i: int| fill);
        let align = match fs.align {
            Some(a) => a,
            None => if spec_is_numeric(fs) {
                Alignment::Right
            } else {
                Alignment::Left
            },
        };
        match align {
            Alignment::Left => s + fills,
            Alignment::Right => fills + s,
            Alignment::Center => Seq::new((pad / 2) as nat, |i: int| fill) + s + Seq::new(
                (pad - pad / 2) as nat,
                |i: int| fill,
            ),
            Alignment::AfterSign => if s.len() >= 1 && (s[0] == '+' || s[0] == '-' || s[0]
                == ' ') {
                s.take(1) + fills + s.skip(1)
            } else {
                fills + s
            },
        }
    } else {
        s
    }
}

/// Insert grouping separators into a digit string, every `group_size`
/// digits counted from the right.
pub fn apply_grouping(s: &str, grouping: Grouping, group_size: usize) -> (r: String)
    requires
        group_size >= 1,
    ensures
        r@ == sp_grouped(s@, char_of_grouping(grouping), group_size as nat),
{
    let cs = text::chars_of(s);
    let out = group_chars(&cs, grouping.to_char(), group_size);
    text::string_of(&out)
}

/// Insert grouping separators into a character vector.
#[verifier::loop_isolation(false)]
fn group_chars(s: &Vec<char>, sep: char, k: usize) -> (r: Vec<char>)
    requires
        k >= 1,
    ensures
        r@ == sp_grouped(s@, sep, k as nat),
{
    let mut out: Vec<char> = Vec::new();
    let mut i: usize = 0;
    while i < s.len()
        invariant
            i <= s@.len(),
            out@ == sp_group_take(s@, sep, k as nat, i as int),
        decreases s@.len() - i,
    {
        if i > 0 && (s.len() - i) % k == 0 {
            out.push(sep);
        }
        out.push(s[i]);
        i = i + 1;
        proof {
            assert(out@ =~= sp_group_take(s@, sep, k as nat, i as int));
        }
    }
    out
}

/// The sign prefix for a rendered magnitude.
fn sign_chars(sign: Option<Sign>, negative: bool) -> (r: Vec<char>)
    ensures
        r@ == sp_sign_prefix(sign, negative),
{
    let mut out: Vec<char> = Vec::new();
    match sign {
        Some(Sign::Plus) => out.push(if negative { '-' } else { '+' }),
        Some(Sign::Space) => out.push(if negative { '-' } else { ' ' }),
        _ => if negative {
            out.push('-');
        },
    }
    proof {
        assert(out@ =~= sp_sign_prefix(sign, negative));
    }
    out
}

/// Attach the sign for `num` in front of a rendered magnitude.
pub fn add_sign(s: &str, num: i64, spec: &FormatSpec) -> (r: String)
    ensures
        r@ == sp_sign_prefix(spec.sign, num < 0) + s@,
{
    let mut out = sign_chars(spec.sign, num < 0);
    let rest = text::chars_of(s);
    text::push_all_val(&mut out, &rest);
    text::string_of(&out)
}

/// Bring a rendered number to `width` characters by inserting zeros
/// after its sign or radix prefix.
pub fn apply_zero_padding(s: &str, width: usize) -> (r: String)
    ensures
        r@ == sp_zero_pad(s@, width as nat),
{
    let cs = text::chars_of(s);
    let out = zero_pad_chars(&cs, width);
    text::string_of(&out)
}

/// Zero padding on a character vector.
fn zero_pad_chars(s: &Vec<char>, width: usize) -> (r: Vec<char>)
    ensures
        r@ == sp_zero_pad(s@, width as nat),
{
    if s.len() >= width {
        let r = text::sub_vec(s, 0, s.len());
        proof {
            assert(r@ =~= s@);
        }
        return r;
    }
    let pl: usize = if s.len() >= 1 && (s[0] == '+' || s[0] == '-' || s[0] == ' ') {
        1
    } else if s.len() >= 2 && s[0] == '0' && is_radix_tag_char(s[1]) {
        2
    } else {
        0
    };
    let mut out = text::sub_vec(s, 0, pl);
    text::push_repeat_val(&mut out, '0', width - s.len());
    let rest = text::sub_vec(s, pl, s.len());
    text::push_all_val(&mut out, &rest);
    proof {
        assert(s@.take(pl as int) =~= s@.subrange(0, pl as int));
        assert(s@.skip(pl as int) =~= s@.subrange(pl as int, s@.len() as int));
        assert(out@ =~= sp_zero_pad(s@, width as nat));
    }
    out
}

/// Whether `c` may follow a leading zero in a radix prefix.
fn is_radix_tag_char(c: char) -> (r: bool)
    ensures
        r == is_radix_tag(c),
{
    c == 'x' || c == 'X' || c == 'b' || c == 'B' || c == 'o' || c == 'O'
}

/// The plain textual form of a value, as the string writer uses it.
pub open spec fn sp_value_text(v: ValueV) -> Seq<char> {
    match v {
        ValueV::Str(s) => s,
        ValueV::Char(c) => seq![c],
        ValueV::Int(i) => (if i < 0 {
            seq!['-']
        } else {
            Seq::<char>::empty()
        }) + sp_digit_chars(sp_udigits(crate::decimal::sp_mag_i64(i), 10), false),
        ValueV::UInt(u) => sp_digit_chars(sp_udigits(u as nat, 10), false),
        ValueV::Bool(b) => if b {
            seq!['t', 'r', 'u', 'e']
        } else {
            seq!['f', 'a', 'l', 's', 'e']
        },
        ValueV::Float(f) => sp_shortest_chars(f),
    }
}

/// The string rendering of a value: its plain text, truncated to the
/// precision when one is given.
pub open spec fn sp_fmt_string(v: ValueV, fs: FormatSpec) -> Seq<char> {
    let t = sp_value_text(v);
    if fs.precision is Some && fs.precision->0 < t.len() {
        t.take(fs.precision->0 as int)
    } else {
        t
    }
}

/// The decimal rendering of a value: grouped magnitude digits behind the
/// sign, zero-padded under the `0` flag; `None` when the value does not
/// coerce to a signed integer.
pub open spec fn sp_fmt_decimal(v: ValueV, fs: FormatSpec) -> Option<Seq<char>> {
    match sp_as_int(v) {
        None => None,
        Some(i) => {
            let digits = sp_digit_chars(sp_udigits(crate::decimal::sp_mag_i64(i), 10), false);
            let grouped = match fs.grouping {
                Some(g) => sp_grouped(digits, char_of_grouping(g), 3),
                None => digits,
            };
            let signed = sp_sign_prefix(fs.sign, i < 0) + grouped;
            Some(sp_maybe_zero_pad(signed, fs))
        },
    }
}

/// The radix rendering of a value in base `base`: grouped digits in
/// groups of four, a `0`-`tag` prefix under the alternate flag for
/// non-zero values, zero padding under the `0` flag; `None` when the
/// value does not coerce to an unsigned integer.
pub open spec fn sp_fmt_radix(v: ValueV, fs: FormatSpec, base: nat, upper: bool, tag: char) -> Option<
    Seq<char>,
> {
    match sp_as_uint(v) {
        None => None,
        Some(u) => {
            let digits = sp_digit_chars(sp_udigits(u as nat, base), upper);
            let grouped = match fs.grouping {
                Some(g) => sp_grouped(digits, char_of_grouping(g), 4),
                None => digits,
            };
            let pre = if fs.alternate && u != 0 {
                seq!['0', tag] + grouped
            } else {
                grouped
            };
            Some(sp_maybe_zero_pad(pre, fs))
        },
    }
}

/// The effective float precision of a spec: six when absent.
pub open spec fn sp_float_precision(fs: FormatSpec) -> nat {
    if fs.precision is Some {
        fs.precision->0 as nat
    } else {
        6
    }
}

/// Whether a float value displays as negative: a negative sign on a
/// non-zero magnitude.
pub open spec fn sp_float_negative(f: FloatV) -> bool {
    f.neg && !sp_float_is_zero(f)
}

/// The fixed-point rendering of a value: the digit expansion at the
/// precision (six by default), the integer part grouped when a point is
/// present, sign and zero padding as for decimals; `None` when the
/// value does not coerce to a float.
pub open spec fn sp_fmt_fixed(v: ValueV, fs: FormatSpec) -> Option<Seq<char>> {
    match sp_as_float(v) {
        None => None,
        Some(f) => {
            let p = sp_float_precision(fs);
            let parts = sp_fixed_digits(f, p);
            let ichars = sp_digit_chars(parts.0, false);
            let gichars = if p > 0 {
                match fs.grouping {
                    Some(g) => sp_grouped(ichars, char_of_grouping(g), 3),
                    None => ichars,
                }
            } else {
                ichars
            };
            let body = if p > 0 {
                gichars + seq!['.'] + sp_digit_chars(parts.1, false)
            } else {
                gichars
            };
            let signed = sp_sign_prefix(fs.sign, sp_float_negative(f)) + body;
            Some(sp_maybe_zero_pad(signed, fs))
        },
    }
}

/// The general rendering of a value: the fixed-point digit expansion at
/// the precision, without grouping; `None` when the value does not
/// coerce to a float.
pub open spec fn sp_fmt_general(v: ValueV, fs: FormatSpec) -> Option<Seq<char>> {
    match sp_as_float(v) {
        None => None,
        Some(f) => {
            let p = sp_float_precision(fs);
            let parts = sp_fixed_digits(f, p);
            let body = if p > 0 {
                sp_digit_chars(parts.0, false) + seq!['.'] + sp_digit_chars(parts.1, false)
            } else {
                sp_digit_chars(parts.0, false)
            };
            let signed = sp_sign_prefix(fs.sign, sp_float_negative(f)) + body;
            Some(sp_maybe_zero_pad(signed, fs))
        },
    }
}

/// The scientific rendering of a value: one leading mantissa digit, the
/// point and the remaining digits when the precision is positive, then
/// the exponent marker and the signed exponent; `None` when the value
/// does not coerce to a float or the precision leaves no room for the
/// leading digit.
pub open spec fn sp_fmt_exponent(v: ValueV, fs: FormatSpec, upper: bool) -> Option<Seq<char>> {
    match sp_as_float(v) {
        None => None,
        Some(f) => {
            let p = sp_float_precision(fs);
            if p >= usize::MAX {
                None
            } else {
                let me = sp_sci_digits(f, p);
                let mchars = sp_digit_chars(me.0, false);
                let mm = if p > 0 {
                    mchars.take(1) + seq!['.'] + mchars.skip(1)
                } else {
                    mchars
                };
                let emark = if upper {
                    seq!['E']
                } else {
                    seq!['e']
                };
                let esign = if me.1 < 0 {
                    seq!['-']
                } else {
                    Seq::<char>::empty()
                };
                let emag: nat = if me.1 < 0 {
                    (-me.1) as nat
                } else {
                    me.1 as nat
                };
                let body = mm + emark + esign + sp_digit_chars(sp_udigits(emag, 10), false);
                let signed = sp_sign_prefix(fs.sign, sp_float_negative(f)) + body;
                Some(sp_maybe_zero_pad(signed, fs))
            }
        },
    }
}

/// The percentage rendering of a value: the fixed-point expansion of a
/// hundred times the value, a trailing percent sign, and zero padding
/// measured without that sign; `None` when the value does not coerce to
/// a float.
pub open spec fn sp_fmt_percentage(v: ValueV, fs: FormatSpec) -> Option<Seq<char>> {
    match sp_as_float(v) {
        None => None,
        Some(f) => {
            let f100 = sp_shifted(f, 2);
            let p = sp_float_precision(fs);
            let parts = sp_fixed_digits(f100, p);
            let body = if p > 0 {
                sp_digit_chars(parts.0, false) + seq!['.'] + sp_digit_chars(parts.1, false)
            } else {
                sp_digit_chars(parts.0, false)
            };
            let signed = sp_sign_prefix(fs.sign, sp_float_negative(f)) + body;
            if fs.zero_pad && fs.align is None && fs.width is Some && fs.width->0 >= 1 {
                Some(sp_zero_pad(signed, (fs.width->0 - 1) as nat) + seq!['%'])
            } else {
                Some(signed + seq!['%'])
            }
        },
    }
}

/// The character rendering of a value: a character itself, an integer
/// taken as a Unicode scalar value, or a one-character string; `None`
/// otherwise.
pub open spec fn sp_fmt_character(v: ValueV) -> Option<Seq<char>> {
    match v {
        ValueV::Char(c) => Some(seq![c]),
        ValueV::Int(i) => if 0 <= i <= 0x10FFFF && !(0xD800 <= i && i < 0xE000) {
            Some(seq![((i as u32) as char)])
        } else {
            None
        },
        ValueV::Str(s) => if s.len() == 1 {
            Some(s)
        } else {
            None
        },
        _ => None,
    }
}

/// Pad a rendered body to the spec's width with the fill character,
/// under the spec's alignment rules.
pub fn apply_alignment(s: &str, spec: &FormatSpec) -> (r: String)
    ensures
        r@ == sp_aligned(s@, *spec),
{
    let cs = text::chars_of(s);
    let out = align_chars(&cs, spec);
    text::string_of(&out)
}

/// Alignment on a character vector.
fn align_chars(s: &Vec<char>, spec: &FormatSpec) -> (r: Vec<char>)
    ensures
        r@ == sp_aligned(s@, *spec),
{
    let width = match spec.width {
        Some(w) => w,
        None => {
            let r = text::sub_vec(s, 0, s.len());
            proof {
                assert(r@ =~= s@);
            }
            return r;
        },
    };
    if width <= s.len() {
        let r = text::sub_vec(s, 0, s.len());
        proof {
            assert(r@ =~= s@);
        }
        return r;
    }
    let pad = width - s.len();
    let fill = spec.fill_char();
    let align = match spec.align {
        Some(a) => a,
        None => if spec.is_numeric() {
            Alignment::Right
        } else {
            Alignment::Left
        },
    };
    let mut out: Vec<char> = Vec::new();
    match align {
        Alignment::Left => {
            text::push_all_val(&mut out, s);
            text::push_repeat_val(&mut out, fill, pad);
        },
        Alignment::Right => {
            text::push_repeat_val(&mut out, fill, pad);
            text::push_all_val(&mut out, s);
        },
        Alignment::Center => {
            text::push_repeat_val(&mut out, fill, pad / 2);
            text::push_all_val(&mut out, s);
            text::push_repeat_val(&mut out, fill, pad - pad / 2);
        },
        Alignment::AfterSign => {
            if s.len() >= 1 && (s[0] == '+' || s[0] == '-' || s[0] == ' ') {
                out.push(s[0]);
                text::push_repeat_val(&mut out, fill, pad);
                let rest = text::sub_vec(s, 1, s.len());
                text::push_all_val(&mut out, &rest);
                proof {
                    assert(s@.take(1) =~= seq![s@[0]]);
                    assert(s@.skip(1) =~= s@.subrange(1, s@.len() as int));
                }
            } else {
                text::push_repeat_val(&mut out, fill, pad);
                text::push_all_val(&mut out, s);
            }
        },
    }
    proof {
        assert(out@ =~= sp_aligned(s@, *spec));
    }
    out
}

/// The plain textual form of a value.
fn value_text(value: &Value) -> (r: Vec<char>)
    ensures
        r@ == sp_value_text(value@),
{
    match value {
        Value::Str(s) => text::chars_of(s.as_str()),
        Value::Char(c) => {
            let mut out: Vec<char> = Vec::new();
            out.push(*c);
            proof {
                assert(out@ =~= seq![*c]);
            }
            out
        },
        Value::Int(i) => {
            let mut out: Vec<char> = Vec::new();
            if *i < 0 {
                out.push('-');
            }
            let mag: u64 = if *i < 0 {
                (-(*i as i128)) as u64
            } else {
                *i as u64
            };
            let ds = udigits(mag, 10);
            proof {
                lemma_udigits_in_range(mag as nat, 10);
            }
            push_digit_chars(&ds, false, &mut out);
            proof {
                assert(out@ =~= sp_value_text(value@));
            }
            out
        },
        Value::UInt(u) => {
            let ds = udigits(*u, 10);
            proof {
                lemma_udigits_in_range(*u as nat, 10);
            }
            let mut out: Vec<char> = Vec::new();
            push_digit_chars(&ds, false, &mut out);
            proof {
                assert(out@ =~= sp_value_text(value@));
            }
            out
        },
        Value::Bool(b) => {
            let mut out: Vec<char> = Vec::new();
            if *b {
                out.push('t');
                out.push('r');
                out.push('u');
                out.push('e');
            } else {
                out.push('f');
                out.push('a');
                out.push('l');
                out.push('s');
                out.push('e');
            }
            proof {
                assert(out@ =~= sp_value_text(value@));
            }
            out
        },
        Value::Float(f) => f.shortest_chars(),
    }
}

/// The plain textual form of a value: the string itself, digits for
/// integers, `true`/`false` for booleans, the shortest decimal form for
/// floats.
pub fn value_to_text(value: &Value) -> (r: String)
    ensures
        r@ == sp_value_text(value@),
{
    let t = value_text(value);
    text::string_of(&t)
}

/// Render a value as a string, truncated to the precision when one is
/// given.
pub fn format_string(value: &Value, spec: &FormatSpec) -> (r: Result<String, Error>)
    ensures
        r is Ok && r->Ok_0@ == sp_fmt_string(value@, *spec),
{
    let t = value_text(value);
    let truncated = match spec.precision {
        Some(p) => {
            if p < t.len() {
                text::sub_vec(&t, 0, p)
            } else {
                t
            }
        },
        None => t,
    };
    proof {
        assert(truncated@ =~= sp_fmt_string(value@, *spec));
    }
    Ok(text::string_of(&truncated))
}

/// Render a value as a decimal integer.
pub fn format_decimal(value: &Value, spec: &FormatSpec) -> (r: Result<String, Error>)
    ensures
        (match sp_fmt_decimal(value@, *spec) {
            Some(t) => r is Ok && r->Ok_0@ == t,
            None => r is Err && r->Err_0 is ConversionError,
        }),
{
    let num = match value.to_int() {
        Ok(n) => n,
        Err(e) => {
            return Err(e);
        },
    };
    let mag: u64 = if num < 0 {
        (-(num as i128)) as u64
    } else {
        num as u64
    };
    let ds = udigits(mag, 10);
    proof {
        lemma_udigits_in_range(mag as nat, 10);
    }
    let mut digits: Vec<char> = Vec::new();
    push_digit_chars(&ds, false, &mut digits);
    let grouped = match spec.grouping {
        Some(g) => group_chars(&digits, g.to_char(), 3),
        None => digits,
    };
    let mut body = sign_chars(spec.sign, num < 0);
    text::push_all_val(&mut body, &grouped);
    let padded = maybe_zero_pad_chars(body, spec);
    Ok(text::string_of(&padded))
}

/// Zero padding as the writers apply it.
fn maybe_zero_pad_chars(body: Vec<char>, spec: &FormatSpec) -> (r: Vec<char>)
    ensures
        r@ == sp_maybe_zero_pad(body@, *spec),
{
    if spec.zero_pad && spec.align.is_none() {
        match spec.width {
            Some(w) => zero_pad_chars(&body, w),
            None => body,
        }
    } else {
        body
    }
}

/// Render a value in a radix: base, digit case and prefix tag given by
/// the caller.
fn format_radix(value: &Value, spec: &FormatSpec, base: u64, upper: bool, tag: char) -> (r: Result<
    String,
    Error,
>)
    requires
        2 <= base <= 16,
    ensures
        (match sp_fmt_radix(value@, *spec, base as nat, upper, tag) {
            Some(t) => r is Ok && r->Ok_0@ == t,
            None => r is Err && r->Err_0 is ConversionError,
        }),
{
    let num = match value.to_uint() {
        Ok(n) => n,
        Err(e) => {
            return Err(e);
        },
    };
    let ds = udigits(num, base);
    proof {
        lemma_udigits_in_range(num as nat, base as nat);
    }
    let mut digits: Vec<char> = Vec::new();
    push_digit_chars(&ds, upper, &mut digits);
    let grouped = match spec.grouping {
        Some(g) => group_chars(&digits, g.to_char(), 4),
        None => digits,
    };
    let mut body: Vec<char> = Vec::new();
    if spec.alternate && num != 0 {
        body.push('0');
        body.push(tag);
    }
    text::push_all_val(&mut body, &grouped);
    proof {
        if spec.alternate && num != 0 {
            assert(body@ =~= seq!['0', tag] + grouped@);
        } else {
            assert(body@ =~= grouped@);
        }
    }
    let padded = maybe_zero_pad_chars(body, spec);
    Ok(text::string_of(&padded))
}

/// Render a value as a binary integer.
pub fn format_binary(value: &Value, spec: &FormatSpec) -> (r: Result<String, Error>)
    ensures
        (match sp_fmt_radix(value@, *spec, 2, false, 'b') {
            Some(t) => r is Ok && r->Ok_0@ == t,
            None => r is Err && r->Err_0 is ConversionError,
        }),
{
    format_radix(value, spec, 2, false, 'b')
}

/// Render a value as an octal integer.
pub fn format_octal(value: &Value, spec: &FormatSpec) -> (r: Result<String, Error>)
    ensures
        (match sp_fmt_radix(value@, *spec, 8, false, 'o') {
            Some(t) => r is Ok && r->Ok_0@ == t,
            None => r is Err && r->Err_0 is ConversionError,
        }),
{
    format_radix(value, spec, 8, false, 'o')
}

/// Render a value as a hexadecimal integer.
pub fn format_hex(value: &Value, spec: &FormatSpec, uppercase: bool) -> (r: Result<String, Error>)
    ensures
        (match sp_fmt_radix(
            value@,
            *spec,
            16,
            uppercase,
            if uppercase {
                'X'
            } else {
                'x'
            },
        ) {
            Some(t) => r is Ok && r->Ok_0@ == t,
            None => r is Err && r->Err_0 is ConversionError,
        }),
{
    if uppercase {
        format_radix(value, spec, 16, true, 'X')
    } else {
        format_radix(value, spec, 16, false, 'x')
    }
}

/// The effective float precision of a spec.
fn float_precision(spec: &FormatSpec) -> (p: usize)
    ensures
        p as nat == sp_float_precision(*spec),
{
    match spec.precision {
        Some(p) => p,
        None => 6,
    }
}

/// The fixed-point digit body of a float at precision `p`: grouped
/// integer digits when asked and a point is present, then the fraction.
fn fixed_body(f: &FloatVal, p: usize, grouping: Option<Grouping>) -> (r: Vec<char>)
    ensures
        ({
            let parts = sp_fixed_digits(f@, p as nat);
            let ichars = sp_digit_chars(parts.0, false);
            let gichars = if p > 0 {
                match grouping {
                    Some(g) => sp_grouped(ichars, char_of_grouping(g), 3),
                    None => ichars,
                }
            } else {
                ichars
            };
            r@ == (if p > 0 {
                gichars + seq!['.'] + sp_digit_chars(parts.1, false)
            } else {
                gichars
            })
        }),
{
    let (ipart, fpart) = f.fixed_parts(p);
    let mut ichars: Vec<char> = Vec::new();
    push_digit_chars(&ipart, false, &mut ichars);
    if p > 0 {
        let mut out = match grouping {
            Some(g) => group_chars(&ichars, g.to_char(), 3),
            None => ichars,
        };
        out.push('.');
        let mut fchars: Vec<char> = Vec::new();
        push_digit_chars(&fpart, false, &mut fchars);
        text::push_all_val(&mut out, &fchars);
        out
    } else {
        ichars
    }
}

/// Render a value in fixed-point notation.
pub fn format_fixed(value: &Value, spec: &FormatSpec) -> (r: Result<String, Error>)
    ensures
        (match sp_fmt_fixed(value@, *spec) {
            Some(t) => r is Ok && r->Ok_0@ == t,
            None => r is Err && r->Err_0 is ConversionError,
        }),
{
    let f = match value.to_float() {
        Ok(f) => f,
        Err(e) => {
            return Err(e);
        },
    };
    let p = float_precision(spec);
    let body = fixed_body(&f, p, spec.grouping);
    let mut out = sign_chars(spec.sign, f.is_strictly_negative());
    text::push_all_val(&mut out, &body);
    let padded = maybe_zero_pad_chars(out, spec);
    Ok(text::string_of(&padded))
}

/// Render a value in general notation: the fixed-point expansion at the
/// precision, without grouping.
pub fn format_general(value: &Value, spec: &FormatSpec) -> (r: Result<String, Error>)
    ensures
        (match sp_fmt_general(value@, *spec) {
            Some(t) => r is Ok && r->Ok_0@ == t,
            None => r is Err && r->Err_0 is ConversionError,
        }),
{
    let f = match value.to_float() {
        Ok(f) => f,
        Err(e) => {
            return Err(e);
        },
    };
    let p = float_precision(spec);
    let body = fixed_body(&f, p, None);
    let mut out = sign_chars(spec.sign, f.is_strictly_negative());
    text::push_all_val(&mut out, &body);
    let padded = maybe_zero_pad_chars(out, spec);
    Ok(text::string_of(&padded))
}

/// The scientific-notation body of a float at precision `p`: one
/// leading mantissa digit, the point and remaining digits when `p` is
/// positive, then the exponent marker and the signed exponent.
#[verifier::rlimit(60)]
fn sci_body(f: &FloatVal, p: usize, upper: bool) -> (r: Vec<char>)
    requires
        p < usize::MAX,
    ensures
        ({
            let me = sp_sci_digits(f@, p as nat);
            let mchars = sp_digit_chars(me.0, false);
            let mm = if p > 0 {
                mchars.take(1) + seq!['.'] + mchars.skip(1)
            } else {
                mchars
            };
            let emark: Seq<char> = if upper {
                seq!['E']
            } else {
                seq!['e']
            };
            let esign: Seq<char> = if me.1 < 0 {
                seq!['-']
            } else {
                Seq::<char>::empty()
            };
            let emag: nat = if me.1 < 0 {
                (-me.1) as nat
            } else {
                me.1 as nat
            };
            r@ == mm + emark + esign + sp_digit_chars(sp_udigits(emag, 10), false)
        }),
{
    let (mant, e) = f.sci_parts(p);
    let mut mchars: Vec<char> = Vec::new();
    push_digit_chars(&mant, false, &mut mchars);
    let mut body: Vec<char> = Vec::new();
    if p > 0 {
        body.push(mchars[0]);
        body.push('.');
        let rest = text::sub_vec(&mchars, 1, mchars.len());
        text::push_all_val(&mut body, &rest);
        proof {
            assert(body@ =~= mchars@.take(1) + seq!['.'] + mchars@.skip(1));
        }
    } else {
        text::push_all_val(&mut body, &mchars);
        proof {
            assert(body@ =~= mchars@);
        }
    }
    body.push(if upper { 'E' } else { 'e' });
    if e < 0 {
        body.push('-');
    }
    let emag: u128 = if e < 0 {
        (-e) as u128
    } else {
        e as u128
    };
    let eds = crate::digits::udigits_u128(emag, 10);
    proof {
        lemma_udigits_in_range(emag as nat, 10);
    }
    push_digit_chars(&eds, false, &mut body);
    proof {
        let me = sp_sci_digits(f@, p as nat);
        let mchars2 = sp_digit_chars(me.0, false);
        let mm = if p > 0 {
            mchars2.take(1) + seq!['.'] + mchars2.skip(1)
        } else {
            mchars2
        };
        assert(body@ =~= mm + (if upper {
            seq!['E']
        } else {
            seq!['e']
        }) + (if me.1 < 0 {
            seq!['-']
        } else {
            Seq::<char>::empty()
        }) + sp_digit_chars(sp_udigits(emag as nat, 10), false));
    }
    body
}

/// Render a value in scientific notation.
#[verifier::rlimit(60)]
#[verifier::spinoff_prover]
pub fn format_exponent(value: &Value, spec: &FormatSpec) -> (r: Result<String, Error>)
    ensures
        ({
            let upper = spec.type_spec == Some(TypeSpec::ExponentUpper);
            match sp_fmt_exponent(value@, *spec, upper) {
                Some(t) => r is Ok && r->Ok_0@ == t,
                None => r is Err && r->Err_0 is ConversionError,
            }
        }),
{
    let f = match value.to_float() {
        Ok(f) => f,
        Err(e) => {
            return Err(e);
        },
    };
    let upper = match spec.type_spec {
        Some(TypeSpec::ExponentUpper) => true,
        _ => false,
    };
    let p = float_precision(spec);
    if p == usize::MAX {
        return Err(Error::ConversionError(String::from_str("precision too large")));
    }
    let body = sci_body(&f, p, upper);
    let mut out = sign_chars(spec.sign, f.is_strictly_negative());
    text::push_all_val(&mut out, &body);
    let padded = maybe_zero_pad_chars(out, spec);
    proof {
        assert(padded@ =~= sp_fmt_exponent(value@, *spec, upper)->0);
    }
    Ok(text::string_of(&padded))
}

/// Render a value as a percentage: a hundred times the value in
/// fixed-point notation with a trailing percent sign.
pub fn format_percentage(value: &Value, spec: &FormatSpec) -> (r: Result<String, Error>)
    ensures
        (match sp_fmt_percentage(value@, *spec) {
            Some(t) => r is Ok && r->Ok_0@ == t,
            None => r is Err && r->Err_0 is ConversionError,
        }),
{
    let f = match value.to_float() {
        Ok(f) => f,
        Err(e) => {
            return Err(e);
        },
    };
    let f100 = f.times_100();
    let p = float_precision(spec);
    let body = fixed_body(&f100, p, None);
    let mut signed = sign_chars(spec.sign, f.is_strictly_negative());
    text::push_all_val(&mut signed, &body);
    let with_pct = if spec.zero_pad && spec.align.is_none() {
        match spec.width {
            Some(w) => {
                if w >= 1 {
                    let mut padded = zero_pad_chars(&signed, w - 1);
                    padded.push('%');
                    padded
                } else {
                    let mut out = signed;
                    out.push('%');
                    out
                }
            },
            None => {
                let mut out = signed;
                out.push('%');
                out
            },
        }
    } else {
        let mut out = signed;
        out.push('%');
        out
    };
    Ok(text::string_of(&with_pct))
}

/// Relies on `char::from_u32`: `Some` exactly for the Unicode scalar
/// values (codepoints outside the surrogate range), returning the
/// character with that value.
#[verifier::external_body]
fn char_from_u32(u: u32) -> (r: Option<char>)
    ensures
        r == (if u < 0xD800 || (0xE000 <= u && u <= 0x10FFFF) {
            Some(u as char)
        } else {
            None::<char>
        }),
{
    char::from_u32(u)
}

/// Render a value as a single character: a character, an integer taken
/// as a Unicode scalar value, or a one-character string.
pub fn format_character(value: &Value) -> (r: Result<String, Error>)
    ensures
        (match sp_fmt_character(value@) {
            Some(t) => r is Ok && r->Ok_0@ == t,
            None => r is Err && r->Err_0 is ConversionError,
        }),
{
    match value {
        Value::Char(c) => {
            let mut out: Vec<char> = Vec::new();
            out.push(*c);
            proof {
                assert(out@ =~= seq![*c]);
            }
            Ok(text::string_of(&out))
        },
        Value::Int(i) => {
            if *i >= 0 && *i <= 0x10FFFF {
                match char_from_u32(*i as u32) {
                    Some(c) => {
                        let mut out: Vec<char> = Vec::new();
                        out.push(c);
                        proof {
                            assert(out@ =~= seq![c]);
                        }
                        Ok(text::string_of(&out))
                    },
                    None => Err(
                        Error::ConversionError(String::from_str("invalid character code")),
                    ),
                }
            } else {
                Err(Error::ConversionError(String::from_str("invalid character code")))
            }
        },
        Value::Str(s) => {
            if s.as_str().unicode_len() == 1 {
                Ok(s.clone())
            } else {
                Err(
                    Error::ConversionError(
                        String::from_str("cannot format this value as character"),
                    ),
                )
            }
        },
        _ => Err(Error::ConversionError(String::from_str("cannot format this value as character"))),
    }
}

} // verus!
