//! Converting captured text back into typed values, using the same
//! format spec that chose the capture's pattern.

use vstd::prelude::*;
use vstd::string::StringExecFns;

use crate::decimal::{FloatVal, sp_float_sign, sp_parse_float, sp_shifted};
use crate::digits::{char_digit, sp_char_digit, sp_digits_to_nat};
use crate::errors::Error;
use crate::fmt_spec::{FormatSpec, TypeSpec, sp_digit_run_end, sp_digits_val};
use crate::text;
use crate::value::{Value, ValueV};

verus! {

/// `t` with every comma and underscore removed.
pub open spec fn sp_remove_seps(t: Seq<char>) -> Seq<char>
    decreases t.len(),
{
    if t.len() == 0 {
        Seq::<char>::empty()
    } else {
        sp_remove_seps(t.drop_last()) + (if t.last() == ',' || t.last() == '_' {
            Seq::<char>::empty()
        } else {
            seq![t.last()]
        })
    }
}

/// `t` with every underscore removed.
pub open spec fn sp_remove_underscores(t: Seq<char>) -> Seq<char>
    decreases t.len(),
{
    if t.len() == 0 {
        Seq::<char>::empty()
    } else {
        sp_remove_underscores(t.drop_last()) + (if t.last() == '_' {
            Seq::<char>::empty()
        } else {
            seq![t.last()]
        })
    }
}

/// `t` with one leading `0a`/`0b`-style radix prefix removed.
pub open spec fn sp_strip_radix_prefix(t: Seq<char>, lo: char, hi: char) -> Seq<char> {
    if t.len() >= 2 && t[0] == '0' && (t[1] == lo || t[1] == hi) {
        t.skip(2)
    } else {
        t
    }
}

/// A signed decimal integer literal: an optional sign, then only
/// digits, at least one, with a value that fits `i64`.
pub open spec fn sp_parse_i64(t: Seq<char>) -> Option<int> {
    let sg = sp_float_sign(t, 0);
    let dend = sp_digit_run_end(t, sg.0);
    if dend != t.len() || dend == sg.0 {
        None
    } else {
        let v = sp_digits_val(t, sg.0, dend);
        let sv: int = if sg.1 {
            -(v as int)
        } else {
            v as int
        };
        if i64::MIN <= sv <= i64::MAX {
            Some(sv)
        } else {
            None
        }
    }
}

/// A signed radix integer literal: an optional sign, then only digits
/// of the base (letter digits in either case), at least one; a
/// non-negative value must fit `u64`, a negative one `i64`.
pub open spec fn sp_parse_radix(t: Seq<char>, base: nat) -> Option<int> {
    let sg = sp_float_sign(t, 0);
    let body = t.skip(sg.0);
    if body.len() == 0 || !(forall|i: int|
        0 <= i < body.len() ==> (#[trigger] sp_char_digit(body[i], base)) is Some) {
        None
    } else {
        let v = sp_digits_to_nat(body.map_values(|c: char| sp_char_digit(c, base)->0), base);
        let sv: int = if sg.1 {
            -(v as int)
        } else {
            v as int
        };
        if i64::MIN <= sv <= u64::MAX {
            Some(sv)
        } else {
            None
        }
    }
}

/// The value a parsed radix literal denotes: a signed integer when it
/// fits, else an unsigned one.
pub open spec fn sp_radix_value(v: int) -> ValueV {
    if v <= i64::MAX {
        ValueV::Int(v)
    } else {
        ValueV::UInt(v)
    }
}

/// The typed value a captured text denotes under a spec: strings as
/// themselves; decimal captures with separators removed; radix captures
/// with their prefix removed (and underscores, for hex); float captures
/// as exact decimals; percentages divided by a hundred; characters as
/// single characters.
pub open spec fn sp_convert(text: Seq<char>, fs: FormatSpec) -> Option<ValueV> {
    let t = match fs.type_spec {
        Some(t) => t,
        None => TypeSpec::String,
    };
    match t {
        TypeSpec::String => Some(ValueV::Str(text)),
        TypeSpec::Decimal | TypeSpec::Number => {
            match sp_parse_i64(sp_remove_seps(text)) {
                Some(v) => Some(ValueV::Int(v)),
                None => None,
            }
        },
        TypeSpec::Binary => {
            match sp_parse_radix(sp_strip_radix_prefix(text, 'b', 'B'), 2) {
                Some(v) => Some(sp_radix_value(v)),
                None => None,
            }
        },
        TypeSpec::Octal => {
            match sp_parse_radix(sp_strip_radix_prefix(text, 'o', 'O'), 8) {
                Some(v) => Some(sp_radix_value(v)),
                None => None,
            }
        },
        TypeSpec::HexLower | TypeSpec::HexUpper => {
            match sp_parse_radix(
                sp_remove_underscores(sp_strip_radix_prefix(text, 'x', 'X')),
                16,
            ) {
                Some(v) => Some(sp_radix_value(v)),
                None => None,
            }
        },
        TypeSpec::FixedLower | TypeSpec::FixedUpper | TypeSpec::ExponentLower
            | TypeSpec::ExponentUpper | TypeSpec::GeneralLower | TypeSpec::GeneralUpper => {
            match sp_parse_float(text) {
                Some(f) => Some(ValueV::Float(f)),
                None => None,
            }
        },
        TypeSpec::Percentage => {
            let core = if text.len() > 0 && text.last() == '%' {
                text.drop_last()
            } else {
                text
            };
            match sp_parse_float(core) {
                Some(f) => Some(ValueV::Float(sp_shifted(f, -2))),
                None => None,
            }
        },
        TypeSpec::Character => if text.len() == 1 {
            Some(ValueV::Char(text[0]))
        } else {
            None
        },
    }
}

/// Remove commas, underscores, or both from a character vector.
#[verifier::loop_isolation(false)]
fn remove_chars(t: &Vec<char>, commas: bool) -> (r: Vec<char>)
    ensures
        commas ==> r@ == sp_remove_seps(t@),
        !commas ==> r@ == sp_remove_underscores(t@),
{
    let mut out: Vec<char> = Vec::new();
    let mut i: usize = 0;
    proof {
        assert(t@.take(0) =~= Seq::<char>::empty());
    }
    while i < t.len()
        invariant
            i <= t@.len(),
            commas ==> out@ == sp_remove_seps(t@.take(i as int)),
            !commas ==> out@ == sp_remove_underscores(t@.take(i as int)),
        decreases t@.len() - i,
    {
        let c = t[i];
        if !(c == '_' || (commas && c == ',')) {
            out.push(c);
        }
        i = i + 1;
        proof {
            assert(t@.take(i as int).drop_last() =~= t@.take(i as int - 1));
            if commas {
                assert(out@ =~= sp_remove_seps(t@.take(i as int)));
            } else {
                assert(out@ =~= sp_remove_underscores(t@.take(i as int)));
            }
        }
    }
    proof {
        assert(t@.take(t@.len() as int) =~= t@);
    }
    out
}

/// The value of the digit run `t[i..j]` as a wide unsigned integer, or
/// `None` when it does not fit.
#[verifier::loop_isolation(false)]
fn digits_value_u64(t: &Vec<char>, i: usize, j: usize) -> (r: Option<u64>)
    requires
        i <= j <= t@.len(),
        forall|k: int| i <= k < j ==> crate::fmt_spec::is_dec_digit(t@[k]),
    ensures
        (match r {
            Some(v) => v as nat == sp_digits_val(t@, i as int, j as int),
            None => sp_digits_val(t@, i as int, j as int) > u64::MAX,
        }),
{
    let mut acc: u64 = 0;
    let mut k = i;
    while k < j
        invariant
            i <= k <= j,
            acc as nat == sp_digits_val(t@, i as int, k as int),
        decreases j - k,
    {
        let d = ((t[k] as u32) - 48) as u64;
        let stepped = match acc.checked_mul(10) {
            Some(m) => m.checked_add(d),
            None => None,
        };
        match stepped {
            Some(v) => {
                acc = v;
                k = k + 1;
            },
            None => {
                proof {
                    assert(sp_digits_val(t@, i as int, k as int + 1) == acc as nat * 10
                        + crate::fmt_spec::dec_digit_val(t@[k as int]));
                    crate::fmt_spec::lemma_digits_val_mono(t@, i as int, k as int + 1, j as int);
                }
                return None;
            },
        }
    }
    Some(acc)
}

/// Parse a signed decimal integer literal.
#[verifier::loop_isolation(false)]
fn parse_i64_chars(t: &Vec<char>) -> (r: Option<i64>)
    ensures
        (match sp_parse_i64(t@) {
            Some(v) => r is Some && r->0 as int == v,
            None => r is None,
        }),
{
    let mut pos: usize = 0;
    let mut neg = false;
    if t.len() > 0 && t[0] == '-' {
        neg = true;
        pos = 1;
    } else if t.len() > 0 && t[0] == '+' {
        pos = 1;
    }
    proof {
        assert((pos as int, neg) == sp_float_sign(t@, 0));
    }
    let dend = crate::fmt_spec::digit_run_end(&t, pos);
    if dend != t.len() || dend == pos {
        return None;
    }
    let v = match digits_value_u64(&t, pos, dend) {
        Some(v) => v,
        None => {
            return None;
        },
    };
    if neg {
        if v <= 0x8000_0000_0000_0000u64 {
            Some((-(v as i128)) as i64)
        } else {
            None
        }
    } else {
        if v <= i64::MAX as u64 {
            Some(v as i64)
        } else {
            None
        }
    }
}

/// Parse a signed radix integer literal.
#[verifier::loop_isolation(false)]
fn parse_radix_chars(t: &Vec<char>, base: u64) -> (r: Option<i128>)
    requires
        2 <= base <= 16,
    ensures
        (match sp_parse_radix(t@, base as nat) {
            Some(v) => r is Some && r->0 as int == v,
            None => r is None,
        }),
{
    let mut pos: usize = 0;
    let mut neg = false;
    if t.len() > 0 && t[0] == '-' {
        neg = true;
        pos = 1;
    } else if t.len() > 0 && t[0] == '+' {
        pos = 1;
    }
    proof {
        assert((pos as int, neg) == sp_float_sign(t@, 0));
    }
    let ghost body = t@.skip(pos as int);
    if pos >= t.len() {
        return None;
    }
    // collect the digit values; any invalid character fails
    let mut ds: Vec<u8> = Vec::new();
    let mut i = pos;
    proof {
        assert(body.take(0) =~= Seq::<char>::empty());
    }
    while i < t.len()
        invariant
            pos <= i <= t@.len(),
            ds@.len() == i - pos,
            forall|k: int|
                0 <= k < ds@.len() ==> (#[trigger] sp_char_digit(body[k], base as nat)) is Some
                    && ds@[k] == sp_char_digit(body[k], base as nat)->0,
            forall|k: int| 0 <= k < ds@.len() ==> #[trigger] ds@[k] < base,
        decreases t@.len() - i,
    {
        match char_digit(t[i], base) {
            Some(d) => {
                ds.push(d);
                proof {
                    assert(body[i - pos] == t@[i as int]);
                }
            },
            None => {
                proof {
                    assert(sp_char_digit(body[i - pos], base as nat) is None);
                }
                return None;
            },
        }
        i = i + 1;
    }
    proof {
        assert(ds@ =~= body.map_values(|c: char| sp_char_digit(c, base as nat)->0));
    }
    let v = match crate::digits::digits_to_u64(&ds, base) {
        Some(v) => v,
        None => {
            return None;
        },
    };
    if neg {
        if v <= 0x8000_0000_0000_0000u64 {
            Some(-(v as i128))
        } else {
            None
        }
    } else {
        Some(v as i128)
    }
}

/// The value a parsed radix literal denotes: a signed integer when it
/// fits, else an unsigned one.
fn radix_value(v: i128) -> (r: Value)
    requires
        i64::MIN <= v <= u64::MAX,
    ensures
        r@ == sp_radix_value(v as int),
{
    if v <= i64::MAX as i128 {
        Value::Int(v as i64)
    } else {
        Value::UInt(v as u64)
    }
}

/// Strip one leading radix prefix (`0` followed by either tag letter).
fn strip_radix_prefix(t: &Vec<char>, lo: char, hi: char) -> (r: Vec<char>)
    ensures
        r@ == sp_strip_radix_prefix(t@, lo, hi),
{
    if t.len() >= 2 && t[0] == '0' && (t[1] == lo || t[1] == hi) {
        let r = text::sub_vec(t, 2, t.len());
        proof {
            assert(r@ =~= t@.skip(2));
        }
        r
    } else {
        text::sub_vec(t, 0, t.len())
    }
}

/// Convert a captured string to a typed value using the format spec
/// that chose the capture's pattern.
pub fn convert_value(text_in: &str, spec: &FormatSpec) -> (r: Result<Value, Error>)
    ensures
        (match sp_convert(text_in@, *spec) {
            Some(v) => r is Ok && r->Ok_0@ == v,
            None => r is Err && r->Err_0 is ConversionError,
        }),
{
    let t = match spec.type_spec {
        Some(t) => t,
        None => TypeSpec::String,
    };
    let cs = text::chars_of(text_in);
    match t {
        TypeSpec::String => Ok(Value::Str(String::from_str(text_in))),
        TypeSpec::Decimal | TypeSpec::Number => {
            let cleaned = remove_chars(&cs, true);
            match parse_i64_chars(&cleaned) {
                Some(v) => Ok(Value::Int(v)),
                None => Err(
                    Error::ConversionError(String::from_str("failed to parse integer")),
                ),
            }
        },
        TypeSpec::Binary => {
            let body = strip_radix_prefix(&cs, 'b', 'B');
            match parse_radix_chars(&body, 2) {
                Some(v) => Ok(radix_value(v)),
                None => Err(Error::ConversionError(String::from_str("failed to parse binary"))),
            }
        },
        TypeSpec::Octal => {
            let body = strip_radix_prefix(&cs, 'o', 'O');
            match parse_radix_chars(&body, 8) {
                Some(v) => Ok(radix_value(v)),
                None => Err(Error::ConversionError(String::from_str("failed to parse octal"))),
            }
        },
        TypeSpec::HexLower | TypeSpec::HexUpper => {
            let stripped = strip_radix_prefix(&cs, 'x', 'X');
            let body = remove_chars(&stripped, false);
            match parse_radix_chars(&body, 16) {
                Some(v) => Ok(radix_value(v)),
                None => Err(Error::ConversionError(String::from_str("failed to parse hex"))),
            }
        },
        TypeSpec::FixedLower | TypeSpec::FixedUpper | TypeSpec::ExponentLower
            | TypeSpec::ExponentUpper | TypeSpec::GeneralLower | TypeSpec::GeneralUpper => {
            match FloatVal::from_text(text_in) {
                Ok(f) => Ok(Value::Float(f)),
                Err(e) => Err(e),
            }
        },
        TypeSpec::Percentage => {
            let core = if cs.len() > 0 && cs[cs.len() - 1] == '%' {
                text::sub_vec(&cs, 0, cs.len() - 1)
            } else {
                text::sub_vec(&cs, 0, cs.len())
            };
            proof {
                assert(core@ =~= (if text_in@.len() > 0 && text_in@.last() == '%' {
                    text_in@.drop_last()
                } else {
                    text_in@
                }));
            }
            let core_str = text::string_of(&core);
            match FloatVal::from_text(core_str.as_str()) {
                Ok(f) => Ok(Value::Float(f.div_100())),
                Err(e) => Err(e),
            }
        },
        TypeSpec::Character => {
            if cs.len() == 1 {
                Ok(Value::Char(cs[0]))
            } else {
                Err(
                    Error::ConversionError(
                        String::from_str("expected a single captured character"),
                    ),
                )
            }
        },
    }
}

} // verus!
