//! Inversion laws: the value conversion applied to a writer's output
//! recovers the value that was formatted.

use vstd::prelude::*;

use crate::convert::{
    sp_convert, sp_parse_i64, sp_parse_radix, sp_radix_value, sp_remove_seps,
    sp_strip_radix_prefix,
};
use crate::decimal::{sp_float_sign, sp_mag_i64};
use crate::digits::{
    sp_char_digit, sp_digit_char, sp_digit_chars, sp_digits_in_range, sp_digits_to_nat,
    sp_udigits, lemma_digit_char_roundtrip, lemma_udigits_in_range, lemma_udigits_roundtrip,
};
use crate::fmt_spec::{
    FormatSpec, Sign, TypeSpec, char_of_grouping, is_dec_digit, sp_digit_run_end,
    sp_digits_val,
};
use crate::value::ValueV;
use crate::writers::{sp_fmt_decimal, sp_fmt_radix, sp_grouped, sp_group_take, sp_sign_prefix};

verus! {

/// Separator removal distributes over concatenation.
proof fn lemma_remove_seps_concat(a: Seq<char>, b: Seq<char>)
    ensures
        sp_remove_seps(a + b) == sp_remove_seps(a) + sp_remove_seps(b),
    decreases b.len(),
{
    if b.len() == 0 {
        assert(a + b =~= a);
        assert(sp_remove_seps(a) + Seq::<char>::empty() =~= sp_remove_seps(a));
    } else {
        lemma_remove_seps_concat(a, b.drop_last());
        assert((a + b).drop_last() =~= a + b.drop_last());
        assert((a + b).last() == b.last());
        if b.last() == ',' || b.last() == '_' {
            assert(sp_remove_seps(a + b) =~= sp_remove_seps(a) + sp_remove_seps(b));
        } else {
            assert(sp_remove_seps(a + b) =~= sp_remove_seps(a) + sp_remove_seps(b));
        }
    }
}

/// Text without separators is unchanged by separator removal.
proof fn lemma_remove_seps_clean(s: Seq<char>)
    requires
        forall|i: int| 0 <= i < s.len() ==> s[i] != ',' && s[i] != '_',
    ensures
        sp_remove_seps(s) == s,
    decreases s.len(),
{
    if s.len() > 0 {
        lemma_remove_seps_clean(s.drop_last());
        assert(sp_remove_seps(s) =~= s);
    } else {
        assert(sp_remove_seps(s) =~= s);
    }
}

/// Digit characters are plain ASCII digits, not separators.
proof fn lemma_digit_chars_plain(ds: Seq<u8>, upper: bool)
    requires
        sp_digits_in_range(ds, 10),
    ensures
        forall|i: int|
            0 <= i < sp_digit_chars(ds, upper).len() ==> is_dec_digit(
                #[trigger] sp_digit_chars(ds, upper)[i],
            ) && sp_digit_chars(ds, upper)[i] != ',' && sp_digit_chars(ds, upper)[i] != '_',
        sp_digit_chars(ds, upper).len() == ds.len(),
{
    assert forall|i: int| 0 <= i < sp_digit_chars(ds, upper).len() implies is_dec_digit(
        sp_digit_chars(ds, upper)[i],
    ) && sp_digit_chars(ds, upper)[i] != ',' && sp_digit_chars(ds, upper)[i] != '_' by {
        assert(sp_digit_chars(ds, upper)[i] == sp_digit_char(ds[i] as nat, upper));
        assert(ds[i] < 10);
    }
}

/// Removing separators from a grouped digit string recovers the
/// ungrouped digits.
proof fn lemma_remove_seps_group_take(s: Seq<char>, sep: char, k: nat, i: int)
    requires
        k >= 1,
        0 <= i <= s.len(),
        sep == ',' || sep == '_',
        forall|t: int| 0 <= t < s.len() ==> s[t] != ',' && s[t] != '_',
    ensures
        sp_remove_seps(sp_group_take(s, sep, k, i)) == s.take(i),
    decreases i,
{
    if i <= 0 {
        assert(sp_remove_seps(sp_group_take(s, sep, k, i)) =~= s.take(i));
    } else {
        lemma_remove_seps_group_take(s, sep, k, i - 1);
        let mid: Seq<char> = if i - 1 > 0 && (s.len() - (i - 1)) % (k as int) == 0 {
            seq![sep]
        } else {
            Seq::<char>::empty()
        };
        lemma_remove_seps_concat(sp_group_take(s, sep, k, i - 1), mid);
        lemma_remove_seps_concat(sp_group_take(s, sep, k, i - 1) + mid, seq![s[i - 1]]);
        assert(sp_remove_seps(Seq::<char>::empty()) =~= Seq::<char>::empty());
        assert(seq![sep].drop_last() =~= Seq::<char>::empty());
        assert(seq![s[i - 1]].drop_last() =~= Seq::<char>::empty());
        assert(sp_remove_seps(mid) =~= Seq::<char>::empty());
        assert(sp_remove_seps(seq![s[i - 1]]) =~= seq![s[i - 1]]);
        assert(sp_remove_seps(sp_group_take(s, sep, k, i)) =~= s.take(i));
    }
}

/// A run of digit characters runs to the end.
proof fn lemma_digit_run_all(s: Seq<char>, i: int)
    requires
        0 <= i <= s.len(),
        forall|t: int| i <= t < s.len() ==> is_dec_digit(s[t]),
    ensures
        sp_digit_run_end(s, i) == s.len(),
    decreases s.len() - i,
{
    if i < s.len() {
        lemma_digit_run_all(s, i + 1);
    }
}

/// The value of a digit-character run equals the value of the digits it
/// renders, wherever the run stands in the surrounding text.
proof fn lemma_digits_val_chars(s: Seq<char>, i: int, ds: Seq<u8>)
    requires
        sp_digits_in_range(ds, 10),
        0 <= i,
        i + ds.len() <= s.len(),
        forall|t: int| 0 <= t < ds.len() ==> s[i + t] == sp_digit_char(ds[t] as nat, false),
    ensures
        sp_digits_val(s, i, i + ds.len()) == sp_digits_to_nat(ds, 10),
    decreases ds.len(),
{
    if ds.len() > 0 {
        lemma_digits_val_chars(s, i, ds.drop_last());
        assert(s[i + ds.len() - 1] == sp_digit_char(ds.last() as nat, false));
    }
}

/// Grouped digit text holds only digits and the separator.
proof fn lemma_group_take_chars(s: Seq<char>, sep: char, k: nat, i: int)
    requires
        k >= 1,
        0 <= i <= s.len(),
        forall|t: int| 0 <= t < s.len() ==> is_dec_digit(s[t]),
    ensures
        forall|t: int|
            0 <= t < sp_group_take(s, sep, k, i).len() ==> (#[trigger] sp_group_take(
                s,
                sep,
                k,
                i,
            )[t] == sep || is_dec_digit(sp_group_take(s, sep, k, i)[t])),
    decreases i,
{
    if i > 0 {
        lemma_group_take_chars(s, sep, k, i - 1);
        let prev = sp_group_take(s, sep, k, i - 1);
        assert forall|t: int| 0 <= t < sp_group_take(s, sep, k, i).len() implies (sp_group_take(
            s,
            sep,
            k,
            i,
        )[t] == sep || is_dec_digit(sp_group_take(s, sep, k, i)[t])) by {
            if t < prev.len() {
                assert(sp_group_take(s, sep, k, i)[t] == prev[t]);
            }
        }
    }
}

/// A run of zero characters is worth nothing.
proof fn lemma_digits_val_all_zero(s: Seq<char>, i: int, m: int)
    requires
        0 <= i <= m,
        forall|t: int| i <= t < m ==> s[t] == '0',
    ensures
        sp_digits_val(s, i, m) == 0,
    decreases m - i,
{
    if i < m {
        lemma_digits_val_all_zero(s, i, m - 1);
    }
}

/// Zero characters in front of a digit run leave its value unchanged.
proof fn lemma_digits_val_zero_prefix(s: Seq<char>, i: int, m: int, j: int)
    requires
        0 <= i <= m <= j,
        forall|t: int| i <= t < m ==> s[t] == '0',
    ensures
        sp_digits_val(s, i, j) == sp_digits_val(s, m, j),
    decreases j - m,
{
    if j <= m {
        lemma_digits_val_all_zero(s, i, j);
    } else {
        lemma_digits_val_zero_prefix(s, i, m, j - 1);
    }
}

/// Formatting a signed integer as a decimal and converting the text
/// back recovers the integer exactly, for every sign option other than
/// the blank sign, with or without grouping and zero padding. Grouping
/// separators and padding zeros are absorbed by the inverse.
#[verifier::rlimit(100)]
#[verifier::spinoff_prover]
pub proof fn lemma_decimal_roundtrip(n: i64, fs: FormatSpec)
    requires
        fs.type_spec == Some(TypeSpec::Decimal),
        fs.sign != Some(Sign::Space),
    ensures
        sp_fmt_decimal(ValueV::Int(n as int), fs) is Some,
        sp_convert(sp_fmt_decimal(ValueV::Int(n as int), fs)->0, fs) == Some(
            ValueV::Int(n as int),
        ),
{
    let mag = sp_mag_i64(n as int);
    let ds = sp_udigits(mag, 10);
    lemma_udigits_in_range(mag, 10);
    lemma_udigits_roundtrip(mag, 10);
    let digits = sp_digit_chars(ds, false);
    lemma_digit_chars_plain(ds, false);
    let grouped: Seq<char> = match fs.grouping {
        Some(g) => sp_grouped(digits, char_of_grouping(g), 3),
        None => digits,
    };
    let sign = sp_sign_prefix(fs.sign, n < 0);
    let signed = sign + grouped;
    let rendered = crate::writers::sp_maybe_zero_pad(signed, fs);
    assert(sp_fmt_decimal(ValueV::Int(n as int), fs) == Some(rendered));

    // zero padding inserts zeros between the sign and the digits
    let zeros: Seq<char> = rendered.subrange(
        sign.len() as int,
        sign.len() + (rendered.len() - signed.len()),
    );
    assert(rendered =~= sign + zeros + grouped && forall|t: int|
        0 <= t < zeros.len() ==> zeros[t] == '0') by {
        if rendered =~= signed {
            assert(zeros =~= Seq::<char>::empty());
        } else {
            // padding was applied: the prefix is exactly the sign,
            // since grouped digit text holds no sign or radix marker
            match fs.grouping {
                Some(g) => {
                    lemma_group_take_chars(
                        digits,
                        char_of_grouping(g),
                        3,
                        digits.len() as int,
                    );
                },
                None => {},
            }
            assert(forall|t: int|
                0 <= t < grouped.len() ==> (#[trigger] grouped[t] == ',' || grouped[t] == '_'
                    || is_dec_digit(grouped[t])));
            let pl = crate::writers::sp_prefix_len(signed);
            assert(pl == sign.len()) by {
                if sign.len() > 0 {
                    assert(signed[0] == sign[0]);
                } else {
                    if signed.len() >= 1 {
                        assert(signed[0] == grouped[0]);
                    }
                    if signed.len() >= 2 {
                        assert(signed[1] == grouped[1]);
                    }
                }
            }
            assert(signed.take(pl) =~= sign);
            assert(signed.skip(pl) =~= grouped);
        }
    }

    // separator removal leaves the sign and padding, and recovers the
    // plain digits
    lemma_remove_seps_concat(sign + zeros, grouped);
    lemma_remove_seps_concat(sign, zeros);
    lemma_remove_seps_clean(sign);
    lemma_remove_seps_clean(zeros);
    match fs.grouping {
        Some(g) => {
            lemma_remove_seps_group_take(digits, char_of_grouping(g), 3, digits.len() as int);
            assert(digits.take(digits.len() as int) =~= digits);
        },
        None => {
            lemma_remove_seps_clean(digits);
        },
    }
    let cleaned = sp_remove_seps(rendered);
    assert(cleaned =~= sign + zeros + digits) by {
        assert(sp_remove_seps(rendered) == sp_remove_seps((sign + zeros) + grouped)) by {
            assert(rendered =~= (sign + zeros) + grouped);
        }
    }

    // the cleaned text parses back to the same integer
    let sg = sp_float_sign(cleaned, 0);
    assert(sg.0 == sign.len() && sg.1 == (n < 0)) by {
        if sign.len() > 0 {
            assert(cleaned[0] == sign[0]);
        } else {
            if cleaned.len() > 0 && zeros.len() > 0 {
                assert(cleaned[0] == zeros[0]);
            } else if cleaned.len() > 0 {
                assert(cleaned[0] == digits[0]);
            }
        }
    }
    assert(forall|t: int|
        sign.len() <= t < cleaned.len() ==> is_dec_digit(#[trigger] cleaned[t])) by {
        assert(forall|t: int|
            sign.len() <= t < sign.len() + zeros.len() ==> #[trigger] cleaned[t] == '0');
        assert(forall|t: int|
            sign.len() + zeros.len() <= t < cleaned.len() ==> #[trigger] cleaned[t] == digits[t
                - sign.len() - zeros.len()]);
        assert(is_dec_digit('0'));
    }
    lemma_digit_run_all(cleaned, sign.len() as int);
    lemma_digits_val_zero_prefix(
        cleaned,
        sign.len() as int,
        sign.len() as int + zeros.len() as int,
        cleaned.len() as int,
    );
    assert(forall|t: int|
        0 <= t < ds.len() ==> cleaned[sign.len() + zeros.len() + t] == sp_digit_char(
            ds[t] as nat,
            false,
        ));
    lemma_digits_val_chars(cleaned, sign.len() as int + zeros.len() as int, ds);
    assert(sp_digits_val(cleaned, sg.0, cleaned.len() as int) == mag);
    assert(sp_parse_i64(cleaned) == Some(n as int));
}

/// Radix digit characters map back to the digit values they render.
proof fn lemma_radix_chars_map_back(ds: Seq<u8>, base: nat, upper: bool)
    requires
        2 <= base <= 16,
        sp_digits_in_range(ds, base),
    ensures
        forall|i: int|
            0 <= i < ds.len() ==> (#[trigger] sp_char_digit(
                sp_digit_chars(ds, upper)[i],
                base,
            )) == Some(ds[i]),
        sp_digit_chars(ds, upper).map_values(|c: char| sp_char_digit(c, base)->0) =~= ds,
{
    assert forall|i: int| 0 <= i < ds.len() implies (#[trigger] sp_char_digit(
        sp_digit_chars(ds, upper)[i],
        base,
    )) == Some(ds[i]) by {
        assert(sp_digit_chars(ds, upper)[i] == sp_digit_char(ds[i] as nat, upper));
        lemma_digit_char_roundtrip(ds[i] as nat, upper, base);
    }
}

/// All-zero digits are worth nothing.
proof fn lemma_to_nat_all_zero(z: Seq<u8>, base: nat)
    requires
        forall|t: int| 0 <= t < z.len() ==> z[t] == 0,
    ensures
        sp_digits_to_nat(z, base) == 0,
    decreases z.len(),
{
    if z.len() > 0 {
        assert(forall|t: int| 0 <= t < z.drop_last().len() ==> z.drop_last()[t] == 0);
        lemma_to_nat_all_zero(z.drop_last(), base);
        let x = sp_digits_to_nat(z.drop_last(), base);
        assert(x * base == 0) by (nonlinear_arith)
            requires
                x == 0,
        ;
    }
}

/// Zero digits in front of a digit sequence leave its value unchanged.
proof fn lemma_to_nat_zero_prefix(z: Seq<u8>, ds: Seq<u8>, base: nat)
    requires
        forall|t: int| 0 <= t < z.len() ==> z[t] == 0,
    ensures
        sp_digits_to_nat(z + ds, base) == sp_digits_to_nat(ds, base),
    decreases ds.len(),
{
    if ds.len() == 0 {
        assert(z + ds =~= z);
        lemma_to_nat_all_zero(z, base);
    } else {
        assert((z + ds).drop_last() =~= z + ds.drop_last());
        lemma_to_nat_zero_prefix(z, ds.drop_last(), base);
        assert((z + ds).last() == ds.last());
    }
}

/// Formatting any unsigned integer in a radix (binary, octal or hex in
/// either case) and converting the text back recovers the integer
/// exactly, with or without the alternate-form prefix and zero padding,
/// without grouping: as a signed value when it fits, else unsigned.
pub proof fn lemma_radix_roundtrip(n: u64, fs: FormatSpec)
    requires
        (fs.type_spec == Some(TypeSpec::Binary) || fs.type_spec == Some(TypeSpec::Octal)
            || fs.type_spec == Some(TypeSpec::HexLower) || fs.type_spec == Some(
            TypeSpec::HexUpper,
        )),
        fs.grouping is None,
    ensures
        ({
            let base: nat = if fs.type_spec == Some(TypeSpec::Binary) {
                2
            } else if fs.type_spec == Some(TypeSpec::Octal) {
                8
            } else {
                16
            };
            let upper = fs.type_spec == Some(TypeSpec::HexUpper);
            let tag: char = if fs.type_spec == Some(TypeSpec::Binary) {
                'b'
            } else if fs.type_spec == Some(TypeSpec::Octal) {
                'o'
            } else if upper {
                'X'
            } else {
                'x'
            };
            let rendered = sp_fmt_radix(ValueV::UInt(n as int), fs, base, upper, tag);
            rendered is Some && sp_convert(rendered->0, fs) == Some(sp_radix_value(n as int))
        }),
{
    if fs.type_spec == Some(TypeSpec::Binary) {
        lemma_radix_roundtrip_core(n, fs, 2, false, 'b', 'b', 'B', false);
    } else if fs.type_spec == Some(TypeSpec::Octal) {
        lemma_radix_roundtrip_core(n, fs, 8, false, 'o', 'o', 'O', false);
    } else if fs.type_spec == Some(TypeSpec::HexUpper) {
        lemma_radix_roundtrip_core(n, fs, 16, true, 'X', 'x', 'X', true);
    } else {
        lemma_radix_roundtrip_core(n, fs, 16, false, 'x', 'x', 'X', true);
    }
}

/// The radix rendering, stripped of its prefix (and of underscores when
/// asked), parses back to the value, whatever zero padding was applied.
#[verifier::rlimit(100)]
#[verifier::spinoff_prover]
proof fn lemma_radix_roundtrip_core(
    n: u64,
    fs: FormatSpec,
    base: nat,
    upper: bool,
    tag: char,
    lo: char,
    hi: char,
    unders: bool,
)
    requires
        2 <= base <= 16,
        fs.grouping is None,
        crate::writers::is_radix_tag(tag),
        tag == lo || tag == hi,
        forall|d: nat| d < base ==> #[trigger] sp_digit_char(d, upper) != lo,
        forall|d: nat| d < base ==> #[trigger] sp_digit_char(d, upper) != hi,
    ensures
        ({
            let ds = sp_udigits(n as nat, base);
            let digits = sp_digit_chars(ds, upper);
            let body = if fs.alternate && n != 0 {
                seq!['0', tag] + digits
            } else {
                digits
            };
            let rendered = crate::writers::sp_maybe_zero_pad(body, fs);
            let stripped = sp_strip_radix_prefix(rendered, lo, hi);
            let cleaned = if unders {
                crate::convert::sp_remove_underscores(stripped)
            } else {
                stripped
            };
            sp_parse_radix(cleaned, base) == Some(n as int)
        }),
{
    let ds = sp_udigits(n as nat, base);
    lemma_udigits_in_range(n as nat, base);
    lemma_udigits_roundtrip(n as nat, base);
    if n >= 1 {
        crate::digits::lemma_udigits_no_leading_zero(n as nat, base);
    }
    let digits = sp_digit_chars(ds, upper);
    let body = if fs.alternate && n != 0 {
        seq!['0', tag] + digits
    } else {
        digits
    };
    let rendered = crate::writers::sp_maybe_zero_pad(body, fs);
    lemma_radix_chars_map_back(ds, base, upper);

    // zero padding inserts zeros after the radix prefix, when one is
    // there; the prefix length is never mistaken, since a digit string
    // without spare leading zeros cannot look like a prefix
    let prefix: Seq<char> = if fs.alternate && n != 0 {
        seq!['0', tag]
    } else {
        Seq::<char>::empty()
    };
    let zeros: Seq<char> = rendered.subrange(
        prefix.len() as int,
        prefix.len() + (rendered.len() - body.len()),
    );
    assert(rendered =~= prefix + zeros + digits && forall|t: int|
        0 <= t < zeros.len() ==> zeros[t] == '0') by {
        if rendered =~= body {
            assert(zeros =~= Seq::<char>::empty());
        } else {
            let pl = crate::writers::sp_prefix_len(body);
            assert(pl == prefix.len()) by {
                if fs.alternate && n != 0 {
                    assert(body[0] == '0' && body[1] == tag);
                } else {
                    if body.len() >= 1 {
                        assert(body[0] == sp_digit_char(ds[0] as nat, upper));
                    }
                    if body.len() >= 2 {
                        assert(body[0] != '0');
                    }
                }
            }
            assert(body.take(pl) =~= prefix);
            assert(body.skip(pl) =~= digits);
        }
    }

    // the prefix, when present, is stripped exactly; padded digit text
    // never looks like a prefix of its own base
    let padded_digits = zeros + digits;
    let stripped = sp_strip_radix_prefix(rendered, lo, hi);
    assert(stripped =~= padded_digits) by {
        if fs.alternate && n != 0 {
            assert(rendered[0] == '0' && rendered[1] == tag);
        } else {
            assert(rendered =~= padded_digits);
            if rendered.len() >= 2 && rendered[0] == '0' && (rendered[1] == lo || rendered[1]
                == hi) {
                if zeros.len() >= 2 {
                    assert(rendered[1] == zeros[1]);
                    assert(zeros[1] == '0');
                    assert(sp_digit_char(0, upper) == '0');
                } else if zeros.len() == 1 {
                    assert(rendered[1] == digits[0]);
                    assert(digits[0] == sp_digit_char(ds[0] as nat, upper));
                } else {
                    assert(rendered[1] == digits[1]);
                    assert(digits[1] == sp_digit_char(ds[1] as nat, upper));
                    assert(rendered[0] == digits[0]);
                    assert(digits[0] == sp_digit_char(ds[0] as nat, upper));
                    // a leading zero digit would mean the whole value is
                    // zero, which renders as a single digit
                    assert(ds[0] != 0 || ds.len() == 1);
                }
                assert(false);
            }
        }
    }
    let cleaned = if unders {
        crate::convert::sp_remove_underscores(stripped)
    } else {
        stripped
    };
    assert(cleaned =~= padded_digits) by {
        if unders {
            assert(forall|t: int| 0 <= t < padded_digits.len() ==> #[trigger] padded_digits[t]
                != '_') by {
                assert(forall|t: int|
                    0 <= t < digits.len() ==> #[trigger] digits[t] == sp_digit_char(
                        ds[t] as nat,
                        upper,
                    ));
            }
            lemma_remove_underscores_clean(padded_digits);
        }
    }

    // the digit text parses back to the same value
    lemma_parse_radix_padded(ds, base, upper, zeros.len());
    assert(cleaned == Seq::new(zeros.len(), |t: int| '0') + sp_digit_chars(ds, upper)) by {
        assert(cleaned =~= Seq::new(zeros.len(), |t: int| '0') + sp_digit_chars(ds, upper));
    }
    assert(sp_parse_radix(cleaned, base) == Some(n as int));
}

/// Zero characters followed by rendered radix digits parse back to the
/// digits' value.
#[verifier::rlimit(100)]
#[verifier::spinoff_prover]
proof fn lemma_parse_radix_padded(ds: Seq<u8>, base: nat, upper: bool, zcount: nat)
    requires
        2 <= base <= 16,
        sp_digits_in_range(ds, base),
        ds.len() >= 1,
        sp_digits_to_nat(ds, base) <= u64::MAX,
    ensures
        ({
            let cleaned = Seq::new(zcount, |t: int| '0') + sp_digit_chars(ds, upper);
            sp_parse_radix(cleaned, base) == Some(sp_digits_to_nat(ds, base) as int)
        }),
{
    let zeros = Seq::new(zcount, |t: int| '0');
    let digits = sp_digit_chars(ds, upper);
    let cleaned = zeros + digits;
    lemma_radix_chars_map_back(ds, base, upper);
    let sg = sp_float_sign(cleaned, 0);
    assert(sg.0 == 0 && !sg.1) by {
        if cleaned.len() > 0 && zcount > 0 {
            assert(cleaned[0] == '0');
        } else if cleaned.len() > 0 {
            assert(cleaned[0] == digits[0]);
            assert(digits[0] == sp_digit_char(ds[0] as nat, upper));
        }
    }
    assert(cleaned.skip(0) =~= cleaned);
    let zs: Seq<u8> = Seq::new(zcount, |t: int| 0u8);
    assert(cleaned.map_values(|c: char| sp_char_digit(c, base)->0) =~= zs + ds) by {
        assert(forall|t: int|
            0 <= t < zcount ==> #[trigger] cleaned[t] == '0' && sp_char_digit('0', base) == Some(
                0u8,
            ));
        assert(forall|t: int|
            0 <= t < ds.len() ==> #[trigger] cleaned[zcount + t] == sp_digit_char(
                ds[t] as nat,
                upper,
            ));
    }
    assert(forall|i: int|
        0 <= i < cleaned.len() ==> (#[trigger] sp_char_digit(cleaned[i], base)) is Some) by {
        assert(forall|t: int| 0 <= t < zcount ==> #[trigger] cleaned[t] == '0');
        assert(forall|t: int|
            0 <= t < ds.len() ==> #[trigger] cleaned[zcount + t] == sp_digit_char(
                ds[t] as nat,
                upper,
            ));
    }
    lemma_to_nat_zero_prefix(zs, ds, base);
}

/// Zero padding splits into the prefix, a run of zeros, and the rest.
proof fn lemma_zero_pad_decompose(body: Seq<char>, fs: FormatSpec, pl: int)
    requires
        0 <= pl <= body.len(),
        crate::writers::sp_prefix_len(body) == pl,
    ensures
        ({
            let r = crate::writers::sp_maybe_zero_pad(body, fs);
            let zeros = r.subrange(pl, pl + r.len() - body.len());
            r.len() >= body.len() && r =~= body.take(pl) + zeros + body.skip(pl) && (forall|t: int|
                0 <= t < zeros.len() ==> zeros[t] == '0')
        }),
{
    let r = crate::writers::sp_maybe_zero_pad(body, fs);
    if r == body {
        assert(r.subrange(pl, pl + r.len() - body.len()) =~= Seq::<char>::empty());
        assert(r =~= body.take(pl) + r.subrange(pl, pl + r.len() - body.len()) + body.skip(pl));
    }
}

/// Zero digits in front of a digit sequence strip away with the other
/// leading zeros.
proof fn lemma_strip_leading_zero_prefix(z: Seq<u8>, a: Seq<u8>)
    requires
        forall|t: int| 0 <= t < z.len() ==> z[t] == 0,
    ensures
        crate::decimal::sp_strip_leading(z + a) == crate::decimal::sp_strip_leading(a),
    decreases z.len(),
{
    if z.len() == 0 {
        assert(z + a =~= a);
    } else {
        let whole = z + a;
        if whole.len() > 1 {
            assert(whole[0] == 0);
            assert(whole.skip(1) =~= z.skip(1) + a);
            assert(forall|t: int| 0 <= t < z.skip(1).len() ==> z.skip(1)[t] == 0);
            lemma_strip_leading_zero_prefix(z.skip(1), a);
        } else {
            // a single leading zero: both sides strip to a lone zero
            assert(z =~= seq![0u8]);
            assert(a =~= Seq::<u8>::empty());
            assert(whole =~= seq![0u8]);
        }
    }
}

/// A run of digit characters ends exactly where the digits end.
proof fn lemma_digit_run_until(s: Seq<char>, i: int, j: int)
    requires
        0 <= i <= j <= s.len(),
        forall|t: int| i <= t < j ==> is_dec_digit(s[t]),
        j == s.len() || !is_dec_digit(s[j]),
    ensures
        sp_digit_run_end(s, i) == j,
    decreases j - i,
{
    if i < j {
        lemma_digit_run_until(s, i + 1, j);
    }
}

/// Reading the digit values out of rendered digit characters recovers
/// the digits.
proof fn lemma_digit_seq_of_chars(s: Seq<char>, i: int, ds: Seq<u8>)
    requires
        sp_digits_in_range(ds, 10),
        0 <= i,
        i + ds.len() <= s.len(),
        forall|t: int| 0 <= t < ds.len() ==> s[i + t] == sp_digit_char(ds[t] as nat, false),
    ensures
        crate::decimal::sp_digit_seq(s, i, i + ds.len()) =~= ds,
{
}

/// Text made of a sign, integer digits, and `p` fraction digits after
/// a point (when `p` is positive) parses back to the normalized value.
#[verifier::rlimit(100)]
#[verifier::spinoff_prover]
proof fn lemma_parse_fixed_text(sign: Seq<char>, neg: bool, ints: Seq<u8>, fracs: Seq<u8>, p: nat)
    requires
        sp_digits_in_range(ints, 10),
        sp_digits_in_range(fracs, 10),
        ints.len() >= 1,
        fracs.len() == p,
        (sign =~= seq!['-'] && neg) || (sign =~= seq!['+'] && !neg) || (sign
            =~= Seq::<char>::empty() && !neg),
    ensures
        ({
            let text = sign + (if p > 0 {
                sp_digit_chars(ints, false) + seq!['.'] + sp_digit_chars(fracs, false)
            } else {
                sp_digit_chars(ints, false)
            });
            crate::decimal::sp_parse_float(text) == Some(
                crate::decimal::sp_normalized(neg, ints, fracs),
            )
        }),
{
    let ichars = sp_digit_chars(ints, false);
    let fchars = sp_digit_chars(fracs, false);
    lemma_digit_chars_plain(ints, false);
    lemma_digit_chars_plain(fracs, false);
    let body: Seq<char> = if p > 0 {
        ichars + seq!['.'] + fchars
    } else {
        ichars
    };
    let text = sign + body;

    // the sign is read back first
    let sg = sp_float_sign(text, 0);
    assert(sg.0 == sign.len() && sg.1 == neg) by {
        if sign.len() > 0 {
            assert(text[0] == sign[0]);
        } else {
            if text.len() > 0 {
                assert(text[0] == body[0]);
                assert(body[0] == ichars[0]);
            }
        }
    }

    // the integer digits run exactly to the point (or to the end)
    let i1 = sg.0;
    let iend = i1 + ints.len();
    assert(forall|t: int| i1 <= t < iend ==> is_dec_digit(#[trigger] text[t])) by {
        assert(forall|t: int|
            i1 <= t < iend ==> text[t] == ichars[t - i1] && is_dec_digit(
                #[trigger] ichars[t - i1],
            ));
    }
    if p > 0 {
        assert(text[iend] == '.');
        assert(!is_dec_digit('.'));
        lemma_digit_run_until(text, i1, iend);
        assert(forall|t: int|
            iend + 1 <= t < text.len() ==> text[t] == fchars[t - (iend + 1)] && is_dec_digit(
                #[trigger] fchars[t - (iend + 1)],
            ));
        assert(forall|t: int|
            iend + 1 <= t < text.len() ==> is_dec_digit(#[trigger] text[t]));
        lemma_digit_run_until(text, iend + 1, text.len() as int);
        assert(forall|t: int|
            0 <= t < ints.len() ==> text[i1 + t] == sp_digit_char(ints[t] as nat, false));
        lemma_digit_seq_of_chars(text, i1, ints);
        assert(forall|t: int|
            0 <= t < fracs.len() ==> text[iend + 1 + t] == sp_digit_char(
                fracs[t] as nat,
                false,
            ));
        lemma_digit_seq_of_chars(text, iend + 1, fracs);
        let mt = crate::decimal::sp_float_mantissa(text, i1);
        assert(mt.0 == text.len() && mt.1 == ints && mt.2 == fracs && mt.3);
        // no exponent follows, and the point does not move
        assert(crate::decimal::sp_float_exp(text, text.len() as int) == Some(
            (text.len() as int, 0int),
        ));
        let sh = crate::decimal::sp_shift_point(ints, fracs, 0);
        assert(sh.0 =~= ints && sh.1 =~= fracs) by {
            let all = ints + fracs;
            if fracs.len() == 0 {
                assert(all + crate::decimal::sp_zeros(0) =~= ints);
                assert(sh.1 =~= fracs);
            } else {
                assert(all.take(ints.len() as int) =~= ints);
                assert(all.skip(ints.len() as int) =~= fracs);
            }
        }
        assert(crate::decimal::sp_parse_float(text) == Some(
            crate::decimal::sp_normalized(neg, ints, fracs),
        ));
    } else {
        lemma_digit_run_until(text, i1, text.len() as int);
        assert(forall|t: int|
            0 <= t < ints.len() ==> text[i1 + t] == sp_digit_char(ints[t] as nat, false));
        lemma_digit_seq_of_chars(text, i1, ints);
        let mt = crate::decimal::sp_float_mantissa(text, i1);
        assert(mt.0 == text.len() && mt.1 == ints && mt.2 =~= fracs && mt.3);
        assert(crate::decimal::sp_float_exp(text, text.len() as int) == Some(
            (text.len() as int, 0int),
        ));
        let sh = crate::decimal::sp_shift_point(ints, fracs, 0);
        assert(sh.0 =~= ints && sh.1 =~= fracs) by {
            let all = ints + fracs;
            assert(all =~= ints);
            assert(all + crate::decimal::sp_zeros(0) =~= ints);
        }
        assert(crate::decimal::sp_parse_float(text) == Some(
            crate::decimal::sp_normalized(neg, ints, fracs),
        ));
    }
}

/// Formatting a float value in fixed-point notation and converting the
/// text back recovers exactly the value rounded to the precision, for
/// every sign option other than the blank sign, with or without zero
/// padding, without grouping.
#[verifier::rlimit(100)]
#[verifier::spinoff_prover]
pub proof fn lemma_fixed_roundtrip(f: crate::decimal::FloatV, fs: FormatSpec)
    requires
        crate::decimal::sp_float_wf(f),
        fs.type_spec == Some(TypeSpec::FixedLower) || fs.type_spec == Some(TypeSpec::FixedUpper),
        fs.sign != Some(Sign::Space),
        fs.grouping is None,
    ensures
        crate::writers::sp_fmt_fixed(ValueV::Float(f), fs) is Some,
        ({
            let p = crate::writers::sp_float_precision(fs);
            let parts = crate::decimal::sp_fixed_digits(f, p);
            crate::convert::sp_convert(
                crate::writers::sp_fmt_fixed(ValueV::Float(f), fs)->0,
                fs,
            ) == Some(
                ValueV::Float(
                    crate::decimal::sp_normalized(
                        crate::writers::sp_float_negative(f),
                        parts.0,
                        parts.1,
                    ),
                ),
            )
        }),
{
    let p = crate::writers::sp_float_precision(fs);
    let parts = crate::decimal::sp_fixed_digits(f, p);
    crate::decimal::lemma_fixed_digits_props(f, p);
    let ichars = sp_digit_chars(parts.0, false);
    let fchars = sp_digit_chars(parts.1, false);
    lemma_digit_chars_plain(parts.0, false);
    lemma_digit_chars_plain(parts.1, false);
    let fixedbody: Seq<char> = if p > 0 {
        ichars + seq!['.'] + fchars
    } else {
        ichars
    };
    let neg = crate::writers::sp_float_negative(f);
    let sign = sp_sign_prefix(fs.sign, neg);
    let body0 = sign + fixedbody;
    let rendered = crate::writers::sp_maybe_zero_pad(body0, fs);
    assert(crate::writers::sp_fmt_fixed(ValueV::Float(f), fs) == Some(rendered));

    // zero padding inserts zeros between the sign and the digits
    let pl = crate::writers::sp_prefix_len(body0);
    assert(pl == sign.len()) by {
        if sign.len() > 0 {
            assert(body0[0] == sign[0]);
        } else {
            if body0.len() >= 1 {
                assert(body0[0] == ichars[0]);
            }
            if body0.len() >= 2 {
                if p > 0 && ichars.len() == 1 {
                    assert(body0[1] == '.');
                } else {
                    assert(body0[1] == ichars[1]);
                }
            }
        }
    }
    lemma_zero_pad_decompose(body0, fs, pl);
    let zeros = rendered.subrange(pl, pl + rendered.len() - body0.len());
    assert(body0.take(pl) =~= sign);
    assert(body0.skip(pl) =~= fixedbody);

    // the padding zeros join the integer digits
    let zs: Seq<u8> = Seq::new(zeros.len(), |t: int| 0u8);
    let zds = zs + parts.0;
    assert(sp_digit_chars(zds, false) =~= zeros + ichars) by {
        assert(forall|t: int|
            0 <= t < zeros.len() ==> #[trigger] zeros[t] == '0' && sp_digit_char(0, false)
                == '0');
    }
    assert(rendered =~= sign + (if p > 0 {
        sp_digit_chars(zds, false) + seq!['.'] + fchars
    } else {
        sp_digit_chars(zds, false)
    }));

    // the padded text parses to the normalized value, and the padding
    // zeros strip away again
    assert((sign =~= seq!['-'] && neg) || (sign =~= seq!['+'] && !neg) || (sign
        =~= Seq::<char>::empty() && !neg));
    lemma_parse_fixed_text(sign, neg, zds, parts.1, p);
    assert(crate::decimal::sp_parse_float(rendered) == Some(
        crate::decimal::sp_normalized(neg, zds, parts.1),
    ));
    lemma_strip_leading_zero_prefix(zs, parts.0);
    assert(crate::decimal::sp_normalized(neg, zds, parts.1) == crate::decimal::sp_normalized(
        neg,
        parts.0,
        parts.1,
    ));
}

/// Well-formed integer digits carry no spare leading zero, so leading
/// stripping returns them unchanged.
proof fn lemma_strip_leading_wf_id(ds: Seq<u8>)
    requires
        ds.len() >= 1,
        ds.len() > 1 ==> ds[0] != 0,
    ensures
        crate::decimal::sp_strip_leading(ds) == ds,
{
}

/// Trailing zeros appended to digits are stripped away again.
proof fn lemma_strip_trailing_zeros(a: Seq<u8>, n: nat)
    ensures
        crate::decimal::sp_strip_trailing(a + crate::decimal::sp_zeros(n)) == crate::decimal::sp_strip_trailing(
            a,
        ),
    decreases n,
{
    if n == 0 {
        assert(a + crate::decimal::sp_zeros(0) =~= a);
    } else {
        let whole = a + crate::decimal::sp_zeros(n);
        assert(whole.last() == 0);
        assert(whole.drop_last() =~= a + crate::decimal::sp_zeros((n - 1) as nat));
        lemma_strip_trailing_zeros(a, (n - 1) as nat);
    }
}

/// When the precision covers every fraction digit, formatting a float
/// in fixed-point notation and converting the text back recovers the
/// value exactly, except that a negative zero comes back without its
/// sign.
pub proof fn lemma_fixed_roundtrip_exact(f: crate::decimal::FloatV, fs: FormatSpec)
    requires
        crate::decimal::sp_float_wf(f),
        fs.type_spec == Some(TypeSpec::FixedLower) || fs.type_spec == Some(TypeSpec::FixedUpper),
        fs.sign != Some(Sign::Space),
        fs.grouping is None,
        f.fracs.len() <= crate::writers::sp_float_precision(fs),
        !(f.neg && crate::decimal::sp_float_is_zero(f)),
    ensures
        crate::convert::sp_convert(
            crate::writers::sp_fmt_fixed(ValueV::Float(f), fs)->0,
            fs,
        ) == Some(ValueV::Float(f)),
{
    lemma_fixed_roundtrip(f, fs);
    let p = crate::writers::sp_float_precision(fs);
    let parts = crate::decimal::sp_fixed_digits(f, p);
    assert(parts.0 == f.ints && parts.1 == f.fracs + crate::decimal::sp_zeros(
        (p - f.fracs.len()) as nat,
    ));
    lemma_strip_leading_wf_id(f.ints);
    lemma_strip_trailing_zeros(f.fracs, (p - f.fracs.len()) as nat);
    assert(crate::decimal::sp_strip_trailing(f.fracs) == f.fracs) by {
        if f.fracs.len() > 0 {
            assert(f.fracs.last() != 0);
        }
    }
    assert(crate::writers::sp_float_negative(f) == f.neg);
    assert(crate::decimal::sp_normalized(f.neg, parts.0, parts.1) == f);
}

/// Map-driven formatting reads only the bindings of the template's
/// named fields: two maps that agree on every named field's presence
/// and value format to the same result. Re-formatting values extracted
/// by a parse of the same template therefore depends only on those
/// extracted values, not on how the map was built.
pub proof fn lemma_format_map_frame(
    fs: Seq<crate::template::FieldV>,
    m1: Map<Seq<char>, ValueV>,
    m2: Map<Seq<char>, ValueV>,
)
    requires
        forall|t: int|
            0 <= t < fs.len() && (#[trigger] fs[t].name) is Some ==> (m1.contains_key(
                fs[t].name->0,
            ) == m2.contains_key(fs[t].name->0) && (m1.contains_key(fs[t].name->0)
                ==> m1[fs[t].name->0] == m2[fs[t].name->0])),
    ensures
        crate::engine::sp_format_map_fields(fs, m1) == crate::engine::sp_format_map_fields(
            fs,
            m2,
        ),
    decreases fs.len(),
{
    if fs.len() > 0 {
        assert(fs[0].name is Some ==> (m1.contains_key(fs[0].name->0) == m2.contains_key(
            fs[0].name->0,
        ) && (m1.contains_key(fs[0].name->0) ==> m1[fs[0].name->0] == m2[fs[0].name->0])));
        assert(forall|t: int|
            0 <= t < fs.drop_first().len() && (#[trigger] fs.drop_first()[t].name) is Some
                ==> fs.drop_first()[t] == fs[t + 1]);
        lemma_format_map_frame(fs.drop_first(), m1, m2);
    }
}

/// Whether a character is a grouping separator.
spec fn is_sep_char(c: char) -> bool {
    c == ',' || c == '_'
}

/// Text without underscores is unchanged by underscore removal.
proof fn lemma_remove_underscores_clean(s: Seq<char>)
    requires
        forall|i: int| 0 <= i < s.len() ==> s[i] != '_',
    ensures
        crate::convert::sp_remove_underscores(s) == s,
    decreases s.len(),
{
    if s.len() > 0 {
        lemma_remove_underscores_clean(s.drop_last());
        assert(crate::convert::sp_remove_underscores(s) =~= s);
    } else {
        assert(crate::convert::sp_remove_underscores(s) =~= s);
    }
}

} // verus!
