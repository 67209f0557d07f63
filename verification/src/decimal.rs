//! An exact decimal model for float values.
//!
//! A float is held as a sign and two decimal digit sequences: the digits
//! before and after the point. The engine reads nothing else of a float:
//! its sign, whether it is zero, and its digit expansion at a requested
//! precision, so this model carries float values through formatting and
//! parsing as plain values. Binary floating point stays outside the
//! library; conversions happen at its edge.

use vstd::prelude::*;
use vstd::string::StringExecFns;

use crate::digits::{sp_digits_in_range, sp_udigits, udigits, lemma_udigits_in_range};
use crate::errors::Error;
use crate::fmt_spec::{sp_digit_run_end, is_dec_digit, sp_digits_val};
use crate::text;

verus! {

/// The mathematical shape of a float value: a sign and decimal digits
/// around the point.
pub struct FloatV {
    /// Whether the value carries a negative sign (negative zero allowed).
    pub neg: bool,
    /// Digits before the point, most significant first.
    pub ints: Seq<u8>,
    /// Digits after the point.
    pub fracs: Seq<u8>,
}

/// `n` zero digits.
pub open spec fn sp_zeros(n: nat) -> Seq<u8> {
    Seq::new(n, |i: int| 0u8)
}

/// Drop leading zero digits, keeping at least one digit.
pub open spec fn sp_strip_leading(ds: Seq<u8>) -> Seq<u8>
    decreases ds.len(),
{
    if ds.len() > 1 && ds[0] == 0 {
        sp_strip_leading(ds.skip(1))
    } else if ds.len() == 0 {
        seq![0u8]
    } else {
        ds
    }
}

/// Drop trailing zero digits.
pub open spec fn sp_strip_trailing(ds: Seq<u8>) -> Seq<u8>
    decreases ds.len(),
{
    if ds.len() > 0 && ds.last() == 0 {
        sp_strip_trailing(ds.drop_last())
    } else {
        ds
    }
}

/// Move the point `k` places to the right (left for negative `k`) through
/// the digit pair.
pub open spec fn sp_shift_point(ints: Seq<u8>, fracs: Seq<u8>, k: int) -> (Seq<u8>, Seq<u8>) {
    let all = ints + fracs;
    let pp = ints.len() + k;
    if pp <= 0 {
        (seq![0u8], sp_zeros((-pp) as nat) + all)
    } else if pp >= all.len() {
        (all + sp_zeros((pp - all.len()) as nat), Seq::<u8>::empty())
    } else {
        (all.take(pp), all.skip(pp))
    }
}

/// A well-formed float shape: digits below ten, at least one integer
/// digit, no spare leading zero, no trailing fraction zero.
pub open spec fn sp_float_wf(v: FloatV) -> bool {
    &&& sp_digits_in_range(v.ints, 10)
    &&& sp_digits_in_range(v.fracs, 10)
    &&& v.ints.len() >= 1
    &&& (v.ints.len() > 1 ==> v.ints[0] != 0)
    &&& (v.fracs.len() > 0 ==> v.fracs.last() != 0)
}

/// The normal form of a sign and digit pair.
pub open spec fn sp_normalized(neg: bool, ints: Seq<u8>, fracs: Seq<u8>) -> FloatV {
    FloatV { neg, ints: sp_strip_leading(ints), fracs: sp_strip_trailing(fracs) }
}

/// The magnitude of a signed integer.
pub open spec fn sp_mag_i64(i: int) -> nat {
    if i < 0 {
        (-i) as nat
    } else {
        i as nat
    }
}

/// Whether the value is zero (of either sign).
pub open spec fn sp_float_is_zero(v: FloatV) -> bool {
    v.ints == seq![0u8] && v.fracs.len() == 0
}

/// Stripping leading zeros of in-range digits leaves well-formed,
/// in-range digits.
proof fn lemma_strip_leading_wf(ds: Seq<u8>)
    requires
        sp_digits_in_range(ds, 10),
    ensures
        sp_digits_in_range(sp_strip_leading(ds), 10),
        sp_strip_leading(ds).len() >= 1,
        sp_strip_leading(ds).len() > 1 ==> sp_strip_leading(ds)[0] != 0,
    decreases ds.len(),
{
    if ds.len() > 1 && ds[0] == 0 {
        assert(sp_digits_in_range(ds.skip(1), 10));
        lemma_strip_leading_wf(ds.skip(1));
    }
}

/// Stripping trailing zeros of in-range digits leaves in-range digits
/// whose last entry is not zero.
proof fn lemma_strip_trailing_wf(ds: Seq<u8>)
    requires
        sp_digits_in_range(ds, 10),
    ensures
        sp_digits_in_range(sp_strip_trailing(ds), 10),
        sp_strip_trailing(ds).len() > 0 ==> sp_strip_trailing(ds).last() != 0,
    decreases ds.len(),
{
    if ds.len() > 0 && ds.last() == 0 {
        assert(sp_digits_in_range(ds.drop_last(), 10));
        lemma_strip_trailing_wf(ds.drop_last());
    }
}

/// A normal form is well-formed.
proof fn lemma_normalized_wf(neg: bool, ints: Seq<u8>, fracs: Seq<u8>)
    requires
        sp_digits_in_range(ints, 10),
        sp_digits_in_range(fracs, 10),
    ensures
        sp_float_wf(sp_normalized(neg, ints, fracs)),
{
    lemma_strip_leading_wf(ints);
    lemma_strip_trailing_wf(fracs);
}

/// Drop leading zero digits, keeping at least one digit.
fn strip_leading(ds: &Vec<u8>) -> (r: Vec<u8>)
    ensures
        r@ == sp_strip_leading(ds@),
{
    if ds.len() == 0 {
        let mut v: Vec<u8> = Vec::new();
        v.push(0);
        return v;
    }
    let mut i: usize = 0;
    proof {
        assert(ds@.skip(0) =~= ds@);
    }
    while i < ds.len() - 1 && ds[i] == 0
        invariant
            i < ds@.len(),
            ds@.len() >= 1,
            sp_strip_leading(ds@) == sp_strip_leading(ds@.skip(i as int)),
        decreases ds@.len() - i,
    {
        proof {
            assert(ds@.skip(i as int).skip(1) =~= ds@.skip(i as int + 1));
        }
        i = i + 1;
    }
    let r = text::sub_vec(ds, i, ds.len());
    proof {
        assert(ds@.skip(i as int) =~= ds@.subrange(i as int, ds@.len() as int));
    }
    r
}

/// Drop trailing zero digits.
fn strip_trailing(ds: &Vec<u8>) -> (r: Vec<u8>)
    ensures
        r@ == sp_strip_trailing(ds@),
{
    let mut r = text::sub_vec(ds, 0, ds.len());
    proof {
        assert(r@ =~= ds@);
    }
    while r.len() > 0 && r[r.len() - 1] == 0
        invariant
            sp_strip_trailing(ds@) == sp_strip_trailing(r@),
        decreases r@.len(),
    {
        let _ = r.pop();
    }
    r
}

/// Add one to the last digit, with carry; the sequence may grow by one
/// leading digit.
pub open spec fn sp_round_up(ds: Seq<u8>) -> Seq<u8>
    decreases ds.len(),
{
    if ds.len() == 0 {
        seq![1u8]
    } else if ds.last() == 9 {
        sp_round_up(ds.drop_last()) + seq![0u8]
    } else {
        ds.update(ds.len() - 1, (ds.last() + 1) as u8)
    }
}

/// Whether the digits cut away (starting at the first place past the
/// kept ones) demand rounding up: above a half always, below never, and
/// an exact half only towards an even last kept digit.
pub open spec fn sp_round_up_needed(cut: Seq<u8>, kept: Seq<u8>) -> bool
    recommends
        cut.len() > 0,
{
    if cut[0] > 5 {
        true
    } else if cut[0] < 5 {
        false
    } else if exists|i: int| 1 <= i < cut.len() && cut[i] != 0 {
        true
    } else {
        kept.len() > 0 && kept.last() % 2 == 1
    }
}

/// The digit expansion of a value at `p` places after the point: the
/// integer digits and exactly `p` fraction digits, rounded to nearest,
/// ties to the even digit.
pub open spec fn sp_fixed_digits(v: FloatV, p: nat) -> (Seq<u8>, Seq<u8>) {
    if v.fracs.len() <= p {
        (v.ints, v.fracs + sp_zeros((p - v.fracs.len()) as nat))
    } else {
        let kept = v.ints + v.fracs.take(p as int);
        let cut = v.fracs.skip(p as int);
        let rounded = if sp_round_up_needed(cut, kept) {
            sp_round_up(kept)
        } else {
            kept
        };
        (rounded.take(rounded.len() - p), rounded.skip(rounded.len() - p))
    }
}

/// Rounding up in-range digits stays in range and grows the sequence by
/// at most one digit.
proof fn lemma_round_up_props(ds: Seq<u8>)
    requires
        sp_digits_in_range(ds, 10),
    ensures
        sp_digits_in_range(sp_round_up(ds), 10),
        ds.len() <= sp_round_up(ds).len() <= ds.len() + 1,
    decreases ds.len(),
{
    if ds.len() == 0 {
    } else if ds.last() == 9 {
        assert(sp_digits_in_range(ds.drop_last(), 10));
        lemma_round_up_props(ds.drop_last());
        assert forall|i: int| 0 <= i < sp_round_up(ds).len() implies sp_round_up(ds)[i] < 10 by {
            if i < sp_round_up(ds.drop_last()).len() {
                assert(sp_round_up(ds)[i] == sp_round_up(ds.drop_last())[i]);
            }
        }
    } else {
        assert forall|i: int| 0 <= i < sp_round_up(ds).len() implies sp_round_up(ds)[i] < 10 by {}
    }
}

/// Add one to the last digit of `ds`, with carry.
fn round_up(ds: &mut Vec<u8>)
    requires
        sp_digits_in_range(old(ds)@, 10),
    ensures
        final(ds)@ == sp_round_up(old(ds)@),
    decreases old(ds)@.len(),
{
    match ds.pop() {
        None => {
            ds.push(1);
            proof {
                assert(final(ds)@ =~= seq![1u8]);
            }
        },
        Some(d) => {
            if d == 9 {
                proof {
                    assert(ds@ =~= old(ds)@.drop_last());
                }
                round_up(ds);
                ds.push(0);
                proof {
                    assert(final(ds)@ =~= sp_round_up(old(ds)@.drop_last()) + seq![0u8]);
                }
            } else {
                ds.push(d + 1);
                proof {
                    assert(final(ds)@ =~= old(ds)@.update(old(ds)@.len() - 1, (d + 1) as u8));
                }
            }
        },
    }
}

/// The digit expansion of a well-formed value stays in range, keeps at
/// least one integer digit, and has exactly `p` fraction digits.
pub proof fn lemma_fixed_digits_props(v: FloatV, p: nat)
    requires
        sp_float_wf(v),
    ensures
        sp_digits_in_range(sp_fixed_digits(v, p).0, 10),
        sp_digits_in_range(sp_fixed_digits(v, p).1, 10),
        sp_fixed_digits(v, p).0.len() >= 1,
        sp_fixed_digits(v, p).1.len() == p,
{
    if v.fracs.len() <= p {
        assert forall|i: int| 0 <= i < sp_fixed_digits(v, p).1.len() implies sp_fixed_digits(
            v,
            p,
        ).1[i] < 10 by {
            if i < v.fracs.len() {
                assert(sp_fixed_digits(v, p).1[i] == v.fracs[i]);
            }
        }
    } else {
        let kept = v.ints + v.fracs.take(p as int);
        assert(sp_digits_in_range(kept, 10));
        lemma_round_up_props(kept);
    }
}

/// The first index holding a non-zero digit, or the length when all
/// digits are zero.
pub open spec fn sp_first_nonzero(ds: Seq<u8>) -> int
    decreases ds.len(),
{
    if ds.len() == 0 {
        0
    } else if ds[0] != 0 {
        0
    } else {
        1 + sp_first_nonzero(ds.skip(1))
    }
}

/// A position with only zeros before it and a non-zero digit (or the
/// end) at it is the first non-zero position.
proof fn lemma_first_nonzero_at(ds: Seq<u8>, i: int)
    requires
        0 <= i <= ds.len(),
        forall|t: int| 0 <= t < i ==> ds[t] == 0,
        i == ds.len() || ds[i] != 0,
    ensures
        sp_first_nonzero(ds) == i,
    decreases i,
{
    if i > 0 {
        lemma_first_nonzero_at(ds.skip(1), i - 1);
    }
}

/// The mantissa digits (`p + 1` of them) and the decimal exponent of the
/// value in scientific notation, rounded to nearest, ties to the even
/// digit.
pub open spec fn sp_sci_digits(v: FloatV, p: nat) -> (Seq<u8>, int) {
    let all = v.ints + v.fracs;
    let fi = sp_first_nonzero(all);
    if fi == all.len() {
        (sp_zeros(p + 1), 0)
    } else {
        let e = v.ints.len() - 1 - fi;
        let m = all.skip(fi);
        if m.len() <= p + 1 {
            (m + sp_zeros((p + 1 - m.len()) as nat), e)
        } else {
            let kept = m.take(p + 1 as int);
            let cut = m.skip(p + 1 as int);
            let rounded = if sp_round_up_needed(cut, kept) {
                sp_round_up(kept)
            } else {
                kept
            };
            if rounded.len() == p + 2 {
                (rounded.take(p + 1 as int), e + 1)
            } else {
                (rounded, e)
            }
        }
    }
}

/// Whether the digits cut away demand rounding up.
#[verifier::loop_isolation(false)]
fn round_decision(cut: &Vec<u8>, kept: &Vec<u8>) -> (r: bool)
    requires
        cut@.len() > 0,
    ensures
        r == sp_round_up_needed(cut@, kept@),
{
    let d = cut[0];
    if d > 5 {
        return true;
    }
    if d < 5 {
        return false;
    }
    let mut k: usize = 1;
    while k < cut.len()
        invariant
            1 <= k <= cut@.len(),
            forall|t: int| 1 <= t < k ==> cut@[t] == 0,
        decreases cut@.len() - k,
    {
        if cut[k] != 0 {
            return true;
        }
        k = k + 1;
    }
    if kept.len() > 0 {
        kept[kept.len() - 1] % 2 == 1
    } else {
        false
    }
}

/// Move the point `k` places to the right (left for negative `k`).
#[verifier::loop_isolation(false)]
fn shift_point_vec(ints: &Vec<u8>, fracs: &Vec<u8>, k: i64) -> (r: (Vec<u8>, Vec<u8>))
    requires
        -1000000 <= k <= 1000000,
        sp_digits_in_range(ints@, 10),
        sp_digits_in_range(fracs@, 10),
    ensures
        (r.0@, r.1@) == sp_shift_point(ints@, fracs@, k as int),
        sp_digits_in_range(r.0@, 10),
        sp_digits_in_range(r.1@, 10),
{
    let mut all = text::sub_vec(ints, 0, ints.len());
    text::push_all_val(&mut all, fracs);
    proof {
        assert(all@ =~= ints@ + fracs@);
    }
    let pp: i128 = ints.len() as i128 + k as i128;
    if pp <= 0 {
        let zs = (-pp) as usize;
        let mut fr: Vec<u8> = Vec::new();
        text::push_repeat_val(&mut fr, 0u8, zs);
        text::push_all_val(&mut fr, &all);
        let mut ip: Vec<u8> = Vec::new();
        ip.push(0);
        proof {
            assert(ip@ =~= seq![0u8]);
            assert(fr@ =~= sp_zeros((-(pp as int)) as nat) + all@);
        }
        (ip, fr)
    } else if pp >= all.len() as i128 {
        let pad = (pp - all.len() as i128) as usize;
        text::push_repeat_val(&mut all, 0u8, pad);
        proof {
            assert(all@ =~= (ints@ + fracs@) + sp_zeros(
                (pp as int - (ints@ + fracs@).len()) as nat,
            ));
        }
        (all, Vec::new())
    } else {
        let pu = pp as usize;
        let a = text::sub_vec(&all, 0, pu);
        let b = text::sub_vec(&all, pu, all.len());
        proof {
            assert(a@ =~= (ints@ + fracs@).take(pp as int));
            assert(b@ =~= (ints@ + fracs@).skip(pp as int));
        }
        (a, b)
    }
}

/// The value with its point moved `k` places to the right, in normal
/// form.
pub open spec fn sp_shifted(v: FloatV, k: int) -> FloatV {
    let (a, b) = sp_shift_point(v.ints, v.fracs, k);
    sp_normalized(v.neg, a, b)
}

/// The digit values of the decimal digit run `s[i..j]`.
pub open spec fn sp_digit_seq(s: Seq<char>, i: int, j: int) -> Seq<u8> {
    Seq::new((j - i) as nat, |t: int| ((s[i + t] as u32) - 48) as u8)
}

/// An optional leading sign: `-` sets the flag, `+` is consumed.
pub open spec fn sp_float_sign(s: Seq<char>, i: int) -> (int, bool) {
    if i < s.len() && s[i] == '-' {
        (i + 1, true)
    } else if i < s.len() && s[i] == '+' {
        (i + 1, false)
    } else {
        (i, false)
    }
}

/// The digits around an optional point: the position after them, the
/// integer digits, the fraction digits, and whether any digit was seen.
pub open spec fn sp_float_mantissa(s: Seq<char>, i: int) -> (int, Seq<u8>, Seq<u8>, bool) {
    let iend = sp_digit_run_end(s, i);
    if iend < s.len() && s[iend] == '.' {
        let fend = sp_digit_run_end(s, iend + 1);
        (fend, sp_digit_seq(s, i, iend), sp_digit_seq(s, iend + 1, fend), iend > i || fend > iend
            + 1)
    } else {
        (iend, sp_digit_seq(s, i, iend), Seq::<u8>::empty(), iend > i)
    }
}

/// An optional exponent suffix: the position after it and the signed
/// shift, or `None` when it is malformed or out of range.
pub open spec fn sp_float_exp(s: Seq<char>, i: int) -> Option<(int, int)> {
    if i < s.len() && (s[i] == 'e' || s[i] == 'E') {
        let (j, eneg) = sp_float_sign(s, i + 1);
        let eend = sp_digit_run_end(s, j);
        if eend == j {
            None
        } else {
            let ev = sp_digits_val(s, j, eend);
            if ev > 1000000 {
                None
            } else {
                Some((eend, if eneg { -(ev as int) } else { ev as int }))
            }
        }
    } else {
        Some((i, 0))
    }
}

/// A float literal as a function of its text: optional sign, digits with
/// an optional point (at least one digit), an optional exponent, nothing
/// else; the value in normal form, or `None`.
pub open spec fn sp_parse_float(s: Seq<char>) -> Option<FloatV> {
    let (i1, neg) = sp_float_sign(s, 0);
    let (am, ints, fracs, any) = sp_float_mantissa(s, i1);
    if !any {
        None
    } else {
        match sp_float_exp(s, am) {
            None => None,
            Some((ae, k)) => {
                if ae == s.len() {
                    let (a, b) = sp_shift_point(ints, fracs, k);
                    Some(sp_normalized(neg, a, b))
                } else {
                    None
                }
            },
        }
    }
}

/// The plain rendering of a value: sign, integer digits, and fraction
/// digits after a point when there are any.
pub open spec fn sp_shortest_chars(v: FloatV) -> Seq<char> {
    let core = crate::digits::sp_digit_chars(v.ints, false) + (if v.fracs.len() > 0 {
        seq!['.'] + crate::digits::sp_digit_chars(v.fracs, false)
    } else {
        Seq::<char>::empty()
    });
    if v.neg {
        seq!['-'] + core
    } else {
        core
    }
}

/// The digit values of the decimal digit run `s[i..j]`.
fn digit_seq_vec(s: &Vec<char>, i: usize, j: usize) -> (r: Vec<u8>)
    requires
        i <= j <= s@.len(),
        forall|t: int| i <= t < j ==> is_dec_digit(s@[t]),
    ensures
        r@ == sp_digit_seq(s@, i as int, j as int),
        sp_digits_in_range(r@, 10),
{
    let mut v: Vec<u8> = Vec::new();
    let mut k = i;
    while k < j
        invariant
            i <= k <= j <= s@.len(),
            forall|t: int| i <= t < j ==> is_dec_digit(s@[t]),
            v@ == sp_digit_seq(s@, i as int, k as int),
        decreases j - k,
    {
        v.push(((s[k] as u32) - 48) as u8);
        k = k + 1;
        proof {
            assert(v@ =~= sp_digit_seq(s@, i as int, k as int));
        }
    }
    proof {
        assert forall|t: int| 0 <= t < v@.len() implies v@[t] < 10 by {
            assert(is_dec_digit(s@[i + t]));
        }
    }
    v
}

/// A float value, held as a sign and exact decimal digits.
#[derive(Debug, PartialEq, Eq)]
pub struct FloatVal {
    neg: bool,
    ints: Vec<u8>,
    fracs: Vec<u8>,
}

impl View for FloatVal {
    type V = FloatV;

    closed spec fn view(&self) -> FloatV {
        FloatV { neg: self.neg, ints: self.ints@, fracs: self.fracs@ }
    }
}

impl Clone for FloatVal {
    /// An exact copy.
    fn clone(&self) -> (r: Self)
        ensures
            r@ == self@,
    {
        proof {
            use_type_invariant(self);
        }
        let r = FloatVal {
            neg: self.neg,
            ints: text::sub_vec(&self.ints, 0, self.ints.len()),
            fracs: text::sub_vec(&self.fracs, 0, self.fracs.len()),
        };
        proof {
            assert(r@.ints =~= self@.ints);
            assert(r@.fracs =~= self@.fracs);
        }
        r
    }
}

impl FloatVal {
    /// The representation is always kept in normal form.
    #[verifier::type_invariant]
    closed spec fn inv(self) -> bool {
        sp_float_wf(self@)
    }

    /// Build the normal form of a sign and digit pair.
    fn normalized(neg: bool, ints: Vec<u8>, fracs: Vec<u8>) -> (r: Self)
        requires
            sp_digits_in_range(ints@, 10),
            sp_digits_in_range(fracs@, 10),
        ensures
            r@ == sp_normalized(neg, ints@, fracs@),
    {
        let ni = strip_leading(&ints);
        let nf = strip_trailing(&fracs);
        proof {
            lemma_normalized_wf(neg, ints@, fracs@);
        }
        FloatVal { neg, ints: ni, fracs: nf }
    }

    /// The float value of a signed integer.
    pub fn from_i64(i: i64) -> (r: Self)
        ensures
            r@ == sp_normalized(i < 0, sp_udigits(sp_mag_i64(i as int), 10), Seq::<u8>::empty()),
    {
        let mag: u64 = if i < 0 {
            (-(i as i128)) as u64
        } else {
            i as u64
        };
        let ds = udigits(mag, 10);
        proof {
            lemma_udigits_in_range(mag as nat, 10);
        }
        Self::normalized(i < 0, ds, Vec::new())
    }

    /// The float value of an unsigned integer.
    pub fn from_u64(u: u64) -> (r: Self)
        ensures
            r@ == sp_normalized(false, sp_udigits(u as nat, 10), Seq::<u8>::empty()),
    {
        let ds = udigits(u, 10);
        proof {
            lemma_udigits_in_range(u as nat, 10);
        }
        Self::normalized(false, ds, Vec::new())
    }

    /// Whether the value carries a negative sign.
    pub fn sign_negative(&self) -> (r: bool)
        ensures
            r == self@.neg,
    {
        self.neg
    }

    /// Whether the value is zero, of either sign.
    pub fn is_zero(&self) -> (r: bool)
        ensures
            r == sp_float_is_zero(self@),
    {
        proof {
            use_type_invariant(self);
        }
        let r = self.ints.len() == 1 && self.ints[0] == 0 && self.fracs.len() == 0;
        proof {
            if r {
                assert(self@.ints =~= seq![0u8]);
            }
            if self@.ints == seq![0u8] {
                assert(self@.ints.len() == 1 && self@.ints[0] == 0);
            }
        }
        r
    }

    /// Whether the value is strictly negative: a negative sign on a
    /// non-zero magnitude. Negative zero does not count.
    pub fn is_strictly_negative(&self) -> (r: bool)
        ensures
            r == (self@.neg && !sp_float_is_zero(self@)),
    {
        self.sign_negative() && !self.is_zero()
    }

    /// The digit expansion at `p` places after the point: the integer
    /// digits and exactly `p` fraction digits, rounded to nearest with
    /// ties to the even digit.
    pub fn fixed_parts(&self, p: usize) -> (r: (Vec<u8>, Vec<u8>))
        ensures
            (r.0@, r.1@) == sp_fixed_digits(self@, p as nat),
            sp_digits_in_range(r.0@, 10),
            sp_digits_in_range(r.1@, 10),
            r.0@.len() >= 1,
            r.1@.len() == p,
    {
        proof {
            use_type_invariant(self);
        }
        if self.fracs.len() <= p {
            let ints = text::sub_vec(&self.ints, 0, self.ints.len());
            let mut fr = text::sub_vec(&self.fracs, 0, self.fracs.len());
            text::push_repeat_val(&mut fr, 0u8, p - self.fracs.len());
            proof {
                assert(ints@ =~= self@.ints);
                assert(fr@ =~= self@.fracs + sp_zeros((p - self@.fracs.len()) as nat));
            }
            (ints, fr)
        } else {
            let mut kept = text::sub_vec(&self.ints, 0, self.ints.len());
            let frpart = text::sub_vec(&self.fracs, 0, p);
            text::push_all_val(&mut kept, &frpart);
            proof {
                assert(kept@ =~= self@.ints + self@.fracs.take(p as int));
            }
            if self.round_up_needed_at(p) {
                proof {
                    lemma_round_up_props(kept@);
                }
                round_up(&mut kept);
            }
            let ilen = kept.len() - p;
            let ipart = text::sub_vec(&kept, 0, ilen);
            let fpart = text::sub_vec(&kept, ilen, kept.len());
            proof {
                assert(ipart@ =~= kept@.take(kept@.len() - p));
                assert(fpart@ =~= kept@.skip(kept@.len() - p));
            }
            (ipart, fpart)
        }
    }

    /// Whether cutting the fraction at `p` places must round the kept
    /// digits up.
    #[verifier::loop_isolation(false)]
    fn round_up_needed_at(&self, p: usize) -> (r: bool)
        requires
            (p as int) < self@.fracs.len(),
    ensures
            r == sp_round_up_needed(
                self@.fracs.skip(p as int),
                self@.ints + self@.fracs.take(p as int),
            ),
    {
        proof {
            use_type_invariant(self);
            assert(self@.fracs == self.fracs@);
            assert(self@.ints == self.ints@);
        }
        let ghost cut = self@.fracs.skip(p as int);
        let ghost kept = self@.ints + self@.fracs.take(p as int);
        let d = self.fracs[p];
        if d > 5 {
            return true;
        }
        if d < 5 {
            return false;
        }
        // the first cut digit is five: scan the rest for a non-zero digit
        let n = self.fracs.len();
        let mut k = p + 1;
        while k < self.fracs.len()
            invariant
                p + 1 <= k <= self@.fracs.len(),
                forall|t: int| p + 1 <= t < k ==> self@.fracs[t] == 0,
            decreases self@.fracs.len() - k,
        {
            if self.fracs[k] != 0 {
                proof {
                    assert(cut[(k - p) as int] == self@.fracs[k as int]);
                    assert(1 <= (k - p) as int && ((k - p) as int) < cut.len());
                }
                return true;
            }
            k = k + 1;
        }
        // an exact tie: round up only to an even kept digit
        proof {
            assert(forall|i: int| 1 <= i < cut.len() ==> cut[i] == self@.fracs[p + i] && cut[i]
                == 0);
        }
        let lastd = if p > 0 {
            self.fracs[p - 1]
        } else {
            self.ints[self.ints.len() - 1]
        };
        proof {
            assert(kept.len() > 0);
            assert(kept.last() == lastd);
        }
        lastd % 2 == 1
    }

    /// The mantissa digits (`p + 1` of them) and decimal exponent of the
    /// value in scientific notation.
    #[verifier::loop_isolation(false)]
    pub fn sci_parts(&self, p: usize) -> (r: (Vec<u8>, i128))
        requires
            p < usize::MAX,
        ensures
            (r.0@, r.1 as int) == sp_sci_digits(self@, p as nat),
            sp_digits_in_range(r.0@, 10),
            r.0@.len() == p + 1,
            -0x20000000000000000 <= r.1 <= 0x20000000000000000,
    {
        proof {
            use_type_invariant(self);
        }
        let mut all = text::sub_vec(&self.ints, 0, self.ints.len());
        text::push_all_val(&mut all, &self.fracs);
        proof {
            assert(all@ =~= self@.ints + self@.fracs);
        }
        let p1 = p + 1;

        // find the first significant digit
        let mut fi: usize = 0;
        while fi < all.len() && all[fi] == 0
            invariant
                fi <= all@.len(),
                forall|t: int| 0 <= t < fi ==> all@[t] == 0,
            decreases all@.len() - fi,
        {
            fi = fi + 1;
        }
        proof {
            lemma_first_nonzero_at(all@, fi as int);
        }

        if fi == all.len() {
            // the value is zero
            let mut m: Vec<u8> = Vec::new();
            text::push_repeat_val(&mut m, 0u8, p1);
            proof {
                assert(m@ =~= sp_zeros(p as nat + 1));
            }
            return (m, 0);
        }

        let e: i128 = self.ints.len() as i128 - 1 - fi as i128;
        let m = text::sub_vec(&all, fi, all.len());
        proof {
            assert(m@ =~= all@.skip(fi as int));
        }
        if m.len() <= p1 {
            let mut padded = m;
            let pad = p1 - padded.len();
            text::push_repeat_val(&mut padded, 0u8, pad);
            proof {
                assert(padded@ =~= all@.skip(fi as int) + sp_zeros(
                    (p as nat + 1 - all@.skip(fi as int).len()) as nat,
                ));
            }
            (padded, e)
        } else {
            let mut kept = text::sub_vec(&m, 0, p1);
            let cut = text::sub_vec(&m, p1, m.len());
            proof {
                assert(kept@ =~= all@.skip(fi as int).take(p as int + 1));
                assert(cut@ =~= all@.skip(fi as int).skip(p as int + 1));
            }
            if round_decision(&cut, &kept) {
                proof {
                    lemma_round_up_props(kept@);
                }
                round_up(&mut kept);
            }
            if kept.len() == p1 + 1 {
                let short = text::sub_vec(&kept, 0, p1);
                proof {
                    assert(short@ =~= kept@.take(p as int + 1));
                }
                (short, e + 1)
            } else {
                (kept, e)
            }
        }
    }

    /// The value multiplied by one hundred: the point moves two places
    /// to the right.
    pub fn times_100(&self) -> (r: Self)
        ensures
            r@ == sp_shifted(self@, 2),
    {
        proof {
            use_type_invariant(self);
        }
        let (a, b) = shift_point_vec(&self.ints, &self.fracs, 2);
        Self::normalized(self.neg, a, b)
    }

    /// The value divided by one hundred: the point moves two places to
    /// the left.
    pub fn div_100(&self) -> (r: Self)
        ensures
            r@ == sp_shifted(self@, -2),
    {
        proof {
            use_type_invariant(self);
        }
        let (a, b) = shift_point_vec(&self.ints, &self.fracs, -2);
        Self::normalized(self.neg, a, b)
    }

    /// The plain rendering of the value: a `-` for a negative sign, the
    /// integer digits, and the fraction digits after a point when there
    /// are any.
    pub fn shortest_chars(&self) -> (r: Vec<char>)
        ensures
            r@ == sp_shortest_chars(self@),
    {
        proof {
            use_type_invariant(self);
        }
        let mut out: Vec<char> = Vec::new();
        if self.neg {
            out.push('-');
        }
        crate::digits::push_digit_chars(&self.ints, false, &mut out);
        if self.fracs.len() > 0 {
            out.push('.');
            crate::digits::push_digit_chars(&self.fracs, false, &mut out);
        }
        proof {
            assert(out@ =~= sp_shortest_chars(self@));
        }
        out
    }

    /// The plain rendering of the value as a string.
    pub fn to_text(&self) -> (r: String)
        ensures
            r@ == sp_shortest_chars(self@),
    {
        let cs = self.shortest_chars();
        text::string_of(&cs)
    }

    /// Parse a float literal: an optional sign, digits with an optional
    /// point (at least one digit), and an optional exponent whose
    /// magnitude is at most one million. Anything else is a conversion
    /// error.
    pub fn from_text(input: &str) -> (r: Result<Self, Error>)
        ensures
            (match sp_parse_float(input@) {
                Some(v) => r is Ok && r->Ok_0@ == v,
                None => r is Err && r->Err_0 is ConversionError,
            }),
    {
        let s = text::chars_of(input);

        // sign
        let mut pos: usize = 0;
        let mut neg = false;
        if s.len() > 0 && s[0] == '-' {
            neg = true;
            pos = 1;
        } else if s.len() > 0 && s[0] == '+' {
            pos = 1;
        }
        let ghost sg = sp_float_sign(s@, 0);
        proof {
            assert(pos as int == sg.0 && neg == sg.1);
        }

        // digits around an optional point
        let iend = crate::fmt_spec::digit_run_end(&s, pos);
        let ints = digit_seq_vec(&s, pos, iend);
        let mut fracs: Vec<u8> = Vec::new();
        let mut any = iend > pos;
        let mut after = iend;
        if iend < s.len() && s[iend] == '.' {
            let fend = crate::fmt_spec::digit_run_end(&s, iend + 1);
            fracs = digit_seq_vec(&s, iend + 1, fend);
            any = iend > pos || fend > iend + 1;
            after = fend;
        }
        let ghost mt = sp_float_mantissa(s@, sg.0);
        proof {
            assert(after as int == mt.0 && ints@ == mt.1 && fracs@ == mt.2 && any == mt.3);
        }
        if !any {
            return Err(Error::ConversionError(String::from_str("malformed float literal")));
        }

        // optional exponent
        let mut shift: i64 = 0;
        if after < s.len() && (s[after] == 'e' || s[after] == 'E') {
            let mut epos = after + 1;
            let mut eneg = false;
            if epos < s.len() && s[epos] == '-' {
                eneg = true;
                epos = epos + 1;
            } else if epos < s.len() && s[epos] == '+' {
                epos = epos + 1;
            }
            let eend = crate::fmt_spec::digit_run_end(&s, epos);
            if eend == epos {
                return Err(
                    Error::ConversionError(String::from_str("malformed float exponent")),
                );
            }
            let ev = match crate::fmt_spec::digits_value(&s, epos, eend) {
                Some(v) => v,
                None => {
                    return Err(
                        Error::ConversionError(String::from_str("float exponent out of range")),
                    );
                },
            };
            if ev > 1000000 {
                return Err(
                    Error::ConversionError(String::from_str("float exponent out of range")),
                );
            }
            shift = if eneg {
                -(ev as i64)
            } else {
                ev as i64
            };
            after = eend;
        }
        let ghost ex = sp_float_exp(s@, mt.0);
        proof {
            assert(ex == Some((after as int, shift as int)));
        }

        // nothing may remain
        if after < s.len() {
            return Err(Error::ConversionError(String::from_str("malformed float literal")));
        }

        let (a, b) = shift_point_vec(&ints, &fracs, shift);
        Ok(Self::normalized(neg, a, b))
    }

    /// The value with a negative zero turned into positive zero; any
    /// other value is returned unchanged.
    pub fn coerce_negative_zero(&self) -> (r: Self)
        ensures
            sp_float_is_zero(self@) ==> r@ == (FloatV { neg: false, ..self@ }),
            !sp_float_is_zero(self@) ==> r@ == self@,
    {
        proof {
            use_type_invariant(self);
        }
        if self.is_zero() {
            let r = FloatVal {
                neg: false,
                ints: text::sub_vec(&self.ints, 0, self.ints.len()),
                fracs: text::sub_vec(&self.fracs, 0, self.fracs.len()),
            };
            proof {
                assert(r@.ints =~= self@.ints);
                assert(r@.fracs =~= self@.fracs);
            }
            r
        } else {
            self.clone()
        }
    }
}

} // verus!
