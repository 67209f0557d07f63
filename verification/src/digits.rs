//! Digit sequences: rendering unsigned integers in a radix, and reading
//! them back.
//!
//! Digits are kept most-significant first, as numeric values `0..16`;
//! characters are produced and consumed at the edges.

use vstd::prelude::*;

verus! {

/// The digits of `n` in base `base`, most significant first; `0` is `[0]`.
pub open spec fn sp_udigits(n: nat, base: nat) -> Seq<u8>
    recommends
        2 <= base <= 16,
    decreases n,
    when base >= 2
    via sp_udigits_dec
{
    if base < 2 {
        seq![]
    } else if n < base {
        seq![n as u8]
    } else {
        sp_udigits(n / base, base) + seq![(n % base) as u8]
    }
}

#[via_fn]
proof fn sp_udigits_dec(n: nat, base: nat) {
    if base >= 2 && n >= base {
        assert(n / base < n) by (nonlinear_arith)
            requires
                base >= 2,
                n >= base,
        ;
    }
}

/// Dividing by the base shrinks a number that is at least the base.
proof fn lemma_div_shrinks(n: nat, base: nat)
    requires
        base >= 2,
        n >= base,
    ensures
        n / base < n,
        n / base >= 1,
{
    assert(n / base < n && n / base >= 1) by (nonlinear_arith)
        requires
            base >= 2,
            n >= base,
    ;
}

/// The value of the digit sequence `ds` in base `base`.
pub open spec fn sp_digits_to_nat(ds: Seq<u8>, base: nat) -> nat
    decreases ds.len(),
{
    if ds.len() == 0 {
        0
    } else {
        (sp_digits_to_nat(ds.drop_last(), base) * base + ds.last()) as nat
    }
}

/// All entries of `ds` are below `base`.
pub open spec fn sp_digits_in_range(ds: Seq<u8>, base: nat) -> bool {
    forall|i: int| 0 <= i < ds.len() ==> ds[i] < base
}

/// Reading back the digits of `n` yields `n` again.
pub proof fn lemma_udigits_roundtrip(n: nat, base: nat)
    requires
        2 <= base <= 16,
    ensures
        sp_digits_to_nat(sp_udigits(n, base), base) == n,
    decreases n,
{
    if n < base {
        assert(sp_udigits(n, base) == seq![n as u8]);
        assert(sp_digits_to_nat(seq![n as u8], base) == sp_digits_to_nat(
            seq![n as u8].drop_last(),
            base,
        ) * base + n);
        assert(seq![n as u8].drop_last() =~= Seq::<u8>::empty());
        assert(sp_digits_to_nat(Seq::<u8>::empty(), base) == 0);
        let x = sp_digits_to_nat(seq![n as u8].drop_last(), base);
        assert(x == 0);
        assert(x * base == 0) by (nonlinear_arith)
            requires
                x == 0,
        ;
        assert(sp_digits_to_nat(sp_udigits(n, base), base) == n);
    } else {
        lemma_div_shrinks(n, base);
        lemma_udigits_roundtrip(n / base, base);
        let pre = sp_udigits(n / base, base);
        let whole = pre + seq![(n % base) as u8];
        assert(whole.drop_last() =~= pre);
        assert(whole.last() == (n % base) as u8);
        assert(sp_digits_to_nat(whole, base) == (n / base) * base + n % base);
        assert((n / base) * base + n % base == n) by (nonlinear_arith)
            requires
                base >= 2,
                n >= 0,
        ;
        assert(sp_digits_to_nat(sp_udigits(n, base), base) == n);
    }
}

/// The digits of `n` are all below `base`.
pub proof fn lemma_udigits_in_range(n: nat, base: nat)
    requires
        2 <= base <= 16,
    ensures
        sp_digits_in_range(sp_udigits(n, base), base),
        sp_udigits(n, base).len() >= 1,
    decreases n,
{
    if n < base {
    } else {
        lemma_div_shrinks(n, base);
        lemma_udigits_in_range(n / base, base);
        assert forall|i: int| 0 <= i < sp_udigits(n, base).len() implies sp_udigits(n, base)[i]
            < base by {
            if i < sp_udigits(n / base, base).len() {
                assert(sp_udigits(n, base)[i] == sp_udigits(n / base, base)[i]);
            }
        }
    }
}

/// The digits of a positive number never start with zero.
pub proof fn lemma_udigits_no_leading_zero(n: nat, base: nat)
    requires
        2 <= base <= 16,
        n >= 1,
    ensures
        sp_udigits(n, base)[0] != 0,
    decreases n,
{
    if n >= base {
        lemma_div_shrinks(n, base);
        lemma_udigits_in_range(n / base, base);
        lemma_udigits_no_leading_zero(n / base, base);
        assert(sp_udigits(n, base)[0] == sp_udigits(n / base, base)[0]);
    }
}

/// Render the digits of `n` in base `base`, appending to `out`.
fn push_udigits(n: u64, base: u64, out: &mut Vec<u8>)
    requires
        2 <= base <= 16,
    ensures
        final(out)@ == old(out)@ + sp_udigits(n as nat, base as nat),
    decreases n,
{
    if n < base {
        out.push(n as u8);
    } else {
        proof {
            lemma_div_shrinks(n as nat, base as nat);
        }
        push_udigits(n / base, base, out);
        out.push((n % base) as u8);
        proof {
            assert(final(out)@ =~= old(out)@ + sp_udigits(n as nat, base as nat));
        }
    }
}

/// The digits of `n` in base `base`, most significant first.
pub fn udigits(n: u64, base: u64) -> (r: Vec<u8>)
    requires
        2 <= base <= 16,
    ensures
        r@ == sp_udigits(n as nat, base as nat),
{
    let mut out: Vec<u8> = Vec::new();
    push_udigits(n, base, &mut out);
    out
}

/// Render the digits of a wide number in base `base`, appending to
/// `out`.
fn push_udigits_u128(n: u128, base: u128, out: &mut Vec<u8>)
    requires
        2 <= base <= 16,
    ensures
        final(out)@ == old(out)@ + sp_udigits(n as nat, base as nat),
    decreases n,
{
    if n < base {
        out.push(n as u8);
    } else {
        proof {
            lemma_div_shrinks(n as nat, base as nat);
        }
        push_udigits_u128(n / base, base, out);
        out.push((n % base) as u8);
        proof {
            assert(final(out)@ =~= old(out)@ + sp_udigits(n as nat, base as nat));
        }
    }
}

/// The digits of a wide number in base `base`, most significant first.
pub fn udigits_u128(n: u128, base: u128) -> (r: Vec<u8>)
    requires
        2 <= base <= 16,
    ensures
        r@ == sp_udigits(n as nat, base as nat),
{
    let mut out: Vec<u8> = Vec::new();
    push_udigits_u128(n, base, &mut out);
    out
}

/// The character rendering digit value `d` (`0..=15`), lowercase or
/// uppercase letters above `9`.
pub open spec fn sp_digit_char(d: nat, upper: bool) -> char {
    if d < 10 {
        ((48 + d) as u32) as char
    } else if upper {
        ((55 + d) as u32) as char
    } else {
        ((87 + d) as u32) as char
    }
}

/// The character rendering of a digit sequence.
pub open spec fn sp_digit_chars(ds: Seq<u8>, upper: bool) -> Seq<char> {
    ds.map_values(|d: u8| sp_digit_char(d as nat, upper))
}

/// Render one digit value as a character.
pub fn digit_char(d: u8, upper: bool) -> (c: char)
    requires
        d < 16,
    ensures
        c == sp_digit_char(d as nat, upper),
{
    match d {
        0 => '0',
        1 => '1',
        2 => '2',
        3 => '3',
        4 => '4',
        5 => '5',
        6 => '6',
        7 => '7',
        8 => '8',
        9 => '9',
        10 => if upper { 'A' } else { 'a' },
        11 => if upper { 'B' } else { 'b' },
        12 => if upper { 'C' } else { 'c' },
        13 => if upper { 'D' } else { 'd' },
        14 => if upper { 'E' } else { 'e' },
        _ => if upper { 'F' } else { 'f' },
    }
}

/// Render a digit sequence as characters, appending to `out`.
pub fn push_digit_chars(ds: &Vec<u8>, upper: bool, out: &mut Vec<char>)
    requires
        sp_digits_in_range(ds@, 16),
    ensures
        final(out)@ == old(out)@ + sp_digit_chars(ds@, upper),
{
    let mut k: usize = 0;
    while k < ds.len()
        invariant
            k <= ds@.len(),
            sp_digits_in_range(ds@, 16),
            out@ == old(out)@ + sp_digit_chars(ds@.take(k as int), upper),
        decreases ds@.len() - k,
    {
        out.push(digit_char(ds[k], upper));
        k = k + 1;
        proof {
            assert(sp_digit_chars(ds@.take(k as int), upper) =~= sp_digit_chars(
                ds@.take(k as int - 1),
                upper,
            ).push(sp_digit_char(ds@[k as int - 1] as nat, upper)));
            assert(out@ =~= old(out)@ + sp_digit_chars(ds@.take(k as int), upper));
        }
    }
    proof {
        assert(ds@.take(ds@.len() as int) =~= ds@);
    }
}

/// The digit value denoted by `c` in base `base`, counting letter digits in
/// either case, or `None`.
pub open spec fn sp_char_digit(c: char, base: nat) -> Option<u8> {
    let u = c as u32;
    if 48 <= u && u <= 57 && ((u - 48) as nat) < base {
        Some((u - 48) as u8)
    } else if 97 <= u && u <= 102 && ((u - 87) as nat) < base {
        Some((u - 87) as u8)
    } else if 65 <= u && u <= 70 && ((u - 55) as nat) < base {
        Some((u - 55) as u8)
    } else {
        None
    }
}

/// Read the digit value of `c` in base `base`.
pub fn char_digit(c: char, base: u64) -> (r: Option<u8>)
    requires
        2 <= base <= 16,
    ensures
        r == sp_char_digit(c, base as nat),
        r is Some ==> r->0 < base,
{
    let u = c as u32;
    if 48 <= u && u <= 57 && ((u - 48) as u64) < base {
        Some((u - 48) as u8)
    } else if 97 <= u && u <= 102 && ((u - 87) as u64) < base {
        Some((u - 87) as u8)
    } else if 65 <= u && u <= 70 && ((u - 55) as u64) < base {
        Some((u - 55) as u8)
    } else {
        None
    }
}

/// Reading a rendered digit gives the digit back.
pub proof fn lemma_digit_char_roundtrip(d: nat, upper: bool, base: nat)
    requires
        d < base,
        2 <= base <= 16,
    ensures
        sp_char_digit(sp_digit_char(d, upper), base) == Some(d as u8),
{
}

/// The value of a digit sequence, or `None` when it exceeds `u64::MAX`.
pub fn digits_to_u64(ds: &Vec<u8>, base: u64) -> (r: Option<u64>)
    requires
        2 <= base <= 16,
        sp_digits_in_range(ds@, base as nat),
    ensures
        (match r {
            Some(v) => v as nat == sp_digits_to_nat(ds@, base as nat),
            None => sp_digits_to_nat(ds@, base as nat) > u64::MAX,
        }),
{
    let mut acc: u64 = 0;
    let mut k: usize = 0;
    while k < ds.len()
        invariant
            k <= ds@.len(),
            2 <= base <= 16,
            sp_digits_in_range(ds@, base as nat),
            acc as nat == sp_digits_to_nat(ds@.take(k as int), base as nat),
        decreases ds@.len() - k,
    {
        let d = ds[k];
        let stepped = match acc.checked_mul(base) {
            Some(m) => m.checked_add(d as u64),
            None => None,
        };
        match stepped {
            Some(v) => {
                acc = v;
                k = k + 1;
                proof {
                    assert(ds@.take(k as int).drop_last() =~= ds@.take(k as int - 1));
                }
            },
            None => {
                proof {
                    assert(ds@.take(k as int + 1).drop_last() =~= ds@.take(k as int));
                    assert(sp_digits_to_nat(ds@.take(k as int + 1), base as nat) == acc as nat
                        * base as nat + ds@[k as int]);
                    lemma_digits_to_nat_mono(ds@, base as nat, k as int + 1, ds@.len() as int);
                    assert(ds@.take(ds@.len() as int) =~= ds@);
                }
                return None;
            },
        }
    }
    proof {
        assert(ds@.take(ds@.len() as int) =~= ds@);
    }
    Some(acc)
}

/// A digit run is worth at least any of its prefixes.
proof fn lemma_digits_to_nat_mono(ds: Seq<u8>, base: nat, k: int, j: int)
    requires
        0 <= k <= j <= ds.len(),
        base >= 2,
    ensures
        sp_digits_to_nat(ds.take(j), base) >= sp_digits_to_nat(ds.take(k), base),
    decreases j - k,
{
    if k < j {
        lemma_digits_to_nat_mono(ds, base, k, j - 1);
        assert(ds.take(j).drop_last() =~= ds.take(j - 1));
        assert(sp_digits_to_nat(ds.take(j), base) == sp_digits_to_nat(ds.take(j - 1), base) * base
            + ds.take(j).last());
        assert(sp_digits_to_nat(ds.take(j - 1), base) * base >= sp_digits_to_nat(
            ds.take(j - 1),
            base,
        )) by (nonlinear_arith)
            requires
                base >= 2,
        ;
    }
}

} // verus!
