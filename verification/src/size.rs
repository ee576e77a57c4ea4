//! Byte counts for people: `12.3 KB`, `1.25 MB`.
//!
//! A count is shown the way a binary64 division and a fixed-precision
//! rendering show it: the count as the nearest binary64 value, divided by a
//! power of two (which is exact), rounded to the shown places with ties to
//! even. All of it is computed here on integers.

use vstd::prelude::*;

verus! {

/// Bytes in a KiB.
pub const KIB: u64 = 1024;

/// Bytes in a MiB.
pub const MIB: u64 = 1048576;

pub open spec fn two_pow(e: nat) -> nat
    decreases e,
{
    if e == 0 {
        1
    } else {
        2 * two_pow((e - 1) as nat)
    }
}

/// The number of binary digits of `n` (0 for 0).
pub open spec fn bit_len(n: nat) -> nat
    decreases n,
{
    if n == 0 {
        0
    } else {
        1 + bit_len(n / 2)
    }
}

/// `a / d` rounded to the nearest integer, ties to the even one.
pub open spec fn round_half_even(a: nat, d: nat) -> nat
    recommends
        d > 0,
{
    let q = a / d;
    let r = a % d;
    if 2 * r > d || (2 * r == d && q % 2 == 1) {
        q + 1
    } else {
        q
    }
}

/// The value of `n` as the nearest binary64 number: exact up to 53 binary
/// digits, and beyond that rounded to the nearest multiple of the unit in
/// the last place, ties to even.
pub open spec fn nearest_binary64(n: nat) -> nat {
    if bit_len(n) <= 53 {
        n
    } else {
        let unit = two_pow((bit_len(n) - 53) as nat);
        round_half_even(n, unit) * unit
    }
}

/// The character of a decimal digit.
pub open spec fn digit(d: nat) -> char {
    (d + 48) as char
}

/// The decimal digits of `q`, without leading zeros (one `0` for zero).
pub open spec fn digits(q: nat) -> Seq<char>
    decreases q,
{
    if q < 10 {
        seq![digit(q)]
    } else {
        digits(q / 10).push(digit(q % 10))
    }
}

/// `q` hundredths, written with two places.
pub open spec fn hundredths(q: nat) -> Seq<char> {
    digits(q / 100) + seq!['.', digit((q / 10) % 10), digit(q % 10)]
}

/// `q` tenths, written with one place.
pub open spec fn tenths(q: nat) -> Seq<char> {
    digits(q / 10) + seq!['.', digit(q % 10)]
}

/// How a byte count reads: MB with two places from one MiB up, KB with one
/// place below.
pub open spec fn human_size(n: nat) -> Seq<char> {
    if n >= MIB {
        hundredths(round_half_even(nearest_binary64(n) * 100, MIB as nat)) + " MB"@
    } else {
        tenths(round_half_even(n * 10, KIB as nat)) + " KB"@
    }
}

pub proof fn lemma_bit_len_bounds(n: nat)
    requires
        n > 0,
    ensures
        bit_len(n) >= 1,
        two_pow((bit_len(n) - 1) as nat) <= n < two_pow(bit_len(n)),
    decreases n,
{
    if n >= 2 {
        lemma_bit_len_bounds(n / 2);
        let l = bit_len(n / 2);
        assert(two_pow(l) == 2 * two_pow((l - 1) as nat));
        assert(two_pow(l + 1) == 2 * two_pow(l));
    } else {
        assert(bit_len(n) == 1 + bit_len(0));
        assert(two_pow(1) == 2 * two_pow(0));
    }
}

pub proof fn lemma_two_pow_monotone(i: nat, j: nat)
    requires
        i <= j,
    ensures
        1 <= two_pow(i) <= two_pow(j),
    decreases j,
{
    if j > 0 {
        if i < j {
            lemma_two_pow_monotone(i, (j - 1) as nat);
        } else {
            lemma_two_pow_monotone(0, (j - 1) as nat);
        }
    }
}

/// The number of binary digits of `n`.
fn bits_of(n: u128) -> (r: u128)
    ensures
        r == bit_len(n as nat),
{
    let mut m = n;
    let mut len: u128 = 0;
    while m > 0
        invariant
            bit_len(n as nat) == len + bit_len(m as nat),
            len + m <= n,
        decreases m,
    {
        m = m / 2;
        len = len + 1;
    }
    len
}

/// `a / d` rounded to the nearest integer, ties to even.
fn rounded(a: u128, d: u128) -> (r: u128)
    requires
        d > 0,
        a <= 0xffff_ffff_ffff_ffff_ffff_ffff_ffff_fff0,
    ensures
        r == round_half_even(a as nat, d as nat),
        r <= a / d + 1,
{
    let q = a / d;
    let rem = a % d;
    if rem > d - rem || (rem == d - rem && q % 2 == 1) {
        q + 1
    } else {
        q
    }
}

/// The value of `n as f64`, as an integer.
fn nearest(n: u64) -> (r: u128)
    ensures
        r == nearest_binary64(n as nat),
        r <= 2 * (n as nat),
{
    let len = bits_of(n as u128);
    if len <= 53 {
        return n as u128;
    }
    proof {
        lemma_bit_len_bounds(n as nat);
    }
    let shift = len - 53;
    let mut unit: u128 = 1;
    let mut k: u128 = 0;
    while k < shift
        invariant
            k <= shift,
            shift == len - 53,
            len == bit_len(n as nat),
            two_pow((len - 1) as nat) <= n,
            unit == two_pow(k as nat),
        decreases shift - k,
    {
        proof {
            lemma_two_pow_monotone((k + 1) as nat, (len - 1) as nat);
        }
        unit = unit * 2;
        k = k + 1;
    }
    proof {
        lemma_two_pow_monotone(shift as nat, (len - 1) as nat);
    }
    let q = rounded(n as u128, unit);
    proof {
        assert(q * unit <= (n as nat) / (unit as nat) * (unit as nat) + unit) by (nonlinear_arith)
            requires
                q <= (n as nat) / (unit as nat) + 1,
                unit > 0,
        ;
        assert((n as nat) / (unit as nat) * (unit as nat) <= n) by (nonlinear_arith)
            requires
                unit > 0,
        ;
    }
    q * unit
}

/// The one-character text of a decimal digit.
fn digit_text(d: u128) -> (r: &'static str)
    requires
        d < 10,
    ensures
        r@ == seq![digit(d as nat)],
{
    if d == 0 {
        proof {
            reveal_strlit("0");
        }
        "0"
    } else if d == 1 {
        proof {
            reveal_strlit("1");
        }
        "1"
    } else if d == 2 {
        proof {
            reveal_strlit("2");
        }
        "2"
    } else if d == 3 {
        proof {
            reveal_strlit("3");
        }
        "3"
    } else if d == 4 {
        proof {
            reveal_strlit("4");
        }
        "4"
    } else if d == 5 {
        proof {
            reveal_strlit("5");
        }
        "5"
    } else if d == 6 {
        proof {
            reveal_strlit("6");
        }
        "6"
    } else if d == 7 {
        proof {
            reveal_strlit("7");
        }
        "7"
    } else if d == 8 {
        proof {
            reveal_strlit("8");
        }
        "8"
    } else {
        proof {
            reveal_strlit("9");
        }
        "9"
    }
}

/// Appends the decimal digits of `q`.
fn push_digits(out: &mut String, q: u128)
    ensures
        final(out)@ == old(out)@ + digits(q as nat),
    decreases q,
{
    if q >= 10 {
        push_digits(out, q / 10);
    }
    let ghost mid = out@;
    out.append(digit_text(q % 10));
    proof {
        if q >= 10 {
            assert(old(out)@ + digits(q as nat) =~= mid + seq![digit((q % 10) as nat)]);
        } else {
            assert(old(out)@ + digits(q as nat) =~= mid + seq![digit((q % 10) as nat)]);
        }
    }
}

/// A byte count for people: `1.25 MB` from one MiB up, `12.3 KB` below.
pub fn human(n: usize) -> (r: String)
    ensures
        r@ == human_size(n as nat),
{
    let mut out = String::new();
    if n as u64 >= MIB {
        let v = nearest(n as u64);
        let q = rounded(v * 100, MIB as u128);
        push_digits(&mut out, q / 100);
        out.append(".");
        out.append(digit_text((q / 10) % 10));
        out.append(digit_text(q % 10));
        out.append(" MB");
        proof {
            reveal_strlit(".");
            reveal_strlit(" MB");
            assert(out@ =~= human_size(n as nat));
        }
    } else {
        let q = rounded(n as u128 * 10, KIB as u128);
        push_digits(&mut out, q / 10);
        out.append(".");
        out.append(digit_text(q % 10));
        out.append(" KB");
        proof {
            reveal_strlit(".");
            reveal_strlit(" KB");
            assert(out@ =~= human_size(n as nat));
        }
    }
    out
}

/// The number a run of decimal digits writes.
pub open spec fn decimal_value(s: Seq<char>) -> int
    decreases s.len(),
{
    if s.len() == 0 {
        0
    } else {
        decimal_value(s.drop_last()) * 10 + (s.last() as int - '0' as int)
    }
}

/// The digits of `q` are decimal digits, with no leading zero, and write `q`.
pub proof fn lemma_digits_write_the_number(q: nat)
    ensures
        decimal_value(digits(q)) == q,
        digits(q).len() >= 1,
        forall|i: int| 0 <= i < digits(q).len() ==> '0' <= #[trigger] digits(q)[i] <= '9',
        q >= 10 ==> digits(q)[0] != '0',
    decreases q,
{
    let last = digit(q % 10);
    assert(last as int == (q % 10) + 48);
    assert('0' as int == 48);
    if q >= 10 {
        lemma_digits_write_the_number(q / 10);
        let d = digits(q / 10);
        assert(digits(q).drop_last() =~= d);
        assert(digits(q).last() == last);
        assert(forall|i: int| 0 <= i < d.len() ==> digits(q)[i] == d[i]);
        assert(q == (q / 10) * 10 + q % 10);
        assert(decimal_value(digits(q)) == decimal_value(d) * 10 + (last as int - '0' as int));
    } else {
        assert(digits(q).drop_last() =~= Seq::<char>::empty());
        assert(digits(q).last() == last);
        assert(decimal_value(digits(q)) == decimal_value(Seq::<char>::empty()) * 10 + (last as int
            - '0' as int));
    }
}

/// Whether `r` units of `d` are the nearest to `a`: within half a unit of
/// it, and even where `a` lies exactly half-way.
pub open spec fn nearest_units(r: nat, d: nat, a: int) -> bool {
    &&& -(d as int) <= 2 * (r * d - a) <= d
    &&& (2 * (r * d - a) == d || 2 * (r * d - a) == -(d as int)) ==> r % 2 == 0
}

/// Rounding ties to even gives the nearest number of units.
pub proof fn lemma_round_half_even_is_nearest(a: nat, d: nat)
    requires
        d > 0,
    ensures
        nearest_units(round_half_even(a, d), d, a as int),
{
    let q = a / d;
    let rem = a % d;
    vstd::arithmetic::div_mod::lemma_fundamental_div_mod(a as int, d as int);
    assert(a == q * d + rem);
    assert((q + 1) * d == q * d + d) by (nonlinear_arith);
}

/// A count below a MiB reads as KiB with one place, the count of tenths
/// being the nearest to it.
pub proof fn lemma_small_sizes_read_in_kb(n: nat)
    requires
        n < MIB,
    ensures
        exists|t: nat|
            #[trigger] nearest_units(t, 1024, (10 * n) as int) && human_size(n) == digits(t / 10) + seq![
                '.',
                digit(t % 10),
            ] + " KB"@,
{
    let t = round_half_even(n * 10, KIB as nat);
    lemma_round_half_even_is_nearest(n * 10, KIB as nat);
    assert(human_size(n) == digits(t / 10) + seq!['.', digit(t % 10)] + " KB"@);
    assert(nearest_units(t, 1024, (10 * n) as int));
}

/// A count of a MiB or more reads as MiB with two places: the count taken as
/// its nearest binary64 value, and the count of hundredths the nearest to it.
pub proof fn lemma_large_sizes_read_in_mb(n: nat)
    requires
        n >= MIB,
    ensures
        exists|h: nat|
            #[trigger] nearest_units(h, 1048576, (100 * nearest_binary64(n)) as int) && human_size(n)
                == digits(h / 100) + seq!['.', digit((h / 10) % 10), digit(h % 10)] + " MB"@,
{
    let h = round_half_even(nearest_binary64(n) * 100, MIB as nat);
    lemma_round_half_even_is_nearest(nearest_binary64(n) * 100, MIB as nat);
    assert(human_size(n) == digits(h / 100) + seq!['.', digit((h / 10) % 10), digit(h % 10)]
        + " MB"@);
    assert(nearest_units(h, 1048576, (100 * nearest_binary64(n)) as int));
}

/// The nearest binary64 value of a count: the count itself up to 2^53, and
/// beyond that a multiple of the unit in the last place within half a unit
/// of it (ties to the even multiple).
pub proof fn lemma_nearest_binary64(n: nat)
    ensures
        n < two_pow(53) ==> nearest_binary64(n) == n,
        n >= two_pow(53) ==> ({
            let unit = two_pow((bit_len(n) - 53) as nat);
            let v = nearest_binary64(n);
            &&& v % unit == 0
            &&& nearest_units(v / unit, unit, n as int)
        }),
{
    if n < two_pow(53) {
        if n > 0 {
            lemma_bit_len_bounds(n);
            if bit_len(n) > 53 {
                lemma_two_pow_monotone(53, (bit_len(n) - 1) as nat);
            }
        }
    } else {
        lemma_two_pow_monotone(0, 53);
        lemma_bit_len_bounds(n);
        if bit_len(n) <= 53 {
            lemma_two_pow_monotone(bit_len(n), 53);
        }
        let unit = two_pow((bit_len(n) - 53) as nat);
        lemma_two_pow_monotone(0, (bit_len(n) - 53) as nat);
        let r = round_half_even(n, unit);
        lemma_round_half_even_is_nearest(n, unit);
        vstd::arithmetic::div_mod::lemma_mod_multiples_basic(r as int, unit as int);
        vstd::arithmetic::div_mod::lemma_div_multiples_vanish(r as int, unit as int);
        assert(r * unit == unit * r) by (nonlinear_arith);
    }
}

} // verus!
