//! Small whole numbers among binary64 bit patterns.
//!
//! A count written in the source (`step: 2 week`) arrives as a number; it is
//! a count when it is a whole number from 1 to 1000. Every such number has
//! exactly one binary64 bit pattern, which this module computes and
//! recognises.

use vstd::prelude::*;
use crate::size::{bit_len, two_pow, lemma_bit_len_bounds, lemma_two_pow_monotone};
use crate::values::Num;

verus! {

/// The largest count a step may take.
pub const MAX_COUNT: u32 = 1000;

/// The binary64 bit pattern of a positive whole number `k` below 2^53: sign
/// 0, biased exponent `1023 + e` where `2^e <= k < 2^(e+1)`, and the bits of
/// `k` below its leading one, left-aligned in the 52-bit fraction.
pub open spec fn binary64_bits(k: nat) -> nat {
    let e = (bit_len(k) - 1) as nat;
    ((1023 + e) * two_pow(52) + (k - two_pow(e)) * two_pow((52 - e) as nat)) as nat
}

/// Whether `n` is the whole number `k`, from 1 to [`MAX_COUNT`].
pub open spec fn is_count(n: Num, k: nat) -> bool {
    1 <= k <= MAX_COUNT && n.bits == binary64_bits(k)
}

/// The count that `n` is, where it is one.
pub open spec fn count_of(n: Num) -> Option<u32> {
    if exists|k: u32| is_count(n, k as nat) {
        Some(choose|k: u32| is_count(n, k as nat))
    } else {
        None
    }
}

pub proof fn lemma_two_pow_add(a: nat, b: nat)
    ensures
        two_pow(a + b) == two_pow(a) * two_pow(b),
    decreases a,
{
    if a == 0 {
        assert(two_pow(0) == 1);
    } else {
        lemma_two_pow_add((a - 1) as nat, b);
        assert(two_pow(a + b) == 2 * two_pow((a - 1 + b) as nat));
        assert(2 * (two_pow((a - 1) as nat) * two_pow(b)) == (2 * two_pow((a - 1) as nat))
            * two_pow(b)) by (nonlinear_arith);
    }
}

/// The exponent and fraction of the pattern of a count.
pub proof fn lemma_count_fields(k: nat)
    requires
        1 <= k <= MAX_COUNT,
    ensures
        ({
            let e = (bit_len(k) - 1) as nat;
            &&& e <= 9
            &&& binary64_bits(k) / two_pow(52) == 1023 + e
            &&& binary64_bits(k) % two_pow(52) == (k - two_pow(e)) * two_pow((52 - e) as nat)
        }),
{
    let e = (bit_len(k) - 1) as nat;
    lemma_bit_len_bounds(k);
    reveal_with_fuel(two_pow, 11);
    if e >= 10 {
        lemma_two_pow_monotone(10, e);
    }
    assert(two_pow(e + 1) == 2 * two_pow(e));
    let m = (k - two_pow(e)) as nat;
    let f = two_pow((52 - e) as nat);
    lemma_two_pow_monotone(0, (52 - e) as nat);
    lemma_two_pow_add(e, (52 - e) as nat);
    assert(m < two_pow(e));
    assert(m * f < two_pow(e) * f) by (nonlinear_arith)
        requires
            m < two_pow(e),
            f > 0,
    {
    }
    lemma_two_pow_monotone(0, (52 - e) as nat);
    lemma_two_pow_monotone(0, 52);
    vstd::arithmetic::div_mod::lemma_fundamental_div_mod_converse(
        binary64_bits(k) as int,
        two_pow(52) as int,
        (1023 + e) as int,
        (m * f) as int,
    );
}

/// Different counts have different patterns.
pub proof fn lemma_count_unique(n: Num, a: nat, b: nat)
    requires
        is_count(n, a),
        is_count(n, b),
    ensures
        a == b,
{
    lemma_count_fields(a);
    lemma_count_fields(b);
    let e = (bit_len(a) - 1) as nat;
    let f = two_pow((52 - e) as nat);
    lemma_two_pow_monotone(0, (52 - e) as nat);
    assert((a - two_pow(e)) * f == (b - two_pow(e)) * f);
    assert(a - two_pow(e) == b - two_pow(e)) by (nonlinear_arith)
        requires
            (a - two_pow(e)) * f == (b - two_pow(e)) * f,
            f > 0,
    {
    }
}

pub proof fn lemma_two_pow_52()
    ensures
        two_pow(52) == 0x10_0000_0000_0000,
{
    reveal_with_fuel(two_pow, 53);
}

/// `2^e`, for `e <= 52`.
fn pow2(e: u32) -> (r: u128)
    requires
        e <= 52,
    ensures
        r == two_pow(e as nat),
        r <= two_pow(52),
{
    let mut r: u128 = 1;
    let mut i: u32 = 0;
    while i < e
        invariant
            i <= e <= 52,
            r == two_pow(i as nat),
        decreases e - i,
    {
        proof {
            lemma_two_pow_monotone((i + 1) as nat, 52);
            lemma_two_pow_52();
        }
        r = r * 2;
        i = i + 1;
    }
    proof {
        lemma_two_pow_monotone(e as nat, 52);
    }
    r
}

/// The bit pattern of the count `k`.
fn pattern_of(k: u32) -> (r: u128)
    requires
        1 <= k <= MAX_COUNT,
    ensures
        r == binary64_bits(k as nat),
{
    let mut m: u32 = k;
    let mut len: u32 = 0;
    while m > 0
        invariant
            bit_len(k as nat) == len + bit_len(m as nat),
            len + m <= k,
        decreases m,
    {
        m = m / 2;
        len = len + 1;
    }
    proof {
        lemma_count_fields(k as nat);
        lemma_bit_len_bounds(k as nat);
    }
    let e = len - 1;
    let lead = pow2(e);
    let scale = pow2(52 - e);
    let whole = pow2(52);
    proof {
        lemma_two_pow_52();
        assert((1023 + e) * whole <= 1032 * two_pow(52)) by (nonlinear_arith)
            requires
                e <= 9,
                whole == two_pow(52),
        ;
        assert((k - lead) * scale <= 1000 * two_pow(52)) by (nonlinear_arith)
            requires
                k - lead <= 1000,
                0 <= k - lead,
                scale <= two_pow(52),
        ;
    }
    (1023 + e as u128) * whole + (k as u128 - lead) * scale
}

/// The count that `n` is: a whole number from 1 to [`MAX_COUNT`], or `None`.
pub fn whole_count(n: Num) -> (r: Option<u32>)
    ensures
        r == count_of(n),
        match r {
            Some(k) => is_count(n, k as nat),
            None => forall|k: nat| !is_count(n, k),
        },
{
    let mut k: u32 = 1;
    while k <= MAX_COUNT
        invariant
            1 <= k <= MAX_COUNT + 1,
            forall|j: nat| 1 <= j < k ==> !is_count(n, j),
        decreases MAX_COUNT + 1 - k,
    {
        if n.bits as u128 == pattern_of(k) {
            proof {
                assert(is_count(n, k as nat));
                let c = choose|c: u32| is_count(n, c as nat);
                lemma_count_unique(n, c as nat, k as nat);
            }
            return Some(k);
        }
        k = k + 1;
    }
    proof {
        assert forall|j: nat| !is_count(n, j) by {
        }
        if exists|c: u32| is_count(n, c as nat) {
            let c = choose|c: u32| is_count(n, c as nat);
            assert(!is_count(n, c as nat));
        }
    }
    None
}

/// The pattern of a count decodes, as binary64 does, to the count: the sign
/// bit is clear, the biased exponent `E` lies between 1023 and 1032, and the
/// value `(2^52 + fraction) * 2^(E - 1075)` is the count.
pub proof fn lemma_count_pattern_decodes(k: nat)
    requires
        1 <= k <= MAX_COUNT,
    ensures
        ({
            let bits = binary64_bits(k);
            let exponent = bits / two_pow(52);
            let fraction = bits % two_pow(52);
            &&& bits < two_pow(63)
            &&& 1023 <= exponent <= 1032
            &&& two_pow(52) + fraction == k * two_pow((1075 - exponent) as nat)
        }),
{
    lemma_count_fields(k);
    let e = (bit_len(k) - 1) as nat;
    let f = two_pow((52 - e) as nat);
    lemma_two_pow_add(e, (52 - e) as nat);
    lemma_two_pow_add(11, 52);
    reveal_with_fuel(two_pow, 12);
    lemma_two_pow_monotone(0, 52);
    let bits = binary64_bits(k);
    vstd::arithmetic::div_mod::lemma_fundamental_div_mod(bits as int, two_pow(52) as int);
    assert(two_pow(e) * f + (k - two_pow(e)) * f == k * f) by (nonlinear_arith);
    let p = two_pow(52) as int;
    let q = bits as int / p;
    let r = bits as int % p;
    assert(bits < 2048 * p) by (nonlinear_arith)
        requires
            bits == p * q + r,
            q <= 1032,
            r < p,
            p > 0,
    ;
}

} // verus!
