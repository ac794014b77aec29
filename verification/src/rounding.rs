//! Rounding an integer multiple of a power of two to single precision.
//!
//! A binary32 number keeps 24 significant bits and nothing below `2^-149`.
//! What cannot be kept is rounded to the nearest number that can, a tie
//! going to the one whose last bit is zero.

use vstd::arithmetic::div_mod::{
    lemma_basic_div, lemma_div_by_multiple, lemma_div_is_ordered, lemma_fundamental_div_mod,
    lemma_multiply_divide_lt, lemma_small_mod,
};
use vstd::arithmetic::power2::{
    lemma2_to64, lemma_pow2_adds, lemma_pow2_pos, lemma_pow2_strictly_increases,
    lemma_pow2_unfold, pow2,
};
use vstd::prelude::*;

verus! {

/// The number of bits needed to write `n` in binary; 0 for 0.
pub open spec fn bit_length(n: nat) -> nat
    decreases n,
{
    if n == 0 {
        0
    } else {
        1 + bit_length(n / 2)
    }
}

/// `n / 2^k`, rounded to the nearest integer, a tie going to the even one.
pub open spec fn round_ties_even(n: nat, k: nat) -> nat {
    let q = n / pow2(k);
    let r = n % pow2(k);
    if 2 * r > pow2(k) || (2 * r == pow2(k) && q % 2 == 1) {
        q + 1
    } else {
        q
    }
}

/// The exponent of the last place of the binary32 number that `n * 2^e`
/// rounds to: 24 significant bits are kept, and nothing below `2^-149`.
pub open spec fn last_place(n: nat, e: int) -> int {
    if bit_length(n) + e - 24 > -149 {
        bit_length(n) + e - 24
    } else {
        -149
    }
}

/// `n * 2^e` in units of its last place, rounded to nearest, ties to even:
/// the significand that is kept, which may reach `2^24` where rounding
/// carries.
pub open spec fn kept(n: nat, e: int) -> nat {
    let q = last_place(n, e);
    if q <= e {
        n * pow2((e - q) as nat)
    } else {
        round_ties_even(n, (q - e) as nat)
    }
}

/// The encoding, without the sign bit, of the binary32 number nearest to
/// `n * 2^e`; infinity where that is out of range.
pub open spec fn nearest_magnitude(n: nat, e: int) -> nat {
    let packed = (last_place(n, e) + 149) * 0x80_0000 + kept(n, e);
    if n == 0 {
        0
    } else if packed >= 0x7F80_0000 {
        0x7F80_0000
    } else {
        packed as nat
    }
}

/// A number of `bit_length(n)` bits lies between the two powers of two.
pub proof fn lemma_bit_length_bounds(n: nat)
    ensures
        n < pow2(bit_length(n)),
        n > 0 ==> pow2((bit_length(n) - 1) as nat) <= n,
    decreases n,
{
    if n == 0 {
        lemma_pow2_pos(0);
    } else {
        lemma_bit_length_bounds(n / 2);
        lemma_pow2_unfold(bit_length(n));
        if n / 2 > 0 {
            lemma_pow2_unfold((bit_length(n) - 1) as nat);
        } else {
            lemma2_to64();
        }
    }
}

/// A number below the divisor has quotient 0 and is its own remainder.
pub proof fn lemma_small_quotient(n: nat, d: nat)
    requires
        n < d,
    ensures
        n / d == 0,
        n % d == n,
{
    lemma_basic_div(n as int, d as int);
    lemma_small_mod(n, d);
}

/// What is kept has at most 24 bits, or is `2^24` where rounding carries;
/// above the smallest last place it has no fewer.
pub proof fn lemma_kept_bounds(n: nat, e: int)
    requires
        n > 0,
    ensures
        kept(n, e) <= 0x100_0000,
        last_place(n, e) > -149 ==> kept(n, e) >= 0x80_0000,
{
    let len = bit_length(n);
    let q = last_place(n, e);
    lemma_bit_length_bounds(n);
    lemma2_to64();
    if q <= e {
        let k = (e - q) as nat;
        lemma_pow2_adds(len, k);
        lemma_pow2_pos(k);
        if len + k < 24 {
            lemma_pow2_strictly_increases(len + k, 24);
        }
        assert(n * pow2(k) < pow2(len) * pow2(k)) by (nonlinear_arith)
            requires
                n < pow2(len),
                pow2(k) > 0,
        ;
        if q > -149 {
            lemma_pow2_adds((len - 1) as nat, k);
            assert(pow2((len - 1) as nat) * pow2(k) <= n * pow2(k)) by (nonlinear_arith)
                requires
                    pow2((len - 1) as nat) <= n,
                    pow2(k) > 0,
            ;
        }
    } else {
        let k = (q - e) as nat;
        let p = pow2(k);
        lemma_pow2_pos(k);
        lemma_pow2_adds(k, 24);
        if len < k + 24 {
            lemma_pow2_strictly_increases(len, k + 24);
        }
        lemma_multiply_divide_lt(n as int, p as int, 0x100_0000);
        if q > -149 {
            lemma_pow2_adds(k, 23);
            assert(pow2(k) * 0x80_0000 == 0x80_0000 * pow2(k)) by (nonlinear_arith);
            lemma_div_is_ordered((0x80_0000 * p) as int, n as int, p as int);
            lemma_div_by_multiple(0x80_0000, p as int);
        }
    }
}

/// How far apart two integers are.
pub open spec fn gap(a: int, b: int) -> int {
    if a <= b {
        b - a
    } else {
        a - b
    }
}

/// Rounding takes the nearest multiple. No multiple of `2^k` is nearer to
/// `n` than `round_ties_even(n, k) * 2^k`, and where another is as near,
/// the one taken is the even multiple.
pub proof fn lemma_round_ties_even_is_nearest(n: nat, k: nat, j: int)
    ensures
        gap((round_ties_even(n, k) * pow2(k)) as int, n as int) <= gap(j * pow2(k), n as int),
        j != round_ties_even(n, k) && gap(
            (round_ties_even(n, k) * pow2(k)) as int,
            n as int,
        ) == gap(j * pow2(k), n as int) ==> round_ties_even(n, k) % 2 == 0,
{
    let p = pow2(k) as int;
    let q = (n / pow2(k)) as int;
    let r = (n % pow2(k)) as int;
    let m = round_ties_even(n, k) as int;
    lemma_pow2_pos(k);
    lemma_fundamental_div_mod(n as int, p);
    assert(n == q * p + r) by (nonlinear_arith)
        requires
            n == p * q + r,
    ;
    assert(m * p - n == (m - q) * p - r) by (nonlinear_arith)
        requires
            n == q * p + r,
    ;
    assert(j * p - n == (j - q) * p - r) by (nonlinear_arith)
        requires
            n == q * p + r,
    ;
    if j <= q {
        assert((j - q) * p <= 0) by (nonlinear_arith)
            requires
                j <= q,
                p > 0,
        ;
        if j < q {
            assert((j - q) * p <= -p) by (nonlinear_arith)
                requires
                    j < q,
                    p > 0,
            ;
        }
    } else {
        assert((j - q) * p >= p) by (nonlinear_arith)
            requires
                j > q,
                p > 0,
        ;
        if j > q + 1 {
            assert((j - q) * p >= 2 * p) by (nonlinear_arith)
                requires
                    j > q + 1,
                    p > 0,
            ;
        }
    }
    if m == q {
        assert((m - q) * p == 0) by (nonlinear_arith)
            requires
                m == q,
        ;
    } else {
        assert((m - q) * p == p) by (nonlinear_arith)
            requires
                m == q + 1,
        ;
    }
}

} // verus!
