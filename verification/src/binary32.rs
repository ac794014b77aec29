//! Single-precision numbers held by their IEEE 754 binary32 encoding.
//!
//! Every operation works on the 32-bit pattern with integer arithmetic, so
//! that the results are fixed bit for bit: rounding is to nearest, ties to
//! even, as the hardware does it.

use crate::rounding::{
    bit_length, gap, kept, last_place, lemma_bit_length_bounds, lemma_kept_bounds,
    lemma_small_quotient, nearest_magnitude,
};
use vstd::arithmetic::power2::{
    lemma2_to64, lemma_pow2_adds, lemma_pow2_pos, lemma_pow2_strictly_increases,
    lemma_pow2_unfold, pow2,
};
use vstd::bits::{lemma_u64_pow2_no_overflow, lemma_u64_shl_is_mul};
use vstd::prelude::*;

verus! {

/// `2^k` as a machine integer.
fn power_of_two(k: u32) -> (p: u64)
    requires
        k < 64,
    ensures
        p == pow2(k as nat),
{
    proof {
        lemma_u64_pow2_no_overflow(k as nat);
        lemma_u64_shl_is_mul(1u64, k as u64);
    }
    1u64 << (k as u64)
}

/// The number of bits needed to write `n`.
fn length_in_bits(n: u64) -> (len: u32)
    ensures
        len == bit_length(n as nat),
        len <= 64,
{
    let mut rest: u64 = n;
    let mut len: u32 = 0;
    proof {
        lemma2_to64();
    }
    while rest > 0
        invariant
            bit_length(n as nat) == len + bit_length(rest as nat),
            len <= 64,
            rest > 0 ==> len < 64 && rest < pow2((64 - len) as nat),
            len == 64 ==> rest == 0,
        decreases rest,
    {
        proof {
            lemma_pow2_unfold((64 - len) as nat);
        }
        rest = rest / 2;
        len = len + 1;
        proof {
            lemma2_to64();
        }
    }
    len
}

/// Rounds `n * 2^e` to the nearest binary32 number and gives its encoding
/// without the sign bit.
fn round_pack(n: u64, e: i32) -> (magnitude: u32)
    requires
        -2000 <= e <= 2000,
    ensures
        magnitude == nearest_magnitude(n as nat, e as int),
        magnitude <= 0x7F80_0000,
{
    if n == 0 {
        return 0;
    }
    let len: i32 = length_in_bits(n) as i32;
    let q: i32 = if len + e - 24 > -149 {
        len + e - 24
    } else {
        -149
    };
    let m: u64;
    if q <= e {
        let k: u32 = (e - q) as u32;
        let p: u64 = power_of_two(k);
        proof {
            lemma_bit_length_bounds(n as nat);
            lemma_pow2_adds(len as nat, k as nat);
            lemma2_to64();
            if len + k < 24 {
                lemma_pow2_strictly_increases((len + k) as nat, 24);
            }
            assert(n * p <= pow2(len as nat) * p) by (nonlinear_arith)
                requires
                    n <= pow2(len as nat),
            ;
        }
        m = n * p;
    } else {
        let k: i32 = q - e;
        if k > 64 {
            proof {
                lemma2_to64();
                if k > 65 {
                    lemma_pow2_strictly_increases(65, k as nat);
                }
                assert(pow2(65) == 2 * pow2(64)) by {
                    lemma_pow2_unfold(65);
                }
                lemma_small_quotient(n as nat, pow2(k as nat));
            }
            m = 0;
        } else if k == 64 {
            proof {
                lemma2_to64();
                lemma_small_quotient(n as nat, pow2(64));
            }
            m = if n > 0x8000_0000_0000_0000 {
                1
            } else {
                0
            };
        } else {
            let p: u64 = power_of_two(k as u32);
            proof {
                lemma_pow2_pos(k as nat);
            }
            let quo: u64 = n / p;
            let rem: u64 = n % p;
            let half: u64 = p / 2;
            proof {
                lemma_pow2_unfold(k as nat);
                assert(quo <= n / 2) by (nonlinear_arith)
                    requires
                        quo == n / p,
                        p >= 2,
                ;
            }
            m = if rem > half || (rem == half && quo % 2 == 1) {
                quo + 1
            } else {
                quo
            };
        }
    }
    let packed: u64 = ((q + 149) as u64) * 0x80_0000 + m;
    if packed >= 0x7F80_0000 {
        0x7F80_0000
    } else {
        packed as u32
    }
}

/// The sign bit of an encoding.
pub const SIGN_BIT: u32 = 0x8000_0000;

/// The encoding of positive infinity; every larger magnitude is a NaN.
pub const INFINITY_BITS: u32 = 0x7F80_0000;

/// The encoding of the quiet NaN that every invalid operation here returns.
pub const NAN_BITS: u32 = 0x7FC0_0000;

/// The implicit leading bit of a normal number's significand.
pub const HIDDEN_BIT: u32 = 0x80_0000;

/// A single-precision number, by its encoding.
///
/// A number that is neither a NaN nor infinite has the value
/// `significand() * 2^exponent()`, negated where `negative()` holds.
#[derive(Clone, Copy, Debug, PartialEq, Eq, Structural)]
pub struct Binary32 {
    pub bits: u32,
}

impl Binary32 {
    pub open spec fn negative(self) -> bool {
        self.bits >= SIGN_BIT
    }

    /// The encoding without its sign bit.
    pub open spec fn magnitude(self) -> nat {
        (self.bits % SIGN_BIT) as nat
    }

    pub open spec fn is_nan(self) -> bool {
        self.magnitude() > INFINITY_BITS
    }

    pub open spec fn is_infinite(self) -> bool {
        self.magnitude() == INFINITY_BITS
    }

    pub open spec fn is_finite(self) -> bool {
        self.magnitude() < INFINITY_BITS
    }

    pub open spec fn is_zero(self) -> bool {
        self.magnitude() == 0
    }

    /// The integer that `2^exponent()` is multiplied by: below `2^24`.
    pub open spec fn significand(self) -> nat {
        if self.magnitude() < HIDDEN_BIT {
            self.magnitude()
        } else {
            (self.magnitude() % (HIDDEN_BIT as nat) + HIDDEN_BIT) as nat
        }
    }

    /// The exponent of the last place: from -149 to 104 for a finite number.
    pub open spec fn exponent(self) -> int {
        if self.magnitude() < HIDDEN_BIT {
            -149
        } else {
            self.magnitude() / (HIDDEN_BIT as nat) - 150
        }
    }

    /// The value times `2^149`, which is an integer. Infinity takes the
    /// place of `2^128`, above every finite number. Meaningless for a NaN.
    pub open spec fn scaled(self) -> int {
        let m = self.significand() * pow2((self.exponent() + 149) as nat);
        if self.negative() {
            -m
        } else {
            m as int
        }
    }

    /// The number with the given sign and magnitude.
    pub open spec fn encode(negative: bool, magnitude: nat) -> Binary32 {
        Binary32 {
            bits: if negative {
                (SIGN_BIT + magnitude) as u32
            } else {
                magnitude as u32
            },
        }
    }

    /// The canonical quiet NaN.
    pub open spec fn nan() -> Binary32 {
        Binary32 { bits: NAN_BITS }
    }

    /// The binary32 number nearest to `n`.
    pub open spec fn of_nat(n: nat) -> Binary32 {
        Self::encode(false, nearest_magnitude(n, 0))
    }

    /// The product, correctly rounded. A NaN operand, or infinity times
    /// zero, gives the canonical NaN.
    pub open spec fn product(self, rhs: Binary32) -> Binary32 {
        let negative = self.negative() != rhs.negative();
        if self.is_nan() || rhs.is_nan() {
            Self::nan()
        } else if self.is_infinite() || rhs.is_infinite() {
            if self.is_zero() || rhs.is_zero() {
                Self::nan()
            } else {
                Self::encode(negative, INFINITY_BITS as nat)
            }
        } else {
            Self::encode(
                negative,
                nearest_magnitude(
                    self.significand() * rhs.significand(),
                    self.exponent() + rhs.exponent(),
                ),
            )
        }
    }

    /// The value with its fraction dropped, held to the range of `u32`:
    /// 0 for a NaN and for every negative number.
    pub open spec fn truncated(self) -> nat {
        if self.is_nan() || self.negative() {
            0
        } else {
            let whole = if self.exponent() >= 0 {
                self.significand() * pow2(self.exponent() as nat)
            } else {
                self.significand() / pow2((-self.exponent()) as nat)
            };
            if whole > u32::MAX {
                u32::MAX as nat
            } else {
                whole
            }
        }
    }

    /// Whether the value of `self` is less than that of `rhs`. Nothing is
    /// less than a NaN, nor a NaN less than anything; the two zeros are
    /// equal.
    pub open spec fn below(self, rhs: Binary32) -> bool {
        !self.is_nan() && !rhs.is_nan() && self.scaled() < rhs.scaled()
    }

    pub fn from_bits(bits: u32) -> (r: Binary32)
        ensures
            r.bits == bits,
    {
        Binary32 { bits }
    }

    pub fn to_bits(self) -> (bits: u32)
        ensures
            bits == self.bits,
    {
        self.bits
    }

    /// Converts an integer, rounding where it has more than 24 significant
    /// bits.
    pub fn from_u32(n: u32) -> (r: Binary32)
        ensures
            r == Self::of_nat(n as nat),
    {
        Binary32 { bits: round_pack(n as u64, 0) }
    }

    /// Splits a finite magnitude into significand and exponent.
    fn unpack(magnitude: u32) -> (parts: (u32, i32))
        requires
            magnitude <= INFINITY_BITS,
        ensures
            parts.0 == (Binary32 { bits: magnitude }).significand(),
            parts.1 == (Binary32 { bits: magnitude }).exponent(),
            parts.0 < 0x100_0000,
            -149 <= parts.1 <= 105,
            parts.1 > -149 ==> parts.0 >= HIDDEN_BIT,
    {
        if magnitude < HIDDEN_BIT {
            (magnitude, -149)
        } else {
            (magnitude % HIDDEN_BIT + HIDDEN_BIT, (magnitude / HIDDEN_BIT) as i32 - 150)
        }
    }

    fn with_sign(negative: bool, magnitude: u32) -> (r: Binary32)
        requires
            magnitude < SIGN_BIT,
        ensures
            r == Self::encode(negative, magnitude as nat),
    {
        if negative {
            Binary32 { bits: SIGN_BIT + magnitude }
        } else {
            Binary32 { bits: magnitude }
        }
    }

    /// Multiplies, rounding to nearest, ties to even.
    pub fn times(self, rhs: Binary32) -> (r: Binary32)
        ensures
            r == self.product(rhs),
    {
        let negative = (self.bits >= SIGN_BIT) != (rhs.bits >= SIGN_BIT);
        let a: u32 = self.bits % SIGN_BIT;
        let b: u32 = rhs.bits % SIGN_BIT;
        if a > INFINITY_BITS || b > INFINITY_BITS {
            Binary32 { bits: NAN_BITS }
        } else if a == INFINITY_BITS || b == INFINITY_BITS {
            if a == 0 || b == 0 {
                Binary32 { bits: NAN_BITS }
            } else {
                Self::with_sign(negative, INFINITY_BITS)
            }
        } else {
            let (sa, ea) = Self::unpack(a);
            let (sb, eb) = Self::unpack(b);
            assert(sa * sb < 0x100_0000 * 0x100_0000) by (nonlinear_arith)
                requires
                    sa < 0x100_0000,
                    sb < 0x100_0000,
            ;
            let n: u64 = (sa as u64) * (sb as u64);
            Self::with_sign(negative, round_pack(n, ea + eb))
        }
    }

    /// Converts to an integer as a cast does: towards zero, out-of-range
    /// values to the nearest bound, a NaN to 0.
    pub fn to_u32(self) -> (n: u32)
        ensures
            n == self.truncated(),
    {
        let magnitude: u32 = self.bits % SIGN_BIT;
        if self.bits >= SIGN_BIT || magnitude > INFINITY_BITS {
            return 0;
        }
        let (significand, exponent) = Self::unpack(magnitude);
        if exponent >= 0 {
            if exponent >= 32 {
                proof {
                    lemma2_to64();
                    if exponent > 32 {
                        lemma_pow2_strictly_increases(32, exponent as nat);
                    }
                    assert(significand * pow2(exponent as nat) >= pow2(exponent as nat))
                        by (nonlinear_arith)
                        requires
                            significand >= 1,
                    ;
                }
                u32::MAX
            } else {
                let p: u64 = power_of_two(exponent as u32);
                proof {
                    lemma2_to64();
                    if exponent < 31 {
                        lemma_pow2_strictly_increases(exponent as nat, 31);
                    }
                    assert(significand * p <= 0x100_0000 * 0x8000_0000) by (nonlinear_arith)
                        requires
                            significand <= 0x100_0000,
                            p <= 0x8000_0000,
                    ;
                }
                let whole: u64 = (significand as u64) * p;
                if whole > 0xFFFF_FFFF {
                    u32::MAX
                } else {
                    whole as u32
                }
            }
        } else {
            let k: i32 = -exponent;
            if k >= 24 {
                proof {
                    lemma2_to64();
                    if k > 24 {
                        lemma_pow2_strictly_increases(24, k as nat);
                    }
                    lemma_small_quotient(significand as nat, pow2(k as nat));
                }
                0
            } else {
                let p: u64 = power_of_two(k as u32);
                proof {
                    lemma_pow2_pos(k as nat);
                }
                ((significand as u64) / p) as u32
            }
        }
    }

    /// Compares as the numbers do, which is not how the encodings do.
    pub fn less_than(self, rhs: Binary32) -> (b: bool)
        ensures
            b == self.below(rhs),
    {
        let x: u32 = self.bits % SIGN_BIT;
        let y: u32 = rhs.bits % SIGN_BIT;
        if x > INFINITY_BITS || y > INFINITY_BITS {
            return false;
        }
        proof {
            if x < y {
                lemma_scaled_order(x as nat, y as nat);
            }
            if y < x {
                lemma_scaled_order(y as nat, x as nat);
            }
            if 0 < x {
                lemma_scaled_order(0, x as nat);
            }
            if 0 < y {
                lemma_scaled_order(0, y as nat);
            }
            assert(magnitude_scaled(0) == 0) by {
                let zero = Binary32 { bits: 0 };
                assert(zero.significand() == 0);
                assert(0 * pow2((zero.exponent() + 149) as nat) == 0) by (nonlinear_arith);
            }
        }
        let x_negative = self.bits >= SIGN_BIT;
        let y_negative = rhs.bits >= SIGN_BIT;
        if x_negative {
            if y_negative {
                y < x
            } else {
                x != 0 || y != 0
            }
        } else {
            if y_negative {
                false
            } else {
                x < y
            }
        }
    }

    pub fn greater_than(self, rhs: Binary32) -> (b: bool)
        ensures
            b == rhs.below(self),
    {
        rhs.less_than(self)
    }
}

/// Rounding is to the last place. Where `n * 2^e` is in range, the number
/// it rounds to has the value `kept(n, e) * 2^last_place(n, e)`: both
/// sides are written here times `2^149`.
pub proof fn lemma_nearest_value(n: nat, e: int)
    requires
        n > 0,
        nearest_magnitude(n, e) < INFINITY_BITS,
    ensures
        Binary32::encode(false, nearest_magnitude(n, e)).scaled() == kept(n, e) * pow2(
            (last_place(n, e) + 149) as nat,
        ),
{
    let q = last_place(n, e);
    let m = kept(n, e);
    let x = Binary32::encode(false, nearest_magnitude(n, e));
    let shift = (q + 149) as nat;
    lemma_kept_bounds(n, e);
    lemma_pow2_pos(shift);
    assert(x.bits == (q + 149) * 0x80_0000 + m);
    if m < 0x80_0000 {
        assert(q == -149);
        assert(x.significand() == m);
        assert(x.exponent() == q);
    } else if m < 0x100_0000 {
        assert(x.magnitude() / 0x80_0000 == q + 150);
        assert(x.magnitude() % 0x80_0000 == m - 0x80_0000);
        assert(x.significand() == m);
        assert(x.exponent() == q);
    } else {
        assert(x.magnitude() == (q + 151) * 0x80_0000);
        assert(x.magnitude() / 0x80_0000 == q + 151);
        assert(x.magnitude() % 0x80_0000 == 0);
        assert(x.significand() == 0x80_0000);
        assert(x.exponent() == q + 1);
        lemma_pow2_unfold(shift + 1);
        assert(0x80_0000 * (2 * pow2(shift)) == 0x100_0000 * pow2(shift)) by (nonlinear_arith);
    }
}

/// The order of the factors is of no account.
pub proof fn lemma_product_commutes(a: Binary32, b: Binary32)
    ensures
        a.product(b) == b.product(a),
{
    assert(a.significand() * b.significand() == b.significand() * a.significand())
        by (nonlinear_arith);
}

/// A whole number below `2^24` is converted without error.
pub proof fn lemma_small_integers_are_exact(n: nat)
    requires
        n < 0x100_0000,
    ensures
        Binary32::of_nat(n).scaled() == n * pow2(149),
        Binary32::of_nat(n).is_finite(),
        !Binary32::of_nat(n).negative(),
{
    lemma2_to64();
    if n == 0 {
        assert(Binary32::of_nat(n).bits == 0);
        assert(0 * pow2(149) == 0) by (nonlinear_arith);
        assert(0 * pow2(0) == 0) by (nonlinear_arith);
    } else {
        let len = bit_length(n);
        lemma_bit_length_bounds(n);
        assert(len <= 24) by {
            if len > 24 {
                if len - 1 > 24 {
                    lemma_pow2_strictly_increases(24, (len - 1) as nat);
                }
            }
        }
        let q = last_place(n, 0);
        assert(q == len - 24);
        let k = (24 - len) as nat;
        assert(kept(n, 0) == n * pow2(k));
        lemma_kept_bounds(n, 0);
        assert(nearest_magnitude(n, 0) < INFINITY_BITS);
        lemma_nearest_value(n, 0);
        lemma_pow2_adds(k, (q + 149) as nat);
        assert(n * pow2(k) * pow2((q + 149) as nat) == n * (pow2(k) * pow2((q + 149) as nat)))
            by (nonlinear_arith);
    }
}

/// A whole number below `2^24` comes back from single precision as it
/// went in.
pub proof fn lemma_small_integers_round_trip(n: nat)
    requires
        n < 0x100_0000,
    ensures
        Binary32::of_nat(n).truncated() == n,
{
    let x = Binary32::of_nat(n);
    lemma_small_integers_are_exact(n);
    lemma2_to64();
    if n == 0 {
        assert(x.bits == 0);
        lemma_pow2_pos(149);
        lemma_small_quotient(0, pow2(149));
    } else {
        let len = bit_length(n);
        lemma_bit_length_bounds(n);
        assert(len <= 24) by {
            if len - 1 > 24 {
                lemma_pow2_strictly_increases(24, (len - 1) as nat);
            }
        }
        lemma_kept_bounds(n, 0);
        let k = (24 - len) as nat;
        let m = kept(n, 0);
        assert(m == n * pow2(k));
        lemma_pow2_pos(k);
        lemma_pow2_adds(len, k);
        assert(n * pow2(k) < pow2(len) * pow2(k)) by (nonlinear_arith)
            requires
                n < pow2(len),
                pow2(k) > 0,
        ;
        assert(0x80_0000 <= m < 0x100_0000);
        assert(x.bits == (len - 24 + 149) * 0x80_0000 + m);
        assert(x.magnitude() / 0x80_0000 == len - 24 + 150);
        assert(x.magnitude() % 0x80_0000 == m - 0x80_0000);
        assert(x.significand() == m);
        assert(x.exponent() == len - 24);
        if k == 0 {
            assert(n * pow2(0) == n) by (nonlinear_arith)
                requires
                    pow2(0) == 1,
            ;
        } else {
            vstd::arithmetic::div_mod::lemma_div_by_multiple(n as int, pow2(k) as int);
        }
    }
}

/// Whether `x` is not negative and differs from `numerator / denominator`
/// by at most half a unit of its last place: no binary32 number of that
/// last place is nearer to the ratio.
pub open spec fn nearest_to_ratio(x: Binary32, numerator: nat, denominator: nat) -> bool {
    &&& x.is_finite()
    &&& !x.negative()
    &&& 2 * gap(denominator * x.scaled(), (numerator * pow2(149)) as int) <= denominator * pow2(
        (x.exponent() + 149) as nat,
    )
}

/// Reduces `nearest_to_ratio` to whole numbers: the significand against
/// the ratio in units of the last place.
pub proof fn lemma_nearest_to_ratio(x: Binary32, numerator: nat, denominator: nat)
    requires
        x.is_finite(),
        !x.negative(),
        x.exponent() <= 0,
        2 * gap(
            (denominator * x.significand()) as int,
            (numerator * pow2((-x.exponent()) as nat)) as int,
        ) <= denominator,
    ensures
        nearest_to_ratio(x, numerator, denominator),
{
    let m = x.significand() as int;
    let shift = (x.exponent() + 149) as nat;
    let p = pow2(shift) as int;
    let q = pow2((-x.exponent()) as nat) as int;
    let num = numerator as int;
    let den = denominator as int;
    lemma_pow2_pos(shift);
    lemma_pow2_adds((-x.exponent()) as nat, shift);
    assert(pow2(149) == q * p);
    assert(x.scaled() == m * p);
    assert(den * (m * p) == (den * m) * p) by (nonlinear_arith);
    assert(num * (q * p) == (num * q) * p) by (nonlinear_arith);
    let a = den * m;
    let c = num * q;
    assert(2 * gap(a * p, c * p) <= den * p) by (nonlinear_arith)
        requires
            2 * gap(a, c) <= den,
            p > 0,
            gap(a, c) == if a <= c {
                c - a
            } else {
                a - c
            },
            gap(a * p, c * p) == if a * p <= c * p {
                c * p - a * p
            } else {
                a * p - c * p
            },
    ;
}

/// `scaled()` of the non-negative number with the given magnitude.
pub open spec fn magnitude_scaled(magnitude: nat) -> nat {
    let x = Binary32 { bits: magnitude as u32 };
    x.significand() * pow2((x.exponent() + 149) as nat)
}

/// Among non-negative numbers the larger encoding is the larger number.
proof fn lemma_scaled_order(a: nat, b: nat)
    requires
        a < b <= INFINITY_BITS,
    ensures
        magnitude_scaled(a) < magnitude_scaled(b),
{
    let x = Binary32 { bits: a as u32 };
    let y = Binary32 { bits: b as u32 };
    let ex = (x.exponent() + 149) as nat;
    let ey = (y.exponent() + 149) as nat;
    lemma_pow2_pos(ex);
    lemma_pow2_pos(ey);
    if ex == ey {
        assert(x.significand() < y.significand());
        assert(x.significand() * pow2(ex) < y.significand() * pow2(ex)) by (nonlinear_arith)
            requires
                x.significand() < y.significand(),
                pow2(ex) > 0,
        ;
    } else {
        assert(ex < ey);
        assert(y.significand() >= HIDDEN_BIT);
        if a < HIDDEN_BIT {
            lemma2_to64();
            assert(ex == 0);
            assert(x.significand() * pow2(ex) < HIDDEN_BIT);
            assert(y.significand() * pow2(ey) >= HIDDEN_BIT) by (nonlinear_arith)
                requires
                    y.significand() >= HIDDEN_BIT,
                    pow2(ey) >= 1,
            ;
        } else {
            lemma_pow2_unfold(ex + 1);
            if ex + 1 < ey {
                lemma_pow2_strictly_increases(ex + 1, ey);
            }
            assert(x.significand() * pow2(ex) < 0x80_0000 * pow2(ey)) by (nonlinear_arith)
                requires
                    x.significand() < 0x100_0000,
                    2 * pow2(ex) <= pow2(ey),
                    pow2(ex) > 0,
            ;
            assert(y.significand() * pow2(ey) >= 0x80_0000 * pow2(ey)) by (nonlinear_arith)
                requires
                    y.significand() >= 0x80_0000,
                    pow2(ey) > 0,
            ;
        }
    }
}

} // verus!
