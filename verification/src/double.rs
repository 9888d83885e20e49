//! Double-precision numbers held by their IEEE 754 bit pattern.
//!
//! The library compares coordinates, zoom levels and accuracies and scales
//! them by powers of two; both are exact on bit patterns. Anything that
//! rounds (sums, products, trigonometry) happens at the edge of the program.

use vstd::arithmetic::div_mod::*;
use vstd::arithmetic::mul::*;
use vstd::arithmetic::power2::*;
use vstd::bits::*;
use vstd::prelude::*;

verus! {

/// A double, held as its bit pattern.
#[derive(Debug, Clone, Copy, PartialEq, Eq, Hash, Structural)]
pub struct Double {
    pub bits: u64,
}

pub const SIGN_BIT: u64 = 0x8000_0000_0000_0000;

/// Bit pattern of positive infinity; larger magnitudes are not numbers.
pub const INFINITY_BITS: u64 = 0x7ff0_0000_0000_0000;

/// One more than the largest fraction field.
pub const FRACTION_LIMIT: u64 = 0x10_0000_0000_0000;

/// The magnitude (a pattern without its sign bit) in multiples of the
/// smallest positive double, `2^-1074`.
pub open spec fn magnitude_units(magnitude: int) -> int {
    significand(magnitude) * pow2(scale(magnitude))
}

/// The significand with its hidden bit.
pub open spec fn significand(magnitude: int) -> int {
    let fraction = magnitude % (FRACTION_LIMIT as int);
    if magnitude < FRACTION_LIMIT {
        fraction
    } else {
        fraction + FRACTION_LIMIT
    }
}

/// The power of two, above `2^-1074`, that the significand counts.
pub open spec fn scale(magnitude: int) -> nat {
    if magnitude < FRACTION_LIMIT {
        0
    } else {
        (magnitude / (FRACTION_LIMIT as int) - 1) as nat
    }
}

/// `bound(v, lo, hi)` is `v` moved into `lo..=hi`.
pub open spec fn bound(v: int, lo: int, hi: int) -> int {
    if v < lo {
        lo
    } else if v > hi {
        hi
    } else {
        v
    }
}

impl Double {
    pub open spec fn negative(self) -> bool {
        self.bits >= SIGN_BIT
    }

    pub open spec fn magnitude(self) -> int {
        if self.negative() {
            self.bits - SIGN_BIT
        } else {
            self.bits as int
        }
    }

    pub open spec fn nan(self) -> bool {
        self.magnitude() > INFINITY_BITS
    }

    /// The number in multiples of `2^-1074`, of which every finite double is
    /// one. Infinities count as the next powers of two beyond the finite
    /// range, so that this also orders them.
    pub open spec fn units(self) -> int {
        if self.negative() {
            -magnitude_units(self.magnitude())
        } else {
            magnitude_units(self.magnitude())
        }
    }

    /// `self < other`; a pattern that is not a number is below nothing.
    pub open spec fn below(self, other: Double) -> bool {
        !self.nan() && !other.nan() && self.units() < other.units()
    }

    /// `self <= other`; a pattern that is not a number compares to nothing.
    pub open spec fn at_most(self, other: Double) -> bool {
        !self.nan() && !other.nan() && self.units() <= other.units()
    }

    /// `self` moved into `lo..=hi`; what is not a number stays as it is.
    pub open spec fn clamped(self, lo: Double, hi: Double) -> Double {
        if self.below(lo) {
            lo
        } else if hi.below(self) {
            hi
        } else {
            self
        }
    }

    /// The larger of two; `self` of equals, and the other of one that is not a
    /// number.
    pub open spec fn or_larger(self, other: Double) -> Double {
        if self.nan() || self.below(other) {
            other
        } else {
            self
        }
    }

    /// The largest integer not above `self * 2^z`.
    pub open spec fn floor_at(self, z: nat) -> int {
        (self.units() * pow2(z)) / (pow2(1074) as int)
    }

    /// The smallest integer not below `self * 2^z`.
    pub open spec fn ceil_at(self, z: nat) -> int {
        -((-self.units() * pow2(z)) / (pow2(1074) as int))
    }

    pub fn from_bits(bits: u64) -> (r: Double)
        ensures
            r.bits == bits,
    {
        Double { bits }
    }

    fn split(self) -> (r: (bool, u64))
        ensures
            r.0 == self.negative(),
            r.1 == self.magnitude(),
            r.1 < SIGN_BIT,
    {
        if self.bits >= SIGN_BIT {
            (true, self.bits - SIGN_BIT)
        } else {
            (false, self.bits)
        }
    }

    pub fn is_nan(self) -> (r: bool)
        ensures
            r == self.nan(),
    {
        self.split().1 > INFINITY_BITS
    }

    /// `self < other`.
    pub fn lt(self, other: Double) -> (r: bool)
        ensures
            r == self.below(other),
    {
        let (sn, sm) = self.split();
        let (on, om) = other.split();
        proof {
            lemma_magnitude_order(sm as int, om as int);
            lemma_magnitude_order(om as int, sm as int);
            lemma_magnitude_sign(sm as int);
            lemma_magnitude_sign(om as int);
        }
        if sm > INFINITY_BITS || om > INFINITY_BITS {
            false
        } else if sn {
            if on {
                om < sm
            } else {
                sm > 0 || om > 0
            }
        } else if on {
            false
        } else {
            sm < om
        }
    }

    /// `self <= other`.
    pub fn le(self, other: Double) -> (r: bool)
        ensures
            r == self.at_most(other),
    {
        if self.is_nan() || other.is_nan() {
            false
        } else {
            !other.lt(self)
        }
    }

    pub fn max(self, other: Double) -> (r: Double)
        ensures
            r == self.or_larger(other),
    {
        if self.is_nan() || self.lt(other) {
            other
        } else {
            self
        }
    }

    pub fn clamp(self, lo: Double, hi: Double) -> (r: Double)
        ensures
            r == self.clamped(lo, hi),
    {
        if self.lt(lo) {
            lo
        } else if hi.lt(self) {
            hi
        } else {
            self
        }
    }

    /// The integer part of `self * 2^z`, moved into `0..=hi`; zero for what is
    /// not a number.
    pub fn floor_clamped(self, z: u8, hi: u32) -> (r: u32)
        requires
            z <= 31,
        ensures
            r == if self.nan() {
                0
            } else {
                bound(self.floor_at(z as nat), 0, hi as int)
            },
    {
        let (negative, m) = self.split();
        if m > INFINITY_BITS {
            return 0;
        }
        if negative {
            proof {
                lemma_magnitude_sign(m as int);
                lemma_floor_of_negative(self.units(), z as nat);
            }
            return 0;
        }
        let (q, exact) = scaled_quotient(m, z);
        if q > hi as u64 {
            hi
        } else {
            q as u32
        }
    }

    /// The integer part of `self * 2^z` moved into `-1..=hi`, for a number.
    pub fn floor_from_below(self, z: u8, hi: u32) -> (r: i64)
        requires
            z <= 31,
            !self.nan(),
        ensures
            r == bound(self.floor_at(z as nat), -1, hi as int),
    {
        let (negative, m) = self.split();
        if negative && m > 0 {
            proof {
                lemma_magnitude_sign(m as int);
                lemma_pow2_pos(1074);
                lemma_pow2_pos(z as nat);
                lemma_mul_strictly_positive(-self.units(), pow2(z as nat) as int);
                lemma_mul_unary_negation(self.units(), pow2(z as nat) as int);
                let t = self.units() * pow2(z as nat);
                lemma_fundamental_div_mod(t, pow2(1074) as int);
                lemma_mod_bound(t, pow2(1074) as int);
                assert(t / (pow2(1074) as int) <= -1) by (nonlinear_arith)
                    requires
                        t < 0,
                        pow2(1074) > 0,
                        t == pow2(1074) as int * (t / (pow2(1074) as int)) + t % (pow2(1074) as int),
                        0 <= t % (pow2(1074) as int),
                ;
            }
            return -1;
        }
        proof {
            lemma_magnitude_sign(m as int);
            lemma_pow2_pos(1074);
            lemma_pow2_pos(z as nat);
            lemma_mul_nonnegative(self.units(), pow2(z as nat) as int);
            lemma_div_pos_is_pos(self.units() * pow2(z as nat), pow2(1074) as int);
        }
        self.floor_clamped(z, hi) as i64
    }

    /// The double `k / 2^z`, which is exact.
    pub fn dyadic(k: u64, z: u8) -> (r: Double)
        requires
            k <= FRACTION_LIMIT,
        ensures
            !r.nan(),
            !r.negative(),
            r.units() == k * pow2((1074 - z) as nat),
    {
        if k == 0 {
            proof {
                lemma_mul_basics(pow2((1074 - z) as nat) as int);
                lemma_magnitude_sign(0);
            }
            return Double { bits: 0 };
        }
        let mut sig: u64 = k;
        let mut n: u64 = 0;
        proof {
            lemma2_to64();
        }
        while sig < FRACTION_LIMIT
            invariant
                n <= 52,
                0 < k,
                k * pow2(n as nat) == sig,
                pow2(n as nat) <= sig,
                0 < sig < 2 * FRACTION_LIMIT,
            decreases 2 * FRACTION_LIMIT - sig,
        {
            proof {
                lemma_pow2_unfold((n + 1) as nat);
                lemma2_to64_rest();
                if n == 52 {
                    assert(false);
                }
                assert(k * (2 * pow2(n as nat)) == 2 * sig) by (nonlinear_arith)
                    requires
                        k * pow2(n as nat) == sig,
                ;
            }
            sig = sig * 2;
            n = n + 1;
        }
        let e: u64 = 1074 - z as u64 - n;
        let bits: u64 = (e + 1) * FRACTION_LIMIT + (sig - FRACTION_LIMIT);
        proof {
            let m = bits as int;
            assert(m / (FRACTION_LIMIT as int) == e + 1);
            assert(significand(m) == sig);
            assert(scale(m) == e);
            lemma_pow2_adds(n as nat, e as nat);
            lemma_mul_is_associative(k as int, pow2(n as nat) as int, pow2(e as nat) as int);
        }
        Double { bits }
    }

    /// The smallest integer not below `self * 2^z`, moved into `0..=hi`; zero
    /// for what is not a number.
    pub fn ceil_clamped(self, z: u8, hi: u32) -> (r: u32)
        requires
            z <= 31,
        ensures
            r == if self.nan() {
                0
            } else {
                bound(self.ceil_at(z as nat), 0, hi as int)
            },
    {
        let (negative, m) = self.split();
        if m > INFINITY_BITS {
            return 0;
        }
        proof {
            lemma_magnitude_sign(m as int);
        }
        if negative {
            proof {
                lemma_pow2_pos(1074);
                lemma_pow2_pos(z as nat);
                lemma_mul_nonnegative(-self.units(), pow2(z as nat) as int);
                lemma_div_pos_is_pos(-self.units() * pow2(z as nat), pow2(1074) as int);
            }
            return 0;
        }
        let (q, exact) = scaled_quotient(m, z);
        proof {
            lemma_ceil_from_floor(self.units(), z as nat);
        }
        if q >= hi as u64 {
            hi
        } else if exact {
            q as u32
        } else {
            q as u32 + 1
        }
    }
}

/// The integer part of a non-negative double times `2^z`, up to `2^52`, and
/// whether nothing was cut off below it.
fn scaled_quotient(m: u64, z: u8) -> (r: (u64, bool))
    requires
        m <= INFINITY_BITS,
        z <= 31,
    ensures
        ({
            let total = magnitude_units(m as int) * pow2(z as nat);
            let floor = total / (pow2(1074) as int);
            &&& r.0 < FRACTION_LIMIT ==> {
                &&& floor == r.0
                &&& r.1 == (total % (pow2(1074) as int) == 0)
            }
            &&& r.0 >= FRACTION_LIMIT ==> floor >= FRACTION_LIMIT
        }),
{
    let e: u64 = m / FRACTION_LIMIT;
    let (sig, s): (u64, u64) = if e == 0 {
        (m, 0)
    } else {
        (m % FRACTION_LIMIT + FRACTION_LIMIT, e - 1)
    };
    proof {
        lemma_scale_bound(m as int);
    }
    let up: u64 = s + z as u64;
    if up >= 1074 {
        proof {
            lemma_scaled_large(sig as int, s as nat, z as nat);
        }
        return (FRACTION_LIMIT, true);
    }
    let shift: u64 = 1074 - up;
    if shift >= 53 {
        proof {
            lemma2_to64_rest();
            if shift > 53 {
                lemma_pow2_strictly_increases(53, shift as nat);
            }
            lemma_scaled(sig as int, s as nat, z as nat, shift as nat, 0, sig as int);
        }
        (0, sig == 0)
    } else {
        let q: u64 = sig >> shift;
        proof {
            lemma_u64_shr_is_div(sig, shift);
            lemma_pow2_pos(shift as nat);
            lemma_fundamental_div_mod(sig as int, pow2(shift as nat) as int);
            lemma_mod_bound(sig as int, pow2(shift as nat) as int);
            lemma_mul_is_commutative(q as int, pow2(shift as nat) as int);
            lemma_scaled(
                sig as int,
                s as nat,
                z as nat,
                shift as nat,
                q as int,
                sig as int % pow2(shift as nat) as int,
            );
            lemma_pow2_strictly_increases(0, shift as nat);
            lemma2_to64();
            assert(q < FRACTION_LIMIT) by (nonlinear_arith)
                requires
                    q * pow2(shift as nat) <= sig,
                    sig < 2 * FRACTION_LIMIT,
                    pow2(shift as nat) >= 2,
            ;
        }
        assert(q * pow2(shift as nat) <= u64::MAX);
        let back: u64 = q << shift;
        proof {
            lemma_u64_shl_is_mul(q, shift);
        }
        (q, back == sig)
    }
}

/// Below the units of one: the quotient and remainder of the significand carry
/// over to the number.
proof fn lemma_scaled(sig: int, s: nat, z: nat, shift: nat, q: int, r: int)
    requires
        s + z + shift == 1074,
        sig == q * pow2(shift) + r,
        0 <= r < pow2(shift),
    ensures
        (sig * pow2(s) * pow2(z)) / (pow2(1074) as int) == q,
        (sig * pow2(s) * pow2(z)) % (pow2(1074) as int) == 0 <==> r == 0,
{
    let a = pow2(s + z) as int;
    let b = pow2(shift) as int;
    let d = pow2(1074) as int;
    lemma_pow2_adds(s, z);
    lemma_pow2_adds(s + z, shift);
    lemma_pow2_pos(s + z);
    lemma_mul_is_associative(sig, pow2(s) as int, pow2(z) as int);
    assert(sig * a == d * q + a * r) by (nonlinear_arith)
        requires
            sig == q * b + r,
            d == a * b,
    ;
    assert(0 <= a * r < d) by (nonlinear_arith)
        requires
            0 <= r < b,
            a > 0,
            d == a * b,
    ;
    assert(a * r == 0 <==> r == 0) by (nonlinear_arith)
        requires
            a > 0,
    ;
    lemma_mul_is_commutative(d, q);
    lemma_fundamental_div_mod_converse(sig * a, d, q, a * r);
}

/// At and above the units of one a normal number is at least `2^52`.
proof fn lemma_scaled_large(sig: int, s: nat, z: nat)
    requires
        s + z >= 1074,
        sig >= FRACTION_LIMIT,
    ensures
        (sig * pow2(s) * pow2(z)) / (pow2(1074) as int) >= FRACTION_LIMIT,
{
    let d = pow2(1074) as int;
    let c = pow2((s + z - 1074) as nat) as int;
    lemma_pow2_adds(s, z);
    lemma_pow2_adds(1074, (s + z - 1074) as nat);
    lemma_pow2_pos((s + z - 1074) as nat);
    lemma_pow2_pos(1074);
    lemma_mul_is_associative(sig, pow2(s) as int, pow2(z) as int);
    assert(sig * pow2(s + z) == (sig * c) * d) by (nonlinear_arith)
        requires
            pow2(s + z) == d * c,
    ;
    lemma_div_multiples_vanish(sig * c, d);
    lemma_mul_is_commutative(sig * c, d);
    assert(sig * c >= FRACTION_LIMIT) by (nonlinear_arith)
        requires
            sig >= FRACTION_LIMIT,
            c >= 1,
    ;
}

proof fn lemma_floor_of_negative(units: int, z: nat)
    requires
        units <= 0,
    ensures
        (units * pow2(z)) / (pow2(1074) as int) <= 0,
{
    lemma_pow2_pos(1074);
    lemma_pow2_pos(z);
    assert(units * pow2(z) <= 0) by (nonlinear_arith)
        requires
            units <= 0,
            pow2(z) > 0,
    ;
    lemma_div_is_ordered(units * pow2(z), 0, pow2(1074) as int);
    lemma_div_of0(pow2(1074) as int);
}

/// Rounding up is rounding down, plus one where something was cut off.
proof fn lemma_ceil_from_floor(units: int, z: nat)
    ensures
        ({
            let d = pow2(1074) as int;
            let t = units * pow2(z);
            -((-units * pow2(z)) / d) == t / d + if t % d == 0 {
                0int
            } else {
                1int
            }
        }),
{
    let d = pow2(1074) as int;
    let t = units * pow2(z);
    lemma_pow2_pos(1074);
    lemma_mul_unary_negation(units, pow2(z) as int);
    lemma_fundamental_div_mod(t, d);
    lemma_mod_bound(t, d);
    if t % d == 0 {
        assert(-t == (-(t / d)) * d + 0) by (nonlinear_arith)
            requires
                t == d * (t / d) + t % d,
                t % d == 0,
        ;
        lemma_fundamental_div_mod_converse(-t, d, -(t / d), 0);
    } else {
        assert(-t == (-(t / d) - 1) * d + (d - t % d)) by (nonlinear_arith)
            requires
                t == d * (t / d) + t % d,
        ;
        lemma_fundamental_div_mod_converse(-t, d, -(t / d) - 1, d - t % d);
    }
}

/// Non-negative patterns order as the numbers they stand for.
pub proof fn lemma_order_of_patterns(a: u64, b: u64)
    requires
        a < b <= INFINITY_BITS,
    ensures
        (Double { bits: a }).below(Double { bits: b }),
{
    lemma_magnitude_order(a as int, b as int);
}

proof fn lemma_scale_bound(m: int)
    requires
        0 <= m < SIGN_BIT,
    ensures
        0 <= significand(m) < 2 * FRACTION_LIMIT,
        m >= FRACTION_LIMIT ==> significand(m) >= FRACTION_LIMIT,
        scale(m) <= 2046,
        m == significand(m) + scale(m) * FRACTION_LIMIT,
{
}

/// The sign of a magnitude's units: zero for zero alone.
proof fn lemma_magnitude_sign(m: int)
    requires
        0 <= m < SIGN_BIT,
    ensures
        magnitude_units(m) >= 0,
        magnitude_units(m) == 0 <==> m == 0,
{
    lemma_scale_bound(m);
    lemma_pow2_pos(scale(m));
    lemma_mul_nonnegative(significand(m), pow2(scale(m)) as int);
    if m > 0 {
        lemma_mul_strictly_positive(significand(m), pow2(scale(m)) as int);
    } else {
        lemma_mul_basics(pow2(scale(m)) as int);
    }
}

/// Patterns without a sign order as the numbers they stand for.
pub proof fn lemma_magnitude_order(a: int, b: int)
    requires
        0 <= a < SIGN_BIT,
        0 <= b < SIGN_BIT,
    ensures
        a < b ==> magnitude_units(a) < magnitude_units(b),
{
    if a < b {
        lemma_scale_bound(a);
        lemma_scale_bound(b);
        let (sa, sb) = (scale(a), scale(b));
        lemma_pow2_pos(sa);
        if sa == sb {
            lemma_mul_strict_inequality(significand(a), significand(b), pow2(sa) as int);
        } else {
            assert(sa < sb);
            lemma_mul_strict_inequality(
                significand(a),
                2 * FRACTION_LIMIT as int,
                pow2(sa) as int,
            );
            let d = (sb - sa - 1) as nat;
            lemma_pow2_unfold((sa + 1) as nat);
            lemma_pow2_adds((sa + 1) as nat, d);
            lemma_pow2_pos(d);
            assert(pow2(sb) >= 2 * pow2(sa)) by (nonlinear_arith)
                requires
                    pow2(sb) == (2 * pow2(sa)) * pow2(d),
                    pow2(d) >= 1,
                    pow2(sa) >= 0,
            ;
            lemma_mul_inequality(2 * pow2(sa) as int, pow2(sb) as int, FRACTION_LIMIT as int);
            lemma_mul_inequality(FRACTION_LIMIT as int, significand(b), pow2(sb) as int);
            assert(2 * FRACTION_LIMIT * pow2(sa) == (2 * pow2(sa)) * FRACTION_LIMIT)
                by (nonlinear_arith);
            assert(FRACTION_LIMIT * pow2(sb) == pow2(sb) * FRACTION_LIMIT) by (nonlinear_arith);
        }
    }
}

/// One more than the largest fraction field of a single-precision number.
pub const SINGLE_FRACTION_LIMIT: u32 = 0x80_0000;

/// Bit pattern of positive infinity in single precision.
pub const SINGLE_INFINITY_BITS: u32 = 0x7f80_0000;

pub const SINGLE_SIGN_BIT: u32 = 0x8000_0000;

pub open spec fn single_magnitude(bits: u32) -> int {
    if bits >= SINGLE_SIGN_BIT {
        bits - SINGLE_SIGN_BIT
    } else {
        bits as int
    }
}

/// A single-precision number without its sign, in multiples of `2^-1074`.
pub open spec fn single_units(magnitude: int) -> int {
    if magnitude < SINGLE_FRACTION_LIMIT {
        magnitude * pow2(925)
    } else {
        (magnitude % (SINGLE_FRACTION_LIMIT as int) + SINGLE_FRACTION_LIMIT) * pow2(
            (magnitude / (SINGLE_FRACTION_LIMIT as int) + 924) as nat,
        )
    }
}

/// Whether a double is the same number as a single-precision one.
pub open spec fn widens(bits: u32, d: Double) -> bool {
    let m = single_magnitude(bits);
    if m > SINGLE_INFINITY_BITS {
        d.nan()
    } else {
        &&& d.negative() == (bits >= SINGLE_SIGN_BIT)
        &&& if m == SINGLE_INFINITY_BITS {
            d.magnitude() == INFINITY_BITS
        } else {
            d.magnitude() < INFINITY_BITS && magnitude_units(d.magnitude()) == single_units(m)
        }
    }
}

/// The double of a single-precision number, which is exact.
pub fn widen(bits: u32) -> (d: Double)
    ensures
        widens(bits, d),
{
    let (sign, m): (u64, u32) = if bits >= SINGLE_SIGN_BIT {
        (SIGN_BIT, bits - SINGLE_SIGN_BIT)
    } else {
        (0, bits)
    };
    let fraction: u64 = (m % SINGLE_FRACTION_LIMIT) as u64;
    let exponent: u64 = (m / SINGLE_FRACTION_LIMIT) as u64;
    if m >= SINGLE_INFINITY_BITS {
        let inner: u64 = INFINITY_BITS + fraction * 0x2000_0000;
        return Double { bits: sign + inner };
    }
    if exponent == 0 {
        let d = Double::dyadic(fraction, 149);
        proof {
            lemma_dyadic_finite(d, fraction as int);
        }
        return Double { bits: sign + d.bits };
    }
    let magnitude: u64 = (exponent + 896) * FRACTION_LIMIT + fraction * 0x2000_0000;
    proof {
        let sig = m % SINGLE_FRACTION_LIMIT + SINGLE_FRACTION_LIMIT;
        assert(magnitude / FRACTION_LIMIT == exponent + 896);
        assert(magnitude % FRACTION_LIMIT == fraction * 0x2000_0000);
        assert(significand(magnitude as int) == sig * 0x2000_0000);
        assert(scale(magnitude as int) == exponent + 895);
        lemma_pow2_adds(29, (exponent + 895) as nat);
        lemma2_to64();
        assert(pow2(29) == 0x2000_0000);
        assert(magnitude_units(magnitude as int) == sig * pow2((exponent + 924) as nat))
            by (nonlinear_arith)
            requires
                magnitude_units(magnitude as int) == (sig * 0x2000_0000) * pow2(
                    (exponent + 895) as nat,
                ),
                pow2((exponent + 924) as nat) == 0x2000_0000 * pow2((exponent + 895) as nat),
        ;
    }
    Double { bits: sign + magnitude }
}

proof fn lemma_dyadic_finite(d: Double, k: int)
    requires
        !d.nan(),
        !d.negative(),
        0 <= k < 0x80_0000,
        d.units() == k * pow2(925),
    ensures
        d.magnitude() < INFINITY_BITS,
{
    if d.magnitude() == INFINITY_BITS {
        let m = INFINITY_BITS as int;
        assert(significand(m) == FRACTION_LIMIT);
        assert(scale(m) == 2046);
        lemma_pow2_strictly_increases(925, 2046);
        assert(FRACTION_LIMIT * pow2(2046) > k * pow2(925)) by (nonlinear_arith)
            requires
                0 <= k < 0x80_0000,
                FRACTION_LIMIT == 0x10_0000_0000_0000,
                pow2(2046) > pow2(925),
                pow2(925) >= 0,
        ;
    }
}

/// A pattern, none for one that is not a number.
pub open spec fn unless_nan(bits: u64) -> Option<u64> {
    if (Double { bits }).nan() {
        None
    } else {
        Some(bits)
    }
}

/// The pattern of the double that a text stands for: nothing where the text
/// cannot be read, and no pattern where it stands for what is not a number.
pub uninterp spec fn decimal_bits(text: Seq<char>) -> Option<Option<u64>>;

/// `str::parse` reads a double from a text, which `toml::Value::Float` holds;
/// here it is given by its bit pattern. Which pattern stands for what is not a
/// number is left unsaid.
#[verifier::external_body]
fn parse_bits(text: &str) -> (r: Option<u64>)
    ensures
        match r {
            Some(bits) => decimal_bits(text@) == Some(unless_nan(bits)),
            None => decimal_bits(text@) is None,
        },
{
    text.parse().ok().map(toml::Value::Float)?.as_float().map(|x| x.to_bits())
}

/// A pattern that is not a number.
pub const NAN_BITS: u64 = 0x7ff8_0000_0000_0000;

/// The double that a decimal text stands for.
pub open spec fn decimal(text: Seq<char>) -> Option<Double> {
    match decimal_bits(text) {
        Some(Some(bits)) => Some(Double { bits }),
        Some(None) => Some(Double { bits: NAN_BITS }),
        None => None,
    }
}

/// Read a double from a decimal text.
pub fn parse_double(text: &str) -> (r: Option<Double>)
    ensures
        r == decimal(text@),
{
    match parse_bits(text) {
        Some(bits) => {
            let d = Double::from_bits(bits);
            if d.is_nan() {
                Some(Double::from_bits(NAN_BITS))
            } else {
                Some(d)
            }
        },
        None => None,
    }
}

/// Whether a double is a whole number.
pub open spec fn is_whole(d: Double, n: int) -> bool {
    &&& d.magnitude() < INFINITY_BITS
    &&& d.negative() == (n < 0)
    &&& d.units() == n * pow2(1074)
}

/// The double of a whole number, which is exact.
pub fn whole(n: i64) -> (d: Double)
    requires
        -0x10_0000_0000_0000 <= n <= 0x10_0000_0000_0000,
    ensures
        is_whole(d, n as int),
{
    let k: u64 = if n < 0 {
        (-n) as u64
    } else {
        n as u64
    };
    let d = Double::dyadic(k, 0);
    proof {
        if d.magnitude() == INFINITY_BITS {
            let m = INFINITY_BITS as int;
            assert(significand(m) == FRACTION_LIMIT);
            assert(scale(m) == 2046);
            lemma_pow2_strictly_increases(1074, 2046);
            assert(FRACTION_LIMIT * pow2(2046) > k * pow2(1074)) by (nonlinear_arith)
                requires
                    0 <= k <= FRACTION_LIMIT,
                    FRACTION_LIMIT == 0x10_0000_0000_0000,
                    pow2(2046) > pow2(1074),
                    pow2(1074) >= 0,
            ;
        }
        assert(-(k * pow2(1074)) == (-(k as int)) * pow2(1074)) by (nonlinear_arith);
    }
    if n < 0 {
        Double { bits: SIGN_BIT + d.bits }
    } else {
        d
    }
}

} // verus!
