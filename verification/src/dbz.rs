//! Radar reflectivity: its codes and its colours.

use vstd::arithmetic::mul::*;
use vstd::arithmetic::power2::*;
use vstd::prelude::*;

use crate::double::{
    lemma_magnitude_order, magnitude_units, scale, significand, Double, FRACTION_LIMIT,
    INFINITY_BITS, SIGN_BIT,
};
use crate::layers::Rgb8;

verus! {

/// Why a value cannot be encoded.
#[derive(Debug, Clone, Copy, PartialEq, Eq, Structural)]
pub enum DbzError {
    AboveRange,
    /// It does not lie on the grid of half steps.
    OffGrid,
}

/// The bit pattern of -32.25, halfway below the lowest code's value.
pub const FLOOR_BITS: u64 = 0xc040_2000_0000_0000;

/// The bit pattern of 95.25, halfway above the highest code's value.
pub const CEILING_BITS: u64 = 0x4057_d000_0000_0000;

/// The value of a code in multiples of `2^-1074`: code 1 is -32, and each
/// further code is a half more.
pub open spec fn code_units(code: int) -> int {
    (code - 65) * pow2(1073)
}

/// How far a value may lie from that of its code: 0.001 in single precision,
/// in multiples of `2^-1074`.
pub open spec fn tolerance() -> int {
    8589935 * (pow2(1041) as int)
}

/// Whether a value is that of a code.
pub open spec fn is_value_of(v: Double, code: int) -> bool {
    let d = v.units() - code_units(code);
    -tolerance() <= d <= tolerance()
}

/// Whether there is nothing to encode: no number, or an echo too weak.
pub open spec fn undetected(v: Double) -> bool {
    v.magnitude() >= INFINITY_BITS || v.at_most(Double { bits: FLOOR_BITS })
}

/// Whether `r` is the code of a value: zero for what is not detected, an error
/// beyond the range and off the grid, and otherwise the code whose value it
/// is.
pub open spec fn encodes(v: Double, r: Result<u8, DbzError>) -> bool {
    if undetected(v) {
        r == Ok::<u8, DbzError>(0)
    } else if (Double { bits: CEILING_BITS }).at_most(v) {
        r == Err::<u8, _>(DbzError::AboveRange)
    } else {
        match r {
            Ok(code) => code >= 1 && is_value_of(v, code as int),
            Err(e) => e == DbzError::OffGrid && forall|code: int|
                1 <= code <= 255 ==> !#[trigger] is_value_of(v, code),
        }
    }
}

/// The code of a value, or why it has none.
pub open spec fn code_of(v: Double) -> Result<u8, DbzError> {
    choose|r: Result<u8, DbzError>| encodes(v, r)
}

/// A value has one code, or one reason to have none.
pub proof fn encoding_is_unique(v: Double, r: Result<u8, DbzError>)
    requires
        encodes(v, r),
    ensures
        code_of(v) == r,
{
    let c = code_of(v);
    assert(encodes(v, c));
    match (r, c) {
        (Ok(a), Ok(b)) => {
            if !undetected(v) {
                codes_are_unique(v, a as int, b as int);
            }
        },
        (Ok(a), Err(_)) => {
            if !undetected(v) {
                assert(is_value_of(v, a as int));
            }
        },
        (Err(_), Ok(b)) => {
            if !undetected(v) {
                assert(is_value_of(v, b as int));
            }
        },
        _ => {},
    }
}

/// Two doubles that are the same number have the same code.
pub proof fn same_number_same_code(a: Double, b: Double, r: Result<u8, DbzError>)
    requires
        encodes(a, r),
        a.magnitude() >= INFINITY_BITS <==> b.magnitude() >= INFINITY_BITS,
        a.magnitude() < INFINITY_BITS ==> a.units() == b.units(),
    ensures
        encodes(b, r),
{
    if a.magnitude() < INFINITY_BITS {
        assert forall|code: int| #[trigger] is_value_of(b, code) == is_value_of(a, code) by {}
    }
}

/// `2^1012`: between the bounds, values are whole multiples of this many units.
spec fn step() -> int {
    pow2(1012) as int
}

proof fn lemma_scales()
    ensures
        step() > 0,
        pow2(1073) == 0x2000_0000_0000_0000 * step(),
        pow2(1041) == 0x2000_0000 * step(),
        pow2(1027) == 0x8000 * step(),
        pow2(1028) == 0x1_0000 * step(),
{
    lemma_pow2_pos(1012);
    lemma_pow2_adds(1012, 61);
    lemma_pow2_adds(1012, 29);
    lemma_pow2_adds(1012, 15);
    lemma_pow2_adds(1012, 16);
    lemma2_to64();
    lemma2_to64_rest();
    assert(pow2(61) == 0x2000_0000_0000_0000);
    assert(pow2(29) == 0x2000_0000);
    assert(pow2(15) == 0x8000);
    assert(pow2(16) == 0x1_0000);
}

/// Comparing multiples of a step compares the factors.
proof fn lemma_factors(a: int, b: int)
    ensures
        a * step() <= b * step() <==> a <= b,
        a * step() < b * step() <==> a < b,
{
    lemma_pow2_pos(1012);
    let k = step();
    assert(a <= b ==> a * k <= b * k) by (nonlinear_arith)
        requires
            k > 0,
    ;
    assert(a * k <= b * k ==> a <= b) by (nonlinear_arith)
        requires
            k > 0,
    ;
    assert(a < b ==> a * k < b * k) by (nonlinear_arith)
        requires
            k > 0,
    ;
    assert(a * k < b * k ==> a < b) by (nonlinear_arith)
        requires
            k > 0,
    ;
}

/// The tolerance in steps.
spec fn slack() -> int {
    4611686237470720
}

/// A value of so many steps is that of a code just where it lies within the
/// slack of the code's steps.
proof fn lemma_near(v: Double, n: int, code: int)
    requires
        v.units() == n * step(),
    ensures
        is_value_of(v, code) <==> -slack() <= n - (code - 65) * 0x2000_0000_0000_0000 <= slack(),
{
    lemma_scales();
    let k = step();
    let d = n - (code - 65) * 0x2000_0000_0000_0000;
    assert(code_units(code) == ((code - 65) * 0x2000_0000_0000_0000) * k) by (nonlinear_arith)
        requires
            code_units(code) == (code - 65) * pow2(1073),
            pow2(1073) == 0x2000_0000_0000_0000 * k,
    ;
    assert(tolerance() == slack() * k) by (nonlinear_arith)
        requires
            tolerance() == 8589935 * pow2(1041),
            pow2(1041) == 0x2000_0000 * k,
            slack() == 4611686237470720,
    ;
    assert(v.units() - code_units(code) == d * k) by (nonlinear_arith)
        requires
            v.units() == n * k,
            code_units(code) == ((code - 65) * 0x2000_0000_0000_0000) * k,
            d == n - (code - 65) * 0x2000_0000_0000_0000,
    ;
    lemma_factors(d, slack());
    lemma_factors(-slack(), d);
    assert((-slack()) * k == -(slack() * k)) by (nonlinear_arith);
}

proof fn lemma_bounds()
    ensures
        (Double { bits: FLOOR_BITS }).units() == -148726874094283259904int * step(),
        (Double { bits: CEILING_BITS }).units() == 439263093255208697856int * step(),
        !(Double { bits: FLOOR_BITS }).nan(),
        !(Double { bits: CEILING_BITS }).nan(),
{
    lemma_scales();
    let f: int = 0x4040_2000_0000_0000;
    assert(f / (FRACTION_LIMIT as int) == 0x404);
    assert(f % (FRACTION_LIMIT as int) == 0x2000_0000_0000);
    assert(scale(f) == 1027);
    assert(significand(f) == 0x10_2000_0000_0000);
    assert(0x10_2000_0000_0000 * (0x8000 * step()) == 148726874094283259904int * step())
        by (nonlinear_arith);
    let c: int = 0x4057_d000_0000_0000;
    assert(c / (FRACTION_LIMIT as int) == 0x405);
    assert(c % (FRACTION_LIMIT as int) == 0x7_d000_0000_0000);
    assert(scale(c) == 1028);
    assert(significand(c) == 0x17_d000_0000_0000);
    assert(0x17_d000_0000_0000 * (0x1_0000 * step()) == 439263093255208697856int * step())
        by (nonlinear_arith);
    assert((Double { bits: FLOOR_BITS }).magnitude() == f);
    assert((Double { bits: CEILING_BITS }).magnitude() == c);
    assert(-(148726874094283259904int * step()) == -148726874094283259904int * step())
        by (nonlinear_arith);
}

/// Encode a reflectivity.
pub fn dbz_to_code(v: Double) -> (r: Result<u8, DbzError>)
    ensures
        encodes(v, r),
{
    let m: u64 = if v.bits >= SIGN_BIT {
        v.bits - SIGN_BIT
    } else {
        v.bits
    };
    if m >= INFINITY_BITS {
        return Ok(0);
    }
    if v.le(Double::from_bits(FLOOR_BITS)) {
        return Ok(0);
    }
    if Double::from_bits(CEILING_BITS).le(v) {
        return Err(DbzError::AboveRange);
    }
    proof {
        lemma_scales();
        lemma_bounds();
    }
    let exponent: u64 = m / FRACTION_LIMIT;
    if exponent < 1013 {
        proof {
            lemma_tiny(v, m as int);
        }
        return Ok(65);
    }
    let sig: u64 = m % FRACTION_LIMIT + FRACTION_LIMIT;
    proof {
        lemma_exponent_bounded(v, m as int);
    }
    let mut n: i128 = sig as i128;
    let mut i: u64 = 0;
    proof {
        lemma2_to64();
    }
    while i < exponent - 1013
        invariant
            1013 <= exponent <= 1029,
            i <= exponent - 1013,
            n == sig * pow2(i as nat),
            0 < n,
            sig < 2 * FRACTION_LIMIT,
            n < 0x20_0000_0000_0000 * pow2(i as nat),
            pow2(i as nat) <= 0x1_0000,
        decreases exponent - 1013 - i,
    {
        proof {
            lemma_pow2_unfold((i + 1) as nat);
            lemma2_to64();
            if i + 1 < 16 {
                lemma_pow2_strictly_increases((i + 1) as nat, 16);
            }
            assert(sig * (2 * pow2(i as nat)) == 2 * (sig * pow2(i as nat))) by (nonlinear_arith);
        }
        n = n * 2;
        i = i + 1;
    }
    let n: i128 = if v.bits >= SIGN_BIT {
        -n
    } else {
        n
    };
    proof {
        lemma_steps(v, m as int, sig as int, (exponent - 1013) as nat);
        assert(v.units() == n * step());
        lemma_factors(-148726874094283259904, n as int);
        lemma_factors(n as int, 439263093255208697856);
    }
    let half: i128 = 0x2000_0000_0000_0000;
    let code: i128 = (n + 65 * half + half / 2) / half;
    let d: i128 = n - (code - 65) * half;
    proof {
        lemma_near(v, n as int, code as int);
        assert forall|c: int| 1 <= c <= 255 && c != code implies !#[trigger] is_value_of(v, c) by {
            lemma_near(v, n as int, c);
        }
    }
    if -4611686237470720 <= d && d <= 4611686237470720 {
        Ok(code as u8)
    } else {
        Err(DbzError::OffGrid)
    }
}

/// A value below `2^-10` is that of the code of zero.
proof fn lemma_tiny(v: Double, m: int)
    requires
        m == v.magnitude(),
        m / (FRACTION_LIMIT as int) < 1013,
    ensures
        is_value_of(v, 65),
{
    lemma_scales();
    let top: int = 1013 * FRACTION_LIMIT;
    assert(m < top);
    lemma_magnitude_order(m, top);
    assert(significand(top) == FRACTION_LIMIT);
    assert(scale(top) == 1012);
    assert(magnitude_units(top) == FRACTION_LIMIT * step());
    if m > 0 {
        lemma_magnitude_order(0, m);
    }
    assert(magnitude_units(0) == 0) by {
        assert(significand(0) == 0);
        lemma_mul_basics(pow2(scale(0)) as int);
    }
    assert(magnitude_units(m) >= 0);
    assert(tolerance() == slack() * step()) by (nonlinear_arith)
        requires
            tolerance() == 8589935 * pow2(1041),
            pow2(1041) == 0x2000_0000 * step(),
            slack() == 4611686237470720,
    ;
    lemma_factors(FRACTION_LIMIT as int, slack());
    assert(code_units(65) == 0) by {
        lemma_mul_basics(pow2(1073) as int);
    }
}

/// Below 96 the exponent is that of 64 at most.
proof fn lemma_exponent_bounded(v: Double, m: int)
    requires
        m == v.magnitude(),
        m < INFINITY_BITS,
        !v.at_most(Double { bits: FLOOR_BITS }),
        !(Double { bits: CEILING_BITS }).at_most(v),
    ensures
        m / (FRACTION_LIMIT as int) <= 1029,
{
    lemma_scales();
    lemma_bounds();
    let top: int = 1030 * FRACTION_LIMIT;
    if m >= top {
        assert(significand(top) == FRACTION_LIMIT);
        assert(scale(top) == 1029);
        lemma_pow2_unfold(1029);
        assert(magnitude_units(top) == 590295810358705651712int * step()) by (nonlinear_arith)
            requires
                magnitude_units(top) == FRACTION_LIMIT * pow2(1029),
                pow2(1029) == 2 * pow2(1028),
                pow2(1028) == 0x1_0000 * step(),
        ;
        if m > top {
            lemma_magnitude_order(top, m);
        }
        lemma_factors(439263093255208697856, 590295810358705651712);
        lemma_factors(148726874094283259904, 590295810358705651712);
        assert(-(148726874094283259904int * step()) == -148726874094283259904int * step())
            by (nonlinear_arith);
    }
}

/// The steps of a value.
proof fn lemma_steps(v: Double, m: int, sig: int, e: nat)
    requires
        m == v.magnitude(),
        m / (FRACTION_LIMIT as int) == 1013 + e,
        sig == m % (FRACTION_LIMIT as int) + FRACTION_LIMIT,
    ensures
        v.units() == if v.negative() {
            -(sig * pow2(e)) * step()
        } else {
            (sig * pow2(e)) * step()
        },
{
    assert(scale(m) == 1012 + e);
    assert(significand(m) == sig);
    lemma_pow2_adds(1012, e);
    assert(magnitude_units(m) == (sig * pow2(e)) * step()) by (nonlinear_arith)
        requires
            magnitude_units(m) == sig * pow2(1012 + e),
            pow2(1012 + e) == step() * pow2(e),
    ;
    assert(-((sig * pow2(e)) * step()) == -(sig * pow2(e)) * step()) by (nonlinear_arith);
}

/// A value has one code at most.
pub proof fn codes_are_unique(v: Double, a: int, b: int)
    requires
        is_value_of(v, a),
        is_value_of(v, b),
    ensures
        a == b,
{
    lemma_scales();
    let k = step();
    assert((a - b) * 0x2000_0000_0000_0000 * k <= 2 * slack() * k && (b - a)
        * 0x2000_0000_0000_0000 * k <= 2 * slack() * k) by (nonlinear_arith)
        requires
            k > 0,
            -tolerance() <= v.units() - code_units(a) <= tolerance(),
            -tolerance() <= v.units() - code_units(b) <= tolerance(),
            code_units(a) == (a - 65) * pow2(1073),
            code_units(b) == (b - 65) * pow2(1073),
            pow2(1073) == 0x2000_0000_0000_0000 * k,
            tolerance() == 8589935 * pow2(1041),
            pow2(1041) == 0x2000_0000 * k,
            slack() == 4611686237470720,
    ;
    lemma_factors((a - b) * 0x2000_0000_0000_0000, 2 * slack());
    lemma_factors((b - a) * 0x2000_0000_0000_0000, 2 * slack());
}

/// The reflectivity of a code, none for the code of what is not detected.
pub fn code_to_dbz(code: u8) -> (r: Option<Double>)
    ensures
        r is None <==> code == 0,
        r matches Some(d) ==> !d.nan() && d.units() == code_units(code as int),
{
    if code == 0 {
        return None;
    }
    if code >= 65 {
        Some(Double::dyadic((code - 65) as u64, 1))
    } else {
        let d = Double::dyadic((65 - code) as u64, 1);
        proof {
            assert(-((65 - code) * pow2(1073)) == (code - 65) * pow2(1073)) by (nonlinear_arith);
        }
        Some(Double::from_bits(d.bits + SIGN_BIT))
    }
}

/// Every code survives decoding and encoding.
pub proof fn codes_round_trip(code: u8, d: Double, r: Result<u8, DbzError>)
    requires
        code > 0,
        !d.nan(),
        d.units() == code_units(code as int),
        encodes(d, r),
    ensures
        r == Ok::<u8, DbzError>(code),
{
    lemma_scales();
    lemma_bounds();
    let k = step();
    let n: int = (code - 65) * 0x2000_0000_0000_0000;
    assert(d.units() == n * k) by (nonlinear_arith)
        requires
            d.units() == (code - 65) * pow2(1073),
            pow2(1073) == 0x2000_0000_0000_0000 * k,
            n == (code - 65) * 0x2000_0000_0000_0000,
    ;
    lemma_factors(-148726874094283259904, n);
    lemma_factors(n, 439263093255208697856);
    lemma_near(d, n, code as int);
    assert(is_value_of(d, code as int));
    lemma_finite(d, n);
    if let Ok(c) = r {
        codes_are_unique(d, c as int, code as int);
    }
}

proof fn lemma_finite(d: Double, n: int)
    requires
        !d.nan(),
        d.units() == n * step(),
        -148726874094283259904 < n < 439263093255208697856,
    ensures
        d.magnitude() < INFINITY_BITS,
{
    let m = d.magnitude();
    if m == INFINITY_BITS {
        lemma_scales();
        let top: int = 1030 * FRACTION_LIMIT;
        assert(significand(top) == FRACTION_LIMIT);
        assert(scale(top) == 1029);
        lemma_pow2_unfold(1029);
        assert(magnitude_units(top) == 590295810358705651712int * step()) by (nonlinear_arith)
            requires
                magnitude_units(top) == FRACTION_LIMIT * pow2(1029),
                pow2(1029) == 2 * pow2(1028),
                pow2(1028) == 0x1_0000 * step(),
        ;
        lemma_magnitude_order(top, m);
        lemma_factors(n, 590295810358705651712);
        lemma_factors(-590295810358705651712, n);
        assert(-(590295810358705651712int * step()) == -590295810358705651712int * step())
            by (nonlinear_arith);
    }
}

/// A band of the colour scale, up to a bound.
#[derive(Debug, Clone, Copy, PartialEq, Eq, Structural)]
pub struct DbzBand {
    /// The bit pattern of the bound, which does not belong to the band; that
    /// of infinity for the last.
    pub max: Double,
    pub color: Rgb8,
}

/// The unit of the scale.
pub const DBZ_UNIT: &'static str = "dBZ";

pub open spec fn band(bits: u64, r: u8, g: u8, b: u8) -> DbzBand {
    DbzBand { max: Double { bits }, color: Rgb8 { r, g, b } }
}

/// The bands of the colour scale: up to 5, 15, 25, 35, 40, 45, 50, 55 and 60,
/// and beyond.
pub open spec fn bands() -> Seq<DbzBand> {
    seq![
        band(0x4014_0000_0000_0000, 140, 180, 255),
        band(0x402e_0000_0000_0000, 80, 140, 255),
        band(0x4039_0000_0000_0000, 100, 220, 100),
        band(0x4041_8000_0000_0000, 40, 180, 40),
        band(0x4044_0000_0000_0000, 180, 220, 40),
        band(0x4046_8000_0000_0000, 220, 220, 40),
        band(0x4049_0000_0000_0000, 240, 160, 40),
        band(0x404b_8000_0000_0000, 220, 60, 40),
        band(0x404e_0000_0000_0000, 200, 40, 180),
        band(0x7ff0_0000_0000_0000, 200, 200, 200),
    ]
}

fn make_band(bits: u64, r: u8, g: u8, b: u8) -> (d: DbzBand)
    ensures
        d == band(bits, r, g, b),
{
    DbzBand { max: Double::from_bits(bits), color: Rgb8::new(r, g, b) }
}

/// The bands of the colour scale, for a legend.
pub fn dbz_bands() -> (r: Vec<DbzBand>)
    ensures
        r@ == bands(),
{
    let mut r: Vec<DbzBand> = Vec::new();
    r.push(make_band(0x4014_0000_0000_0000, 140, 180, 255));
    r.push(make_band(0x402e_0000_0000_0000, 80, 140, 255));
    r.push(make_band(0x4039_0000_0000_0000, 100, 220, 100));
    r.push(make_band(0x4041_8000_0000_0000, 40, 180, 40));
    r.push(make_band(0x4044_0000_0000_0000, 180, 220, 40));
    r.push(make_band(0x4046_8000_0000_0000, 220, 220, 40));
    r.push(make_band(0x4049_0000_0000_0000, 240, 160, 40));
    r.push(make_band(0x404b_8000_0000_0000, 220, 60, 40));
    r.push(make_band(0x404e_0000_0000_0000, 200, 40, 180));
    r.push(make_band(0x7ff0_0000_0000_0000, 200, 200, 200));
    assert(r@ =~= bands());
    r
}

/// The colour of the first band from `from` on that a value lies in; the last
/// one's where it lies in none.
pub open spec fn band_color(v: Double, from: int) -> Rgb8
    decreases 10 - from,
{
    if from < 0 || from >= 9 {
        bands()[9].color
    } else if v.below(bands()[from].max) {
        bands()[from].color
    } else {
        band_color(v, from + 1)
    }
}

/// The bit pattern of 5 times `k`.
pub open spec fn fives(k: int) -> u64 {
    seq![
        0x0000_0000_0000_0000u64,
        0x4014_0000_0000_0000,
        0x4024_0000_0000_0000,
        0x402e_0000_0000_0000,
        0x4034_0000_0000_0000,
        0x4039_0000_0000_0000,
        0x403e_0000_0000_0000,
        0x4041_8000_0000_0000,
        0x4044_0000_0000_0000,
        0x4046_8000_0000_0000,
        0x4049_0000_0000_0000,
        0x404b_8000_0000_0000,
        0x404e_0000_0000_0000,
        0x4050_4000_0000_0000,
    ][k]
}

/// The intensity: one more than the whole fives from `k` on that a value
/// reaches, 14 at most.
pub open spec fn intensity(v: Double, k: int) -> int
    decreases 14 - k,
{
    if k < 1 || k >= 14 {
        14
    } else if (Double { bits: fives(k) }).at_most(v) {
        intensity(v, k + 1)
    } else {
        k
    }
}

fn fives_bits(k: usize) -> (bits: u64)
    requires
        k < 14,
    ensures
        bits == fives(k as int),
{
    match k {
        0 => 0x0000_0000_0000_0000,
        1 => 0x4014_0000_0000_0000,
        2 => 0x4024_0000_0000_0000,
        3 => 0x402e_0000_0000_0000,
        4 => 0x4034_0000_0000_0000,
        5 => 0x4039_0000_0000_0000,
        6 => 0x403e_0000_0000_0000,
        7 => 0x4041_8000_0000_0000,
        8 => 0x4044_0000_0000_0000,
        9 => 0x4046_8000_0000_0000,
        10 => 0x4049_0000_0000_0000,
        11 => 0x404b_8000_0000_0000,
        12 => 0x404e_0000_0000_0000,
        _ => 0x4050_4000_0000_0000,
    }
}

/// The colour and the intensity, from 1 to 14, of a reflectivity.
pub fn dbz_to_color(v: Double) -> (r: (Rgb8, u8))
    ensures
        r.0 == band_color(v, 0),
        r.1 == intensity(v, 1),
{
    let b = dbz_bands();
    let mut i: usize = 0;
    while i < 9 && !v.lt(b[i].max)
        invariant
            i <= 9,
            b@ == bands(),
            band_color(v, 0) == band_color(v, i as int),
        decreases 9 - i,
    {
        i = i + 1;
    }
    let color = b[i].color;
    let mut k: usize = 1;
    while k < 14 && Double::from_bits(fives_bits(k)).le(v)
        invariant
            1 <= k <= 14,
            intensity(v, 1) == intensity(v, k as int),
        decreases 14 - k,
    {
        k = k + 1;
    }
    (color, k as u8)
}

/// The value of a code in whole units of a half: code 65 is zero, the lowest code
/// is -32 and the highest 95.
pub proof fn codes_count_halves(code: int)
    ensures
        code_units(code) == (code - 65) * (Double { bits: 0x3fe0_0000_0000_0000 }).units(),
        code_units(1) == (Double { bits: 0xc040_0000_0000_0000 }).units(),
        code_units(255) == (Double { bits: 0x4057_c000_0000_0000 }).units(),
{
    lemma_scales();
    let half = Double { bits: 0x3fe0_0000_0000_0000 };
    let low = Double { bits: 0xc040_0000_0000_0000 };
    let high = Double { bits: 0x4057_c000_0000_0000 };
    let k = pow2(1021) as int;
    assert(FRACTION_LIMIT == 0x10_0000_0000_0000);
    lemma_pow2_adds(52, 1021);
    lemma_pow2_adds(6, 1021);
    lemma_pow2_adds(7, 1021);
    lemma2_to64();
    assert(magnitude_units(half.magnitude()) == 0x10_0000_0000_0000 * k);
    assert(pow2(1073) == 0x10_0000_0000_0000 * k);
    assert(magnitude_units(low.magnitude()) == 0x10_0000_0000_0000 * pow2(1027));
    assert(magnitude_units(high.magnitude()) == 0x17_c000_0000_0000 * pow2(1028));
    assert(-(0x10_0000_0000_0000 * (64 * k)) == -64 * (0x10_0000_0000_0000 * k))
        by (nonlinear_arith);
    assert(0x17_c000_0000_0000 * (128 * k) == 190 * (0x10_0000_0000_0000 * k))
        by (nonlinear_arith);
}

/// A value lies in the band between two neighbouring bounds and has its colour;
/// below 5 it is the faintest, and from 60 on the strongest.
pub proof fn colours_follow_the_scale(v: Double, i: int)
    requires
        !v.nan(),
        0 <= i <= 9,
        i > 0 ==> bands()[i - 1].max.at_most(v),
        i < 9 ==> v.below(bands()[i].max),
    ensures
        band_color(v, 0) == bands()[i].color,
{
    lemma_bounds_grow();
    lemma_band(v, i, 0);
}

/// The bounds of the bands grow.
proof fn lemma_bounds_grow()
    ensures
        forall|i: int, j: int|
            0 <= i < j <= 8 ==> (#[trigger] bands()[i]).max.below((#[trigger] bands()[j]).max),
{
    let b = bands();
    assert forall|i: int, j: int| 0 <= i < j <= 8 implies (#[trigger] b[i]).max.below(
        (#[trigger] b[j]).max,
    ) by {
        lemma_magnitude_order(b[i].max.bits as int, b[j].max.bits as int);
    }
}

proof fn lemma_band(v: Double, i: int, from: int)
    requires
        !v.nan(),
        0 <= from <= i <= 9,
        i > 0 ==> bands()[i - 1].max.at_most(v),
        i < 9 ==> v.below(bands()[i].max),
        forall|i: int, j: int|
            0 <= i < j <= 8 ==> (#[trigger] bands()[i]).max.below((#[trigger] bands()[j]).max),
    ensures
        band_color(v, from) == bands()[i].color,
    decreases i - from,
{
    if from < i {
        if from < i - 1 {
            assert(bands()[from].max.below(bands()[i - 1].max));
        }
        lemma_band(v, i, from + 1);
    }
}

/// A stronger echo is never drawn fainter.
pub proof fn intensity_grows(a: Double, b: Double, k: int)
    requires
        1 <= k <= 14,
        a.at_most(b),
    ensures
        intensity(a, k) <= intensity(b, k),
        k <= intensity(a, k) <= 14,
    decreases 14 - k,
{
    if k < 14 {
        intensity_grows(a, b, k + 1);
    }
}

} // verus!
