//! IEEE 754 double precision numbers, read through their 64-bit patterns.
//!
//! A pattern has one sign bit, eleven exponent bits and fifty-two fraction
//! bits. Every finite number is a whole multiple of two to the power -1074,
//! so the value of a finite pattern is modelled exactly by an integer: the
//! number of such units it holds.

use vstd::arithmetic::div_mod::lemma_basic_div;
use vstd::arithmetic::div_mod::lemma_div_by_multiple;
use vstd::arithmetic::div_mod::lemma_div_denominator;
use vstd::arithmetic::div_mod::lemma_div_is_ordered;
use vstd::arithmetic::power2::lemma2_to64;
use vstd::arithmetic::power2::lemma2_to64_rest;
use vstd::arithmetic::power2::lemma_pow2_adds;
use vstd::arithmetic::power2::lemma_pow2_pos;
use vstd::arithmetic::power2::lemma_pow2_strictly_increases;
use vstd::arithmetic::power2::lemma_pow2_unfold;
use vstd::arithmetic::power2::pow2;
use vstd::bits::lemma_u64_shl_is_mul;
use vstd::bits::lemma_u64_shr_is_div;
use vstd::prelude::*;

verus! {

/// The sign bit alone, two to the power 63: the pattern of negative zero.
pub const SIGN_BIT: u64 = 0x8000_0000_0000_0000;

/// Two to the power 52: the number of patterns that share one exponent and sign.
pub const FRACTION_RANGE: u64 = 0x10_0000_0000_0000;

/// The exponent field of infinities and of values that are not numbers.
pub const EXPONENT_SPECIAL: u64 = 0x7ff;

/// Whether the sign bit is set.
pub open spec fn sign_is_set(bits: u64) -> bool {
    bits >= SIGN_BIT
}

/// The eleven exponent bits, as a number below 2048.
pub open spec fn exponent_field(bits: u64) -> nat {
    ((bits / FRACTION_RANGE) % 0x800) as nat
}

/// The fifty-two fraction bits, as a number below two to the power 52.
pub open spec fn fraction_field(bits: u64) -> nat {
    (bits % FRACTION_RANGE) as nat
}

/// The pattern stands for no number.
pub open spec fn spec_is_nan(bits: u64) -> bool {
    exponent_field(bits) == EXPONENT_SPECIAL && fraction_field(bits) != 0
}

/// The pattern stands for a number that is neither infinite nor missing.
pub open spec fn spec_is_finite(bits: u64) -> bool {
    exponent_field(bits) != EXPONENT_SPECIAL
}

/// The pattern is one of the two zeros.
pub open spec fn spec_is_zero(bits: u64) -> bool {
    exponent_field(bits) == 0 && fraction_field(bits) == 0
}

/// The number compares below zero: it is negative, and neither a zero nor missing.
pub open spec fn spec_is_below_zero(bits: u64) -> bool {
    sign_is_set(bits) && !spec_is_nan(bits) && !spec_is_zero(bits)
}

/// The number compares above zero: it is positive, and neither a zero nor missing.
pub open spec fn spec_is_above_zero(bits: u64) -> bool {
    !sign_is_set(bits) && !spec_is_nan(bits) && !spec_is_zero(bits)
}

/// The size of a finite number in units of two to the power -1074.
pub open spec fn magnitude(bits: u64) -> int {
    if exponent_field(bits) == 0 {
        fraction_field(bits) as int
    } else {
        (FRACTION_RANGE + fraction_field(bits)) * pow2((exponent_field(bits) - 1) as nat)
    }
}

/// The value of a finite number in units of two to the power -1074.
pub open spec fn scaled_value(bits: u64) -> int {
    if sign_is_set(bits) {
        -magnitude(bits)
    } else {
        magnitude(bits)
    }
}

/// The exponent bits of a pattern.
fn exponent_bits(bits: u64) -> (e: u64)
    ensures
        e == exponent_field(bits),
{
    assert((bits >> 52) & 0x7ff == (bits / 0x10_0000_0000_0000) % 0x800) by (bit_vector);
    (bits >> 52) & 0x7ff
}

/// The fraction bits of a pattern.
fn fraction_bits(bits: u64) -> (f: u64)
    ensures
        f == fraction_field(bits),
{
    assert(bits & 0xf_ffff_ffff_ffff == bits % 0x10_0000_0000_0000) by (bit_vector);
    bits & 0xf_ffff_ffff_ffff
}

/// Tells whether the pattern stands for no number.
#[verifier::when_used_as_spec(spec_is_nan)]
pub fn is_nan(bits: u64) -> (r: bool)
    ensures
        r == spec_is_nan(bits),
{
    exponent_bits(bits) == EXPONENT_SPECIAL && fraction_bits(bits) != 0
}

/// Tells whether the pattern stands for a finite number.
#[verifier::when_used_as_spec(spec_is_finite)]
pub fn is_finite(bits: u64) -> (r: bool)
    ensures
        r == spec_is_finite(bits),
{
    exponent_bits(bits) != EXPONENT_SPECIAL
}

/// Tells whether the pattern is one of the two zeros.
#[verifier::when_used_as_spec(spec_is_zero)]
pub fn is_zero(bits: u64) -> (r: bool)
    ensures
        r == spec_is_zero(bits),
{
    exponent_bits(bits) == 0 && fraction_bits(bits) == 0
}

/// Tells whether the number compares below zero.
#[verifier::when_used_as_spec(spec_is_below_zero)]
pub fn is_below_zero(bits: u64) -> (r: bool)
    ensures
        r == spec_is_below_zero(bits),
{
    bits >= SIGN_BIT && !is_nan(bits) && !is_zero(bits)
}

/// Tells whether the number compares above zero.
#[verifier::when_used_as_spec(spec_is_above_zero)]
pub fn is_above_zero(bits: u64) -> (r: bool)
    ensures
        r == spec_is_above_zero(bits),
{
    bits < SIGN_BIT && !is_nan(bits) && !is_zero(bits)
}

/// A finite number compares below zero exactly when its value is negative,
/// above zero exactly when its value is positive, and is a zero exactly when
/// its value is zero.
pub proof fn lemma_sign_of_value(bits: u64)
    requires
        spec_is_finite(bits),
    ensures
        spec_is_below_zero(bits) <==> scaled_value(bits) < 0,
        spec_is_above_zero(bits) <==> scaled_value(bits) > 0,
        spec_is_zero(bits) <==> scaled_value(bits) == 0,
{
    let e = exponent_field(bits);
    if e != 0 {
        lemma_pow2_pos((e - 1) as nat);
        assert(magnitude(bits) > 0) by (nonlinear_arith)
            requires
                magnitude(bits) == (FRACTION_RANGE + fraction_field(bits)) * pow2((e - 1) as nat),
                pow2((e - 1) as nat) > 0,
        ;
    }
}

/// A pattern without its sign bit is its exponent field times two to the
/// power 52, plus its fraction field.
proof fn lemma_fields(bits: u64)
    ensures
        bits % SIGN_BIT == exponent_field(bits) * FRACTION_RANGE + fraction_field(bits),
        exponent_field(bits) < 0x800,
        fraction_field(bits) < FRACTION_RANGE,
{
}

/// The magnitudes of the patterns of one exponent field lie in one range:
/// below two to the power 52 for the field zero, and from that power times
/// two to the power of the field less one, up to twice as much, for another.
proof fn lemma_magnitude_bounds(bits: u64)
    ensures
        exponent_field(bits) == 0 ==> 0 <= magnitude(bits) < FRACTION_RANGE,
        exponent_field(bits) > 0 ==> FRACTION_RANGE * pow2((exponent_field(bits) - 1) as nat)
            <= magnitude(bits) < FRACTION_RANGE * pow2(exponent_field(bits)),
{
    let e = exponent_field(bits);
    let f = fraction_field(bits);
    if e > 0 {
        let p = pow2((e - 1) as nat);
        lemma_pow2_pos((e - 1) as nat);
        lemma_pow2_unfold(e);
        assert(FRACTION_RANGE * p <= (FRACTION_RANGE + f) * p < FRACTION_RANGE * (2 * p))
            by (nonlinear_arith)
            requires
                0 <= f < FRACTION_RANGE,
                p > 0,
        ;
    }
}

/// Of two patterns, the one that is smaller without its sign bit has the
/// smaller magnitude.
proof fn lemma_magnitude_increases(a: u64, b: u64)
    requires
        a % SIGN_BIT < b % SIGN_BIT,
    ensures
        magnitude(a) < magnitude(b),
{
    lemma_fields(a);
    lemma_fields(b);
    lemma_magnitude_bounds(a);
    lemma_magnitude_bounds(b);
    let ea = exponent_field(a);
    let eb = exponent_field(b);
    if ea == eb {
        if ea > 0 {
            let p = pow2((ea - 1) as nat);
            lemma_pow2_pos((ea - 1) as nat);
            assert((FRACTION_RANGE + fraction_field(a)) * p < (FRACTION_RANGE + fraction_field(b))
                * p) by (nonlinear_arith)
                requires
                    fraction_field(a) < fraction_field(b),
                    p > 0,
            ;
        }
    } else {
        let lower = pow2((eb - 1) as nat);
        if ea == 0 {
            lemma_pow2_pos((eb - 1) as nat);
            assert(FRACTION_RANGE <= FRACTION_RANGE * lower) by (nonlinear_arith)
                requires
                    lower > 0,
            ;
        } else {
            if ea < eb - 1 {
                lemma_pow2_strictly_increases(ea, (eb - 1) as nat);
            }
            assert(FRACTION_RANGE * pow2(ea) <= FRACTION_RANGE * lower) by (nonlinear_arith)
                requires
                    pow2(ea) <= lower,
            ;
        }
    }
}

/// The magnitudes of two patterns are in the order of the patterns without
/// their sign bits.
pub proof fn lemma_magnitude_order(a: u64, b: u64)
    ensures
        a % SIGN_BIT < b % SIGN_BIT <==> magnitude(a) < magnitude(b),
        a % SIGN_BIT == b % SIGN_BIT <==> magnitude(a) == magnitude(b),
{
    lemma_fields(a);
    lemma_fields(b);
    if a % SIGN_BIT < b % SIGN_BIT {
        lemma_magnitude_increases(a, b);
    } else if b % SIGN_BIT < a % SIGN_BIT {
        lemma_magnitude_increases(b, a);
    }
}

/// Tells whether the first number is smaller than the second. The two zeros
/// are equal. Neither pattern is meant to be one that stands for no number.
pub fn is_less(a: u64, b: u64) -> (r: bool)
    ensures
        r == (scaled_value(a) < scaled_value(b)),
{
    assert(a & 0x7fff_ffff_ffff_ffff == a % 0x8000_0000_0000_0000) by (bit_vector);
    assert(b & 0x7fff_ffff_ffff_ffff == b % 0x8000_0000_0000_0000) by (bit_vector);
    let size_a: u64 = a & 0x7fff_ffff_ffff_ffff;
    let size_b: u64 = b & 0x7fff_ffff_ffff_ffff;
    proof {
        lemma_magnitude_order(a, b);
        lemma_magnitude_order(a, 0);
        lemma_magnitude_order(b, 0);
    }
    if a < SIGN_BIT {
        b < SIGN_BIT && size_a < size_b
    } else if b < SIGN_BIT {
        size_a != 0 || size_b != 0
    } else {
        size_b < size_a
    }
}

/// The exponent field of the number one.
pub const EXPONENT_OF_ONE: u64 = 1023;

/// The exponent field from which on a number has no fractional part left:
/// its magnitude is a whole multiple of two to the power 1074.
pub const EXPONENT_OF_WHOLE: u64 = 1075;

/// The whole part of a number, rounded toward zero; zero for a number below
/// zero and for what is no number. For positive infinity it is above every
/// count that the machine holds.
pub open spec fn whole_part(bits: u64) -> int {
    if spec_is_nan(bits) || sign_is_set(bits) {
        0
    } else {
        magnitude(bits) / (pow2(1074) as int)
    }
}

/// The count that a number stands for: its whole part, or the largest count
/// of the machine where the whole part is above it.
pub open spec fn spec_truncate_to_size(bits: u64) -> usize {
    if whole_part(bits) > usize::MAX {
        usize::MAX
    } else {
        whole_part(bits) as usize
    }
}

/// A number whose exponent field is below that of one has the whole part zero.
proof fn lemma_whole_part_below_one(bits: u64)
    requires
        exponent_field(bits) < EXPONENT_OF_ONE,
    ensures
        magnitude(bits) / (pow2(1074) as int) == 0,
{
    let e = exponent_field(bits);
    lemma_magnitude_bounds(bits);
    lemma2_to64_rest();
    lemma_pow2_adds(52, e);
    if 52 + e < 1074 {
        lemma_pow2_strictly_increases(52 + e, 1074);
    }
    if e == 0 {
        lemma_pow2_strictly_increases(52, 1074);
    }
    lemma_basic_div(magnitude(bits), pow2(1074) as int);
}

/// From the exponent field of the whole numbers on, the whole part is the
/// fraction with its leading one, times a power of two.
proof fn lemma_whole_part_shifted_left(bits: u64)
    requires
        exponent_field(bits) >= EXPONENT_OF_WHOLE,
    ensures
        magnitude(bits) / (pow2(1074) as int) == (FRACTION_RANGE + fraction_field(bits)) * pow2(
            (exponent_field(bits) - EXPONENT_OF_WHOLE) as nat,
        ),
{
    let e = exponent_field(bits);
    let m = (FRACTION_RANGE + fraction_field(bits)) as int;
    let k = (e - EXPONENT_OF_WHOLE) as nat;
    let unit = pow2(1074) as int;
    let scale = pow2(k) as int;
    lemma_pow2_adds(1074, k);
    lemma_pow2_pos(1074);
    assert(pow2((e - 1) as nat) == unit * scale);
    assert(magnitude(bits) == (m * scale) * unit) by (nonlinear_arith)
        requires
            magnitude(bits) == m * (unit * scale),
    ;
    lemma_pow2_pos(k);
    assert(0 <= m * scale) by (nonlinear_arith)
        requires
            0 <= m,
            0 < scale,
    ;
    lemma_div_by_multiple(m * scale, unit);
}

/// Between the exponent field of one and that of the whole numbers, the
/// whole part is the fraction with its leading one, divided by a power of
/// two.
proof fn lemma_whole_part_shifted_right(bits: u64)
    requires
        EXPONENT_OF_ONE <= exponent_field(bits) < EXPONENT_OF_WHOLE,
    ensures
        magnitude(bits) / (pow2(1074) as int) == (FRACTION_RANGE + fraction_field(bits)) / (pow2(
            (EXPONENT_OF_WHOLE - exponent_field(bits)) as nat,
        ) as int),
{
    let e = exponent_field(bits);
    let m = (FRACTION_RANGE + fraction_field(bits)) as int;
    let k = (EXPONENT_OF_WHOLE - e) as nat;
    let low = pow2((e - 1) as nat) as int;
    let high = pow2(k) as int;
    lemma_pow2_adds((e - 1) as nat, k);
    lemma_pow2_pos((e - 1) as nat);
    lemma_pow2_pos(k);
    assert(pow2(1074) == low * high);
    assert(0 <= m * low) by (nonlinear_arith)
        requires
            0 <= m,
            0 < low,
    ;
    lemma_div_denominator(m * low, low, high);
    lemma_div_by_multiple(m, low);
}

/// From the exponent field 1087 on, the whole part is at least two to the
/// power 64.
proof fn lemma_whole_part_is_large(bits: u64)
    requires
        exponent_field(bits) >= EXPONENT_OF_WHOLE + 12,
    ensures
        magnitude(bits) / (pow2(1074) as int) >= 0x1_0000_0000_0000_0000,
{
    let e = exponent_field(bits);
    let unit = pow2(1074) as int;
    lemma_magnitude_bounds(bits);
    lemma2_to64();
    lemma2_to64_rest();
    lemma_pow2_adds(1074, 12);
    lemma_pow2_adds(1074, 64);
    lemma_pow2_pos(1074);
    if 1086 < e - 1 {
        lemma_pow2_strictly_increases(1086, (e - 1) as nat);
    }
    assert(0x1_0000_0000_0000_0000 * unit <= magnitude(bits)) by (nonlinear_arith)
        requires
            FRACTION_RANGE * pow2((e - 1) as nat) <= magnitude(bits),
            pow2(1086) <= pow2((e - 1) as nat),
            pow2(1086) == unit * 0x1000,
            FRACTION_RANGE == 0x10_0000_0000_0000,
            0 < unit,
    ;
    lemma_div_by_multiple(0x1_0000_0000_0000_0000, unit);
    lemma_div_is_ordered(0x1_0000_0000_0000_0000 * unit, magnitude(bits), unit);
}

/// Converts a number to a count as a cast does: the whole part, rounded
/// toward zero, of a number above zero; zero for a number below one and for
/// what is no number; the largest count for a number above it.
#[verifier::when_used_as_spec(spec_truncate_to_size)]
pub fn truncate_to_size(bits: u64) -> (n: usize)
    ensures
        n == spec_truncate_to_size(bits),
{
    let e: u64 = exponent_bits(bits);
    let f: u64 = fraction_bits(bits);
    if bits >= SIGN_BIT || (e == EXPONENT_SPECIAL && f != 0) {
        return 0;
    }
    if e < EXPONENT_OF_ONE {
        proof {
            lemma_whole_part_below_one(bits);
        }
        return 0;
    }
    if e >= EXPONENT_OF_WHOLE + 12 {
        proof {
            lemma_whole_part_is_large(bits);
        }
        return usize::MAX;
    }
    let m: u64 = FRACTION_RANGE + f;
    let whole: u64 = if e >= EXPONENT_OF_WHOLE {
        let k: u64 = e - EXPONENT_OF_WHOLE;
        proof {
            lemma_whole_part_shifted_left(bits);
            lemma2_to64();
            lemma_pow2_pos(k as nat);
            if k < 11 {
                lemma_pow2_strictly_increases(k as nat, 11);
            }
            assert(m * pow2(k as nat) <= u64::MAX) by (nonlinear_arith)
                requires
                    m < 0x20_0000_0000_0000,
                    0 < pow2(k as nat) <= 0x800,
            ;
            lemma_u64_shl_is_mul(m, k);
        }
        m << k
    } else {
        let k: u64 = EXPONENT_OF_WHOLE - e;
        proof {
            lemma_whole_part_shifted_right(bits);
            lemma_u64_shr_is_div(m, k);
        }
        m >> k
    };
    if whole > usize::MAX as u64 {
        usize::MAX
    } else {
        whole as usize
    }
}

} // verus!
