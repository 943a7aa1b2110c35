//! Bit-level view of IEEE 754 binary64 numbers.
//!
//! A number is held as its 64-bit pattern: one sign bit, eleven exponent bits
//! and fifty-two fraction bits. Taking the absolute value, negating, and
//! telling finite numbers from infinities and NaNs are exact operations on the
//! pattern. Every finite binary64 number is a whole multiple of `2⁻¹⁰⁷⁴`, so
//! the number a finite pattern encodes is modelled without loss by an
//! integer, `scaled_value`. Among patterns with a clear sign bit the order of
//! the patterns as unsigned integers is the order of the numbers.

use vstd::prelude::*;
use vstd::arithmetic::power2::{pow2, lemma_pow2_pos, lemma_pow2_unfold, lemma_pow2_strictly_increases};

verus! {

/// The sign bit.
pub const SIGN_MASK: u64 = 0x8000_0000_0000_0000;

/// Every bit but the sign bit.
pub const MAGNITUDE_MASK: u64 = 0x7fff_ffff_ffff_ffff;

/// The pattern of positive infinity: all exponent bits set, fraction zero.
/// A pattern whose magnitude is below this one is a finite number, one whose
/// magnitude is above it is a NaN.
pub const INFINITY: u64 = 0x7ff0_0000_0000_0000;

/// The pattern of positive zero.
pub const ZERO: u64 = 0;

/// The fifty-two fraction bits.
pub const FRACTION_MASK: u64 = 0x000f_ffff_ffff_ffff;

/// The weight of the leading one that a normal number has in front of its
/// fraction, `2⁵²`.
pub const HIDDEN_BIT: u64 = 0x0010_0000_0000_0000;

/// The exponent bits, as a number from 0 to 2047.
pub open spec fn exponent_field(bits: u64) -> nat {
    ((bits >> 52) & 0x7ff) as nat
}

/// The fraction bits, as a number below `2⁵²`.
pub open spec fn fraction_field(bits: u64) -> nat {
    (bits & FRACTION_MASK) as nat
}

/// The absolute value of the number that a finite pattern encodes, in units
/// of `2⁻¹⁰⁷⁴`: the fraction itself for a subnormal number, and the fraction
/// with its leading one, shifted by the exponent, for a normal number.
pub open spec fn scaled_magnitude(bits: u64) -> nat {
    if exponent_field(bits) == 0 {
        fraction_field(bits)
    } else {
        ((HIDDEN_BIT + fraction_field(bits)) * pow2((exponent_field(bits) - 1) as nat)) as nat
    }
}

/// The number that a finite pattern encodes, in units of `2⁻¹⁰⁷⁴`.
pub open spec fn scaled_value(bits: u64) -> int {
    if is_negative(bits) {
        -(scaled_magnitude(bits) as int)
    } else {
        scaled_magnitude(bits) as int
    }
}

/// The pattern of the absolute value.
pub open spec fn magnitude(bits: u64) -> u64 {
    bits & MAGNITUDE_MASK
}

/// Whether the sign bit is set. True of negative numbers and of negative zero.
pub open spec fn is_negative(bits: u64) -> bool {
    bits & SIGN_MASK != 0
}

/// Whether the pattern is a number: neither an infinity nor a NaN.
pub open spec fn is_finite(bits: u64) -> bool {
    magnitude(bits) < INFINITY
}

/// The pattern of the number with the opposite sign.
pub open spec fn negated(bits: u64) -> u64 {
    bits ^ SIGN_MASK
}

/// Clears the sign bit.
pub fn abs(bits: u64) -> (r: u64)
    ensures
        r == magnitude(bits),
{
    bits & MAGNITUDE_MASK
}

/// Flips the sign bit.
pub fn neg(bits: u64) -> (r: u64)
    ensures
        r == negated(bits),
{
    bits ^ SIGN_MASK
}

/// Tests the sign bit.
pub fn sign_negative(bits: u64) -> (r: bool)
    ensures
        r == is_negative(bits),
{
    bits & SIGN_MASK != 0
}

/// Tests that the pattern is neither an infinity nor a NaN.
pub fn finite(bits: u64) -> (r: bool)
    ensures
        r == is_finite(bits),
{
    bits & MAGNITUDE_MASK < INFINITY
}

/// The exponent and fraction bits make up the magnitude, the exponent
/// being the more significant part.
pub proof fn magnitude_is_exponent_then_fraction(bits: u64)
    ensures
        magnitude(bits) == exponent_field(bits) * HIDDEN_BIT + fraction_field(bits),
        exponent_field(bits) <= 0x7ff,
        fraction_field(bits) < HIDDEN_BIT,
        is_finite(bits) <==> exponent_field(bits) < 0x7ff,
{
    let e = (bits >> 52) & 0x7ff;
    let f = bits & FRACTION_MASK;
    assert(bits & MAGNITUDE_MASK == e * HIDDEN_BIT + f && e <= 0x7ff && f < HIDDEN_BIT && ((bits
        & MAGNITUDE_MASK) < INFINITY <==> e < 0x7ff)) by (bit_vector)
        requires
            e == (bits >> 52) & 0x7ff,
            f == bits & FRACTION_MASK,
    ;
}

/// Taking the magnitude clears the sign and nothing else: it keeps
/// finiteness, changes nothing when done again or when there was no sign, and
/// turns the number into its absolute value.
pub proof fn magnitude_properties(bits: u64)
    ensures
        !is_negative(magnitude(bits)),
        magnitude(magnitude(bits)) == magnitude(bits),
        is_finite(magnitude(bits)) == is_finite(bits),
        !is_negative(bits) ==> magnitude(bits) == bits,
        scaled_value(magnitude(bits)) == scaled_magnitude(bits),
        scaled_value(magnitude(bits)) == if scaled_value(bits) < 0 {
            -scaled_value(bits)
        } else {
            scaled_value(bits)
        },
{
    let m = bits & MAGNITUDE_MASK;
    assert(m & SIGN_MASK == 0 && m & MAGNITUDE_MASK == m && (m >> 52) & 0x7ff == (bits >> 52)
        & 0x7ff && m & FRACTION_MASK == bits & FRACTION_MASK) by (bit_vector)
        requires
            m == bits & MAGNITUDE_MASK,
    ;
    assert(bits & SIGN_MASK == 0 ==> bits & MAGNITUDE_MASK == bits) by (bit_vector);
}

/// Negation flips the sign and nothing else: it keeps the magnitude and
/// finiteness, undoes itself, and turns the number into its opposite.
pub proof fn negated_properties(bits: u64)
    ensures
        is_negative(negated(bits)) == !is_negative(bits),
        magnitude(negated(bits)) == magnitude(bits),
        is_finite(negated(bits)) == is_finite(bits),
        negated(negated(bits)) == bits,
        scaled_value(negated(bits)) == -scaled_value(bits),
{
    let n = bits ^ SIGN_MASK;
    assert(((n & SIGN_MASK != 0) == !(bits & SIGN_MASK != 0)) && n & MAGNITUDE_MASK == bits
        & MAGNITUDE_MASK && n ^ SIGN_MASK == bits && (n >> 52) & 0x7ff == (bits >> 52) & 0x7ff && n
        & FRACTION_MASK == bits & FRACTION_MASK) by (bit_vector)
        requires
            n == bits ^ SIGN_MASK,
    ;
}

/// A pattern with the smaller magnitude encodes the number with the smaller
/// absolute value.
pub proof fn scaled_magnitude_increases(a: u64, b: u64)
    requires
        magnitude(a) < magnitude(b),
    ensures
        scaled_magnitude(a) < scaled_magnitude(b),
{
    magnitude_is_exponent_then_fraction(a);
    magnitude_is_exponent_then_fraction(b);
    let h = HIDDEN_BIT as int;
    let ea = exponent_field(a);
    let fa = fraction_field(a) as int;
    let eb = exponent_field(b);
    let fb = fraction_field(b) as int;
    assert(ea < eb || (ea == eb && fa < fb)) by (nonlinear_arith)
        requires
            ea * h + fa < eb * h + fb,
            0 <= fa < h,
            0 <= fb < h,
    ;
    if ea == eb {
        if ea > 0 {
            let p = pow2((ea - 1) as nat) as int;
            lemma_pow2_pos((ea - 1) as nat);
            assert((h + fa) * p < (h + fb) * p) by (nonlinear_arith)
                requires
                    fa < fb,
                    p > 0,
            ;
        }
    } else {
        let pb = pow2((eb - 1) as nat) as int;
        lemma_pow2_pos((eb - 1) as nat);
        assert(h <= (h + fb) * pb) by (nonlinear_arith)
            requires
                pb >= 1,
                fb >= 0,
                h >= 0,
        ;
        if ea > 0 {
            let pa = pow2((ea - 1) as nat) as int;
            lemma_pow2_pos((ea - 1) as nat);
            lemma_pow2_unfold(ea);
            if ea < eb - 1 {
                lemma_pow2_strictly_increases(ea, (eb - 1) as nat);
            }
            assert((h + fa) * pa < (h + fb) * pb) by (nonlinear_arith)
                requires
                    0 <= fa < h,
                    0 <= fb,
                    pa > 0,
                    2 * pa <= pb,
            ;
        }
    }
}

/// Among patterns the order of the magnitudes is the order of the absolute
/// values of the numbers.
pub proof fn magnitudes_order_as_numbers(a: u64, b: u64)
    ensures
        magnitude(a) <= magnitude(b) <==> scaled_magnitude(a) <= scaled_magnitude(b),
{
    if magnitude(a) < magnitude(b) {
        scaled_magnitude_increases(a, b);
    } else if magnitude(b) < magnitude(a) {
        scaled_magnitude_increases(b, a);
    } else {
        magnitude_is_exponent_then_fraction(a);
        magnitude_is_exponent_then_fraction(b);
        let h = HIDDEN_BIT as int;
        let ea = exponent_field(a);
        let fa = fraction_field(a) as int;
        let eb = exponent_field(b);
        let fb = fraction_field(b) as int;
        assert(ea == eb && fa == fb) by (nonlinear_arith)
            requires
                ea * h + fa == eb * h + fb,
                0 <= fa < h,
                0 <= fb < h,
        ;
    }
}

} // verus!
