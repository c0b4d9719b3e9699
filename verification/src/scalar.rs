//! Single precision numbers, carried as their IEEE 754 bit patterns.
//!
//! A pattern holds a sign bit, eight exponent bits and twenty-three fraction bits.
//! What is decided here about a number (whether it is finite, how two of them
//! compare) can be read off the pattern alone.
use vstd::prelude::*;

verus! {

/// The weight of the sign bit.
pub const SIGN: u32 = 0x8000_0000;

/// The pattern of positive infinity; magnitudes above it are not numbers.
pub const INFINITY: u32 = 0x7f80_0000;

/// The pattern of `0.0`.
pub const ZERO: u32 = 0;

/// The pattern of `1.0`.
pub const ONE: u32 = 0x3f80_0000;

/// The largest finite number.
pub const LARGEST: u32 = 0x7f7f_ffff;

/// The least finite number, the negation of [`LARGEST`].
pub const LEAST: u32 = 0xff7f_ffff;

/// A pattern without its sign bit.
pub open spec fn magnitude(bits: u32) -> u32 {
    bits % SIGN
}

/// Whether a pattern stands for a number that is neither infinite nor undefined.
pub open spec fn is_finite(bits: u32) -> bool {
    magnitude(bits) < INFINITY
}

/// Whether a pattern stands for no number at all.
pub open spec fn is_nan(bits: u32) -> bool {
    magnitude(bits) > INFINITY
}

/// The place of a pattern on the number line: patterns that stand for numbers are
/// ordered as their ranks are, and both zeros have rank zero.
pub open spec fn rank(bits: u32) -> int {
    if bits < SIGN {
        bits as int
    } else {
        SIGN - bits
    }
}

/// Whether the first number is less than the second; false where either is undefined.
pub open spec fn less(a: u32, b: u32) -> bool {
    !is_nan(a) && !is_nan(b) && rank(a) < rank(b)
}

/// The lesser of two numbers; an undefined one gives way, and of two zeros the first stays.
pub open spec fn lesser(a: u32, b: u32) -> u32 {
    if is_nan(a) || less(b, a) {
        b
    } else {
        a
    }
}

/// The greater of two numbers; an undefined one gives way, and of two zeros the first stays.
pub open spec fn greater(a: u32, b: u32) -> u32 {
    if is_nan(a) || less(a, b) {
        b
    } else {
        a
    }
}

/// A number brought into the closed range from `low` to `high`.
pub open spec fn clamped(bits: u32, low: u32, high: u32) -> u32 {
    if less(bits, low) {
        low
    } else if less(high, bits) {
        high
    } else {
        bits
    }
}

/// Whether the pattern stands for a finite number.
pub fn finite_bits(bits: u32) -> (r: bool)
    ensures
        r == is_finite(bits),
{
    bits % SIGN < INFINITY
}

/// Whether the pattern stands for no number.
pub fn nan_bits(bits: u32) -> (r: bool)
    ensures
        r == is_nan(bits),
{
    bits % SIGN > INFINITY
}

/// Compares two numbers as `<` does.
pub fn less_bits(a: u32, b: u32) -> (r: bool)
    ensures
        r == less(a, b),
{
    if nan_bits(a) || nan_bits(b) {
        false
    } else if a < SIGN {
        b < SIGN && a < b
    } else if b < SIGN {
        a > SIGN || b > 0
    } else {
        b < a
    }
}

/// The lesser of two numbers.
pub fn lesser_bits(a: u32, b: u32) -> (r: u32)
    ensures
        r == lesser(a, b),
{
    if nan_bits(a) || less_bits(b, a) {
        b
    } else {
        a
    }
}

/// The greater of two numbers.
pub fn greater_bits(a: u32, b: u32) -> (r: u32)
    ensures
        r == greater(a, b),
{
    if nan_bits(a) || less_bits(a, b) {
        b
    } else {
        a
    }
}

/// Brings a number into a closed range; an undefined one stays as it is.
pub fn clamp_bits(bits: u32, low: u32, high: u32) -> (r: u32)
    requires
        !less(high, low),
        !is_nan(low),
        !is_nan(high),
    ensures
        r == clamped(bits, low, high),
{
    if less_bits(bits, low) {
        low
    } else if less_bits(high, bits) {
        high
    } else {
        bits
    }
}

/// Three numbers, by their patterns: a position or a direction.
#[derive(Clone, Copy, Debug, PartialEq, Eq, Structural)]
pub struct Triple {
    pub x: u32,
    pub y: u32,
    pub z: u32,
}

impl Triple {
    /// Whether all three numbers are finite.
    pub open spec fn all_finite(self) -> bool {
        is_finite(self.x) && is_finite(self.y) && is_finite(self.z)
    }
}

/// The origin.
#[verifier::allow_in_spec]
pub fn origin() -> (r: Triple)
    returns
        (Triple { x: ZERO, y: ZERO, z: ZERO }),
{
    Triple { x: ZERO, y: ZERO, z: ZERO }
}

/// The unit direction along +Z.
#[verifier::allow_in_spec]
pub fn pz() -> (r: Triple)
    returns
        (Triple { x: ZERO, y: ZERO, z: ONE }),
{
    Triple { x: ZERO, y: ZERO, z: ONE }
}

/// A triple as it is kept in a cloud: one that is not finite collapses to the origin.
pub open spec fn settled(v: Triple) -> Triple {
    if v.all_finite() {
        v
    } else {
        origin()
    }
}

/// Replaces a triple with an infinite or undefined number in it by the origin.
pub fn finite(v: Triple) -> (r: Triple)
    ensures
        r == settled(v),
        r.all_finite(),
{
    if finite_bits(v.x) && finite_bits(v.y) && finite_bits(v.z) {
        v
    } else {
        origin()
    }
}

/// Settling a triple gives finite numbers, and doing it again changes nothing.
pub proof fn settling_is_idempotent(v: Triple)
    ensures
        settled(v).all_finite(),
        settled(settled(v)) == settled(v),
{
}

/// The order of numbers is irreflexive and transitive, and two numbers that neither
/// precede nor follow one another have the same rank.
pub proof fn less_is_a_strict_order(a: u32, b: u32, c: u32)
    ensures
        !less(a, a),
        less(a, b) && less(b, c) ==> less(a, c),
        !is_nan(a) && !is_nan(b) && !less(a, b) && !less(b, a) ==> rank(a) == rank(b),
{
}

/// A clamped number lies in the range.
pub proof fn clamping_stays_in_range(bits: u32, low: u32, high: u32)
    requires
        !is_nan(bits),
        !is_nan(low),
        !is_nan(high),
        !less(high, low),
    ensures
        rank(low) <= rank(clamped(bits, low, high)) <= rank(high),
{
}

/// A pattern is finite where not all of its exponent bits are set, and no number where they
/// are and a fraction bit is set as well; the sign does not matter.
pub proof fn patterns_are_classified_by_their_bits(bits: u32)
    ensures
        is_finite(bits) <==> bits & 0x7f80_0000 != 0x7f80_0000,
        is_nan(bits) <==> bits & 0x7f80_0000 == 0x7f80_0000 && bits & 0x007f_ffff != 0,
{
    assert((bits % 0x8000_0000 < 0x7f80_0000) <==> (bits & 0x7f80_0000 != 0x7f80_0000))
        by (bit_vector);
    assert((bits % 0x8000_0000 > 0x7f80_0000) <==> (bits & 0x7f80_0000 == 0x7f80_0000 && bits
        & 0x007f_ffff != 0)) by (bit_vector);
}

/// Numbers without a sign compare as their patterns do, negative ones the other way round;
/// a negative one is less than any that is not, but for the two zeros, which are equal.
/// Where either pattern is no number, neither is less.
pub proof fn numbers_compare_by_sign_and_magnitude(a: u32, b: u32)
    ensures
        is_nan(a) || is_nan(b) ==> !less(a, b),
        !is_nan(a) && !is_nan(b) ==> {
            &&& a < 0x8000_0000 && b < 0x8000_0000 ==> (less(a, b) <==> a < b)
            &&& a >= 0x8000_0000 && b >= 0x8000_0000 ==> (less(a, b) <==> b < a)
            &&& a >= 0x8000_0000 && b < 0x8000_0000 ==> (less(a, b) <==> !(a == 0x8000_0000 && b
                == 0))
            &&& a < 0x8000_0000 && b >= 0x8000_0000 ==> !less(a, b)
            &&& less(a, b) <==> rank(a) < rank(b)
        },
{
}

/// The lesser and the greater of two numbers are two of the two, with the other one not
/// below the lesser and not above the greater. Where one of them is no number, both are the
/// other one.
pub proof fn lesser_and_greater_enclose_both(a: u32, b: u32)
    ensures
        lesser(a, b) == a || lesser(a, b) == b,
        greater(a, b) == a || greater(a, b) == b,
        !less(a, lesser(a, b)) && !less(b, lesser(a, b)),
        !less(greater(a, b), a) && !less(greater(a, b), b),
        is_nan(a) ==> lesser(a, b) == b && greater(a, b) == b,
        is_nan(b) ==> lesser(a, b) == a || is_nan(a),
        is_nan(b) ==> greater(a, b) == a || is_nan(a),
{
}

/// A number within the range is not changed by clamping, one below it becomes its lower end
/// and one above it its upper end. What is no number stays.
pub proof fn clamping_changes_only_what_is_outside(bits: u32, low: u32, high: u32)
    requires
        !is_nan(low),
        !is_nan(high),
        rank(low) <= rank(high),
    ensures
        is_nan(bits) ==> clamped(bits, low, high) == bits,
        !is_nan(bits) && rank(low) <= rank(bits) <= rank(high) ==> clamped(bits, low, high) == bits,
        !is_nan(bits) && rank(bits) < rank(low) ==> clamped(bits, low, high) == low,
        !is_nan(bits) && rank(high) < rank(bits) ==> clamped(bits, low, high) == high,
{
}

/// A triple of finite numbers is kept as it is; any other becomes three zeros.
pub proof fn settling_keeps_finite_numbers(v: Triple)
    ensures
        is_finite(v.x) && is_finite(v.y) && is_finite(v.z) ==> settled(v) == v,
        !is_finite(v.x) || !is_finite(v.y) || !is_finite(v.z) ==> settled(v).x == 0 && settled(v).y
            == 0 && settled(v).z == 0,
{
}

} // verus!
