//! Single-precision numbers carried as their IEEE 754 bit patterns: moved,
//! negated and compared here, never computed with.

use vstd::prelude::*;

verus! {

/// The bit pattern of an IEEE 754 single-precision number.
#[derive(Clone, Copy, Debug, PartialEq, Eq, Structural)]
pub struct F32Bits(pub u32);

/// The pattern of `0.0`.
pub const ZERO_BITS: u32 = 0;

/// The pattern of `1.0`.
pub const ONE_BITS: u32 = 0x3F80_0000;

/// The pattern of the quiet NaN.
pub const NAN_BITS: u32 = 0x7FC0_0000;

/// The pattern of the largest finite number.
pub const MAX_BITS: u32 = 0x7F7F_FFFF;

/// The pattern of the least finite number.
pub const MIN_BITS: u32 = 0xFF7F_FFFF;

/// The pattern of a number of the same magnitude and the other sign.
pub open spec fn negated(x: F32Bits) -> F32Bits {
    F32Bits(
        (if x.0 < 0x8000_0000 {
            x.0 + 0x8000_0000
        } else {
            x.0 - 0x8000_0000
        }) as u32,
    )
}

/// Where a number that is no NaN stands among all numbers: patterns of one
/// sign are ordered as integers, and the two zeros stand together.
pub open spec fn rank(x: F32Bits) -> int {
    if x.0 < 0x8000_0000 {
        x.0 as int
    } else {
        0x8000_0000 - x.0
    }
}

/// Not a number: all exponent bits set and a fraction other than zero.
pub open spec fn is_nan(x: F32Bits) -> bool {
    rank(x) > 0x7F80_0000 || rank(x) < -0x7F80_0000
}

/// `a < b` as numbers; false when either is a NaN.
pub open spec fn less(a: F32Bits, b: F32Bits) -> bool {
    !is_nan(a) && !is_nan(b) && rank(a) < rank(b)
}

/// `a <= b` as numbers; false when either is a NaN.
pub open spec fn at_most(a: F32Bits, b: F32Bits) -> bool {
    !is_nan(a) && !is_nan(b) && rank(a) <= rank(b)
}

/// The position of a number in the order of all numbers.
fn rank_of(x: F32Bits) -> (r: i64)
    ensures
        r == rank(x),
{
    if x.0 < 0x8000_0000 {
        x.0 as i64
    } else {
        0x8000_0000 - x.0 as i64
    }
}

impl F32Bits {
    /// The number with the other sign.
    pub fn neg(self) -> (r: F32Bits)
        ensures
            r == negated(self),
    {
        if self.0 < 0x8000_0000 {
            F32Bits(self.0 + 0x8000_0000)
        } else {
            F32Bits(self.0 - 0x8000_0000)
        }
    }

    /// Whether this is not a number.
    pub fn nan(self) -> (r: bool)
        ensures
            r == is_nan(self),
    {
        let k: i64 = rank_of(self);
        k > 0x7F80_0000 || k < -0x7F80_0000
    }

    /// Whether this number is less than the other.
    pub fn lt(self, other: F32Bits) -> (r: bool)
        ensures
            r == less(self, other),
    {
        !self.nan() && !other.nan() && rank_of(self) < rank_of(other)
    }

    /// Whether this number is less than or equal to the other.
    pub fn le(self, other: F32Bits) -> (r: bool)
        ensures
            r == at_most(self, other),
    {
        !self.nan() && !other.nan() && rank_of(self) <= rank_of(other)
    }
}

/// Negating twice gives the pattern back, and negation turns the order round.
pub proof fn law_negation(a: F32Bits, b: F32Bits)
    ensures
        negated(negated(a)) == a,
        less(a, b) <==> less(negated(b), negated(a)),
        is_nan(negated(a)) == is_nan(a),
{
}

/// Numbers are totally ordered; a NaN compares with nothing.
pub proof fn law_order(a: F32Bits, b: F32Bits, c: F32Bits)
    ensures
        !less(a, a),
        less(a, b) && less(b, c) ==> less(a, c),
        !is_nan(a) && !is_nan(b) ==> (less(a, b) <==> !at_most(b, a)),
        is_nan(a) ==> !less(a, b) && !less(b, a) && !at_most(a, b) && !at_most(b, a),
{
}

/// The order of numbers by their patterns: positive ones stand in the order of
/// the patterns, negative ones in the other, and every negative one below every
/// positive one, the two zeros being the same. A pattern above that of infinity,
/// whatever its sign, is no number.
pub proof fn law_order_of_patterns(a: F32Bits, b: F32Bits)
    ensures
        is_nan(a) <==> 0x7F80_0000 < a.0 < 0x8000_0000 || a.0 > 0xFF80_0000,
        a.0 <= 0x7F80_0000 && b.0 <= 0x7F80_0000 ==> (less(a, b) <==> a.0 < b.0) && (at_most(a, b)
            <==> a.0 <= b.0),
        0x8000_0000 <= a.0 <= 0xFF80_0000 && 0x8000_0000 <= b.0 <= 0xFF80_0000 ==> (less(a, b)
            <==> a.0 > b.0) && (at_most(a, b) <==> a.0 >= b.0),
        0x8000_0000 <= a.0 <= 0xFF80_0000 && b.0 <= 0x7F80_0000 ==> at_most(a, b) && (less(a, b)
            <==> !(a.0 == 0x8000_0000 && b.0 == 0)) && (at_most(b, a) <==> a.0 == 0x8000_0000
            && b.0 == 0),
{
}

/// Negation changes the top bit of the pattern and no other.
pub proof fn law_negation_turns_sign(a: F32Bits)
    ensures
        (negated(a).0 - a.0) % 0x1_0000_0000 == 0x8000_0000,
        negated(a).0 as int % 0x8000_0000 == a.0 as int % 0x8000_0000,
        negated(a).0 < 0x8000_0000 <==> a.0 >= 0x8000_0000,
{
}

/// The patterns of zero, one, no number and the finite extremes.
pub proof fn law_constants()
    ensures
        ZERO_BITS == 0,
        ONE_BITS == 0x3F80_0000,
        NAN_BITS == 0x7FC0_0000,
        MAX_BITS == 0x7F7F_FFFF,
        MIN_BITS == 0xFF7F_FFFF,
{
}

} // verus!
