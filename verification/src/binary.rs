//! Binary floating-point values, carried as their IEEE 754 bit patterns.
//!
//! The library orders such values and picks among them. It never adds or
//! multiplies them: a caller supplies the arithmetic.

use vstd::arithmetic::power2::pow2;
use vstd::prelude::*;

verus! {

/// The number of fraction bits of a binary32 value.
pub const FRACTION_BITS_32: u32 = 23;

/// The number of fraction bits of a binary64 value.
pub const FRACTION_BITS_64: u32 = 52;

/// The sign bit of a binary32 pattern.
pub const SIGN_32: u32 = 0x8000_0000;

/// The sign bit of a binary64 pattern.
pub const SIGN_64: u64 = 0x8000_0000_0000_0000;

/// The binary32 pattern of positive infinity.
pub const INFINITY_32: u32 = 0x7f80_0000;

/// The binary64 pattern of positive infinity.
pub const INFINITY_64: u64 = 0x7ff0_0000_0000_0000;

/// What the unsigned pattern `magnitude` is worth, counted in multiples of the
/// smallest positive value of the format.
///
/// Exponent field zero holds the fraction itself. Any other exponent field adds
/// the hidden leading bit and doubles the value once for each step above one.
/// Infinity comes out as one step beyond the largest finite value.
pub open spec fn units_of(magnitude: nat, fraction_bits: nat) -> nat {
    let scale = pow2(fraction_bits);
    let exponent = magnitude / scale;
    let fraction = magnitude % scale;
    if exponent == 0 {
        fraction
    } else {
        (scale + fraction) * pow2((exponent - 1) as nat)
    }
}

/// The next pattern up is worth strictly more.
proof fn lemma_units_step(magnitude: nat, fraction_bits: nat)
    ensures
        units_of(magnitude, fraction_bits) < units_of(magnitude + 1, fraction_bits),
{
    let scale = pow2(fraction_bits);
    vstd::arithmetic::power2::lemma_pow2_pos(fraction_bits);
    let exponent = magnitude / scale;
    let fraction = magnitude % scale;
    vstd::arithmetic::div_mod::lemma_fundamental_div_mod(magnitude as int, scale as int);
    if fraction + 1 < scale {
        vstd::arithmetic::div_mod::lemma_fundamental_div_mod_converse(
            (magnitude + 1) as int,
            scale as int,
            exponent as int,
            (fraction + 1) as int,
        );
        if exponent > 0 {
            let factor = pow2((exponent - 1) as nat);
            vstd::arithmetic::power2::lemma_pow2_pos((exponent - 1) as nat);
            assert((scale + fraction) * factor < (scale + fraction + 1) * factor)
                by (nonlinear_arith)
                requires
                    factor > 0,
            ;
        }
    } else {
        assert(scale * exponent + scale == scale * (exponent + 1)) by (nonlinear_arith);
        assert(scale * (exponent + 1) == (exponent + 1) * scale) by (nonlinear_arith);
        vstd::arithmetic::div_mod::lemma_fundamental_div_mod_converse(
            (magnitude + 1) as int,
            scale as int,
            (exponent + 1) as int,
            0,
        );
        if exponent == 0 {
            vstd::arithmetic::power2::lemma2_to64();
            assert((scale + 0) * 1 == scale) by (nonlinear_arith);
        } else {
            let factor = pow2((exponent - 1) as nat);
            vstd::arithmetic::power2::lemma_pow2_pos((exponent - 1) as nat);
            vstd::arithmetic::power2::lemma_pow2_unfold(exponent);
            assert((scale + fraction) * factor < (scale + 0) * (2 * factor)) by (nonlinear_arith)
                requires
                    factor > 0,
                    fraction < scale,
            ;
        }
    }
}

/// Larger patterns are worth more: patterns of one sign are ordered as the
/// values they stand for.
pub proof fn law_patterns_ordered_as_values(smaller: nat, larger: nat, fraction_bits: nat)
    requires
        smaller < larger,
    ensures
        units_of(smaller, fraction_bits) < units_of(larger, fraction_bits),
    decreases larger - smaller,
{
    lemma_units_step((larger - 1) as nat, fraction_bits);
    if smaller < larger - 1 {
        law_patterns_ordered_as_values(smaller, (larger - 1) as nat, fraction_bits);
    }
}

/// A binary32 value.
#[derive(Clone, Copy, Debug, PartialEq, Eq, Structural)]
pub struct Binary32 {
    /// The bit pattern: sign, eight exponent bits, then the fraction.
    pub bits: u32,
}

impl Binary32 {
    /// Whether the sign bit is set.
    pub open spec fn is_negative(self) -> bool {
        self.bits >= SIGN_32
    }

    /// The pattern without its sign bit.
    pub open spec fn magnitude(self) -> nat {
        if self.is_negative() {
            (self.bits - SIGN_32) as nat
        } else {
            self.bits as nat
        }
    }

    /// Whether the pattern stands for no number.
    pub open spec fn is_nan(self) -> bool {
        self.magnitude() > INFINITY_32
    }

    /// The value, in multiples of the smallest positive binary32 value.
    pub open spec fn units(self) -> int {
        let units = units_of(self.magnitude(), FRACTION_BITS_32 as nat);
        if self.is_negative() {
            -units
        } else {
            units as int
        }
    }

    /// Both are numbers, and `self` is the smaller one.
    pub open spec fn below(self, other: Binary32) -> bool {
        !self.is_nan() && !other.is_nan() && self.units() < other.units()
    }

    /// The smaller of the two; the other one where one is no number.
    pub open spec fn lesser(self, other: Binary32) -> Binary32 {
        if self.is_nan() || other.below(self) {
            other
        } else {
            self
        }
    }

    /// Whether `self < other`, as the values compare.
    pub fn less_than(self, other: Binary32) -> (less: bool)
        ensures
            less == self.below(other),
    {
        let self_negative = self.bits >= SIGN_32;
        let other_negative = other.bits >= SIGN_32;
        let self_magnitude: u32 = if self_negative { self.bits - SIGN_32 } else { self.bits };
        let other_magnitude: u32 = if other_negative { other.bits - SIGN_32 } else { other.bits };
        proof {
            let (a, b) = (self_magnitude as nat, other_magnitude as nat);
            let fraction_bits = FRACTION_BITS_32 as nat;
            lemma_units_zero(fraction_bits);
            if 0 < a {
                law_patterns_ordered_as_values(0, a, fraction_bits);
            }
            if 0 < b {
                law_patterns_ordered_as_values(0, b, fraction_bits);
            }
            if a < b {
                law_patterns_ordered_as_values(a, b, fraction_bits);
            }
            if b < a {
                law_patterns_ordered_as_values(b, a, fraction_bits);
            }
        }
        if self_magnitude > INFINITY_32 || other_magnitude > INFINITY_32 {
            false
        } else if self_negative {
            if other_negative {
                other_magnitude < self_magnitude
            } else {
                self_magnitude > 0 || other_magnitude > 0
            }
        } else {
            !other_negative && self_magnitude < other_magnitude
        }
    }

    /// The smaller of the two values. Where one is no number the other one is
    /// returned, and of two equal values `self` is.
    pub fn min(self, other: Binary32) -> (smaller: Binary32)
        ensures
            smaller == self.lesser(other),
    {
        let self_magnitude: u32 = if self.bits >= SIGN_32 { self.bits - SIGN_32 } else { self.bits };
        if self_magnitude > INFINITY_32 || other.less_than(self) {
            other
        } else {
            self
        }
    }
}

/// The zero pattern is worth nothing.
pub(crate) proof fn lemma_units_zero(fraction_bits: nat)
    ensures
        units_of(0, fraction_bits) == 0,
{
    vstd::arithmetic::power2::lemma_pow2_pos(fraction_bits);
    vstd::arithmetic::div_mod::lemma_fundamental_div_mod_converse(
        0,
        pow2(fraction_bits) as int,
        0,
        0,
    );
}

/// A binary64 value.
#[derive(Clone, Copy, Debug, PartialEq, Eq, Structural)]
pub struct Binary64 {
    /// The bit pattern: sign, eleven exponent bits, then the fraction.
    pub bits: u64,
}

impl Binary64 {
    /// Whether the sign bit is set.
    pub open spec fn is_negative(self) -> bool {
        self.bits >= SIGN_64
    }

    /// The pattern without its sign bit.
    pub open spec fn magnitude(self) -> nat {
        if self.is_negative() {
            (self.bits - SIGN_64) as nat
        } else {
            self.bits as nat
        }
    }

    /// Whether the pattern stands for no number.
    pub open spec fn is_nan(self) -> bool {
        self.magnitude() > INFINITY_64
    }

    /// The value, in multiples of the smallest positive binary64 value.
    pub open spec fn units(self) -> int {
        let units = units_of(self.magnitude(), FRACTION_BITS_64 as nat);
        if self.is_negative() {
            -units
        } else {
            units as int
        }
    }

    /// Both are numbers, and `self` is not the larger one.
    pub open spec fn at_most(self, other: Binary64) -> bool {
        !self.is_nan() && !other.is_nan() && self.units() <= other.units()
    }
}

} // verus!
