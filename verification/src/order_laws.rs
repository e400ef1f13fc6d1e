//! How values compare, told from their bit patterns.

use crate::binary::{
    law_patterns_ordered_as_values, lemma_units_zero, units_of, Binary32, Binary64,
    FRACTION_BITS_32, FRACTION_BITS_64,
};
use vstd::prelude::*;

verus! {

/// The binary32 pattern stands for no number.
pub open spec fn no_number(bits: u32) -> bool {
    0x7f80_0000 < bits < 0x8000_0000 || 0xff80_0000 < bits
}

/// The binary32 patterns stand for numbers, the first one smaller: positive
/// patterns grow with their value, negative ones as it falls, and the two zeros
/// are equal.
pub open spec fn precedes(a: u32, b: u32) -> bool {
    &&& !no_number(a)
    &&& !no_number(b)
    &&& if a < 0x8000_0000 {
        b < 0x8000_0000 && a < b
    } else {
        if b < 0x8000_0000 {
            a != 0x8000_0000 || b != 0
        } else {
            b < a
        }
    }
}

/// The binary64 pattern stands for no number.
pub open spec fn no_wide_number(bits: u64) -> bool {
    0x7ff0_0000_0000_0000 < bits < 0x8000_0000_0000_0000 || 0xfff0_0000_0000_0000 < bits
}

/// The binary64 patterns stand for numbers, the first one not larger.
pub open spec fn not_after(a: u64, b: u64) -> bool {
    &&& !no_wide_number(a)
    &&& !no_wide_number(b)
    &&& if a < 0x8000_0000_0000_0000 {
        if b < 0x8000_0000_0000_0000 {
            a <= b
        } else {
            a == 0 && b == 0x8000_0000_0000_0000
        }
    } else {
        b < 0x8000_0000_0000_0000 || b <= a
    }
}

/// What the order of magnitudes says of what they are worth.
proof fn lemma_magnitudes(a: nat, b: nat, fraction_bits: nat)
    ensures
        a < b <==> units_of(a, fraction_bits) < units_of(b, fraction_bits),
        a == b <==> units_of(a, fraction_bits) == units_of(b, fraction_bits),
        units_of(0, fraction_bits) == 0,
        a > 0 ==> units_of(a, fraction_bits) > 0,
        b > 0 ==> units_of(b, fraction_bits) > 0,
{
    lemma_units_zero(fraction_bits);
    if a < b {
        law_patterns_ordered_as_values(a, b, fraction_bits);
    }
    if b < a {
        law_patterns_ordered_as_values(b, a, fraction_bits);
    }
    if a > 0 {
        law_patterns_ordered_as_values(0, a, fraction_bits);
    }
    if b > 0 {
        law_patterns_ordered_as_values(0, b, fraction_bits);
    }
}

/// Values compare as their bit patterns say.
pub proof fn law_order_told_from_patterns(a: Binary32, b: Binary32)
    ensures
        a.is_nan() <==> no_number(a.bits),
        a.below(b) <==> precedes(a.bits, b.bits),
{
    lemma_magnitudes(a.magnitude(), b.magnitude(), FRACTION_BITS_32 as nat);
}

/// Times compare as their bit patterns say.
pub proof fn law_times_told_from_patterns(a: Binary64, b: Binary64)
    ensures
        a.is_nan() <==> no_wide_number(a.bits),
        a.at_most(b) <==> not_after(a.bits, b.bits),
{
    lemma_magnitudes(a.magnitude(), b.magnitude(), FRACTION_BITS_64 as nat);
}

/// `less_than` answers whether both are numbers, the first one smaller.
pub proof fn law_less_than(a: Binary32, b: Binary32, less: bool)
    requires
        call_ensures(Binary32::less_than, (a, b), less),
    ensures
        less <==> precedes(a.bits, b.bits),
{
    law_order_told_from_patterns(a, b);
}

/// `min` returns one of its arguments, none of which precedes it, and a number
/// where one of them is.
pub proof fn law_min(a: Binary32, b: Binary32, smaller: Binary32)
    requires
        call_ensures(Binary32::min, (a, b), smaller),
    ensures
        smaller == a || smaller == b,
        !precedes(a.bits, smaller.bits),
        !precedes(b.bits, smaller.bits),
        no_number(smaller.bits) <==> no_number(a.bits) && no_number(b.bits),
{
    law_order_told_from_patterns(a, b);
    law_order_told_from_patterns(b, a);
    law_order_told_from_patterns(a, a);
    law_order_told_from_patterns(b, b);
}

/// In any three numbers the order carries over, and two numbers of which neither
/// precedes the other are the same pattern or the two zeros.
pub proof fn law_order_is_total(a: u32, b: u32, c: u32)
    ensures
        precedes(a, b) && precedes(b, c) ==> precedes(a, c),
        !no_number(a) && !no_number(b) && !precedes(a, b) && !precedes(b, a) ==> a == b || (a
            == 0 && b == 0x8000_0000) || (a == 0x8000_0000 && b == 0),
        !(precedes(a, b) && precedes(b, a)),
{
}

} // verus!
