//! What binary32 and binary64 values are worth, counted in multiples of the smallest
//! positive value of their format, and when arithmetic on them is exact.

use crate::arithmetic::{CountFn, NarrowFn, Operation, RootFn, WideFn};
use crate::binary::{units_of, Binary32, Binary64};
use crate::order_laws::{
    law_order_told_from_patterns, law_times_told_from_patterns, not_after, precedes,
};
use vstd::arithmetic::power2::pow2;
use vstd::prelude::*;

verus! {

/// How often the smallest positive binary32 value goes into one.
pub open spec fn one_narrow() -> int {
    pow2(149) as int
}

/// How often the smallest positive binary64 value goes into one.
pub open spec fn one_wide() -> int {
    pow2(1074) as int
}

/// The pattern is that of a finite binary32 value.
pub open spec fn is_finite(x: Binary32) -> bool {
    x.bits < 0x7f80_0000 || 0x8000_0000 <= x.bits < 0xff80_0000
}

/// The pattern is that of a finite binary64 value.
pub open spec fn is_finite_wide(x: Binary64) -> bool {
    x.bits < 0x7ff0_0000_0000_0000 || 0x8000_0000_0000_0000 <= x.bits < 0xfff0_0000_0000_0000
}

/// Some finite binary32 value is worth `worth`.
pub open spec fn is_narrow_worth(worth: int) -> bool {
    exists|x: Binary32| is_finite(x) && #[trigger] x.units() == worth
}

/// Some finite binary64 value is worth `worth`.
pub open spec fn is_wide_worth(worth: int) -> bool {
    exists|x: Binary64| is_finite_wide(x) && #[trigger] x.units() == worth
}

/// `worth` is what the operation makes of `a` and `b`, where `one` is worth one.
pub open spec fn is_exact_result(op: Operation, a: int, b: int, worth: int, one: int) -> bool {
    match op {
        Operation::Add => worth == a + b,
        Operation::Subtract => worth == a - b,
        Operation::Multiply => worth * one == a * b,
        Operation::Divide => b != 0 && worth * b == a * one,
    }
}

/// Where the result of an operation on finite values is a finite value itself, `n`
/// gives just that.
pub open spec fn is_exact_narrow(n: NarrowFn) -> bool {
    forall|op: Operation, a: Binary32, b: Binary32, worth: int|
        #![trigger n(op, a, b), is_narrow_worth(worth)]
        is_finite(a) && is_finite(b) && is_narrow_worth(worth) && is_exact_result(
            op,
            a.units(),
            b.units(),
            worth,
            one_narrow(),
        ) ==> is_finite(n(op, a, b)) && n(op, a, b).units() == worth
}

/// Where the root of a finite value is a finite value itself, `r` gives just that.
pub open spec fn is_exact_root(r: RootFn) -> bool {
    forall|a: Binary32, worth: int|
        #![trigger r(a), is_narrow_worth(worth)]
        is_finite(a) && is_narrow_worth(worth) && worth >= 0 && worth * worth == a.units()
            * one_narrow() ==> is_finite(r(a)) && r(a).units() == worth
}

/// Where the result of an operation on finite values is a finite value itself, `w`
/// gives just that.
pub open spec fn is_exact_wide(w: WideFn) -> bool {
    forall|op: Operation, a: Binary64, b: Binary64, worth: int|
        #![trigger w(op, a, b), is_wide_worth(worth)]
        is_finite_wide(a) && is_finite_wide(b) && is_wide_worth(worth) && is_exact_result(
            op,
            a.units(),
            b.units(),
            worth,
            one_wide(),
        ) ==> is_finite_wide(w(op, a, b)) && w(op, a, b).units() == worth
}

/// Where a number of things is a finite value, `c` gives just that.
pub open spec fn is_exact_count(c: CountFn) -> bool {
    forall|k: usize| #[trigger]
        is_wide_worth(k * one_wide()) ==> is_finite_wide(c(k)) && c(k).units() == k * one_wide()
}

/// Equal multiples of a number other than zero are multiples of equal numbers.
pub(crate) proof fn lemma_cancel(a: int, b: int, factor: int)
    requires
        a * factor == b * factor,
        factor != 0,
    ensures
        a == b,
{
    assert(a == b) by (nonlinear_arith)
        requires
            a * factor == b * factor,
            factor != 0,
    ;
}

/// An operation has one result at most.
proof fn lemma_result_is_unique(op: Operation, a: int, b: int, one_result: int, other: int, one: int)
    requires
        one != 0,
        is_exact_result(op, a, b, one_result, one),
        is_exact_result(op, a, b, other, one),
    ensures
        one_result == other,
{
    match op {
        Operation::Multiply => lemma_cancel(one_result, other, one),
        Operation::Divide => lemma_cancel(one_result, other, b),
        _ => {},
    }
}

/// There is such arithmetic: operations, roots and counts that are exact wherever
/// the format allows it.
pub proof fn law_exact_arithmetic_exists()
    ensures
        exists|n: NarrowFn| is_exact_narrow(n),
        exists|r: RootFn| is_exact_root(r),
        exists|w: WideFn| is_exact_wide(w),
        exists|c: CountFn| is_exact_count(c),
{
    vstd::arithmetic::power2::lemma_pow2_pos(149);
    vstd::arithmetic::power2::lemma_pow2_pos(1074);
    let n: NarrowFn = |op: Operation, a: Binary32, b: Binary32|
        choose|x: Binary32|
            is_finite(x) && is_exact_result(
                op,
                a.units(),
                b.units(),
                #[trigger] x.units(),
                one_narrow(),
            );
    assert forall|op: Operation, a: Binary32, b: Binary32, worth: int|
        #![trigger n(op, a, b), is_narrow_worth(worth)]
        is_finite(a) && is_finite(b) && is_narrow_worth(worth) && is_exact_result(
            op,
            a.units(),
            b.units(),
            worth,
            one_narrow(),
        ) implies is_finite(n(op, a, b)) && n(op, a, b).units() == worth by {
        let witness = choose|x: Binary32| is_finite(x) && #[trigger] x.units() == worth;
        assert(is_exact_result(op, a.units(), b.units(), witness.units(), one_narrow()));
        lemma_result_is_unique(
            op,
            a.units(),
            b.units(),
            n(op, a, b).units(),
            worth,
            one_narrow(),
        );
    }
    assert(is_exact_narrow(n));
    let w: WideFn = |op: Operation, a: Binary64, b: Binary64|
        choose|x: Binary64|
            is_finite_wide(x) && is_exact_result(
                op,
                a.units(),
                b.units(),
                #[trigger] x.units(),
                one_wide(),
            );
    assert forall|op: Operation, a: Binary64, b: Binary64, worth: int|
        #![trigger w(op, a, b), is_wide_worth(worth)]
        is_finite_wide(a) && is_finite_wide(b) && is_wide_worth(worth) && is_exact_result(
            op,
            a.units(),
            b.units(),
            worth,
            one_wide(),
        ) implies is_finite_wide(w(op, a, b)) && w(op, a, b).units() == worth by {
        let witness = choose|x: Binary64| is_finite_wide(x) && #[trigger] x.units() == worth;
        assert(is_exact_result(op, a.units(), b.units(), witness.units(), one_wide()));
        lemma_result_is_unique(op, a.units(), b.units(), w(op, a, b).units(), worth, one_wide());
    }
    assert(is_exact_wide(w));
    let r: RootFn = |a: Binary32|
        choose|x: Binary32|
            is_finite(x) && x.units() >= 0 && (#[trigger] x.units()) * x.units() == a.units()
                * one_narrow();
    assert forall|a: Binary32, worth: int|
        #![trigger r(a), is_narrow_worth(worth)]
        is_finite(a) && is_narrow_worth(worth) && worth >= 0 && worth * worth == a.units()
            * one_narrow() implies is_finite(r(a)) && r(a).units() == worth by {
        let witness = choose|x: Binary32| is_finite(x) && #[trigger] x.units() == worth;
        assert(witness.units() * witness.units() == a.units() * one_narrow());
        let found = r(a).units();
        assert(found == worth) by (nonlinear_arith)
            requires
                found >= 0,
                worth >= 0,
                found * found == worth * worth,
        ;
    }
    assert(is_exact_root(r));
    let c: CountFn = |k: usize|
        choose|x: Binary64| is_finite_wide(x) && #[trigger] x.units() == k * one_wide();
    assert(is_exact_count(c));
}

/// Patterns are worth what the format says: the small ones themselves, and one step
/// of the exponent field doubles the worth. The sign bit negates it.
pub proof fn law_narrow_worth(x: Binary32)
    ensures
        x.bits < 0x100_0000 ==> x.units() == x.bits,
        0x80_0000 <= x.bits < 0x7f00_0000 ==> (Binary32 {
            bits: (x.bits + 0x80_0000) as u32,
        }).units() == 2 * x.units(),
        x.bits < 0x8000_0000 ==> (Binary32 { bits: (x.bits + 0x8000_0000) as u32 }).units()
            == -x.units(),
{
    let scale = pow2(23) as int;
    vstd::arithmetic::power2::lemma2_to64();
    assert(scale == 0x80_0000);
    if x.bits < 0x80_0000 {
        lemma_worth_fields(x.bits as nat, 23, 0, x.bits as nat);
    } else if x.bits < 0x100_0000 {
        lemma_worth_fields(x.bits as nat, 23, 1, (x.bits - 0x80_0000) as nat);
    }
    if 0x80_0000 <= x.bits < 0x7f00_0000 {
        let exponent = (x.bits / 0x80_0000) as nat;
        let fraction = (x.bits % 0x80_0000) as nat;
        lemma_worth_fields(x.bits as nat, 23, exponent, fraction);
        lemma_worth_fields((x.bits + 0x80_0000) as nat, 23, exponent + 1, fraction);
        lemma_next_power(0x80_0000 + fraction, exponent);
    }
}

/// Patterns are worth what the format says: the small ones themselves, and one step
/// of the exponent field doubles the worth. The sign bit negates it.
pub proof fn law_wide_worth(x: Binary64)
    ensures
        x.bits < 0x20_0000_0000_0000 ==> x.units() == x.bits,
        0x10_0000_0000_0000 <= x.bits < 0x7fe0_0000_0000_0000 ==> (Binary64 {
            bits: (x.bits + 0x10_0000_0000_0000) as u64,
        }).units() == 2 * x.units(),
        x.bits < 0x8000_0000_0000_0000 ==> (Binary64 {
            bits: (x.bits + 0x8000_0000_0000_0000) as u64,
        }).units() == -x.units(),
{
    vstd::arithmetic::power2::lemma2_to64();
    vstd::arithmetic::power2::lemma2_to64_rest();
    assert(pow2(52) == 0x10_0000_0000_0000);
    if x.bits < 0x10_0000_0000_0000 {
        lemma_worth_fields(x.bits as nat, 52, 0, x.bits as nat);
    } else if x.bits < 0x20_0000_0000_0000 {
        lemma_worth_fields(x.bits as nat, 52, 1, (x.bits - 0x10_0000_0000_0000) as nat);
    }
    if 0x10_0000_0000_0000 <= x.bits < 0x7fe0_0000_0000_0000 {
        let exponent = (x.bits / 0x10_0000_0000_0000) as nat;
        let fraction = (x.bits % 0x10_0000_0000_0000) as nat;
        lemma_worth_fields(x.bits as nat, 52, exponent, fraction);
        lemma_worth_fields((x.bits + 0x10_0000_0000_0000) as nat, 52, exponent + 1, fraction);
        lemma_next_power(0x10_0000_0000_0000 + fraction, exponent);
    }
}

/// What a pattern with these fields is worth.
proof fn lemma_worth_fields(magnitude: nat, fraction_bits: nat, exponent: nat, fraction: nat)
    requires
        magnitude == exponent * pow2(fraction_bits) + fraction,
        fraction < pow2(fraction_bits),
    ensures
        units_of(magnitude, fraction_bits) == if exponent == 0 {
            fraction
        } else {
            (pow2(fraction_bits) + fraction) * pow2((exponent - 1) as nat)
        },
        exponent == 1 ==> units_of(magnitude, fraction_bits) == pow2(fraction_bits) + fraction,
{
    vstd::arithmetic::power2::lemma_pow2_pos(fraction_bits);
    vstd::arithmetic::div_mod::lemma_fundamental_div_mod_converse(
        magnitude as int,
        pow2(fraction_bits) as int,
        exponent as int,
        fraction as int,
    );
    vstd::arithmetic::power2::lemma2_to64();
    assert((pow2(fraction_bits) + fraction) * 1 == pow2(fraction_bits) + fraction);
}

/// One more power of two doubles a product.
proof fn lemma_next_power(factor: nat, exponent: nat)
    requires
        exponent >= 1,
    ensures
        factor * pow2(exponent) == 2 * (factor * pow2((exponent - 1) as nat)),
{
    vstd::arithmetic::power2::lemma_pow2_unfold(exponent);
    let power = pow2((exponent - 1) as nat);
    assert(factor * (2 * power) == 2 * (factor * power)) by (nonlinear_arith);
}

/// The pattern 0x44c8_0000 is worth 1600.
pub proof fn law_worth_of_1600()
    ensures
        (Binary32 { bits: 0x44c8_0000 }).units() == 1600 * one_narrow(),
{
    vstd::arithmetic::power2::lemma2_to64();
    lemma_worth_fields(0x44c8_0000, 23, 137, 0x48_0000);
    vstd::arithmetic::power2::lemma_pow2_adds(136, 13);
    let power = pow2(136) as int;
    assert(pow2(13) == 8192);
    assert(13107200 * power == 1600 * (power * 8192)) by (nonlinear_arith);
}

/// The pattern 0x3ca3_d70a is the one nearest to 0.02: fifty times its worth is one,
/// but for 25 of its last places.
pub proof fn law_worth_of_silence()
    ensures
        ({
            let worth = (Binary32 { bits: 0x3ca3_d70a }).units();
            let next = (Binary32 { bits: 0x3ca3_d70b }).units();
            let last_place = next - worth;
            &&& last_place > 0
            &&& -25 * last_place < one_narrow() - 50 * worth < 25 * last_place
        }),
{
    vstd::arithmetic::power2::lemma2_to64();
    lemma_worth_fields(0x3ca3_d70a, 23, 121, 0x23_d70a);
    lemma_worth_fields(0x3ca3_d70b, 23, 121, 0x23_d70b);
    vstd::arithmetic::power2::lemma_pow2_adds(120, 29);
    vstd::arithmetic::power2::lemma_pow2_pos(120);
    let power = pow2(120) as int;
    assert(pow2(29) == 536870912);
    assert(10737419 * power - 10737418 * power == power) by (nonlinear_arith);
    assert(power * 536870912 - 50 * (10737418 * power) == 12 * power) by (nonlinear_arith);
}

/// The pattern 0x408f_4000_0000_0000 is worth 1000.
pub proof fn law_worth_of_1000()
    ensures
        (Binary64 { bits: 0x408f_4000_0000_0000 }).units() == 1000 * one_wide(),
{
    vstd::arithmetic::power2::lemma2_to64();
    vstd::arithmetic::power2::lemma2_to64_rest();
    lemma_worth_fields(0x408f_4000_0000_0000, 52, 1032, 0xf_4000_0000_0000);
    vstd::arithmetic::power2::lemma_pow2_adds(1031, 43);
    let power = pow2(1031) as int;
    assert(pow2(43) == 8796093022208);
    assert(8796093022208000 * power == 1000 * (power * 8796093022208)) by (nonlinear_arith);
}

/// Finite values are ordered as their worth.
pub proof fn law_order_is_that_of_worth(a: Binary32, b: Binary32)
    requires
        is_finite(a),
        is_finite(b),
    ensures
        precedes(a.bits, b.bits) <==> a.units() < b.units(),
{
    law_order_told_from_patterns(a, b);
}

/// Finite times are ordered as their worth.
pub proof fn law_times_are_ordered_as_worth(a: Binary64, b: Binary64)
    requires
        is_finite_wide(a),
        is_finite_wide(b),
    ensures
        not_after(a.bits, b.bits) <==> a.units() <= b.units(),
{
    law_times_told_from_patterns(a, b);
}

} // verus!
