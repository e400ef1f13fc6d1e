//! What the levels of windows tell of the samples: how much energy there is in them.

use crate::arithmetic::{rms, NarrowFn, Operation, RootFn};
use crate::binary::Binary32;
use crate::exact::{
    is_exact_narrow, is_exact_root, is_finite, is_narrow_worth, law_narrow_worth,
    law_order_is_that_of_worth, law_worth_of_1600, law_worth_of_silence, lemma_cancel, one_narrow,
};
use crate::order_laws::precedes;
use crate::split_answers::{law_rms_takes_in_every_sample, level_at, with_square};
use vstd::prelude::*;

verus! {

/// The squares of what the samples are worth, taken together.
pub open spec fn energy(samples: Seq<Binary32>) -> int
    decreases samples.len(),
{
    if samples.len() == 0 {
        0
    } else {
        energy(samples.drop_last()) + samples.last().units() * samples.last().units()
    }
}

/// `energy` is that of a finite value: some finite value is worth it, once one is
/// taken out.
pub open spec fn is_held(energy: int) -> bool {
    exists|worth: int| #[trigger] is_narrow_worth(worth) && worth * one_narrow() == energy
}

/// The level of `samples`, of which there are `length`, can be had without rounding
/// and is worth `level`: the squares, their sums from the first sample on, their
/// mean and its root are finite values.
pub open spec fn is_exact_level(samples: Seq<Binary32>, length: int, level: int) -> bool {
    &&& length > 0
    &&& forall|i: int|
        0 <= i < samples.len() ==> is_finite(#[trigger] samples[i]) && is_held(
            samples[i].units() * samples[i].units(),
        )
    &&& forall|i: int| 0 <= i <= samples.len() ==> is_held(energy(#[trigger] samples.take(i)))
    &&& level >= 0
    &&& is_narrow_worth(level)
    &&& exists|mean: int| #[trigger]
        is_narrow_worth(mean) && mean * one_narrow() * length == energy(samples) && level * level
            == mean * one_narrow()
}

/// The sums from the first sample on are worth the energy so far.
proof fn lemma_exact_sum(n: NarrowFn, samples: Seq<Binary32>, length: int, level: int, taken: int)
    requires
        is_exact_narrow(n),
        is_exact_level(samples, length, level),
        0 <= taken <= samples.len(),
    ensures
        ({
            let sum = samples.take(taken).fold_left(Binary32 { bits: 0 }, with_square(n));
            is_finite(sum) && sum.units() * one_narrow() == energy(samples.take(taken))
        }),
    decreases taken,
{
    vstd::arithmetic::power2::lemma_pow2_pos(149);
    let one = one_narrow();
    let part = samples.take(taken);
    let sum = part.fold_left(Binary32 { bits: 0 }, with_square(n));
    if taken == 0 {
        law_narrow_worth(Binary32 { bits: 0 });
        assert(0 * one == 0);
    } else {
        lemma_exact_sum(n, samples, length, level, taken - 1);
        assert(part.drop_last() == samples.take(taken - 1));
        let before = samples.take(taken - 1).fold_left(Binary32 { bits: 0 }, with_square(n));
        let sample = samples[taken - 1];
        assert(part.last() == sample);
        assert(is_held(sample.units() * sample.units()));
        let worth = choose|worth: int| #[trigger]
            is_narrow_worth(worth) && worth * one == sample.units() * sample.units();
        let square = n(Operation::Multiply, sample, sample);
        assert(is_finite(square) && square.units() == worth);
        assert(is_held(energy(samples.take(taken))));
        let next = choose|next: int| #[trigger]
            is_narrow_worth(next) && next * one == energy(samples.take(taken));
        assert((before.units() + worth) * one == before.units() * one + worth * one)
            by (nonlinear_arith);
        lemma_cancel(next, before.units() + worth, one);
        assert(sum == n(Operation::Add, before, square));
    }
}

/// The level that can be had without rounding is had.
proof fn lemma_exact_level(
    n: NarrowFn,
    r: RootFn,
    samples: Seq<Binary32>,
    pattern: Binary32,
    length: int,
    level: int,
)
    requires
        is_exact_narrow(n),
        is_exact_root(r),
        is_exact_level(samples, length, level),
        is_finite(pattern),
        pattern.units() == length * one_narrow(),
    ensures
        ({
            let sum = samples.fold_left(Binary32 { bits: 0 }, with_square(n));
            let result = r(n(Operation::Divide, sum, pattern));
            is_finite(result) && result.units() == level
        }),
        level * level * length == energy(samples),
{
    vstd::arithmetic::power2::lemma_pow2_pos(149);
    let one = one_narrow();
    lemma_exact_sum(n, samples, length, level, samples.len() as int);
    assert(samples.take(samples.len() as int) == samples);
    let sum = samples.fold_left(Binary32 { bits: 0 }, with_square(n));
    let mean = choose|mean: int| #[trigger]
        is_narrow_worth(mean) && mean * one * length == energy(samples) && level * level == mean
            * one;
    assert(mean * (length * one) == mean * one * length) by (nonlinear_arith);
    assert(length * one > 0) by (nonlinear_arith)
        requires
            length > 0,
            one > 0,
    ;
    let divided = n(Operation::Divide, sum, pattern);
    assert(is_finite(divided) && divided.units() == mean);
    assert(is_finite(r(divided)));
}

/// A level takes in every sample: its square, times the number of samples, is the
/// energy of all of them.
pub proof fn law_level_is_root_mean_square<N, R>(
    samples: &[Binary32],
    length: Binary32,
    narrow: &N,
    root: &R,
    level: Binary32,
    n: NarrowFn,
    r: RootFn,
    worth: int,
) where N: Fn(Operation, Binary32, Binary32) -> Binary32, R: Fn(Binary32) -> Binary32
    requires
        call_ensures(rms::<N, R>, (samples, length, narrow, root), level),
        forall|op: Operation, a: Binary32, b: Binary32, x: Binary32| #[trigger]
            call_ensures(*narrow, (op, a, b), x) ==> x == n(op, a, b),
        forall|a: Binary32, x: Binary32| #[trigger] call_ensures(*root, (a,), x) ==> x == r(a),
        is_exact_narrow(n),
        is_exact_root(r),
        is_finite(length),
        length.units() == samples@.len() * one_narrow(),
        is_exact_level(samples@, samples@.len() as int, worth),
    ensures
        is_finite(level),
        level.units() >= 0,
        level.units() * level.units() * samples@.len() == energy(samples@),
{
    law_rms_takes_in_every_sample(samples, length, narrow, root, level, n, r);
    lemma_exact_level(n, r, samples@, length, samples@.len() as int, worth);
}

/// A larger number has the larger square.
proof fn lemma_squares(a: int, b: int)
    requires
        a >= 0,
        b >= 0,
    ensures
        a < b <==> a * a < b * b,
{
    assert(a < b <==> a * a < b * b) by (nonlinear_arith)
        requires
            a >= 0,
            b >= 0,
    ;
}

/// The energies compare as the levels do, where there are as many samples.
proof fn lemma_levels_and_energies(a: int, b: int, length: int)
    requires
        a >= 0,
        b >= 0,
        length > 0,
    ensures
        a < b <==> a * a * length < b * b * length,
{
    lemma_squares(a, b);
    assert(a * a < b * b <==> a * a * length < b * b * length) by (nonlinear_arith)
        requires
            length > 0,
    ;
}

/// Changing one sample changes the energy by the difference of the squares.
pub proof fn law_energy_counts_every_sample(samples: Seq<Binary32>, i: int, sample: Binary32)
    requires
        0 <= i < samples.len(),
    ensures
        energy(samples.update(i, sample)) - energy(samples) == sample.units() * sample.units()
            - samples[i].units() * samples[i].units(),
    decreases samples.len(),
{
    let updated = samples.update(i, sample);
    if i == samples.len() - 1 {
        assert(updated.drop_last() == samples.drop_last());
    } else {
        assert(updated.drop_last() == samples.drop_last().update(i, sample));
        law_energy_counts_every_sample(samples.drop_last(), i, sample);
    }
}

/// A louder sample makes a louder level: whichever sample is made louder, and be it
/// the last one, the level rises.
pub proof fn law_louder_sample_raises_level<N, R>(
    samples: &[Binary32],
    louder: &[Binary32],
    i: int,
    length: Binary32,
    narrow: &N,
    root: &R,
    level: Binary32,
    raised: Binary32,
    n: NarrowFn,
    r: RootFn,
    worth: int,
    raised_worth: int,
) where N: Fn(Operation, Binary32, Binary32) -> Binary32, R: Fn(Binary32) -> Binary32
    requires
        call_ensures(rms::<N, R>, (samples, length, narrow, root), level),
        call_ensures(rms::<N, R>, (louder, length, narrow, root), raised),
        forall|op: Operation, a: Binary32, b: Binary32, x: Binary32| #[trigger]
            call_ensures(*narrow, (op, a, b), x) ==> x == n(op, a, b),
        forall|a: Binary32, x: Binary32| #[trigger] call_ensures(*root, (a,), x) ==> x == r(a),
        is_exact_narrow(n),
        is_exact_root(r),
        is_finite(length),
        length.units() == samples@.len() * one_narrow(),
        is_exact_level(samples@, samples@.len() as int, worth),
        is_exact_level(louder@, samples@.len() as int, raised_worth),
        0 <= i < samples@.len(),
        louder@ == samples@.update(i, louder@[i]),
        samples@[i].units() * samples@[i].units() < louder@[i].units() * louder@[i].units(),
    ensures
        precedes(level.bits, raised.bits),
{
    law_level_is_root_mean_square(samples, length, narrow, root, level, n, r, worth);
    law_level_is_root_mean_square(louder, length, narrow, root, raised, n, r, raised_worth);
    law_energy_counts_every_sample(samples@, i, louder@[i]);
    lemma_levels_and_energies(level.units(), raised.units(), samples@.len() as int);
    law_order_is_that_of_worth(level, raised);
}

/// The level of a window of 1600 samples, and what its square times 1600 is.
pub proof fn law_window_level(
    samples: Seq<Binary32>,
    at: int,
    n: NarrowFn,
    r: RootFn,
    worth: int,
)
    requires
        is_exact_narrow(n),
        is_exact_root(r),
        0 <= at <= samples.len() - 1600,
        is_exact_level(samples.subrange(at, at + 1600), 1600, worth),
    ensures
        is_finite(level_at(samples, at, n, r)),
        level_at(samples, at, n, r).units() == worth,
        worth >= 0,
        worth * worth * 1600 == energy(samples.subrange(at, at + 1600)),
{
    law_worth_of_1600();
    lemma_exact_level(
        n,
        r,
        samples.subrange(at, at + 1600),
        Binary32 { bits: 0x44c8_0000 },
        1600,
        worth,
    );
}

/// A window has a level above 0.02 just where its samples hold more energy than
/// 1600 samples of 0.02 do.
pub proof fn law_silence_is_low_energy(
    samples: Seq<Binary32>,
    at: int,
    n: NarrowFn,
    r: RootFn,
    worth: int,
)
    requires
        is_exact_narrow(n),
        is_exact_root(r),
        0 <= at <= samples.len() - 1600,
        is_exact_level(samples.subrange(at, at + 1600), 1600, worth),
    ensures
        ({
            let limit = (Binary32 { bits: 0x3ca3_d70a }).units();
            precedes(0x3ca3_d70a, level_at(samples, at, n, r).bits) <==> limit * limit * 1600
                < energy(samples.subrange(at, at + 1600))
        }),
{
    let threshold = Binary32 { bits: 0x3ca3_d70a };
    law_window_level(samples, at, n, r, worth);
    law_worth_of_silence();
    lemma_worth_not_negative(threshold);
    lemma_levels_and_energies(threshold.units(), worth, 1600);
    law_order_is_that_of_worth(threshold, level_at(samples, at, n, r));
}

/// Patterns without the sign bit are not worth less than nothing.
proof fn lemma_worth_not_negative(x: Binary32)
    requires
        x.bits < 0x7f80_0000,
    ensures
        x.units() >= 0,
{
}

/// Of two windows the one with less energy has the lower level.
pub proof fn law_quieter_window(
    samples: Seq<Binary32>,
    at: int,
    other: int,
    n: NarrowFn,
    r: RootFn,
    worth: int,
    other_worth: int,
)
    requires
        is_exact_narrow(n),
        is_exact_root(r),
        0 <= at <= samples.len() - 1600,
        0 <= other <= samples.len() - 1600,
        is_exact_level(samples.subrange(at, at + 1600), 1600, worth),
        is_exact_level(samples.subrange(other, other + 1600), 1600, other_worth),
    ensures
        precedes(level_at(samples, at, n, r).bits, level_at(samples, other, n, r).bits) <==> energy(
            samples.subrange(at, at + 1600),
        ) < energy(samples.subrange(other, other + 1600)),
{
    law_window_level(samples, at, n, r, worth);
    law_window_level(samples, other, n, r, other_worth);
    lemma_levels_and_energies(worth, other_worth, 1600);
    law_order_is_that_of_worth(level_at(samples, at, n, r), level_at(samples, other, n, r));
}

} // verus!
