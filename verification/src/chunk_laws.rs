//! What holds of the chunks that come back: where they end, in terms of the energy in
//! the samples, and when, in terms of the segment's times.

use crate::arithmetic::{sample_time, CountFn, NarrowFn, Operation, RootFn, WideFn};
use crate::binary::{Binary32, Binary64};
use crate::exact::{
    is_exact_count, is_exact_narrow, is_exact_root, is_exact_wide, is_finite_wide, is_wide_worth,
    law_times_are_ordered_as_worth, one_wide,
};
use crate::level_laws::{
    energy, is_exact_level, law_quieter_window, law_silence_is_low_energy, law_window_level,
};
use crate::order_laws::{no_number, not_after, precedes};
use crate::segment::SpeechSegment;
use crate::split::{split_segment_at_silence, split_with_decisions, SplitDecision};
use crate::split_answers::{
    are_chunks, is_chunk, is_decision, is_searched, law_decisions_tell_split_points,
    law_silence_is_found, law_split_cuts_where_samples_say, level_at, time_at,
};
use vstd::prelude::*;

verus! {

/// The level is a number up to 0.02.
pub open spec fn is_quiet(level: Binary32) -> bool {
    !no_number(level.bits) && !precedes(0x3ca3_d70a, level.bits)
}

/// `part` holds the samples of `segment` from number `from` up to number `to`, at
/// least one.
pub open spec fn is_part(segment: SpeechSegment, part: SpeechSegment, from: int, to: int) -> bool {
    &&& 0 <= from < to <= segment.samples@.len()
    &&& part.samples@ == segment.samples@.subrange(from, to)
}

/// The search for silence is complete. Take any chunk that is split off and any
/// window of 1600 samples that starts a multiple of 160 behind the earliest place,
/// and ends in time: where that window is silent, the chunk ends in the middle of a
/// silent window, which is no louder.
pub proof fn law_chunk_ends_in_silence_that_is_there<N, R, W, C>(
    segment: &SpeechSegment,
    max_samples: usize,
    narrow: N,
    root: R,
    wide: W,
    count: C,
    chunks: Vec<SpeechSegment>,
    n: NarrowFn,
    r: RootFn,
    w: WideFn,
    c: CountFn,
) -> (bounds: Seq<int>) where
    N: Fn(Operation, Binary32, Binary32) -> Binary32,
    R: Fn(Binary32) -> Binary32,
    W: Fn(Operation, Binary64, Binary64) -> Binary64,
    C: Fn(usize) -> Binary64,

    requires
        call_ensures(
            split_segment_at_silence::<N, R, W, C>,
            (segment, max_samples, narrow, root, wide, count),
            chunks,
        ),
        segment.samples@.len() > max_samples,
        forall|op: Operation, a: Binary32, b: Binary32, x: Binary32| #[trigger]
            call_ensures(narrow, (op, a, b), x) ==> x == n(op, a, b),
        forall|a: Binary32, x: Binary32| #[trigger] call_ensures(root, (a,), x) ==> x == r(a),
        forall|op: Operation, a: Binary64, b: Binary64, x: Binary64| #[trigger]
            call_ensures(wide, (op, a, b), x) ==> x == w(op, a, b),
        forall|k: usize, x: Binary64| #[trigger] call_ensures(count, (k,), x) ==> x == c(k),
    ensures
        bounds.len() == chunks@.len() + 1,
        bounds[0] == 0,
        bounds.last() == segment.samples@.len(),
        forall|k: int|
            0 <= k < chunks@.len() ==> is_part(
                *segment,
                #[trigger] chunks@[k],
                bounds[k],
                bounds[k + 1],
            ),
        forall|k: int, at: int|
            {
                let pos = bounds[k];
                let target = pos + max_samples;
                let total = segment.samples@.len() as int;
                &&& 0 <= k < chunks@.len()
                &&& total - pos > max_samples
                &&& at >= target - 48000
                &&& at >= pos + 16000
                &&& (at - target) % 160 == 0 && target - 48000 >= pos + 16000 || (at - pos) % 160
                    == 0 && target - 48000 <= pos + 16000
                &&& at + 1600 <= target + 48000
                &&& at + 1600 <= total - 1600
                &&& is_quiet(#[trigger] level_at(segment.samples@, at, n, r))
            } ==> {
                let middle = #[trigger] bounds[k + 1];
                let found = level_at(segment.samples@, middle - 800, n, r);
                &&& is_searched(
                    bounds[k],
                    max_samples as int,
                    segment.samples@.len() as int,
                    middle - 800,
                )
                &&& is_quiet(found)
                &&& !precedes(level_at(segment.samples@, at, n, r).bits, found.bits)
            },
{
    let bounds = law_split_cuts_where_samples_say(
        segment,
        max_samples,
        narrow,
        root,
        wide,
        count,
        chunks,
        n,
        r,
        w,
        c,
    );
    let samples = segment.samples@;
    let total = samples.len() as int;
    let max = max_samples as int;
    assert forall|k: int| 0 <= k < chunks@.len() implies is_part(
        *segment,
        #[trigger] chunks@[k],
        bounds[k],
        bounds[k + 1],
    ) by {
        assert(is_chunk(*segment, max, n, r, w, c, chunks@[k], bounds[k], bounds[k + 1]));
    }
    assert forall|k: int, at: int|
        {
            let pos = bounds[k];
            let target = pos + max_samples;
            &&& 0 <= k < chunks@.len()
            &&& total - pos > max_samples
            &&& at >= target - 48000
            &&& at >= pos + 16000
            &&& (at - target) % 160 == 0 && target - 48000 >= pos + 16000 || (at - pos) % 160 == 0
                && target - 48000 <= pos + 16000
            &&& at + 1600 <= target + 48000
            &&& at + 1600 <= total - 1600
            &&& is_quiet(#[trigger] level_at(samples, at, n, r))
        } implies {
        let middle = #[trigger] bounds[k + 1];
        let found = level_at(samples, middle - 800, n, r);
        &&& is_searched(bounds[k], max, total, middle - 800)
        &&& is_quiet(found)
        &&& !precedes(level_at(samples, at, n, r).bits, found.bits)
    } by {
        assert(is_chunk(*segment, max, n, r, w, c, chunks@[k], bounds[k], bounds[k + 1]));
        assert(is_searched(bounds[k], max, total, at));
        law_silence_is_found(samples, bounds[k], max, n, r, bounds[k + 1], at);
    }
    bounds
}

/// How much energy 1600 samples of 0.02 hold.
pub open spec fn silent_energy() -> int {
    let limit = (Binary32 { bits: 0x3ca3_d70a }).units();
    limit * limit * 1600
}

/// The 1600 samples from `at` on lie where the end of the chunk that starts at `pos`
/// is looked for: at least one second into the chunk, within three seconds of
/// the target point, one window before the end of the segment, and a multiple of
/// 10 ms behind the earliest such place.
pub open spec fn is_in_reach(pos: int, max_samples: int, total: int, at: int) -> bool {
    let target = pos + max_samples;
    &&& pos + 16000 <= at
    &&& target - 48000 <= at
    &&& at + 1600 <= target + 48000
    &&& at + 3200 <= total
    &&& max_samples >= 64000 ==> (at - (target - 48000)) % 160 == 0
    &&& max_samples < 64000 ==> (at - (pos + 16000)) % 160 == 0
}

/// No silence is missed. Take any chunk that is split off, and any 1600 samples in
/// reach that hold no more energy than 1600 samples of 0.02 do: the chunk ends in the
/// middle of 1600 samples in reach, and these hold no more energy.
pub proof fn law_chunk_ends_where_energy_is_low<N, R, W, C>(
    segment: &SpeechSegment,
    max_samples: usize,
    narrow: N,
    root: R,
    wide: W,
    count: C,
    chunks: Vec<SpeechSegment>,
    n: NarrowFn,
    r: RootFn,
    w: WideFn,
    c: CountFn,
    k: int,
    at: int,
    worth: int,
) -> (bounds: Seq<int>) where
    N: Fn(Operation, Binary32, Binary32) -> Binary32,
    R: Fn(Binary32) -> Binary32,
    W: Fn(Operation, Binary64, Binary64) -> Binary64,
    C: Fn(usize) -> Binary64,

    requires
        call_ensures(
            split_segment_at_silence::<N, R, W, C>,
            (segment, max_samples, narrow, root, wide, count),
            chunks,
        ),
        segment.samples@.len() > max_samples,
        forall|op: Operation, a: Binary32, b: Binary32, x: Binary32| #[trigger]
            call_ensures(narrow, (op, a, b), x) ==> x == n(op, a, b),
        forall|a: Binary32, x: Binary32| #[trigger] call_ensures(root, (a,), x) ==> x == r(a),
        forall|op: Operation, a: Binary64, b: Binary64, x: Binary64| #[trigger]
            call_ensures(wide, (op, a, b), x) ==> x == w(op, a, b),
        forall|j: usize, x: Binary64| #[trigger] call_ensures(count, (j,), x) ==> x == c(j),
        is_exact_narrow(n),
        is_exact_root(r),
        0 <= k < chunks@.len(),
        is_exact_level(segment.samples@.subrange(at, at + 1600), 1600, worth),
        energy(segment.samples@.subrange(at, at + 1600)) <= silent_energy(),
    ensures
        bounds.len() == chunks@.len() + 1,
        bounds[0] == 0,
        bounds.last() == segment.samples@.len(),
        forall|j: int|
            0 <= j < chunks@.len() ==> is_part(
                *segment,
                #[trigger] chunks@[j],
                bounds[j],
                bounds[j + 1],
            ),
        ({
            let samples = segment.samples@;
            let total = samples.len() as int;
            let middle = bounds[k + 1];
            let around = samples.subrange(middle - 800, middle + 800);
            total - bounds[k] > max_samples && is_in_reach(
                bounds[k],
                max_samples as int,
                total,
                at,
            ) ==> {
                &&& is_in_reach(bounds[k], max_samples as int, total, middle - 800)
                &&& forall|found: int| #[trigger]
                    is_exact_level(around, 1600, found) ==> energy(around) <= energy(
                        samples.subrange(at, at + 1600),
                    )
            }
        }),
{
    let bounds = law_split_cuts_where_samples_say(
        segment,
        max_samples,
        narrow,
        root,
        wide,
        count,
        chunks,
        n,
        r,
        w,
        c,
    );
    let samples = segment.samples@;
    let total = samples.len() as int;
    let max = max_samples as int;
    assert forall|j: int| 0 <= j < chunks@.len() implies is_part(
        *segment,
        #[trigger] chunks@[j],
        bounds[j],
        bounds[j + 1],
    ) by {
        assert(is_chunk(*segment, max, n, r, w, c, chunks@[j], bounds[j], bounds[j + 1]));
    }
    let pos = bounds[k];
    let middle = bounds[k + 1];
    assert(is_chunk(*segment, max, n, r, w, c, chunks@[k], pos, middle));
    if total - pos > max_samples && is_in_reach(pos, max, total, at) {
        law_window_level(samples, at, n, r, worth);
        law_silence_is_low_energy(samples, at, n, r, worth);
        assert(is_searched(pos, max, total, at));
        law_silence_is_found(samples, pos, max, n, r, middle, at);
        let around = samples.subrange(middle - 800, middle + 800);
        assert forall|found: int| #[trigger] is_exact_level(around, 1600, found) implies energy(
            around,
        ) <= energy(samples.subrange(at, at + 1600)) by {
            law_quieter_window(samples, at, middle - 800, n, r, worth, found);
        }
    }
    bounds
}

/// A decision tells how much energy there is around the split point: the square of
/// its level, times 1600, is the energy of the 1600 samples there, and it is silent
/// just where that is no more than 1600 samples of 0.02 hold. No other window that
/// is looked at holds less.
pub proof fn law_decision_tells_energy<N, R, W, C>(
    segment: &SpeechSegment,
    max_samples: usize,
    narrow: N,
    root: R,
    wide: W,
    count: C,
    split: (Vec<SpeechSegment>, Vec<SplitDecision>),
    n: NarrowFn,
    r: RootFn,
    w: WideFn,
    c: CountFn,
    k: int,
    worth: int,
) -> (bounds: Seq<int>) where
    N: Fn(Operation, Binary32, Binary32) -> Binary32,
    R: Fn(Binary32) -> Binary32,
    W: Fn(Operation, Binary64, Binary64) -> Binary64,
    C: Fn(usize) -> Binary64,

    requires
        call_ensures(
            split_with_decisions::<N, R, W, C>,
            (segment, max_samples, narrow, root, wide, count),
            split,
        ),
        segment.samples@.len() > max_samples,
        forall|op: Operation, a: Binary32, b: Binary32, x: Binary32| #[trigger]
            call_ensures(narrow, (op, a, b), x) ==> x == n(op, a, b),
        forall|a: Binary32, x: Binary32| #[trigger] call_ensures(root, (a,), x) ==> x == r(a),
        forall|op: Operation, a: Binary64, b: Binary64, x: Binary64| #[trigger]
            call_ensures(wide, (op, a, b), x) ==> x == w(op, a, b),
        forall|j: usize, x: Binary64| #[trigger] call_ensures(count, (j,), x) ==> x == c(j),
        is_exact_narrow(n),
        is_exact_root(r),
        0 <= k < split.1@.len(),
        split.1@[k].level.bits != 0x7f7f_ffff,
        is_exact_level(
            segment.samples@.subrange(split.1@[k].sample - 800, split.1@[k].sample + 800),
            1600,
            worth,
        ),
    ensures
        are_chunks(*segment, max_samples as int, n, r, w, c, split.0@, bounds),
        ({
            let decision = split.1@[k];
            let around = segment.samples@.subrange(decision.sample - 800, decision.sample + 800);
            let limit = (Binary32 { bits: 0x3ca3_d70a }).units();
            &&& bounds[k] < decision.sample - 800
            &&& decision.sample + 800 <= segment.samples@.len()
            &&& decision.level.units() >= 0
            &&& decision.level.units() * decision.level.units() * 1600 == energy(around)
            &&& decision.silent <==> energy(around) <= limit * limit * 1600
            &&& forall|at: int, other: int|
                #![trigger is_exact_level(segment.samples@.subrange(at, at + 1600), 1600, other)]
                is_searched(bounds[k], max_samples as int, segment.samples@.len() as int, at)
                    && is_exact_level(segment.samples@.subrange(at, at + 1600), 1600, other)
                    ==> energy(around) <= energy(segment.samples@.subrange(at, at + 1600))
        }),
{
    let bounds = law_decisions_tell_split_points(
        segment,
        max_samples,
        narrow,
        root,
        wide,
        count,
        split,
        n,
        r,
        w,
        c,
    );
    let samples = segment.samples@;
    let total = samples.len() as int;
    let max = max_samples as int;
    let decision = split.1@[k];
    let middle = decision.sample as int;
    assert(is_chunk(*segment, max, n, r, w, c, split.0@[k], bounds[k], bounds[k + 1]));
    assert(is_decision(samples, bounds[k], max, n, r, decision, bounds[k + 1]));
    law_window_level(samples, middle - 800, n, r, worth);
    law_silence_is_low_energy(samples, middle - 800, n, r, worth);
    assert forall|at: int, other: int|
        #![trigger is_exact_level(samples.subrange(at, at + 1600), 1600, other)]
        is_searched(bounds[k], max, total, at) && is_exact_level(
            samples.subrange(at, at + 1600),
            1600,
            other,
        ) implies energy(samples.subrange(middle - 800, middle + 800)) <= energy(
        samples.subrange(at, at + 1600),
    ) by {
        law_quieter_window(samples, at, middle - 800, n, r, other, worth);
    }
    bounds
}

/// The times of the samples of `segment` can be had without rounding: neighbouring
/// samples are `share` apart.
pub open spec fn is_exact_clock(segment: SpeechSegment, share: int) -> bool {
    let total = segment.samples@.len() as int;
    let start = segment.start_timestamp_ms.units();
    let span = segment.end_timestamp_ms.units() - start;
    &&& total > 0
    &&& is_finite_wide(segment.start_timestamp_ms)
    &&& is_finite_wide(segment.end_timestamp_ms)
    &&& is_wide_worth(span)
    &&& is_wide_worth(share)
    &&& share * total == span
    &&& forall|i: int| 0 <= i <= total ==> is_wide_worth(#[trigger] (i * one_wide()))
    &&& forall|i: int|
        0 <= i <= total ==> is_wide_worth(#[trigger] (i * share)) && is_wide_worth(start + i * share)
}

/// However many samples there are, they lie evenly between start and end: the first
/// one at the start, the place behind the last one at the end, and each as many shares
/// behind the start as there are samples before it.
pub proof fn law_samples_lie_evenly(
    segment: SpeechSegment,
    w: WideFn,
    c: CountFn,
    share: int,
    at: int,
)
    requires
        is_exact_wide(w),
        is_exact_count(c),
        is_exact_clock(segment, share),
        segment.samples@.len() <= usize::MAX,
        0 <= at <= segment.samples@.len(),
    ensures
        is_finite_wide(time_at(segment, w, c, at)),
        time_at(segment, w, c, at).units() == segment.start_timestamp_ms.units() + at * share,
        time_at(segment, w, c, at) == sample_time(
            w,
            c,
            segment.start_timestamp_ms,
            segment.end_timestamp_ms,
            segment.samples@.len() as int,
            at,
        ),
        at == 0 ==> time_at(segment, w, c, at).units() == segment.start_timestamp_ms.units(),
        at == segment.samples@.len() ==> time_at(segment, w, c, at).units()
            == segment.end_timestamp_ms.units(),
{
    vstd::arithmetic::power2::lemma_pow2_pos(1074);
    let one = one_wide();
    let total = segment.samples@.len() as int;
    let start = segment.start_timestamp_ms;
    let end = segment.end_timestamp_ms;
    let span = w(Operation::Subtract, end, start);
    assert(is_wide_worth(end.units() - start.units()));
    assert(is_finite_wide(span) && span.units() == end.units() - start.units());
    let all = c(total as usize);
    assert(is_wide_worth(total * one));
    assert(is_wide_worth((total as usize) * one));
    assert(all.units() == total * one);
    let spacing = w(Operation::Divide, span, all);
    assert(share * (total * one) == (share * total) * one) by (nonlinear_arith);
    assert(total * one != 0) by (nonlinear_arith)
        requires
            total > 0,
            one > 0,
    ;
    assert(is_finite_wide(spacing) && spacing.units() == share);
    let before = c(at as usize);
    assert(is_wide_worth(at * one));
    assert(is_wide_worth((at as usize) * one));
    assert(before.units() == at * one);
    let passed = w(Operation::Multiply, before, spacing);
    assert((at * share) * one == (at * one) * share) by (nonlinear_arith);
    assert(is_wide_worth(at * share));
    assert(is_finite_wide(passed) && passed.units() == at * share);
    assert(is_wide_worth(start.units() + at * share));
    assert(total * share == share * total) by (nonlinear_arith);
    assert(0 * share == 0);
}

/// `part` has its even share of the time of `segment`: it starts and ends as far
/// into the time as it does into the samples, at all times within the segment, and
/// runs forwards.
pub open spec fn has_even_times(
    segment: SpeechSegment,
    part: SpeechSegment,
    from: int,
    to: int,
) -> bool {
    let total = segment.samples@.len() as int;
    let start = segment.start_timestamp_ms;
    let end = segment.end_timestamp_ms;
    let span = end.units() - start.units();
    &&& (part.start_timestamp_ms.units() - start.units()) * total == from * span
    &&& (part.end_timestamp_ms.units() - start.units()) * total == to * span
    &&& from == 0 ==> part.start_timestamp_ms.units() == start.units()
    &&& to == total ==> part.end_timestamp_ms.units() == end.units()
    &&& not_after(start.bits, end.bits) ==> {
        &&& not_after(start.bits, part.start_timestamp_ms.bits)
        &&& not_after(part.start_timestamp_ms.bits, part.end_timestamp_ms.bits)
        &&& not_after(part.end_timestamp_ms.bits, end.bits)
    }
}

/// However long the segment is, its chunks share its time as they share its
/// samples: equal numbers of samples take equal time, the first chunk starts when
/// the segment starts, the last one ends when it ends, no chunk ends before it
/// starts, and none lies outside the segment.
pub proof fn law_chunks_share_time_evenly<N, R, W, C>(
    segment: &SpeechSegment,
    max_samples: usize,
    narrow: N,
    root: R,
    wide: W,
    count: C,
    chunks: Vec<SpeechSegment>,
    n: NarrowFn,
    r: RootFn,
    w: WideFn,
    c: CountFn,
    share: int,
) -> (bounds: Seq<int>) where
    N: Fn(Operation, Binary32, Binary32) -> Binary32,
    R: Fn(Binary32) -> Binary32,
    W: Fn(Operation, Binary64, Binary64) -> Binary64,
    C: Fn(usize) -> Binary64,

    requires
        call_ensures(
            split_segment_at_silence::<N, R, W, C>,
            (segment, max_samples, narrow, root, wide, count),
            chunks,
        ),
        segment.samples@.len() > max_samples,
        forall|op: Operation, a: Binary32, b: Binary32, x: Binary32| #[trigger]
            call_ensures(narrow, (op, a, b), x) ==> x == n(op, a, b),
        forall|a: Binary32, x: Binary32| #[trigger] call_ensures(root, (a,), x) ==> x == r(a),
        forall|op: Operation, a: Binary64, b: Binary64, x: Binary64| #[trigger]
            call_ensures(wide, (op, a, b), x) ==> x == w(op, a, b),
        forall|k: usize, x: Binary64| #[trigger] call_ensures(count, (k,), x) ==> x == c(k),
        is_exact_wide(w),
        is_exact_count(c),
        is_exact_clock(*segment, share),
    ensures
        bounds.len() == chunks@.len() + 1,
        bounds[0] == 0,
        bounds.last() == segment.samples@.len(),
        forall|k: int|
            0 <= k < chunks@.len() ==> {
                &&& (#[trigger] chunks@[k]).samples@.len() == bounds[k + 1] - bounds[k]
                &&& has_even_times(*segment, chunks@[k], bounds[k], bounds[k + 1])
            },
{
    let bounds = law_split_cuts_where_samples_say(
        segment,
        max_samples,
        narrow,
        root,
        wide,
        count,
        chunks,
        n,
        r,
        w,
        c,
    );
    let total = segment.samples@.len() as int;
    assert forall|k: int| 0 <= k < chunks@.len() implies {
        &&& (#[trigger] chunks@[k]).samples@.len() == bounds[k + 1] - bounds[k]
        &&& has_even_times(*segment, chunks@[k], bounds[k], bounds[k + 1])
    } by {
        assert(is_chunk(
            *segment,
            max_samples as int,
            n,
            r,
            w,
            c,
            chunks@[k],
            bounds[k],
            bounds[k + 1],
        ));
        lemma_even_times(
            *segment,
            max_samples as int,
            n,
            r,
            w,
            c,
            chunks@[k],
            bounds[k],
            bounds[k + 1],
            share,
        );
    }
    bounds
}

/// A chunk has its even share of the time.
proof fn lemma_even_times(
    segment: SpeechSegment,
    max_samples: int,
    n: NarrowFn,
    r: RootFn,
    w: WideFn,
    c: CountFn,
    part: SpeechSegment,
    from: int,
    to: int,
    share: int,
)
    requires
        is_exact_wide(w),
        is_exact_count(c),
        is_exact_clock(segment, share),
        is_chunk(segment, max_samples, n, r, w, c, part, from, to),
    ensures
        has_even_times(segment, part, from, to),
{
    let total = segment.samples@.len() as int;
    let start = segment.start_timestamp_ms;
    let end = segment.end_timestamp_ms;
    let span = end.units() - start.units();
    assert(segment.samples@.len() == segment.samples.len());
    law_samples_lie_evenly(segment, w, c, share, from);
    law_samples_lie_evenly(segment, w, c, share, to);
    assert(total * share == share * total) by (nonlinear_arith);
    assert((from * share) * total == from * (share * total)) by (nonlinear_arith);
    assert((to * share) * total == to * (share * total)) by (nonlinear_arith);
    assert(part.start_timestamp_ms.units() == start.units() + from * share);
    assert(part.end_timestamp_ms.units() == start.units() + to * share);
    assert(is_finite_wide(part.end_timestamp_ms));
    assert(0 * share == 0);
    law_times_are_ordered_as_worth(start, end);
    law_times_are_ordered_as_worth(start, part.start_timestamp_ms);
    law_times_are_ordered_as_worth(part.start_timestamp_ms, part.end_timestamp_ms);
    law_times_are_ordered_as_worth(part.end_timestamp_ms, end);
    if start.units() <= end.units() {
        assert(share >= 0) by (nonlinear_arith)
            requires
                share * total >= 0,
                total > 0,
        ;
        assert(0 <= from * share <= to * share <= total * share) by (nonlinear_arith)
            requires
                share >= 0,
                0 <= from <= to <= total,
        ;
    }
}

} // verus!
