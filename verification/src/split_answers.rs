//! What a caller of the splitting functions gets, told from the samples, the times
//! and the arithmetic alone.

use crate::arithmetic::{
    computes_count, computes_narrow, computes_root, computes_wide, rms, sum_of_squares, CountFn,
    NarrowFn, Operation, RootFn, WideFn,
};
use crate::binary::{Binary32, Binary64};
use crate::order_laws::{law_order_told_from_patterns, no_number, precedes};
use crate::segment::{segment_views, SpeechSegment};
use crate::split::{
    choose_split, cuts_from, even_clock, find_quietest, is_quietest, largest_level, next_cut,
    quietest, rms_meter, search_range, silence_threshold, split_point, split_segment_at_silence,
    split_view, split_with_decisions, window_count, window_levels, window_start, SplitDecision,
};
use crate::split_laws::{cut_follows, lemma_cuts, lemma_quietest_exists};
use vstd::prelude::*;

verus! {

/// Takes the square of one more sample into a sum.
pub open spec fn with_square(n: NarrowFn) -> spec_fn(Binary32, Binary32) -> Binary32 {
    |sum: Binary32, sample: Binary32|
        n(Operation::Add, sum, n(Operation::Multiply, sample, sample))
}

/// The level of the window of 1600 samples at `at`: the root of a 1600th of the
/// sum of the squares of all of them.
pub open spec fn level_at(samples: Seq<Binary32>, at: int, n: NarrowFn, r: RootFn) -> Binary32 {
    let sum = samples.subrange(at, at + 1600).fold_left(Binary32 { bits: 0 }, with_square(n));
    r(n(Operation::Divide, sum, Binary32 { bits: 0x44c8_0000 }))
}

/// A window at `at` is looked at for the end of the chunk that starts at `pos`: it
/// starts no earlier than one second into the chunk and three seconds before the
/// target point, a multiple of 10 ms behind that, and ends no later than three
/// seconds behind the target point and one window before the end.
pub open spec fn is_searched(pos: int, max_samples: int, total: int, at: int) -> bool {
    let target = pos + max_samples;
    let first = if target - 48000 > pos + 16000 {
        target - 48000
    } else {
        pos + 16000
    };
    &&& first <= at
    &&& (at - first) % 160 == 0
    &&& at + 1600 <= target + 48000
    &&& at + 1600 <= total - 1600
}

/// The window at `at` is the first of the quietest that are looked at.
pub open spec fn is_chosen(
    samples: Seq<Binary32>,
    pos: int,
    max_samples: int,
    n: NarrowFn,
    r: RootFn,
    at: int,
) -> bool {
    let total = samples.len() as int;
    &&& is_searched(pos, max_samples, total, at)
    &&& precedes(level_at(samples, at, n, r).bits, 0x7f7f_ffff)
    &&& forall|other: int| #[trigger]
        is_searched(pos, max_samples, total, other) ==> !precedes(
            level_at(samples, other, n, r).bits,
            level_at(samples, at, n, r).bits,
        )
    &&& forall|other: int| #[trigger]
        is_searched(pos, max_samples, total, other) && other < at ==> no_number(
            level_at(samples, other, n, r).bits,
        ) || precedes(level_at(samples, at, n, r).bits, level_at(samples, other, n, r).bits)
}

/// The smaller of the two.
pub open spec fn smaller(a: int, b: int) -> int {
    if a < b {
        a
    } else {
        b
    }
}

/// `split` is where the chunk that starts at `pos` is split off, at the level
/// `level`: in the middle of the chosen window, or at the target point where no
/// window has a level that can be compared.
pub open spec fn is_split_point(
    samples: Seq<Binary32>,
    pos: int,
    max_samples: int,
    n: NarrowFn,
    r: RootFn,
    split: int,
    level: Binary32,
) -> bool {
    ||| {
        &&& is_chosen(samples, pos, max_samples, n, r, split - 800)
        &&& level == level_at(samples, split - 800, n, r)
    }
    ||| {
        &&& split == pos + max_samples
        &&& level.bits == 0x7f7f_ffff
        &&& forall|at: int| #[trigger]
            is_searched(pos, max_samples, samples.len() as int, at) ==> !precedes(
                level_at(samples, at, n, r).bits,
                0x7f7f_ffff,
            )
    }
}

/// A chunk that starts at `pos` ends at `end`: a rest that is short enough is taken
/// whole, a chunk that is split off at a level of up to 0.02 ends there, and any
/// other one runs on for one second or to the end.
pub open spec fn ends_at(
    samples: Seq<Binary32>,
    pos: int,
    max_samples: int,
    n: NarrowFn,
    r: RootFn,
    end: int,
) -> bool {
    let total = samples.len() as int;
    if total - pos <= max_samples {
        end == total
    } else {
        exists|split: int, level: Binary32|
            {
                &&& #[trigger] is_split_point(samples, pos, max_samples, n, r, split, level)
                &&& end == if precedes(0x3ca3_d70a, level.bits) {
                    smaller(split + 16000, total)
                } else {
                    split
                }
            }
    }
}

/// The time of sample number `at` of a segment: as far behind the start as the
/// whole segment's share for so many samples.
pub open spec fn time_at(segment: SpeechSegment, w: WideFn, c: CountFn, at: int) -> Binary64 {
    let span = w(Operation::Subtract, segment.end_timestamp_ms, segment.start_timestamp_ms);
    let share = w(Operation::Divide, span, c(segment.samples@.len() as usize));
    w(
        Operation::Add,
        segment.start_timestamp_ms,
        w(Operation::Multiply, c(at as usize), share),
    )
}

/// `part` is the chunk of `segment` from sample `from` up to sample `to`.
pub open spec fn is_chunk(
    segment: SpeechSegment,
    max_samples: int,
    n: NarrowFn,
    r: RootFn,
    w: WideFn,
    c: CountFn,
    part: SpeechSegment,
    from: int,
    to: int,
) -> bool {
    let total = segment.samples@.len() as int;
    &&& 0 <= from < to <= total
    &&& part.samples@ == segment.samples@.subrange(from, to)
    &&& ends_at(segment.samples@, from, max_samples, n, r, to)
    &&& part.start_timestamp_ms == time_at(segment, w, c, from)
    &&& part.end_timestamp_ms == if total - from <= max_samples {
        segment.end_timestamp_ms
    } else {
        time_at(segment, w, c, to)
    }
    &&& part.confidence == segment.confidence
}

/// `chunks` are the chunks of `segment` between the sample numbers `bounds`, from
/// the first sample to the last without a gap.
pub open spec fn are_chunks(
    segment: SpeechSegment,
    max_samples: int,
    n: NarrowFn,
    r: RootFn,
    w: WideFn,
    c: CountFn,
    chunks: Seq<SpeechSegment>,
    bounds: Seq<int>,
) -> bool {
    &&& chunks.len() >= 1
    &&& bounds.len() == chunks.len() + 1
    &&& bounds[0] == 0
    &&& bounds.last() == segment.samples@.len()
    &&& forall|k: int|
        0 <= k < chunks.len() ==> is_chunk(
            segment,
            max_samples,
            n,
            r,
            w,
            c,
            #[trigger] chunks[k],
            bounds[k],
            bounds[k + 1],
        )
}

/// The sum of squares is the fold over all samples.
proof fn lemma_sum_is_fold(n: NarrowFn, samples: Seq<Binary32>)
    ensures
        sum_of_squares(n, samples) == samples.fold_left(Binary32 { bits: 0 }, with_square(n)),
    decreases samples.len(),
{
    if samples.len() > 0 {
        lemma_sum_is_fold(n, samples.drop_last());
    }
}

/// The windows that are measured are those that are looked at.
proof fn lemma_searched(pos: int, max_samples: int, total: int, at: int)
    requires
        0 <= pos,
        0 <= max_samples,
        is_searched(pos, max_samples, total, at),
    ensures
        ({
            let k = (at - window_start(pos, max_samples, 0)) / 160;
            0 <= k < window_count(pos, max_samples, total) && at == window_start(
                pos,
                max_samples,
                k,
            )
        }),
{
}

/// Each window that is measured is looked at, and its level is the level there.
proof fn lemma_measured(
    samples: Seq<Binary32>,
    pos: int,
    max_samples: int,
    n: NarrowFn,
    r: RootFn,
    k: int,
)
    requires
        0 <= pos,
        0 <= max_samples,
        0 <= k < window_count(pos, max_samples, samples.len() as int),
    ensures
        is_searched(
            pos,
            max_samples,
            samples.len() as int,
            window_start(pos, max_samples, k),
        ),
        window_levels(samples, pos, max_samples, rms_meter(n, r))[k] == level_at(
            samples,
            window_start(pos, max_samples, k),
            n,
            r,
        ),
{
    let at = window_start(pos, max_samples, k);
    lemma_sum_is_fold(n, samples.subrange(at, at + 1600));
    assert(at - window_start(pos, max_samples, 0) == k * 160);
    assert((k * 160) % 160 == 0);
}

/// The split point of the levels is the split point of the samples.
proof fn lemma_split_point(
    samples: Seq<Binary32>,
    pos: int,
    max_samples: int,
    n: NarrowFn,
    r: RootFn,
)
    requires
        0 <= pos,
        0 <= max_samples,
    ensures
        ({
            let levels = window_levels(samples, pos, max_samples, rms_meter(n, r));
            let (split, level) = split_point(levels, pos, max_samples);
            is_split_point(samples, pos, max_samples, n, r, split, level)
        }),
{
    let total = samples.len() as int;
    let levels = window_levels(samples, pos, max_samples, rms_meter(n, r));
    match quietest(levels) {
        Some(k) => {
            assert(is_quietest(levels, k));
            let at = window_start(pos, max_samples, k);
            lemma_measured(samples, pos, max_samples, n, r, k);
            law_order_told_from_patterns(levels[k], largest_level());
            assert forall|other: int| #[trigger]
                is_searched(pos, max_samples, total, other) implies {
                &&& !precedes(level_at(samples, other, n, r).bits, level_at(samples, at, n, r).bits)
                &&& other < at ==> no_number(level_at(samples, other, n, r).bits) || precedes(
                    level_at(samples, at, n, r).bits,
                    level_at(samples, other, n, r).bits,
                )
            } by {
                lemma_searched(pos, max_samples, total, other);
                let j = (other - window_start(pos, max_samples, 0)) / 160;
                lemma_measured(samples, pos, max_samples, n, r, j);
                law_order_told_from_patterns(levels[j], levels[k]);
                law_order_told_from_patterns(levels[k], levels[j]);
            }
            assert(is_chosen(samples, pos, max_samples, n, r, at));
        },
        None => {
            assert forall|at: int| #[trigger] is_searched(
                pos,
                max_samples,
                total,
                at,
            ) implies !precedes(level_at(samples, at, n, r).bits, 0x7f7f_ffff) by {
                lemma_searched(pos, max_samples, total, at);
                let j = (at - window_start(pos, max_samples, 0)) / 160;
                lemma_measured(samples, pos, max_samples, n, r, j);
                law_order_told_from_patterns(levels[j], largest_level());
                if levels[j].below(largest_level()) {
                    lemma_quietest_exists(levels, j);
                }
            }
        },
    }
}

/// The next cut is where the chunk ends.
proof fn lemma_next_cut(
    samples: Seq<Binary32>,
    pos: int,
    max_samples: int,
    n: NarrowFn,
    r: RootFn,
)
    requires
        0 <= pos,
        0 <= max_samples < samples.len() - pos,
    ensures
        ends_at(
            samples,
            pos,
            max_samples,
            n,
            r,
            next_cut(
                window_levels(samples, pos, max_samples, rms_meter(n, r)),
                pos,
                max_samples,
                samples.len() as int,
            ),
        ),
{
    let levels = window_levels(samples, pos, max_samples, rms_meter(n, r));
    lemma_split_point(samples, pos, max_samples, n, r);
    let (split, level) = split_point(levels, pos, max_samples);
    law_order_told_from_patterns(silence_threshold(), level);
    assert(is_split_point(samples, pos, max_samples, n, r, split, level));
}

/// Splitting cuts a segment that is too long into chunks without a gap, each of
/// which ends where the samples say.
pub proof fn law_split_cuts_where_samples_say<N, R, W, C>(
    segment: &SpeechSegment,
    max_samples: usize,
    narrow: N,
    root: R,
    wide: W,
    count: C,
    chunks: Vec<SpeechSegment>,
    n: NarrowFn,
    r: RootFn,
    w: WideFn,
    c: CountFn,
) -> (bounds: Seq<int>) where
    N: Fn(Operation, Binary32, Binary32) -> Binary32,
    R: Fn(Binary32) -> Binary32,
    W: Fn(Operation, Binary64, Binary64) -> Binary64,
    C: Fn(usize) -> Binary64,

    requires
        call_ensures(
            split_segment_at_silence::<N, R, W, C>,
            (segment, max_samples, narrow, root, wide, count),
            chunks,
        ),
        segment.samples@.len() > max_samples,
        forall|op: Operation, a: Binary32, b: Binary32, x: Binary32| #[trigger]
            call_ensures(narrow, (op, a, b), x) ==> x == n(op, a, b),
        forall|a: Binary32, x: Binary32| #[trigger] call_ensures(root, (a,), x) ==> x == r(a),
        forall|op: Operation, a: Binary64, b: Binary64, x: Binary64| #[trigger]
            call_ensures(wide, (op, a, b), x) ==> x == w(op, a, b),
        forall|k: usize, x: Binary64| #[trigger] call_ensures(count, (k,), x) ==> x == c(k),
    ensures
        are_chunks(*segment, max_samples as int, n, r, w, c, chunks@, bounds),
{
    assert(computes_narrow(narrow, n) && computes_root(root, r) && computes_wide(wide, w)
        && computes_count(count, c));
    lemma_are_chunks(segment, max_samples as nat, n, r, w, c, chunks@)
}

/// What equals the view of a split are its chunks.
proof fn lemma_are_chunks(
    segment: &SpeechSegment,
    max_samples: nat,
    n: NarrowFn,
    r: RootFn,
    w: WideFn,
    c: CountFn,
    chunks: Seq<SpeechSegment>,
) -> (bounds: Seq<int>)
    requires
        segment.samples@.len() > max_samples,
        segment_views(chunks) == split_view(
            segment@,
            max_samples,
            rms_meter(n, r),
            even_clock(w, c),
        ),
    ensures
        bounds == cuts_from(segment.samples@, max_samples, rms_meter(n, r), 0),
        are_chunks(*segment, max_samples as int, n, r, w, c, chunks, bounds),
{
    let samples = segment.samples@;
    let meter = rms_meter(n, r);
    let bounds = cuts_from(samples, max_samples, meter, 0);
    let views = segment_views(chunks);
    lemma_cuts(samples, max_samples, meter, 0);
    assert(chunks.len() == views.len());
    assert forall|k: int| 0 <= k < chunks.len() implies is_chunk(
        *segment,
        max_samples as int,
        n,
        r,
        w,
        c,
        #[trigger] chunks[k],
        bounds[k],
        bounds[k + 1],
    ) by {
        assert(cut_follows(samples, max_samples, meter, bounds, k));
        assert(views[k] == chunks[k]@);
        if samples.len() - bounds[k] > max_samples {
            lemma_next_cut(samples, bounds[k], max_samples as int, n, r);
        }
    }
    bounds
}

/// A segment that is short enough comes back as it is.
pub proof fn law_split_returns_short_segment<N, R, W, C>(
    segment: &SpeechSegment,
    max_samples: usize,
    narrow: N,
    root: R,
    wide: W,
    count: C,
    chunks: Vec<SpeechSegment>,
) where
    N: Fn(Operation, Binary32, Binary32) -> Binary32,
    R: Fn(Binary32) -> Binary32,
    W: Fn(Operation, Binary64, Binary64) -> Binary64,
    C: Fn(usize) -> Binary64,

    requires
        call_ensures(
            split_segment_at_silence::<N, R, W, C>,
            (segment, max_samples, narrow, root, wide, count),
            chunks,
        ),
        segment.samples@.len() <= max_samples,
    ensures
        chunks@.len() == 1,
        chunks@[0].samples@ == segment.samples@,
        chunks@[0].start_timestamp_ms == segment.start_timestamp_ms,
        chunks@[0].end_timestamp_ms == segment.end_timestamp_ms,
        chunks@[0].confidence == segment.confidence,
{
    assert(segment_views(chunks@).len() == 1);
    assert(segment_views(chunks@)[0] == chunks@[0]@);
}

/// Where nothing is cut there is no decision, and the segment comes back as it is.
pub proof fn law_short_segment_needs_no_decision<N, R, W, C>(
    segment: &SpeechSegment,
    max_samples: usize,
    narrow: N,
    root: R,
    wide: W,
    count: C,
    split: (Vec<SpeechSegment>, Vec<SplitDecision>),
) where
    N: Fn(Operation, Binary32, Binary32) -> Binary32,
    R: Fn(Binary32) -> Binary32,
    W: Fn(Operation, Binary64, Binary64) -> Binary64,
    C: Fn(usize) -> Binary64,

    requires
        call_ensures(
            split_with_decisions::<N, R, W, C>,
            (segment, max_samples, narrow, root, wide, count),
            split,
        ),
        segment.samples@.len() <= max_samples,
    ensures
        split.1@.len() == 0,
        split.0@.len() == 1,
        split.0@[0].samples@ == segment.samples@,
        split.0@[0].start_timestamp_ms == segment.start_timestamp_ms,
        split.0@[0].end_timestamp_ms == segment.end_timestamp_ms,
        split.0@[0].confidence == segment.confidence,
{
    assert(segment_views(split.0@).len() == 1);
    assert(segment_views(split.0@)[0] == split.0@[0]@);
}

/// The decisions that come with the chunks tell, for each chunk that was split off,
/// the split point and the level there, and whether that level is up to 0.02. The
/// chunks are those of the plain split.
pub proof fn law_decisions_tell_split_points<N, R, W, C>(
    segment: &SpeechSegment,
    max_samples: usize,
    narrow: N,
    root: R,
    wide: W,
    count: C,
    split: (Vec<SpeechSegment>, Vec<SplitDecision>),
    n: NarrowFn,
    r: RootFn,
    w: WideFn,
    c: CountFn,
) -> (bounds: Seq<int>) where
    N: Fn(Operation, Binary32, Binary32) -> Binary32,
    R: Fn(Binary32) -> Binary32,
    W: Fn(Operation, Binary64, Binary64) -> Binary64,
    C: Fn(usize) -> Binary64,

    requires
        call_ensures(
            split_with_decisions::<N, R, W, C>,
            (segment, max_samples, narrow, root, wide, count),
            split,
        ),
        segment.samples@.len() > max_samples,
        forall|op: Operation, a: Binary32, b: Binary32, x: Binary32| #[trigger]
            call_ensures(narrow, (op, a, b), x) ==> x == n(op, a, b),
        forall|a: Binary32, x: Binary32| #[trigger] call_ensures(root, (a,), x) ==> x == r(a),
        forall|op: Operation, a: Binary64, b: Binary64, x: Binary64| #[trigger]
            call_ensures(wide, (op, a, b), x) ==> x == w(op, a, b),
        forall|k: usize, x: Binary64| #[trigger] call_ensures(count, (k,), x) ==> x == c(k),
    ensures
        are_chunks(*segment, max_samples as int, n, r, w, c, split.0@, bounds),
        forall|k: int|
            #![trigger bounds[k]]
            0 <= k < split.0@.len() ==> (k < split.1@.len() <==> segment.samples@.len() - bounds[k]
                > max_samples),
        split.1@.len() <= split.0@.len(),
        forall|k: int|
            0 <= k < split.1@.len() ==> is_decision(
                segment.samples@,
                bounds[k],
                max_samples as int,
                n,
                r,
                #[trigger] split.1@[k],
                bounds[k + 1],
            ),
{
    assert(computes_narrow(narrow, n) && computes_root(root, r) && computes_wide(wide, w)
        && computes_count(count, c));
    let bounds = lemma_are_chunks(segment, max_samples as nat, n, r, w, c, split.0@);
    let samples = segment.samples@;
    let meter = rms_meter(n, r);
    let total = samples.len() as int;
    lemma_cuts(samples, max_samples as nat, meter, 0);
    assert(segment_views(split.0@).len() == split.0@.len());
    assert forall|k: int|
        #![trigger bounds[k]]
        0 <= k < split.0@.len() implies (k < split.1@.len() <==> total - bounds[k]
        > max_samples) by {
        assert(cut_follows(samples, max_samples as nat, meter, bounds, k));
        if k < split.0@.len() - 1 {
            assert(cut_follows(samples, max_samples as nat, meter, bounds, k + 1));
        }
    }
    assert forall|k: int| 0 <= k < split.1@.len() implies is_decision(
        samples,
        bounds[k],
        max_samples as int,
        n,
        r,
        #[trigger] split.1@[k],
        bounds[k + 1],
    ) by {
        assert(cut_follows(samples, max_samples as nat, meter, bounds, k));
        let decision = split.1@[k];
        let levels = window_levels(samples, bounds[k], max_samples as int, meter);
        assert(decision.follows_from(levels, bounds[k], max_samples as int));
        lemma_split_point(samples, bounds[k], max_samples as int, n, r);
        law_order_told_from_patterns(silence_threshold(), decision.level);
    }
    bounds
}

/// `decision` says where the chunk that starts at `pos` is split off, and `end` is
/// where the chunk then ends.
pub open spec fn is_decision(
    samples: Seq<Binary32>,
    pos: int,
    max_samples: int,
    n: NarrowFn,
    r: RootFn,
    decision: SplitDecision,
    end: int,
) -> bool {
    &&& is_split_point(samples, pos, max_samples, n, r, decision.sample as int, decision.level)
    &&& decision.silent <==> !precedes(0x3ca3_d70a, decision.level.bits)
    &&& end == if decision.silent {
        decision.sample as int
    } else {
        smaller(decision.sample + 16000, samples.len() as int)
    }
}

/// Silence that can be found is found: where some window that is looked at has a
/// level of up to 0.02, the chunk ends in the middle of such a window, and no
/// window that is looked at is quieter.
pub proof fn law_silence_is_found(
    samples: Seq<Binary32>,
    pos: int,
    max_samples: int,
    n: NarrowFn,
    r: RootFn,
    end: int,
    silent: int,
)
    requires
        ends_at(samples, pos, max_samples, n, r, end),
        samples.len() - pos > max_samples,
        is_searched(pos, max_samples, samples.len() as int, silent),
        !no_number(level_at(samples, silent, n, r).bits),
        !precedes(0x3ca3_d70a, level_at(samples, silent, n, r).bits),
    ensures
        is_searched(pos, max_samples, samples.len() as int, end - 800),
        !no_number(level_at(samples, end - 800, n, r).bits),
        !precedes(0x3ca3_d70a, level_at(samples, end - 800, n, r).bits),
        forall|at: int| #[trigger]
            is_searched(pos, max_samples, samples.len() as int, at) ==> !precedes(
                level_at(samples, at, n, r).bits,
                level_at(samples, end - 800, n, r).bits,
            ),
{
}

/// The search range of the chunk that starts at `pos` holds every window that is
/// looked at and no other, and is none only where there is no such window.
pub proof fn law_search_is_complete(
    pos: usize,
    max_samples: usize,
    total: usize,
    range: Option<(usize, usize)>,
    at: int,
)
    requires
        call_ensures(search_range, (pos, max_samples, total), range),
    ensures
        match range {
            Some((first, windows)) => {
                is_searched(pos as int, max_samples as int, total as int, at) <==> (exists|k: int|
                    0 <= k < windows && at == #[trigger] (first + 160 * k))
            },
            None => !is_searched(pos as int, max_samples as int, total as int, at),
        },
{
    let (p, m, t) = (pos as int, max_samples as int, total as int);
    if is_searched(p, m, t, at) {
        lemma_searched(p, m, t, at);
        let k = (at - window_start(p, m, 0)) / 160;
        assert(at == window_start(p, m, 0) + 160 * k);
    }
}

/// The window that is found is the first of the quietest: none precedes it, those
/// before it are louder or no numbers. None is found only where no level is a
/// number below the largest one.
pub proof fn law_first_quietest_is_found(levels: &[Binary32], found: Option<usize>)
    requires
        call_ensures(find_quietest, (levels,), found),
    ensures
        match found {
            Some(k) => {
                &&& k < levels@.len()
                &&& precedes(levels@[k as int].bits, 0x7f7f_ffff)
                &&& forall|j: int|
                    0 <= j < levels@.len() ==> !precedes(
                        (#[trigger] levels@[j]).bits,
                        levels@[k as int].bits,
                    )
                &&& forall|j: int|
                    0 <= j < k ==> no_number((#[trigger] levels@[j]).bits) || precedes(
                        levels@[k as int].bits,
                        levels@[j].bits,
                    )
            },
            None => forall|j: int|
                0 <= j < levels@.len() ==> !precedes((#[trigger] levels@[j]).bits, 0x7f7f_ffff),
        },
{
    match found {
        Some(k) => {
            let best = levels@[k as int];
            law_order_told_from_patterns(best, largest_level());
            assert forall|j: int| 0 <= j < levels@.len() implies {
                &&& !precedes((#[trigger] levels@[j]).bits, best.bits)
                &&& j < k ==> no_number(levels@[j].bits) || precedes(best.bits, levels@[j].bits)
            } by {
                law_order_told_from_patterns(levels@[j], best);
                law_order_told_from_patterns(best, levels@[j]);
            }
        },
        None => {
            assert forall|j: int| 0 <= j < levels@.len() implies !precedes(
                (#[trigger] levels@[j]).bits,
                0x7f7f_ffff,
            ) by {
                law_order_told_from_patterns(levels@[j], largest_level());
                if levels@[j].below(largest_level()) {
                    lemma_quietest_exists(levels@, j);
                }
            }
        },
    }
}

/// A chunk is split off in the middle of the quietest window, which lies where the
/// search range puts it, or at the target point where there is none, and counts as
/// silent there up to 0.02.
pub proof fn law_split_is_chosen(
    levels: &[Binary32],
    pos: usize,
    max_samples: usize,
    total: usize,
    found: Option<usize>,
    range: Option<(usize, usize)>,
    decision: SplitDecision,
)
    requires
        call_ensures(choose_split, (levels, pos, max_samples, total), decision),
        call_ensures(find_quietest, (levels,), found),
        call_ensures(search_range, (pos, max_samples, total), range),
        levels@.len() == match range {
            Some((_, windows)) => windows as int,
            None => 0,
        },
    ensures
        match found {
            Some(k) => {
                &&& range is Some
                &&& decision.sample == (range->0).0 + 160 * k + 800
                &&& decision.level == levels@[k as int]
            },
            None => {
                &&& decision.sample == pos + max_samples
                &&& decision.level.bits == 0x7f7f_ffff
            },
        },
        decision.silent <==> !precedes(0x3ca3_d70a, decision.level.bits),
{
    law_order_told_from_patterns(silence_threshold(), decision.level);
}

/// A chunk ends where it is split off if that is silent, else one second later, and
/// never behind the segment.
pub proof fn law_chunk_end(decision: &SplitDecision, total: usize, cut: usize)
    requires
        call_ensures(SplitDecision::chunk_end, (decision, total), cut),
    ensures
        decision.silent ==> cut == decision.sample,
        !decision.silent ==> cut == smaller(decision.sample + 16000, total as int),
{
}

/// The level of samples is the root of their share of the sum of all squares.
pub proof fn law_rms_takes_in_every_sample<N, R>(
    samples: &[Binary32],
    length: Binary32,
    narrow: &N,
    root: &R,
    level: Binary32,
    n: NarrowFn,
    r: RootFn,
) where N: Fn(Operation, Binary32, Binary32) -> Binary32, R: Fn(Binary32) -> Binary32
    requires
        call_ensures(rms::<N, R>, (samples, length, narrow, root), level),
        forall|op: Operation, a: Binary32, b: Binary32, x: Binary32| #[trigger]
            call_ensures(*narrow, (op, a, b), x) ==> x == n(op, a, b),
        forall|a: Binary32, x: Binary32| #[trigger] call_ensures(*root, (a,), x) ==> x == r(a),
    ensures
        level == r(
            n(
                Operation::Divide,
                samples@.fold_left(Binary32 { bits: 0 }, with_square(n)),
                length,
            ),
        ),
{
    assert(computes_narrow(*narrow, n) && computes_root(*root, r));
    lemma_sum_is_fold(n, samples@);
}

} // verus!
