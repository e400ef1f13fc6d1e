//! Cutting a long speech segment into chunks at quiet points.

use crate::arithmetic::{
    computes_count, computes_narrow, computes_root, computes_wide, is_count, is_narrow, is_root,
    is_wide, rms, root_mean_square, sample_spacing, sample_time, spacing, time_of_sample, CountFn,
    NarrowFn, Operation, RootFn, WideFn,
};
use crate::binary::{Binary32, Binary64};
use crate::segment::{copy_of, segment_views, SegmentView, SpeechSegment, SAMPLE_RATE};
use vstd::prelude::*;

verus! {

/// The length of one window of the energy measurement: 100 ms of samples.
pub const ENERGY_WINDOW: usize = SAMPLE_RATE / 10;

/// How far around the target point a quiet window is looked for: 3 s of samples.
pub const SEARCH_RADIUS: usize = SAMPLE_RATE * 3;

/// The distance between the starts of two neighbouring windows: 10 ms of samples.
pub const WINDOW_STEP: usize = SAMPLE_RATE / 100;

/// How far a chunk runs on where no quiet window was found: 1 s of samples.
pub const FALLBACK_OVERLAP: usize = SAMPLE_RATE;

/// The binary32 pattern of 0.02: a window up to this level counts as silent.
pub const SILENCE_RMS_THRESHOLD: u32 = 0x3ca3_d70a;

/// The binary32 pattern of 1600, the number of samples in a window.
pub const WINDOW_LENGTH: u32 = 0x44c8_0000;

/// The binary32 pattern of the largest finite value.
pub const LARGEST_LEVEL: u32 = 0x7f7f_ffff;

/// The level up to which a window counts as silent.
pub open spec fn silence_threshold() -> Binary32 {
    Binary32 { bits: SILENCE_RMS_THRESHOLD }
}

/// The level that stands for "no window found".
pub open spec fn largest_level() -> Binary32 {
    Binary32 { bits: LARGEST_LEVEL }
}

/// Where the search begins for the end of the chunk that starts at `pos`: the
/// search radius before the target point, but at least one second into the chunk.
pub open spec fn search_start(pos: int, max_samples: int) -> int {
    let earliest = pos + max_samples - SEARCH_RADIUS;
    if earliest > pos + SAMPLE_RATE {
        earliest
    } else {
        pos + SAMPLE_RATE
    }
}

/// Where the search ends: the search radius after the target point, but at
/// least one window before the end of the segment.
pub open spec fn search_end(pos: int, max_samples: int, total: int) -> int {
    let latest = pos + max_samples + SEARCH_RADIUS;
    let limit = if total < ENERGY_WINDOW { 0 } else { total - ENERGY_WINDOW };
    if latest < limit {
        latest
    } else {
        limit
    }
}

/// How many windows, one step apart, lie within the search range.
pub open spec fn window_count(pos: int, max_samples: int, total: int) -> nat {
    let room = search_end(pos, max_samples, total) - search_start(pos, max_samples) - ENERGY_WINDOW;
    if room < 0 {
        0
    } else {
        (room / WINDOW_STEP as int + 1) as nat
    }
}

/// Where the window number `k` of the search starts.
pub open spec fn window_start(pos: int, max_samples: int, k: int) -> int {
    search_start(pos, max_samples) + k * WINDOW_STEP
}

/// The levels of all windows of the search, as `meter` measures them.
pub open spec fn window_levels(
    samples: Seq<Binary32>,
    pos: int,
    max_samples: int,
    meter: spec_fn(Seq<Binary32>) -> Binary32,
) -> Seq<Binary32> {
    Seq::new(
        window_count(pos, max_samples, samples.len() as int),
        |k: int|
            {
                let start = window_start(pos, max_samples, k);
                meter(samples.subrange(start, start + ENERGY_WINDOW))
            },
    )
}

/// Number `k` is the first of the quietest among `levels`, and is a level at
/// all: a number below the largest finite one.
pub open spec fn is_quietest(levels: Seq<Binary32>, k: int) -> bool {
    &&& 0 <= k < levels.len()
    &&& levels[k].below(largest_level())
    &&& forall|j: int| 0 <= j < levels.len() ==> !(#[trigger] levels[j]).below(levels[k])
    &&& forall|j: int|
        0 <= j < k ==> (#[trigger] levels[j]).is_nan() || levels[k].below(levels[j])
}

/// The number of the quietest window, where there is one.
pub open spec fn quietest(levels: Seq<Binary32>) -> Option<int> {
    if exists|k: int| is_quietest(levels, k) {
        Some(choose|k: int| is_quietest(levels, k))
    } else {
        None
    }
}

/// The point at which the chunk that starts at `pos` is split off, with the level
/// there: the middle of the quietest window, or the target point where there is
/// none.
pub open spec fn split_point(levels: Seq<Binary32>, pos: int, max_samples: int) -> (int, Binary32) {
    match quietest(levels) {
        Some(k) => (window_start(pos, max_samples, k) + ENERGY_WINDOW as int / 2, levels[k]),
        None => (pos + max_samples, largest_level()),
    }
}

/// One second behind `split`, or the end of the segment where that comes first.
pub open spec fn runs_on(split: int, total: int) -> int {
    if split + FALLBACK_OVERLAP < total {
        split + FALLBACK_OVERLAP
    } else {
        total
    }
}

/// Where the chunk that starts at `pos` ends, given the levels of the windows
/// of its search: at the split point where it is silent there, else it runs on.
pub open spec fn next_cut(
    levels: Seq<Binary32>,
    pos: int,
    max_samples: int,
    total: int,
) -> int {
    let (split, level) = split_point(levels, pos, max_samples);
    if silence_threshold().below(level) {
        runs_on(split, total)
    } else {
        split
    }
}

/// Any level that stands for "no window found" is above the silence threshold.
pub(crate) proof fn lemma_no_window_is_loud()
    ensures
        silence_threshold().below(largest_level()),
{
    crate::binary::law_patterns_ordered_as_values(
        SILENCE_RMS_THRESHOLD as nat,
        LARGEST_LEVEL as nat,
        crate::binary::FRACTION_BITS_32 as nat,
    );
}

/// How far a split point can lie from the target point: a window that is split in
/// its middle lies within the search radius as a whole.
pub open spec fn split_radius() -> int {
    SEARCH_RADIUS - ENERGY_WINDOW as int / 2
}

/// A chunk that is cut from a longer rest is never empty and never reaches past
/// the segment. It ends at most one second behind the last point at which it can
/// be split off. Unless it takes the whole rest, it lasts one second at least and
/// does not end before the first point at which it can be split off.
pub proof fn law_cut_bounds(levels: Seq<Binary32>, pos: int, max_samples: int, total: int)
    requires
        0 <= pos,
        0 <= max_samples < total - pos,
        levels.len() == window_count(pos, max_samples, total),
    ensures
        ({
            let cut = next_cut(levels, pos, max_samples, total);
            &&& pos < cut <= total
            &&& cut <= pos + max_samples + split_radius() + FALLBACK_OVERLAP
            &&& cut == total || cut >= pos + SAMPLE_RATE
            &&& cut == total || cut >= pos + max_samples - split_radius()
        }),
{
    lemma_no_window_is_loud();
}

/// Where the chunks begin that the rest of a segment from `pos` on is cut into,
/// followed by the end of the segment.
pub open spec fn cuts_from(
    samples: Seq<Binary32>,
    max_samples: nat,
    meter: spec_fn(Seq<Binary32>) -> Binary32,
    pos: int,
) -> Seq<int>
    decreases samples.len() - pos,
{
    let total = samples.len() as int;
    if pos < 0 || pos >= total {
        seq![total]
    } else if total - pos <= max_samples {
        seq![pos, total]
    } else {
        let levels = window_levels(samples, pos, max_samples as int, meter);
        let cut = next_cut(levels, pos, max_samples as int, total);
        proof {
            law_cut_bounds(levels, pos, max_samples as int, total);
        }
        seq![pos] + cuts_from(samples, max_samples, meter, cut)
    }
}

/// The chunk of `segment` from sample `from` up to sample `to`.
///
/// `clock` gives the time of a sample from the times at which the segment
/// starts and ends, the number of its samples and the sample's number. A chunk
/// that takes a rest of at most `max_samples` ends when the segment ends.
pub open spec fn chunk(
    segment: SegmentView,
    max_samples: nat,
    clock: spec_fn(Binary64, Binary64, int, int) -> Binary64,
    from: int,
    to: int,
) -> SegmentView {
    let total = segment.samples.len() as int;
    SegmentView {
        samples: segment.samples.subrange(from, to),
        start: clock(segment.start, segment.end, total, from),
        end: if total - from <= max_samples {
            segment.end
        } else {
            clock(segment.start, segment.end, total, to)
        },
        confidence: segment.confidence,
    }
}

/// The chunks that `segment` is cut into: itself where it is short enough, else
/// the stretches between neighbouring cuts.
pub open spec fn split_view(
    segment: SegmentView,
    max_samples: nat,
    meter: spec_fn(Seq<Binary32>) -> Binary32,
    clock: spec_fn(Binary64, Binary64, int, int) -> Binary64,
) -> Seq<SegmentView> {
    if segment.samples.len() <= max_samples {
        seq![segment]
    } else {
        let cuts = cuts_from(segment.samples, max_samples, meter, 0);
        Seq::new(
            (cuts.len() - 1) as nat,
            |k: int| chunk(segment, max_samples, clock, cuts[k], cuts[k + 1]),
        )
    }
}

/// The level of a window: the root of the mean of the squares of its samples.
pub open spec fn rms_meter(narrow: NarrowFn, root: RootFn) -> spec_fn(Seq<Binary32>) -> Binary32 {
    |window: Seq<Binary32>|
        root_mean_square(narrow, root, window, Binary32 { bits: WINDOW_LENGTH })
}

/// The time of a sample: the samples lie evenly between the start and the end.
pub open spec fn even_clock(wide: WideFn, count: CountFn) -> spec_fn(
    Binary64,
    Binary64,
    int,
    int,
) -> Binary64 {
    |start: Binary64, end: Binary64, total: int, sample: int|
        sample_time(wide, count, start, end, total, sample)
}

/// Two windows cannot both be the first of the quietest.
pub proof fn law_quietest_is_unique(levels: Seq<Binary32>, k: int)
    requires
        is_quietest(levels, k),
    ensures
        quietest(levels) == Some(k),
{
    let other = choose|other: int| is_quietest(levels, other);
    assert(is_quietest(levels, other));
    if other < k {
        assert(levels[other].is_nan() || levels[k].below(levels[other]));
    } else if k < other {
        assert(levels[k].is_nan() || levels[other].below(levels[k]));
    }
}

/// The search range for the end of the chunk that starts at `pos`: where its
/// first window starts, and how many windows it has. There is none where no
/// window has room.
pub fn search_range(pos: usize, max_samples: usize, total: usize) -> (range: Option<
    (usize, usize),
>)
    requires
        pos < total,
        max_samples < total - pos,
    ensures
        match range {
            Some((first, count)) => {
                &&& first == search_start(pos as int, max_samples as int)
                &&& count == window_count(pos as int, max_samples as int, total as int)
                &&& count > 0
            },
            None => window_count(pos as int, max_samples as int, total as int) == 0,
        },
{
    let target: usize = pos + max_samples;
    let limit: usize = total.saturating_sub(ENERGY_WINDOW);
    let after: usize = target.saturating_add(SEARCH_RADIUS);
    let end: usize = if after < limit { after } else { limit };
    let before: usize = target.saturating_sub(SEARCH_RADIUS);
    let least: usize = pos.saturating_add(SAMPLE_RATE);
    let start: usize = if before > least { before } else { least };
    if end < ENERGY_WINDOW || start > end - ENERGY_WINDOW {
        None
    } else {
        Some((start, (end - ENERGY_WINDOW - start) / WINDOW_STEP + 1))
    }
}

/// The number of the first of the quietest windows, given the levels of all.
/// A level that is no number, or is not below the largest finite one, is
/// passed over.
pub fn find_quietest(levels: &[Binary32]) -> (found: Option<usize>)
    ensures
        match found {
            Some(k) => quietest(levels@) == Some(k as int) && is_quietest(levels@, k as int),
            None => quietest(levels@) is None,
        },
{
    let mut best: Option<usize> = None;
    let mut best_level = Binary32 { bits: LARGEST_LEVEL };
    let mut i: usize = 0;
    while i < levels.len()
        invariant
            i <= levels@.len(),
            best matches Some(k) ==> is_quietest(levels@.take(i as int), k as int) && best_level
                == levels@[k as int],
            best is None ==> best_level == largest_level() && forall|j: int|
                0 <= j < i ==> !(#[trigger] levels@[j]).below(largest_level()),
        decreases levels@.len() - i,
    {
        let level = levels[i];
        if level.less_than(best_level) {
            best_level = level;
            best = Some(i);
        }
        i = i + 1;
    }
    proof {
        assert(levels@.take(levels@.len() as int) == levels@);
        if best is Some {
            law_quietest_is_unique(levels@, best->0 as int);
        }
    }
    best
}

/// Where a chunk was split off, and why there.
#[derive(Clone, Copy, Debug, PartialEq, Eq, Structural)]
pub struct SplitDecision {
    /// The split point, as the number of a sample.
    pub sample: usize,
    /// The level there.
    pub level: Binary32,
    /// Whether that counts as silence.
    pub silent: bool,
}

impl SplitDecision {
    /// The decision is the one that the levels `levels` lead to for the chunk that
    /// starts at `pos`.
    pub open spec fn follows_from(
        self,
        levels: Seq<Binary32>,
        pos: int,
        max_samples: int,
    ) -> bool {
        let (split, level) = split_point(levels, pos, max_samples);
        &&& self.sample == split
        &&& self.level == level
        &&& self.silent == !silence_threshold().below(level)
    }

    /// Where the chunk ends: at the split point, or, where that is not silent, one
    /// second behind it at most.
    pub fn chunk_end(&self, total: usize) -> (cut: usize)
        ensures
            cut == if self.silent {
                self.sample as int
            } else {
                runs_on(self.sample as int, total as int)
            },
    {
        if self.silent {
            self.sample
        } else {
            let after: usize = self.sample.saturating_add(FALLBACK_OVERLAP);
            if after < total {
                after
            } else {
                total
            }
        }
    }
}

/// Where to split off the chunk that starts at `pos`, given the levels of the
/// windows of its search.
pub fn choose_split(levels: &[Binary32], pos: usize, max_samples: usize, total: usize) -> (decision:
    SplitDecision)
    requires
        pos < total,
        max_samples < total - pos,
        levels@.len() == window_count(pos as int, max_samples as int, total as int),
    ensures
        decision.follows_from(levels@, pos as int, max_samples as int),
{
    let first: usize = match search_range(pos, max_samples, total) {
        Some((first, _)) => first,
        None => pos,
    };
    let threshold = Binary32 { bits: SILENCE_RMS_THRESHOLD };
    let (sample, level): (usize, Binary32) = match find_quietest(levels) {
        Some(k) => {
            assert(k * WINDOW_STEP <= total);
            (first + k * WINDOW_STEP + ENERGY_WINDOW / 2, levels[k])
        },
        None => (pos + max_samples, Binary32 { bits: LARGEST_LEVEL }),
    };
    SplitDecision { sample, level, silent: !threshold.less_than(level) }
}

/// The levels of the `count` windows of `samples` that start one step apart from
/// `first` on.
fn measure_windows<N, R>(
    samples: &[Binary32],
    first: usize,
    count: usize,
    narrow: &N,
    root: &R,
) -> (levels: Vec<Binary32>) where
    N: Fn(Operation, Binary32, Binary32) -> Binary32,
    R: Fn(Binary32) -> Binary32,

    requires
        is_narrow(*narrow),
        is_root(*root),
        count > 0 ==> first + (count - 1) * WINDOW_STEP + ENERGY_WINDOW <= samples@.len(),
    ensures
        levels@.len() == count,
        forall|n: NarrowFn, r: RootFn, k: int| #[trigger]
            computes_narrow(*narrow, n) && #[trigger] computes_root(*root, r) && 0 <= k < count
                ==> #[trigger] levels@[k] == rms_meter(n, r)(
                samples@.subrange(
                    first + k * WINDOW_STEP,
                    first + k * WINDOW_STEP + ENERGY_WINDOW,
                ),
            ),
{
    let mut levels: Vec<Binary32> = Vec::new();
    let total: usize = samples.len();
    let mut k: usize = 0;
    while k < count
        invariant
            is_narrow(*narrow),
            is_root(*root),
            total == samples@.len(),
            count > 0 ==> first + (count - 1) * WINDOW_STEP + ENERGY_WINDOW <= total,
            k <= count,
            levels@.len() == k,
            forall|n: NarrowFn, r: RootFn, j: int| #[trigger]
                computes_narrow(*narrow, n) && #[trigger] computes_root(*root, r) && 0 <= j < k
                    ==> #[trigger] levels@[j] == rms_meter(n, r)(
                    samples@.subrange(
                        first + j * WINDOW_STEP,
                        first + j * WINDOW_STEP + ENERGY_WINDOW,
                    ),
                ),
        decreases count - k,
    {
        assert(k * WINDOW_STEP <= (count - 1) * WINDOW_STEP) by (nonlinear_arith)
            requires
                k <= count - 1,
        ;
        let start: usize = first + k * WINDOW_STEP;
        let window = vstd::slice::slice_subrange(samples, start, start + ENERGY_WINDOW);
        levels.push(rms(window, Binary32 { bits: WINDOW_LENGTH }, narrow, root));
        k = k + 1;
    }
    levels
}

/// The chunks are those of `segment`, and each was split off as `decisions` says:
/// one decision for each chunk but one that takes a short enough rest.
pub open spec fn is_decided_split(
    segment: SegmentView,
    max_samples: nat,
    meter: spec_fn(Seq<Binary32>) -> Binary32,
    clock: spec_fn(Binary64, Binary64, int, int) -> Binary64,
    chunks: Seq<SegmentView>,
    decisions: Seq<SplitDecision>,
) -> bool {
    let total = segment.samples.len() as int;
    let cuts = cuts_from(segment.samples, max_samples, meter, 0);
    &&& chunks == split_view(segment, max_samples, meter, clock)
    &&& if total <= max_samples {
        decisions.len() == 0
    } else {
        &&& decisions.len() == chunks.len() - if total - cuts[cuts.len() - 2] <= max_samples {
            1int
        } else {
            0int
        }
        &&& forall|k: int|
            0 <= k < decisions.len() ==> (#[trigger] decisions[k]).follows_from(
                window_levels(segment.samples, cuts[k], max_samples as int, meter),
                cuts[k],
                max_samples as int,
            )
    }
}

/// The chunks and the decisions are those of `segment`, whichever functions the
/// supplied arithmetic computes.
pub open spec fn gives_decided_split<N, R, W, C>(
    segment: SegmentView,
    max_samples: nat,
    narrow: N,
    root: R,
    wide: W,
    count: C,
    chunks: Seq<SegmentView>,
    decisions: Seq<SplitDecision>,
) -> bool where
    N: Fn(Operation, Binary32, Binary32) -> Binary32,
    R: Fn(Binary32) -> Binary32,
    W: Fn(Operation, Binary64, Binary64) -> Binary64,
    C: Fn(usize) -> Binary64,
 {
    forall|n: NarrowFn, r: RootFn, w: WideFn, c: CountFn| #[trigger]
        computes_narrow(narrow, n) && #[trigger] computes_root(root, r) && #[trigger] computes_wide(
            wide,
            w,
        ) && #[trigger] computes_count(count, c) ==> is_decided_split(
            segment,
            max_samples,
            rms_meter(n, r),
            even_clock(w, c),
            chunks,
            decisions,
        )
}

/// The chunks are those of `segment`, whichever functions the supplied arithmetic
/// computes.
pub open spec fn gives_split<N, R, W, C>(
    segment: SegmentView,
    max_samples: nat,
    narrow: N,
    root: R,
    wide: W,
    count: C,
    chunks: Seq<SegmentView>,
) -> bool where
    N: Fn(Operation, Binary32, Binary32) -> Binary32,
    R: Fn(Binary32) -> Binary32,
    W: Fn(Operation, Binary64, Binary64) -> Binary64,
    C: Fn(usize) -> Binary64,
 {
    forall|n: NarrowFn, r: RootFn, w: WideFn, c: CountFn| #[trigger]
        computes_narrow(narrow, n) && #[trigger] computes_root(root, r) && #[trigger] computes_wide(
            wide,
            w,
        ) && #[trigger] computes_count(count, c) ==> chunks == split_view(
            segment,
            max_samples,
            rms_meter(n, r),
            even_clock(w, c),
        )
}

/// Cuts a long speech segment into chunks, as `split_segment_at_silence` does, and
/// tells for each chunk where it was split off and at which level.
pub fn split_with_decisions<N, R, W, C>(
    segment: &SpeechSegment,
    max_samples: usize,
    narrow: N,
    root: R,
    wide: W,
    count: C,
) -> (split: (Vec<SpeechSegment>, Vec<SplitDecision>)) where
    N: Fn(Operation, Binary32, Binary32) -> Binary32,
    R: Fn(Binary32) -> Binary32,
    W: Fn(Operation, Binary64, Binary64) -> Binary64,
    C: Fn(usize) -> Binary64,

    requires
        is_narrow(narrow),
        is_root(root),
        is_wide(wide),
        is_count(count),
    ensures
        forall|n: NarrowFn, r: RootFn, w: WideFn, c: CountFn| #[trigger]
            computes_narrow(narrow, n) && #[trigger] computes_root(root, r) && #[trigger]
            computes_wide(wide, w) && #[trigger] computes_count(count, c) ==> is_decided_split(
                segment@,
                max_samples as nat,
                rms_meter(n, r),
                even_clock(w, c),
                segment_views(split.0@),
                split.1@,
            ),
        gives_decided_split(
            segment@,
            max_samples as nat,
            narrow,
            root,
            wide,
            count,
            segment_views(split.0@),
            split.1@,
        ),
        segment.samples@.len() <= max_samples ==> segment_views(split.0@) == seq![segment@]
            && split.1@.len() == 0,
{
    let total: usize = segment.samples.len();
    let mut result: Vec<SpeechSegment> = Vec::new();
    let mut decisions: Vec<SplitDecision> = Vec::new();
    if total <= max_samples {
        result.push(segment.clone());
        assert(segment_views(result@) == seq![segment@]);
        return (result, decisions);
    }
    let ghost samples = segment.samples@;
    let ghost max = max_samples as nat;
    let start = segment.start_timestamp_ms;
    let spacing = spacing(start, segment.end_timestamp_ms, total, &wide, &count);
    let mut pos: usize = 0;
    let ghost mut bounds: Seq<int> = seq![0int];
    while pos < total
        invariant
            is_narrow(narrow),
            is_root(root),
            is_wide(wide),
            is_count(count),
            samples == segment.samples@,
            total == samples.len(),
            max == max_samples,
            total > max_samples,
            start == segment@.start,
            forall|w: WideFn, c: CountFn| #[trigger]
                computes_wide(wide, w) && #[trigger] computes_count(count, c) ==> spacing
                    == sample_spacing(w, c, start, segment@.end, total as int),
            pos <= total,
            bounds.len() == result@.len() + 1,
            bounds.last() == pos,
            bounds[0] == 0,
            forall|n: NarrowFn, r: RootFn| #[trigger]
                computes_narrow(narrow, n) && #[trigger] computes_root(root, r)
                    ==> bounds.drop_last() + cuts_from(samples, max, rms_meter(n, r), pos as int)
                    == cuts_from(samples, max, rms_meter(n, r), 0),
            forall|w: WideFn, c: CountFn, k: int| #[trigger]
                computes_wide(wide, w) && #[trigger] computes_count(count, c) && 0 <= k
                    < result@.len() ==> (#[trigger] result@[k])@ == chunk(
                    segment@,
                    max,
                    even_clock(w, c),
                    bounds[k],
                    bounds[k + 1],
                ),
            forall|n: NarrowFn, r: RootFn, k: int| #[trigger]
                computes_narrow(narrow, n) && #[trigger] computes_root(root, r) && 0 <= k
                    < decisions@.len() ==> (#[trigger] decisions@[k]).follows_from(
                    window_levels(samples, bounds[k], max_samples as int, rms_meter(n, r)),
                    bounds[k],
                    max_samples as int,
                ),
            pos < total ==> decisions@.len() == result@.len(),
            result@.len() > 0 ==> 0 <= bounds[result@.len() - 1] < total && decisions@.len()
                == result@.len() - if total - bounds[result@.len() - 1] <= max_samples {
                1int
            } else {
                0int
            },
        decreases total - pos,
    {
        let all = segment.samples.as_slice();
        let start_ms = time_of_sample(start, spacing, pos, &wide, &count);
        let (end, end_ms): (usize, Binary64) = if total - pos <= max_samples {
            (total, segment.end_timestamp_ms)
        } else {
            let (first, windows): (usize, usize) = match search_range(pos, max_samples, total) {
                Some(range) => range,
                None => (pos, 0),
            };
            let levels = measure_windows(all, first, windows, &narrow, &root);
            assert forall|n: NarrowFn, r: RootFn| #[trigger]
                computes_narrow(narrow, n) && #[trigger] computes_root(root, r) implies levels@
                == window_levels(samples, pos as int, max_samples as int, rms_meter(n, r)) by {
                assert(levels@ =~= window_levels(
                    samples,
                    pos as int,
                    max_samples as int,
                    rms_meter(n, r),
                ));
            }
            let decision = choose_split(levels.as_slice(), pos, max_samples, total);
            let end: usize = decision.chunk_end(total);
            proof {
                law_cut_bounds(levels@, pos as int, max_samples as int, total as int);
            }
            decisions.push(decision);
            (end, time_of_sample(start, spacing, end, &wide, &count))
        };
        proof {
            let done = bounds.drop_last();
            assert forall|n: NarrowFn, r: RootFn| #[trigger]
                computes_narrow(narrow, n) && #[trigger] computes_root(root, r) implies bounds
                + cuts_from(samples, max, rms_meter(n, r), end as int) == cuts_from(
                samples,
                max,
                rms_meter(n, r),
                0,
            ) by {
                let rest = cuts_from(samples, max, rms_meter(n, r), pos as int);
                let after = cuts_from(samples, max, rms_meter(n, r), end as int);
                assert(rest == seq![pos as int] + after);
                assert(done + rest == bounds + after);
            }
            bounds = bounds.push(end as int);
            assert(bounds.drop_last().push(end as int) == bounds);
        }
        result.push(
            SpeechSegment {
                samples: copy_of(vstd::slice::slice_subrange(all, pos, end)),
                start_timestamp_ms: start_ms,
                end_timestamp_ms: end_ms,
                confidence: segment.confidence,
            },
        );
        pos = end;
    }
    proof {
        assert forall|n: NarrowFn, r: RootFn, w: WideFn, c: CountFn| #[trigger]
            computes_narrow(narrow, n) && #[trigger] computes_root(root, r) && #[trigger]
            computes_wide(wide, w) && #[trigger] computes_count(
            count,
            c,
        ) implies is_decided_split(
            segment@,
            max,
            rms_meter(n, r),
            even_clock(w, c),
            segment_views(result@),
            decisions@,
        ) by {
            let cuts = cuts_from(samples, max, rms_meter(n, r), 0);
            assert(cuts_from(samples, max, rms_meter(n, r), pos as int) == seq![total as int]);
            assert(bounds =~= cuts);
            assert(segment_views(result@) =~= split_view(
                segment@,
                max,
                rms_meter(n, r),
                even_clock(w, c),
            ));
        }
    }
    (result, decisions)
}

/// Cuts a long speech segment into chunks of about `max_samples` samples, each
/// at the quietest point near the target size.
///
/// Windows of 100 ms are measured within three seconds of each target point,
/// and the chunk ends in the middle of the quietest one. Where even that one is
/// not silent the chunk runs on for another second, so that no word is lost at
/// the boundary; the next chunk begins where it ends. A segment of at most
/// `max_samples` samples is returned as it is.
///
/// The level of a window is the root of the mean of the squares of its samples.
/// Chunks get the times of their first sample and of the sample behind their
/// last one, where the samples lie evenly between the segment's start and end.
/// The caller supplies the arithmetic: operations on binary32 and on binary64
/// values, the square root of a binary32 value, and the binary64 value of a count.
pub fn split_segment_at_silence<N, R, W, C>(
    segment: &SpeechSegment,
    max_samples: usize,
    narrow: N,
    root: R,
    wide: W,
    count: C,
) -> (chunks: Vec<SpeechSegment>) where
    N: Fn(Operation, Binary32, Binary32) -> Binary32,
    R: Fn(Binary32) -> Binary32,
    W: Fn(Operation, Binary64, Binary64) -> Binary64,
    C: Fn(usize) -> Binary64,

    requires
        is_narrow(narrow),
        is_root(root),
        is_wide(wide),
        is_count(count),
    ensures
        forall|n: NarrowFn, r: RootFn, w: WideFn, c: CountFn| #[trigger]
            computes_narrow(narrow, n) && #[trigger] computes_root(root, r) && #[trigger]
            computes_wide(wide, w) && #[trigger] computes_count(count, c) ==> segment_views(
                chunks@,
            ) == split_view(segment@, max_samples as nat, rms_meter(n, r), even_clock(w, c)),
        gives_split(
            segment@,
            max_samples as nat,
            narrow,
            root,
            wide,
            count,
            segment_views(chunks@),
        ),
        segment.samples@.len() <= max_samples ==> segment_views(chunks@) == seq![segment@],
{
    split_with_decisions(segment, max_samples, narrow, root, wide, count).0
}

} // verus!
