//! What holds of the chunks that a speech segment is cut into.

use crate::binary::{Binary32, Binary64};
use crate::segment::{audio, SegmentView, SAMPLE_RATE};
use crate::split::{
    cuts_from, is_quietest, largest_level, law_cut_bounds, law_quietest_is_unique,
    lemma_no_window_is_loud, next_cut, quietest, runs_on, silence_threshold, split_radius, split_view, window_count,
    window_levels, window_start, ENERGY_WINDOW, FALLBACK_OVERLAP,
};
use vstd::prelude::*;

verus! {

/// The window is silent: its level is a number not above the threshold.
pub open spec fn is_silent(level: Binary32) -> bool {
    !level.is_nan() && !silence_threshold().below(level)
}

/// Where a chunk that starts at `from` and takes less than the whole rest ends.
pub open spec fn cut_after(
    samples: Seq<Binary32>,
    max_samples: nat,
    meter: spec_fn(Seq<Binary32>) -> Binary32,
    from: int,
) -> int {
    next_cut(
        window_levels(samples, from, max_samples as int, meter),
        from,
        max_samples as int,
        samples.len() as int,
    )
}

/// Cut number `k` is followed by a later one, which it determines: the end of
/// the segment where the rest is short enough, else the end of the next chunk.
pub open spec fn cut_follows(
    samples: Seq<Binary32>,
    max_samples: nat,
    meter: spec_fn(Seq<Binary32>) -> Binary32,
    cuts: Seq<int>,
    k: int,
) -> bool {
    let total = samples.len() as int;
    &&& 0 <= cuts[k] < cuts[k + 1] <= total
    &&& cuts[k + 1] == if total - cuts[k] <= max_samples {
        total
    } else {
        cut_after(samples, max_samples, meter, cuts[k])
    }
}

/// The cuts run from `pos` to the end of the segment without standing still, and
/// each is determined by the one before it.
pub(crate) proof fn lemma_cuts(
    samples: Seq<Binary32>,
    max_samples: nat,
    meter: spec_fn(Seq<Binary32>) -> Binary32,
    pos: int,
)
    requires
        0 <= pos < samples.len(),
    ensures
        ({
            let cuts = cuts_from(samples, max_samples, meter, pos);
            &&& cuts.len() >= 2
            &&& cuts[0] == pos
            &&& cuts.last() == samples.len()
            &&& forall|k: int|
                0 <= k < cuts.len() - 1 ==> #[trigger] cut_follows(
                    samples,
                    max_samples,
                    meter,
                    cuts,
                    k,
                )
        }),
    decreases samples.len() - pos,
{
    let total = samples.len() as int;
    let cuts = cuts_from(samples, max_samples, meter, pos);
    if total - pos > max_samples {
        let levels = window_levels(samples, pos, max_samples as int, meter);
        let cut = next_cut(levels, pos, max_samples as int, total);
        law_cut_bounds(levels, pos, max_samples as int, total);
        let rest = cuts_from(samples, max_samples, meter, cut);
        assert(cuts == seq![pos] + rest);
        if cut < total {
            lemma_cuts(samples, max_samples, meter, cut);
        }
        assert forall|k: int| 0 <= k < cuts.len() - 1 implies #[trigger] cut_follows(
            samples,
            max_samples,
            meter,
            cuts,
            k,
        ) by {
            assert(cuts[k + 1] == rest[k]);
            if k > 0 {
                assert(cuts[k] == rest[k - 1]);
                assert(cut_follows(samples, max_samples, meter, rest, k - 1));
            }
        }
    }
}

/// Cutting a segment loses no audio, repeats none and keeps its order: the
/// chunks' audio, one after the other, is the audio of the segment.
pub proof fn law_split_keeps_audio(
    segment: SegmentView,
    max_samples: nat,
    meter: spec_fn(Seq<Binary32>) -> Binary32,
    clock: spec_fn(Binary64, Binary64, int, int) -> Binary64,
)
    ensures
        audio(split_view(segment, max_samples, meter, clock)) == segment.samples,
{
    let chunks = split_view(segment, max_samples, meter, clock);
    if segment.samples.len() <= max_samples {
        assert(chunks.drop_last() == Seq::<SegmentView>::empty());
        assert(audio(chunks.drop_last()) == Seq::<Binary32>::empty());
        assert(audio(chunks) == segment.samples);
    } else {
        let cuts = cuts_from(segment.samples, max_samples, meter, 0);
        lemma_cuts(segment.samples, max_samples, meter, 0);
        assert forall|k: int| 0 <= k < chunks.len() implies is_stretch(
            segment.samples,
            cuts,
            #[trigger] chunks[k],
            k,
        ) by {
            assert(cut_follows(segment.samples, max_samples, meter, cuts, k));
        }
        lemma_stretches_join(segment.samples, cuts, chunks, chunks.len());
        assert(chunks.take(chunks.len() as int) == chunks);
        assert(segment.samples.take(segment.samples.len() as int) == segment.samples);
    }
}

/// `part` holds the audio between cut number `k` and the next one.
spec fn is_stretch(samples: Seq<Binary32>, cuts: Seq<int>, part: SegmentView, k: int) -> bool {
    &&& 0 <= cuts[k] <= cuts[k + 1] <= samples.len()
    &&& part.samples == samples.subrange(cuts[k], cuts[k + 1])
}

/// The first `count` stretches hold the audio up to cut number `count`.
proof fn lemma_stretches_join(
    samples: Seq<Binary32>,
    cuts: Seq<int>,
    parts: Seq<SegmentView>,
    count: nat,
)
    requires
        cuts.len() == parts.len() + 1,
        cuts[0] == 0,
        count <= parts.len(),
        forall|k: int| 0 <= k < parts.len() ==> is_stretch(samples, cuts, #[trigger] parts[k], k),
    ensures
        audio(parts.take(count as int)) == samples.take(cuts[count as int]),
    decreases count,
{
    if count > 0 {
        let last = count - 1;
        lemma_stretches_join(samples, cuts, parts, last as nat);
        assert(is_stretch(samples, cuts, parts[last], last));
        assert(parts.take(count as int).drop_last() == parts.take(last));
        assert(samples.take(cuts[last]) + samples.subrange(cuts[last], cuts[last + 1])
            == samples.take(cuts[last + 1]));
    } else {
        assert(samples.take(0) == Seq::<Binary32>::empty());
    }
}

/// A segment of at most `max_samples` samples passes unchanged.
pub proof fn law_short_segment_passes_unchanged(
    segment: SegmentView,
    max_samples: nat,
    meter: spec_fn(Seq<Binary32>) -> Binary32,
    clock: spec_fn(Binary64, Binary64, int, int) -> Binary64,
)
    requires
        segment.samples.len() <= max_samples,
    ensures
        split_view(segment, max_samples, meter, clock) == seq![segment],
{
}

/// The bounds on the size of a chunk: never empty, never above the wanted size by
/// more than the split radius and one second, and, unless it is the last one, at
/// least one second and at least the wanted size less the split radius.
pub open spec fn size_in_bounds(size: nat, max_samples: nat, is_last: bool) -> bool {
    &&& 0 < size <= max_samples + split_radius() + FALLBACK_OVERLAP
    &&& is_last || size >= SAMPLE_RATE
    &&& is_last || size >= max_samples - split_radius()
}

/// The chunks of a segment that is cut keep to the bounds on their size.
pub proof fn law_split_chunk_sizes(
    segment: SegmentView,
    max_samples: nat,
    meter: spec_fn(Seq<Binary32>) -> Binary32,
    clock: spec_fn(Binary64, Binary64, int, int) -> Binary64,
)
    requires
        segment.samples.len() > max_samples,
    ensures
        ({
            let chunks = split_view(segment, max_samples, meter, clock);
            &&& chunks.len() > 0
            &&& forall|k: int|
                0 <= k < chunks.len() ==> size_in_bounds(
                    (#[trigger] chunks[k]).samples.len(),
                    max_samples,
                    k == chunks.len() - 1,
                )
        }),
{
    let chunks = split_view(segment, max_samples, meter, clock);
    let cuts = cuts_from(segment.samples, max_samples, meter, 0);
    let total = segment.samples.len() as int;
    lemma_cuts(segment.samples, max_samples, meter, 0);
    assert forall|k: int| 0 <= k < chunks.len() implies size_in_bounds(
        (#[trigger] chunks[k]).samples.len(),
        max_samples,
        k == chunks.len() - 1,
    ) by {
        assert(cut_follows(segment.samples, max_samples, meter, cuts, k));
        if k < chunks.len() - 1 {
            assert(cut_follows(segment.samples, max_samples, meter, cuts, k + 1));
        }
        if total - cuts[k] > max_samples {
            let levels = window_levels(segment.samples, cuts[k], max_samples as int, meter);
            law_cut_bounds(levels, cuts[k], max_samples as int, total);
        }
    }
}

/// Each chunk begins at the time at which the one before it ends. The first one
/// begins at the time of the first sample, and the last one ends when the
/// segment ends or at the time of the sample behind the last one.
pub proof fn law_split_times_join(
    segment: SegmentView,
    max_samples: nat,
    meter: spec_fn(Seq<Binary32>) -> Binary32,
    clock: spec_fn(Binary64, Binary64, int, int) -> Binary64,
)
    requires
        segment.samples.len() > max_samples,
    ensures
        ({
            let chunks = split_view(segment, max_samples, meter, clock);
            let total = segment.samples.len() as int;
            &&& chunks.len() > 0
            &&& chunks[0].start == clock(segment.start, segment.end, total, 0)
            &&& chunks.last().end == segment.end || chunks.last().end == clock(
                segment.start,
                segment.end,
                total,
                total,
            )
            &&& forall|k: int|
                0 <= k < chunks.len() - 1 ==> (#[trigger] chunks[k]).end == chunks[k + 1].start
        }),
{
    let chunks = split_view(segment, max_samples, meter, clock);
    let cuts = cuts_from(segment.samples, max_samples, meter, 0);
    lemma_cuts(segment.samples, max_samples, meter, 0);
    assert forall|k: int| 0 <= k < chunks.len() - 1 implies (#[trigger] chunks[k]).end == chunks[k
        + 1].start by {
        assert(cut_follows(segment.samples, max_samples, meter, cuts, k));
        assert(cut_follows(segment.samples, max_samples, meter, cuts, k + 1));
    }
}

/// Every chunk has the confidence of the segment it comes from.
pub proof fn law_split_keeps_confidence(
    segment: SegmentView,
    max_samples: nat,
    meter: spec_fn(Seq<Binary32>) -> Binary32,
    clock: spec_fn(Binary64, Binary64, int, int) -> Binary64,
)
    ensures
        forall|k: int|
            0 <= k < split_view(segment, max_samples, meter, clock).len() ==> (#[trigger] split_view(
                segment,
                max_samples,
                meter,
                clock,
            )[k]).confidence == segment.confidence,
{
}

/// Where some level is below the largest finite one, one of them is the first of
/// the quietest.
pub(crate) proof fn lemma_quietest_exists(levels: Seq<Binary32>, witness: int)
    requires
        0 <= witness < levels.len(),
        levels[witness].below(largest_level()),
    ensures
        exists|k: int| is_quietest(levels, k),
    decreases levels.len(),
{
    let rest = levels.drop_last();
    let last = levels.len() - 1;
    if exists|k: int| is_quietest(rest, k) {
        let k = choose|k: int| is_quietest(rest, k);
        if levels[last].below(levels[k]) {
            assert forall|j: int| 0 <= j < last implies (#[trigger] levels[j]).is_nan()
                || levels[last].below(levels[j]) by {
                assert(!rest[j].below(rest[k]));
            }
            assert forall|j: int| 0 <= j < levels.len() implies !(#[trigger] levels[j]).below(
                levels[last],
            ) by {
                if j < last {
                    assert(rest[j] == levels[j]);
                }
            }
            assert(is_quietest(levels, last));
        } else {
            assert forall|j: int| 0 <= j < levels.len() implies !(#[trigger] levels[j]).below(
                levels[k],
            ) by {
                if j < last {
                    assert(!rest[j].below(rest[k]));
                }
            }
            assert forall|j: int| 0 <= j < k implies (#[trigger] levels[j]).is_nan()
                || levels[k].below(levels[j]) by {
                assert(rest[j].is_nan() || rest[k].below(rest[j]));
            }
            assert(is_quietest(levels, k));
        }
    } else {
        assert forall|j: int| 0 <= j < rest.len() implies !rest[j].below(largest_level()) by {
            if rest[j].below(largest_level()) {
                lemma_quietest_exists(rest, j);
            }
        }
        assert(witness == last) by {
            if witness < last {
                assert(!rest[witness].below(largest_level()));
            }
        }
        assert forall|j: int| 0 <= j < last implies (#[trigger] levels[j]).is_nan()
            || levels[last].below(levels[j]) by {
            assert(!rest[j].below(largest_level()));
        }
        assert forall|j: int| 0 <= j < levels.len() implies !(#[trigger] levels[j]).below(
            levels[last],
        ) by {
            if j < last {
                assert(!rest[j].below(largest_level()));
            }
        }
        assert(is_quietest(levels, last));
    }
}

/// Where any window near the target point is silent, the chunk ends in the
/// middle of a silent one, and of all windows there none is quieter.
pub proof fn law_chunk_ends_in_silence(
    levels: Seq<Binary32>,
    pos: int,
    max_samples: int,
    total: int,
    silent: int,
)
    requires
        0 <= silent < levels.len(),
        is_silent(levels[silent]),
    ensures
        ({
            let k = quietest(levels)->0;
            &&& quietest(levels) is Some
            &&& is_quietest(levels, k)
            &&& is_silent(levels[k])
            &&& next_cut(levels, pos, max_samples, total) == window_start(pos, max_samples, k)
                + ENERGY_WINDOW as int / 2
        }),
{
    lemma_no_window_is_loud();
    lemma_quietest_exists(levels, silent);
    let k = choose|k: int| is_quietest(levels, k);
    law_quietest_is_unique(levels, k);
    assert(!levels[silent].below(levels[k]));
}

/// Where no window near the target point is silent, the chunk runs on for one
/// second behind a split point that lies within the split radius of the target
/// point, or to the end of the segment where that comes first.
pub proof fn law_chunk_runs_on_without_silence(
    levels: Seq<Binary32>,
    pos: int,
    max_samples: int,
    total: int,
)
    requires
        0 <= pos,
        0 <= max_samples < total - pos,
        levels.len() == window_count(pos, max_samples, total),
        forall|j: int| 0 <= j < levels.len() ==> !is_silent(#[trigger] levels[j]),
    ensures
        exists|split: int|
            pos + max_samples - split_radius() <= split <= pos + max_samples + split_radius()
                && #[trigger] runs_on(split, total) == next_cut(levels, pos, max_samples, total),
{
    lemma_no_window_is_loud();
    match quietest(levels) {
        Some(k) => {
            assert(is_quietest(levels, k));
            assert(!is_silent(levels[k]));
            let split = window_start(pos, max_samples, k) + ENERGY_WINDOW as int / 2;
            assert(runs_on(split, total) == next_cut(levels, pos, max_samples, total));
        },
        None => {
            assert(runs_on(pos + max_samples, total) == next_cut(levels, pos, max_samples, total));
        },
    }
}

/// Where the search for a quiet window stands in a segment makes no difference:
/// without its first `skipped` samples, a segment is cut at the same points.
proof fn lemma_cuts_of_rest(
    samples: Seq<Binary32>,
    max_samples: nat,
    meter: spec_fn(Seq<Binary32>) -> Binary32,
    skipped: int,
    pos: int,
)
    requires
        0 <= skipped,
        0 <= pos,
        skipped + pos <= samples.len(),
    ensures
        ({
            let of_rest = cuts_from(samples.skip(skipped), max_samples, meter, pos);
            let of_whole = cuts_from(samples, max_samples, meter, pos + skipped);
            &&& of_rest.len() == of_whole.len()
            &&& forall|k: int|
                0 <= k < of_rest.len() ==> (#[trigger] of_rest[k]) + skipped == of_whole[k]
        }),
    decreases samples.len() - skipped - pos,
{
    let rest = samples.skip(skipped);
    let total = samples.len() as int;
    let max = max_samples as int;
    if total - skipped - pos > max {
        let here = window_levels(rest, pos, max, meter);
        let there = window_levels(samples, pos + skipped, max, meter);
        assert(window_count(pos, max, rest.len() as int) == window_count(
            pos + skipped,
            max,
            total,
        ));
        assert forall|k: int| 0 <= k < here.len() implies here[k] == there[k] by {
            let start = window_start(pos, max, k);
            assert(rest.subrange(start, start + ENERGY_WINDOW) == samples.subrange(
                start + skipped,
                start + skipped + ENERGY_WINDOW,
            ));
        }
        assert(here == there);
        law_cut_bounds(here, pos, max, rest.len() as int);
        let cut = next_cut(here, pos, max, rest.len() as int);
        assert(cut + skipped == next_cut(there, pos + skipped, max, total));
        lemma_cuts_of_rest(samples, max_samples, meter, skipped, cut);
        let of_rest = cuts_from(rest, max_samples, meter, pos);
        let of_whole = cuts_from(samples, max_samples, meter, pos + skipped);
        let later_of_rest = cuts_from(rest, max_samples, meter, cut);
        let later_of_whole = cuts_from(samples, max_samples, meter, cut + skipped);
        assert(of_rest == seq![pos] + later_of_rest);
        assert(of_whole == seq![pos + skipped] + later_of_whole);
        assert forall|k: int| 0 <= k < of_rest.len() implies (#[trigger] of_rest[k]) + skipped
            == of_whole[k] by {
            if k > 0 {
                assert(of_rest[k] == later_of_rest[k - 1]);
                assert(of_whole[k] == later_of_whole[k - 1]);
            }
        }
    }
}

/// Cutting the rest behind the first chunk gives the later chunks: as many, with
/// the same audio and confidence. (Their times are the clock's, which counts from
/// the start of the segment that is cut.)
pub proof fn law_split_of_rest(
    segment: SegmentView,
    rest: SegmentView,
    max_samples: nat,
    meter: spec_fn(Seq<Binary32>) -> Binary32,
    clock: spec_fn(Binary64, Binary64, int, int) -> Binary64,
    clock_of_rest: spec_fn(Binary64, Binary64, int, int) -> Binary64,
)
    requires
        segment.samples.len() > max_samples,
        ({
            let first = split_view(segment, max_samples, meter, clock)[0].samples.len() as int;
            &&& first < segment.samples.len()
            &&& rest.samples == segment.samples.skip(first)
        }),
        rest.confidence == segment.confidence,
    ensures
        ({
            let chunks = split_view(segment, max_samples, meter, clock);
            let later = split_view(rest, max_samples, meter, clock_of_rest);
            &&& chunks.len() == later.len() + 1
            &&& forall|k: int|
                0 <= k < later.len() ==> {
                    &&& (#[trigger] later[k]).samples == chunks[k + 1].samples
                    &&& later[k].confidence == chunks[k + 1].confidence
                }
        }),
{
    let samples = segment.samples;
    let total = samples.len() as int;
    let chunks = split_view(segment, max_samples, meter, clock);
    let later = split_view(rest, max_samples, meter, clock_of_rest);
    let cuts = cuts_from(samples, max_samples, meter, 0);
    lemma_cuts(samples, max_samples, meter, 0);
    assert(cut_follows(samples, max_samples, meter, cuts, 0));
    let first = cuts[1];
    assert(chunks[0].samples.len() == first);
    let behind = cuts_from(samples, max_samples, meter, first);
    assert(cuts == seq![0int] + behind);
    lemma_cuts(rest.samples, max_samples, meter, 0);
    lemma_cuts_of_rest(samples, max_samples, meter, first, 0);
    let cuts_of_rest = cuts_from(rest.samples, max_samples, meter, 0);
    assert(later.len() == cuts_of_rest.len() - 1);
    assert forall|k: int| 0 <= k < later.len() implies {
        &&& (#[trigger] later[k]).samples == chunks[k + 1].samples
        &&& later[k].confidence == chunks[k + 1].confidence
    } by {
        assert(cut_follows(rest.samples, max_samples, meter, cuts_of_rest, k));
        assert(cuts[k + 1] == behind[k] && cuts[k + 2] == behind[k + 1]);
        assert(cuts_of_rest[k] + first == behind[k]);
        assert(cuts_of_rest[k + 1] + first == behind[k + 1]);
        assert(samples.skip(first).subrange(cuts_of_rest[k], cuts_of_rest[k + 1])
            == samples.subrange(behind[k], behind[k + 1]));
        if rest.samples.len() <= max_samples {
            assert(rest.samples.subrange(0, rest.samples.len() as int) == rest.samples);
        }
    }
}

} // verus!
