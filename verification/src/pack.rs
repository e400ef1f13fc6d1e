//! Packing consecutive speech segments into full transcription requests.

use crate::binary::Binary32;
use crate::segment::{audio, segment_views, SegmentView, SpeechSegment};
use vstd::prelude::*;

verus! {

/// The audio of the segments from number `from` up to number `to` fits into
/// `target_samples` samples.
pub open spec fn fits(
    segments: Seq<SegmentView>,
    target_samples: nat,
    from: int,
    to: int,
) -> bool {
    audio(segments.subrange(from, to)).len() <= target_samples
}

/// Where the group ends that starts at number `from` and has been found to reach
/// up to number `to`: it grows as long as its audio fits.
pub open spec fn group_end(
    segments: Seq<SegmentView>,
    target_samples: nat,
    from: int,
    to: int,
) -> int
    decreases segments.len() - to,
{
    if to < segments.len() && fits(segments, target_samples, from, to + 1) {
        group_end(segments, target_samples, from, to + 1)
    } else {
        to
    }
}

/// Groups do not shrink while they grow.
pub proof fn lemma_group_end_bounds(
    segments: Seq<SegmentView>,
    target_samples: nat,
    from: int,
    to: int,
)
    requires
        to <= segments.len(),
    ensures
        to <= group_end(segments, target_samples, from, to) <= segments.len(),
    decreases segments.len() - to,
{
    if to < segments.len() && fits(segments, target_samples, from, to + 1) {
        lemma_group_end_bounds(segments, target_samples, from, to + 1);
    }
}

/// The numbers at which the groups begin that the segments from number `from` on
/// are packed into, followed by the number of segments. A group holds one
/// segment at least.
pub open spec fn groups_from(segments: Seq<SegmentView>, target_samples: nat, from: int) -> Seq<int>
    decreases segments.len() - from,
{
    if from >= segments.len() {
        seq![segments.len() as int]
    } else {
        let end = group_end(segments, target_samples, from, from + 1);
        proof {
            lemma_group_end_bounds(segments, target_samples, from, from + 1);
        }
        seq![from] + groups_from(segments, target_samples, end)
    }
}

/// The lowest confidence in `group`.
pub open spec fn weakest(group: Seq<SegmentView>) -> Binary32
    recommends
        group.len() > 0,
    decreases group.len(),
{
    if group.len() <= 1 {
        group[0].confidence
    } else {
        weakest(group.drop_last()).lesser(group.last().confidence)
    }
}

/// The segments of `group` in one: their audio one after the other, from the
/// start of the first to the end of the last, with the lowest confidence.
pub open spec fn packed_group(group: Seq<SegmentView>) -> SegmentView
    recommends
        group.len() > 0,
{
    SegmentView {
        samples: audio(group),
        start: group.first().start,
        end: group.last().end,
        confidence: weakest(group),
    }
}

/// The packed segments: one for each group.
pub open spec fn pack_view(segments: Seq<SegmentView>, target_samples: nat) -> Seq<SegmentView> {
    let cuts = groups_from(segments, target_samples, 0);
    Seq::new(
        (cuts.len() - 1) as nat,
        |k: int| packed_group(segments.subrange(cuts[k], cuts[k + 1])),
    )
}

/// A group of one is that segment.
pub proof fn lemma_single_group(segment: SegmentView)
    ensures
        packed_group(seq![segment]) == segment,
{
    let group = seq![segment];
    assert(group.drop_last() == Seq::<SegmentView>::empty());
    assert(audio(group.drop_last()) == Seq::<Binary32>::empty());
    assert(audio(group) == segment.samples);
}

/// The groups from a number on begin at that number.
proof fn lemma_first_group(segments: Seq<SegmentView>, target_samples: nat, from: int)
    requires
        0 <= from <= segments.len(),
    ensures
        groups_from(segments, target_samples, from).len() > 0,
        groups_from(segments, target_samples, from)[0] == from,
{
}

/// Packs consecutive speech segments into requests of up to `target_samples`
/// samples.
///
/// A request much shorter than the transcription model's window gives the model
/// little to go by, and it then makes text up. So segments are joined, in order,
/// as long as their audio fits. Only whole segments are joined: no boundary
/// arises that was not there, and a segment that is longer than the target
/// passes untouched. The silence between joined segments is dropped, so a packed
/// segment spans more time than it holds audio.
pub fn pack_segments_to_target(segments: &[SpeechSegment], target_samples: usize) -> (packed: Vec<
    SpeechSegment,
>)
    ensures
        segment_views(packed@) == pack_view(segment_views(segments@), target_samples as nat),
{
    let ghost views = segment_views(segments@);
    let ghost target = target_samples as nat;
    let ghost cuts = groups_from(views, target, 0);
    let mut packed: Vec<SpeechSegment> = Vec::new();
    if segments.len() == 0 {
        return packed;
    }
    let mut current: SpeechSegment = segments[0].clone();
    let mut next: usize = 1;
    let ghost mut from: int = 0;
    let ghost mut done: Seq<int> = Seq::empty();
    proof {
        assert(views.subrange(0, 1) == seq![views[0]]);
        lemma_single_group(views[0]);
    }
    while next < segments.len()
        invariant
            views == segment_views(segments@),
            target == target_samples,
            cuts == groups_from(views, target, 0),
            0 <= from < next <= segments@.len(),
            current@ == packed_group(views.subrange(from, next as int)),
            group_end(views, target, from, next as int) == group_end(
                views,
                target,
                from,
                from + 1,
            ),
            done + groups_from(views, target, from) == cuts,
            packed@.len() == done.len(),
            forall|k: int|
                0 <= k < packed@.len() ==> (#[trigger] packed@[k])@ == packed_group(
                    views.subrange(cuts[k], cuts[k + 1]),
                ),
        decreases segments@.len() - next,
    {
        let segment = &segments[next];
        let ghost group = views.subrange(from, next as int);
        let ghost grown = views.subrange(from, next + 1);
        proof {
            assert(grown.drop_last() == group);
            assert(grown.last() == segment@);
        }
        let held: usize = current.samples.len();
        let more: usize = segment.samples.len();
        if held <= target_samples && more <= target_samples - held {
            let mut samples = current.samples;
            samples.extend_from_slice(segment.samples.as_slice());
            current =
            SpeechSegment {
                samples,
                start_timestamp_ms: current.start_timestamp_ms,
                end_timestamp_ms: segment.end_timestamp_ms,
                confidence: current.confidence.min(segment.confidence),
            };
        } else {
            proof {
                lemma_first_group(views, target, from);
                lemma_first_group(views, target, next as int);
                let rest = groups_from(views, target, from);
                let after = groups_from(views, target, next as int);
                assert(rest == seq![from] + after);
                assert(cuts[done.len() as int] == rest[0]);
                assert(cuts[done.len() as int + 1] == rest[1]);
                done = done.push(from);
                assert(done + after == cuts);
                from = next as int;
                assert(grown.len() > 0);
                assert(views.subrange(from, from + 1) == seq![views[from]]);
                lemma_single_group(views[from]);
            }
            packed.push(current);
            current = segment.clone();
        }
        next = next + 1;
    }
    proof {
        let rest = groups_from(views, target, from);
        assert(groups_from(views, target, next as int) == seq![next as int]);
        assert(rest == seq![from] + seq![next as int]);
        assert(cuts[done.len() as int] == rest[0]);
        assert(cuts[done.len() as int + 1] == rest[1]);
    }
    packed.push(current);
    packed
}

} // verus!
