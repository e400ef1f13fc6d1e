//! What a caller of the packing function gets, told from the segments alone.

use crate::binary::Binary32;
use crate::order_laws::{law_order_told_from_patterns, no_number, precedes};
use crate::pack::{groups_from, pack_segments_to_target, pack_view, weakest};
use crate::pack_laws::{
    is_run, law_pack_count, law_pack_fills_requests, law_pack_keeps_audio,
    law_pack_keeps_boundaries, law_weakest_confidence, lemma_group_fits,
};
use crate::segment::{audio, segment_views, SpeechSegment};
use vstd::prelude::*;

verus! {

/// The samples of `segments`, one after the other.
pub open spec fn audio_of(segments: Seq<SpeechSegment>) -> Seq<Binary32> {
    segments.map_values(|segment: SpeechSegment| segment.samples@).flatten()
}

/// `confidence` is the lowest of all: that of one of the segments, preceded by none,
/// and a number if any is.
pub open spec fn is_lowest_confidence(segments: Seq<SpeechSegment>, confidence: Binary32) -> bool {
    &&& exists|i: int| 0 <= i < segments.len() && #[trigger] segments[i].confidence == confidence
    &&& forall|i: int|
        0 <= i < segments.len() ==> !precedes(
            (#[trigger] segments[i]).confidence.bits,
            confidence.bits,
        )
    &&& forall|i: int|
        0 <= i < segments.len() && no_number(confidence.bits) ==> no_number(
            (#[trigger] segments[i]).confidence.bits,
        )
}

/// `request` is made of the segments from number `from` up to number `to`: all of
/// their audio and nothing else, from the start of the first to the end of the last,
/// with the lowest confidence. It is of one segment or within the target, and the
/// segment behind it would have been too much.
pub open spec fn is_request(
    segments: Seq<SpeechSegment>,
    target_samples: int,
    request: SpeechSegment,
    from: int,
    to: int,
) -> bool {
    &&& 0 <= from < to <= segments.len()
    &&& request.samples@ == audio_of(segments.subrange(from, to))
    &&& request.start_timestamp_ms == segments[from].start_timestamp_ms
    &&& request.end_timestamp_ms == segments[to - 1].end_timestamp_ms
    &&& is_lowest_confidence(segments.subrange(from, to), request.confidence)
    &&& to == from + 1 || request.samples@.len() <= target_samples
    &&& to == segments.len() || request.samples@.len() + segments[to].samples@.len()
        > target_samples
}

/// `requests` are made of the segments between the numbers `bounds`, from the first
/// segment to the last without a gap.
pub open spec fn are_requests(
    segments: Seq<SpeechSegment>,
    target_samples: int,
    requests: Seq<SpeechSegment>,
    bounds: Seq<int>,
) -> bool {
    &&& bounds.len() == requests.len() + 1
    &&& bounds[0] == 0
    &&& bounds.last() == segments.len()
    &&& forall|k: int|
        0 <= k < requests.len() ==> is_request(
            segments,
            target_samples,
            #[trigger] requests[k],
            bounds[k],
            bounds[k + 1],
        )
}

/// The audio of segments is the audio of what they hold.
proof fn lemma_audio_of(segments: Seq<SpeechSegment>)
    ensures
        audio(segment_views(segments)) == audio_of(segments),
    decreases segments.len(),
{
    let parts = segments.map_values(|segment: SpeechSegment| segment.samples@);
    parts.lemma_flatten_and_flatten_alt_are_equivalent();
    if segments.len() > 0 {
        let rest = segments.drop_last();
        lemma_audio_of(rest);
        let rest_parts = rest.map_values(|segment: SpeechSegment| segment.samples@);
        rest_parts.lemma_flatten_and_flatten_alt_are_equivalent();
        assert(parts.drop_last() == rest_parts);
        assert(segment_views(segments).drop_last() == segment_views(rest));
    }
}

/// The weakest of what segments hold is their lowest confidence.
proof fn lemma_lowest_confidence(segments: Seq<SpeechSegment>)
    requires
        segments.len() > 0,
    ensures
        is_lowest_confidence(segments, weakest(segment_views(segments))),
{
    let views = segment_views(segments);
    let lowest = weakest(views);
    law_weakest_confidence(views);
    let i = choose|i: int| 0 <= i < views.len() && #[trigger] views[i].confidence == lowest;
    assert(segments[i].confidence == lowest);
    assert forall|i: int| 0 <= i < segments.len() implies {
        &&& !precedes((#[trigger] segments[i]).confidence.bits, lowest.bits)
        &&& no_number(lowest.bits) ==> no_number(segments[i].confidence.bits)
    } by {
        assert(views[i].confidence == segments[i].confidence);
        assert(!views[i].confidence.below(lowest));
        law_order_told_from_patterns(segments[i].confidence, lowest);
        law_order_told_from_patterns(lowest, segments[i].confidence);
    }
}

/// Packing makes requests of whole segments, in order and without a gap, each as full
/// as can be.
pub proof fn law_packed_segments_are_requests(
    segments: &[SpeechSegment],
    target_samples: usize,
    packed: Vec<SpeechSegment>,
) -> (bounds: Seq<int>)
    requires
        call_ensures(pack_segments_to_target, (segments, target_samples), packed),
    ensures
        are_requests(segments@, target_samples as int, packed@, bounds),
{
    let views = segment_views(segments@);
    let target = target_samples as nat;
    let bounds = groups_from(views, target, 0);
    let requests = pack_view(views, target);
    assert(segment_views(packed@) == requests);
    law_pack_keeps_boundaries(views, target);
    assert(packed@.len() == requests.len());
    assert forall|k: int| 0 <= k < packed@.len() implies is_request(
        segments@,
        target_samples as int,
        #[trigger] packed@[k],
        bounds[k],
        bounds[k + 1],
    ) by {
        let request = packed@[k];
        let (from, to) = (bounds[k], bounds[k + 1]);
        assert(segment_views(packed@)[k] == request@);
        assert(requests[k] == request@);
        assert(is_run(views, bounds, requests[k], k));
        lemma_group_fits(views, target, k);
        let group = segments@.subrange(from, to);
        assert(segment_views(group) == views.subrange(from, to));
        lemma_audio_of(group);
        lemma_lowest_confidence(group);
        if to < segments@.len() {
            assert(k < packed@.len() - 1);
            law_pack_fills_requests(views, target, k);
        }
    }
    bounds
}

/// Packing keeps all audio, in order, and makes no request of nothing.
pub proof fn law_packing_keeps_all_audio(
    segments: &[SpeechSegment],
    target_samples: usize,
    packed: Vec<SpeechSegment>,
)
    requires
        call_ensures(pack_segments_to_target, (segments, target_samples), packed),
    ensures
        audio_of(packed@) == audio_of(segments@),
        packed@.len() <= segments@.len(),
        packed@.len() == 0 <==> segments@.len() == 0,
{
    let views = segment_views(segments@);
    law_pack_keeps_audio(views, target_samples as nat);
    law_pack_count(views, target_samples as nat);
    lemma_audio_of(segments@);
    lemma_audio_of(packed@);
    assert(segment_views(packed@).len() == packed@.len());
}

/// A copy of a segment has its samples, its times and its confidence.
pub proof fn law_copy_of_segment(segment: &SpeechSegment, copy: SpeechSegment)
    requires
        call_ensures(<SpeechSegment as Clone>::clone, (segment,), copy),
    ensures
        copy.samples@ == segment.samples@,
        copy.start_timestamp_ms == segment.start_timestamp_ms,
        copy.end_timestamp_ms == segment.end_timestamp_ms,
        copy.confidence == segment.confidence,
{
    assert(copy@ == segment@);
}

} // verus!
