//! What holds of packed speech segments.

use crate::binary::{Binary32, Binary64};
use crate::pack::{
    fits, group_end, groups_from, lemma_group_end_bounds, lemma_single_group, pack_view,
    weakest,
};
use crate::segment::{audio, chronological, lemma_audio_concat, SegmentView};
use crate::split::split_view;
use crate::split_laws::law_split_keeps_audio;
use vstd::prelude::*;

verus! {

/// Group number `k` is not empty and reaches as far as it can.
pub open spec fn group_follows(
    segments: Seq<SegmentView>,
    target_samples: nat,
    cuts: Seq<int>,
    k: int,
) -> bool {
    &&& 0 <= cuts[k] < cuts[k + 1] <= segments.len()
    &&& cuts[k + 1] == group_end(segments, target_samples, cuts[k], cuts[k] + 1)
}

/// A group that grew at all fits, and it stops only at the end or where the next
/// segment no longer fits.
proof fn lemma_group_end_is_greatest(
    segments: Seq<SegmentView>,
    target_samples: nat,
    from: int,
    to: int,
)
    requires
        0 <= from < to <= segments.len(),
    ensures
        ({
            let end = group_end(segments, target_samples, from, to);
            &&& to <= end <= segments.len()
            &&& end == to || fits(segments, target_samples, from, end)
            &&& end == segments.len() || !fits(segments, target_samples, from, end + 1)
        }),
    decreases segments.len() - to,
{
    if to < segments.len() && fits(segments, target_samples, from, to + 1) {
        lemma_group_end_is_greatest(segments, target_samples, from, to + 1);
    }
}

/// The groups run from number `from` on to the last segment, each directly behind
/// the one before.
proof fn lemma_groups(segments: Seq<SegmentView>, target_samples: nat, from: int)
    requires
        0 <= from <= segments.len(),
    ensures
        ({
            let cuts = groups_from(segments, target_samples, from);
            &&& cuts.len() >= 1
            &&& cuts[0] == from
            &&& cuts.last() == segments.len()
            &&& forall|k: int|
                0 <= k < cuts.len() - 1 ==> #[trigger] group_follows(
                    segments,
                    target_samples,
                    cuts,
                    k,
                )
        }),
    decreases segments.len() - from,
{
    let cuts = groups_from(segments, target_samples, from);
    if from < segments.len() {
        let end = group_end(segments, target_samples, from, from + 1);
        lemma_group_end_bounds(segments, target_samples, from, from + 1);
        lemma_groups(segments, target_samples, end);
        let rest = groups_from(segments, target_samples, end);
        assert(cuts == seq![from] + rest);
        assert forall|k: int| 0 <= k < cuts.len() - 1 implies #[trigger] group_follows(
            segments,
            target_samples,
            cuts,
            k,
        ) by {
            assert(cuts[k + 1] == rest[k]);
            if k > 0 {
                assert(cuts[k] == rest[k - 1]);
                assert(group_follows(segments, target_samples, rest, k - 1));
            }
        }
    }
}

/// `part` holds the segments from cut number `k` up to the next one: their audio,
/// from the start of the first to the end of the last.
pub open spec fn is_run(
    segments: Seq<SegmentView>,
    cuts: Seq<int>,
    part: SegmentView,
    k: int,
) -> bool {
    &&& 0 <= cuts[k] < cuts[k + 1] <= segments.len()
    &&& part.samples == audio(segments.subrange(cuts[k], cuts[k + 1]))
    &&& part.start == segments[cuts[k]].start
    &&& part.end == segments[cuts[k + 1] - 1].end
}

/// Every packed segment is a run of whole segments: boundaries are only ever
/// boundaries that were there before, the runs follow each other without a gap,
/// and together they are all segments. A packed segment spans from the start of
/// the first segment of its run to the end of the last.
pub proof fn law_pack_keeps_boundaries(segments: Seq<SegmentView>, target_samples: nat)
    ensures
        ({
            let packed = pack_view(segments, target_samples);
            let cuts = groups_from(segments, target_samples, 0);
            &&& cuts.len() == packed.len() + 1
            &&& cuts[0] == 0
            &&& cuts.last() == segments.len()
            &&& forall|k: int|
                0 <= k < packed.len() ==> is_run(segments, cuts, #[trigger] packed[k], k)
        }),
{
    let packed = pack_view(segments, target_samples);
    let cuts = groups_from(segments, target_samples, 0);
    lemma_groups(segments, target_samples, 0);
    assert forall|k: int| 0 <= k < packed.len() implies is_run(
        segments,
        cuts,
        #[trigger] packed[k],
        k,
    ) by {
        assert(group_follows(segments, target_samples, cuts, k));
    }
}

/// Packing loses no audio, repeats none and keeps its order.
pub proof fn law_pack_keeps_audio(segments: Seq<SegmentView>, target_samples: nat)
    ensures
        audio(pack_view(segments, target_samples)) == audio(segments),
{
    let packed = pack_view(segments, target_samples);
    lemma_packed_audio(segments, target_samples, packed.len());
    law_pack_keeps_boundaries(segments, target_samples);
    assert(packed.take(packed.len() as int) == packed);
    assert(segments.take(segments.len() as int) == segments);
}

/// The first `count` packed segments hold the audio of the segments before
/// group number `count`.
proof fn lemma_packed_audio(segments: Seq<SegmentView>, target_samples: nat, count: nat)
    requires
        count <= pack_view(segments, target_samples).len(),
    ensures
        audio(pack_view(segments, target_samples).take(count as int)) == audio(
            segments.take(groups_from(segments, target_samples, 0)[count as int]),
        ),
    decreases count,
{
    let packed = pack_view(segments, target_samples);
    let cuts = groups_from(segments, target_samples, 0);
    lemma_groups(segments, target_samples, 0);
    if count > 0 {
        let last = count - 1;
        assert(group_follows(segments, target_samples, cuts, last));
        lemma_packed_audio(segments, target_samples, last as nat);
        assert(packed.take(count as int).drop_last() == packed.take(last));
        let group = segments.subrange(cuts[last], cuts[last + 1]);
        assert(segments.take(cuts[last]) + group == segments.take(cuts[last + 1]));
        lemma_audio_concat(segments.take(cuts[last]), group);
    } else {
        assert(packed.take(0) == segments.take(0));
    }
}

/// The audio of a run is at least as long as that of any segment in it.
proof fn lemma_member_audio(group: Seq<SegmentView>, i: int)
    requires
        0 <= i < group.len(),
    ensures
        group[i].samples.len() <= audio(group).len(),
    decreases group.len(),
{
    if i < group.len() - 1 {
        assert(group.drop_last()[i] == group[i]);
        lemma_member_audio(group.drop_last(), i);
    }
}

/// A group of more than one segment fits.
pub(crate) proof fn lemma_group_fits(segments: Seq<SegmentView>, target_samples: nat, k: int)
    requires
        0 <= k < pack_view(segments, target_samples).len(),
    ensures
        ({
            let cuts = groups_from(segments, target_samples, 0);
            &&& group_follows(segments, target_samples, cuts, k)
            &&& cuts[k + 1] == cuts[k] + 1 || fits(segments, target_samples, cuts[k], cuts[k + 1])
            &&& cuts[k + 1] == segments.len() || !fits(
                segments,
                target_samples,
                cuts[k],
                cuts[k + 1] + 1,
            )
        }),
{
    let cuts = groups_from(segments, target_samples, 0);
    lemma_groups(segments, target_samples, 0);
    assert(group_follows(segments, target_samples, cuts, k));
    lemma_group_end_is_greatest(segments, target_samples, cuts[k], cuts[k] + 1);
}

/// A packed segment never exceeds the target, unless it is one of the segments
/// that exceed it, untouched.
pub proof fn law_pack_never_exceeds_target(
    segments: Seq<SegmentView>,
    target_samples: nat,
    k: int,
)
    requires
        0 <= k < pack_view(segments, target_samples).len(),
    ensures
        ({
            let packed = pack_view(segments, target_samples)[k];
            packed.samples.len() <= target_samples || segments.contains(packed)
        }),
{
    let cuts = groups_from(segments, target_samples, 0);
    lemma_group_fits(segments, target_samples, k);
    if cuts[k + 1] == cuts[k] + 1 {
        lemma_single_group(segments[cuts[k]]);
        assert(segments.subrange(cuts[k], cuts[k + 1]) == seq![segments[cuts[k]]]);
        assert(pack_view(segments, target_samples)[k] == segments[cuts[k]]);
    }
}

/// Where no segment exceeds the target, no packed segment does.
pub proof fn law_pack_within_target(segments: Seq<SegmentView>, target_samples: nat, k: int)
    requires
        forall|i: int|
            0 <= i < segments.len() ==> (#[trigger] segments[i]).samples.len() <= target_samples,
        0 <= k < pack_view(segments, target_samples).len(),
    ensures
        pack_view(segments, target_samples)[k].samples.len() <= target_samples,
{
    law_pack_never_exceeds_target(segments, target_samples, k);
}

/// Some group holds each segment.
proof fn lemma_group_of(segments: Seq<SegmentView>, target_samples: nat, i: int, from: int) -> (k:
    int)
    requires
        0 <= from <= i < segments.len(),
    ensures
        ({
            let cuts = groups_from(segments, target_samples, from);
            0 <= k < cuts.len() - 1 && cuts[k] <= i < cuts[k + 1]
        }),
    decreases segments.len() - from,
{
    let end = group_end(segments, target_samples, from, from + 1);
    lemma_group_end_bounds(segments, target_samples, from, from + 1);
    lemma_groups(segments, target_samples, from);
    lemma_groups(segments, target_samples, end);
    let cuts = groups_from(segments, target_samples, from);
    let rest = groups_from(segments, target_samples, end);
    assert(cuts == seq![from] + rest);
    if i < end {
        0
    } else {
        let k = lemma_group_of(segments, target_samples, i, end);
        assert(cuts[k + 1] == rest[k] && cuts[k + 2] == rest[k + 1]);
        k + 1
    }
}

/// A segment that exceeds the target passes untouched, as a packed segment of its
/// own.
pub proof fn law_oversized_segment_passes_untouched(
    segments: Seq<SegmentView>,
    target_samples: nat,
    i: int,
)
    requires
        0 <= i < segments.len(),
        segments[i].samples.len() > target_samples,
    ensures
        pack_view(segments, target_samples).contains(segments[i]),
{
    let packed = pack_view(segments, target_samples);
    let cuts = groups_from(segments, target_samples, 0);
    let k = lemma_group_of(segments, target_samples, i, 0);
    lemma_group_fits(segments, target_samples, k);
    let group = segments.subrange(cuts[k], cuts[k + 1]);
    assert(group[i - cuts[k]] == segments[i]);
    lemma_member_audio(group, i - cuts[k]);
    assert(group == seq![segments[i]]);
    lemma_single_group(segments[i]);
    assert(packed[k] == segments[i]);
}

/// Requests are filled as far as they can be: the first segment of the next
/// packed segment would not have fitted.
pub proof fn law_pack_fills_requests(segments: Seq<SegmentView>, target_samples: nat, k: int)
    requires
        0 <= k < pack_view(segments, target_samples).len() - 1,
    ensures
        ({
            let next = groups_from(segments, target_samples, 0)[k + 1];
            &&& 0 <= next < segments.len()
            &&& pack_view(segments, target_samples)[k].samples.len()
                + segments[next].samples.len() > target_samples
        }),
{
    let cuts = groups_from(segments, target_samples, 0);
    lemma_group_fits(segments, target_samples, k);
    lemma_group_fits(segments, target_samples, k + 1);
    let group = segments.subrange(cuts[k], cuts[k + 1]);
    let grown = segments.subrange(cuts[k], cuts[k + 1] + 1);
    assert(grown.drop_last() == group);
}

/// `cuts` divides the segments into runs, none of them empty, that fit or are of
/// one segment.
pub open spec fn is_division(
    segments: Seq<SegmentView>,
    target_samples: nat,
    cuts: Seq<int>,
) -> bool {
    &&& cuts.len() >= 1
    &&& cuts[0] == 0
    &&& cuts.last() == segments.len()
    &&& forall|k: int|
        0 <= k < cuts.len() - 1 ==> #[trigger] is_fitting_run(segments, target_samples, cuts, k)
}

/// Run number `k` is not empty, and it fits or is of one segment.
pub open spec fn is_fitting_run(
    segments: Seq<SegmentView>,
    target_samples: nat,
    cuts: Seq<int>,
    k: int,
) -> bool {
    &&& 0 <= cuts[k] < cuts[k + 1] <= segments.len()
    &&& cuts[k + 1] == cuts[k] + 1 || fits(segments, target_samples, cuts[k], cuts[k + 1])
}

/// Part of a run has no more audio than the run.
proof fn lemma_part_audio(segments: Seq<SegmentView>, from: int, to: int, low: int, high: int)
    requires
        0 <= from <= low <= high <= to <= segments.len(),
    ensures
        audio(segments.subrange(low, high)).len() <= audio(segments.subrange(from, to)).len(),
{
    let before = segments.subrange(from, low);
    let part = segments.subrange(low, high);
    let after = segments.subrange(high, to);
    assert(before + part + after == segments.subrange(from, to));
    lemma_audio_concat(before + part, after);
    lemma_audio_concat(before, part);
}

/// No division gets further with as many runs.
proof fn lemma_groups_stay_ahead(
    segments: Seq<SegmentView>,
    target_samples: nat,
    cuts: Seq<int>,
    k: int,
)
    requires
        is_division(segments, target_samples, cuts),
        0 <= k < cuts.len(),
        k < groups_from(segments, target_samples, 0).len(),
    ensures
        cuts[k] <= groups_from(segments, target_samples, 0)[k],
    decreases k,
{
    let groups = groups_from(segments, target_samples, 0);
    lemma_groups(segments, target_samples, 0);
    if k > 0 {
        lemma_groups_stay_ahead(segments, target_samples, cuts, k - 1);
        lemma_group_fits(segments, target_samples, k - 1);
        assert(is_fitting_run(segments, target_samples, cuts, k - 1));
        if cuts[k] > groups[k] {
            lemma_part_audio(segments, cuts[k - 1], cuts[k], groups[k - 1], groups[k] + 1);
        }
    }
}

/// No division into runs of whole segments that fit, or are of one segment, has
/// fewer runs: packing makes as few requests as can be.
pub proof fn law_pack_makes_fewest_requests(
    segments: Seq<SegmentView>,
    target_samples: nat,
    cuts: Seq<int>,
)
    requires
        is_division(segments, target_samples, cuts),
    ensures
        is_division(segments, target_samples, groups_from(segments, target_samples, 0)),
        pack_view(segments, target_samples).len() <= cuts.len() - 1,
{
    let groups = groups_from(segments, target_samples, 0);
    lemma_groups(segments, target_samples, 0);
    assert forall|k: int| 0 <= k < groups.len() - 1 implies #[trigger] is_fitting_run(
        segments,
        target_samples,
        groups,
        k,
    ) by {
        lemma_group_fits(segments, target_samples, k);
    }
    if cuts.len() < groups.len() {
        let last = cuts.len() - 1;
        lemma_groups_stay_ahead(segments, target_samples, cuts, last);
        lemma_group_fits(segments, target_samples, last);
    }
}

/// Two neighbouring packed segments never fit together.
proof fn lemma_neighbours_do_not_fit(segments: Seq<SegmentView>, target_samples: nat, k: int)
    requires
        0 <= k < pack_view(segments, target_samples).len() - 1,
    ensures
        !fits(pack_view(segments, target_samples), target_samples, k, k + 2),
{
    let packed = pack_view(segments, target_samples);
    let cuts = groups_from(segments, target_samples, 0);
    law_pack_fills_requests(segments, target_samples, k);
    lemma_group_fits(segments, target_samples, k + 1);
    let group = segments.subrange(cuts[k + 1], cuts[k + 2]);
    assert(group[0] == segments[cuts[k + 1]]);
    lemma_member_audio(group, 0);
    let pair = packed.subrange(k, k + 2);
    assert(pair.drop_last() == seq![packed[k]]);
    lemma_single_group(packed[k]);
    assert(pair.last() == packed[k + 1]);
}

/// Packing what is packed changes nothing.
pub proof fn law_pack_is_idempotent(segments: Seq<SegmentView>, target_samples: nat)
    ensures
        pack_view(pack_view(segments, target_samples), target_samples) == pack_view(
            segments,
            target_samples,
        ),
{
    let packed = pack_view(segments, target_samples);
    let again = pack_view(packed, target_samples);
    lemma_single_groups(segments, target_samples, 0);
    let cuts = groups_from(packed, target_samples, 0);
    assert forall|k: int| 0 <= k < packed.len() implies again[k] == packed[k] by {
        assert(cuts[k] == k && cuts[k + 1] == k + 1);
        assert(packed.subrange(k, k + 1) == seq![packed[k]]);
        lemma_single_group(packed[k]);
    }
    assert(again == packed);
}

/// Packed segments form groups of one.
proof fn lemma_single_groups(segments: Seq<SegmentView>, target_samples: nat, from: int)
    requires
        0 <= from <= pack_view(segments, target_samples).len(),
    ensures
        ({
            let packed = pack_view(segments, target_samples);
            groups_from(packed, target_samples, from) == Seq::new(
                (packed.len() - from + 1) as nat,
                |j: int| from + j,
            )
        }),
    decreases pack_view(segments, target_samples).len() - from,
{
    let packed = pack_view(segments, target_samples);
    let cuts = groups_from(packed, target_samples, from);
    if from < packed.len() {
        if from + 1 < packed.len() {
            lemma_neighbours_do_not_fit(segments, target_samples, from);
        }
        assert(group_end(packed, target_samples, from, from + 1) == from + 1);
        lemma_single_groups(segments, target_samples, from + 1);
        let rest = groups_from(packed, target_samples, from + 1);
        assert(cuts == seq![from] + rest);
    }
    assert(cuts =~= Seq::new((packed.len() - from + 1) as nat, |j: int| from + j));
}

/// Packed segments stay in the order of time: where each segment begins no
/// earlier than the one before it ends, so does each packed segment.
pub proof fn law_pack_keeps_chronology(segments: Seq<SegmentView>, target_samples: nat)
    requires
        chronological(segments),
    ensures
        chronological(pack_view(segments, target_samples)),
{
    let packed = pack_view(segments, target_samples);
    let cuts = groups_from(segments, target_samples, 0);
    law_pack_keeps_boundaries(segments, target_samples);
    assert forall|k: int| 0 <= k < packed.len() - 1 implies (#[trigger] packed[k]).end.at_most(
        packed[k + 1].start,
    ) by {
        let next = cuts[k + 1];
        assert(is_run(segments, cuts, packed[k], k));
        assert(is_run(segments, cuts, packed[k + 1], k + 1));
        assert(segments[next - 1].end.at_most(segments[next - 1 + 1].start));
    }
}

/// How much time a segment spans, in multiples of the smallest positive time.
pub open spec fn span(segment: SegmentView) -> int {
    segment.end.units() - segment.start.units()
}

/// The spans of `segments`, added up.
pub open spec fn total_span(segments: Seq<SegmentView>) -> int
    decreases segments.len(),
{
    if segments.len() == 0 {
        0
    } else {
        total_span(segments.drop_last()) + span(segments.last())
    }
}

/// From the start of the first segment to the end of the last there is at least
/// as much time as the segments span.
proof fn lemma_run_span(run: Seq<SegmentView>)
    requires
        run.len() > 0,
        chronological(run),
    ensures
        total_span(run) <= run.last().end.units() - run.first().start.units(),
    decreases run.len(),
{
    let earlier = run.drop_last();
    if run.len() > 1 {
        let last = run.len() - 1;
        assert(chronological(earlier)) by {
            assert forall|i: int| 0 <= i < earlier.len() - 1 implies (
            #[trigger] earlier[i]).end.at_most(earlier[i + 1].start) by {
                assert(run[i].end.at_most(run[i + 1].start));
            }
        }
        lemma_run_span(earlier);
        assert(run[last - 1].end.at_most(run[last - 1 + 1].start));
    } else {
        assert(total_span(earlier) == 0);
    }
}

/// A packed segment spans at least as much time as the segments it is made of:
/// the silence between them is dropped from the audio, not from the span.
pub proof fn law_pack_span_covers_members(
    segments: Seq<SegmentView>,
    target_samples: nat,
    k: int,
)
    requires
        chronological(segments),
        0 <= k < pack_view(segments, target_samples).len(),
    ensures
        ({
            let cuts = groups_from(segments, target_samples, 0);
            span(pack_view(segments, target_samples)[k]) >= total_span(
                segments.subrange(cuts[k], cuts[k + 1]),
            )
        }),
{
    let cuts = groups_from(segments, target_samples, 0);
    lemma_group_fits(segments, target_samples, k);
    let run = segments.subrange(cuts[k], cuts[k + 1]);
    assert forall|i: int| 0 <= i < run.len() - 1 implies (#[trigger] run[i]).end.at_most(
        run[i + 1].start,
    ) by {
        let at = cuts[k] + i;
        assert(segments[at].end.at_most(segments[at + 1].start));
    }
    lemma_run_span(run);
}

/// A group is only as trustworthy as its weakest member: its confidence is that
/// of a member, and no member's is lower. It is a number if any member's is.
pub proof fn law_weakest_confidence(group: Seq<SegmentView>)
    requires
        group.len() > 0,
    ensures
        exists|i: int| 0 <= i < group.len() && #[trigger] group[i].confidence == weakest(group),
        forall|i: int|
            0 <= i < group.len() ==> !(#[trigger] group[i]).confidence.below(weakest(group)),
        forall|i: int|
            0 <= i < group.len() && !(#[trigger] group[i]).confidence.is_nan() ==> !weakest(
                group,
            ).is_nan(),
    decreases group.len(),
{
    if group.len() == 1 {
        assert(group[0].confidence == weakest(group));
    } else {
        let rest = group.drop_last();
        let last = group.last().confidence;
        law_weakest_confidence(rest);
        let i = choose|i: int|
            0 <= i < rest.len() && #[trigger] rest[i].confidence == weakest(rest);
        assert(group[i].confidence == weakest(rest));
        assert(group[group.len() - 1].confidence == last);
        assert forall|j: int| 0 <= j < group.len() implies {
            &&& !(#[trigger] group[j]).confidence.below(weakest(group))
            &&& !group[j].confidence.is_nan() ==> !weakest(group).is_nan()
        } by {
            if j < rest.len() {
                assert(rest[j] == group[j]);
                assert(!rest[j].confidence.below(weakest(rest)));
            }
        }
    }
}

/// A packed segment has the lowest confidence among the segments it is made of.
pub proof fn law_pack_takes_weakest_confidence(
    segments: Seq<SegmentView>,
    target_samples: nat,
    k: int,
)
    requires
        0 <= k < pack_view(segments, target_samples).len(),
    ensures
        ({
            let confidence = pack_view(segments, target_samples)[k].confidence;
            let cuts = groups_from(segments, target_samples, 0);
            &&& exists|i: int|
                cuts[k] <= i < cuts[k + 1] && #[trigger] segments[i].confidence == confidence
            &&& forall|i: int|
                cuts[k] <= i < cuts[k + 1] ==> !(#[trigger] segments[i]).confidence.below(
                    confidence,
                )
        }),
{
    let confidence = pack_view(segments, target_samples)[k].confidence;
    let cuts = groups_from(segments, target_samples, 0);
    lemma_group_fits(segments, target_samples, k);
    let group = segments.subrange(cuts[k], cuts[k + 1]);
    law_weakest_confidence(group);
    let i = choose|i: int|
        0 <= i < group.len() && #[trigger] group[i].confidence == weakest(group);
    assert(segments[cuts[k] + i].confidence == confidence);
    assert forall|i: int| cuts[k] <= i < cuts[k + 1] implies !(
    #[trigger] segments[i]).confidence.below(confidence) by {
        assert(group[i - cuts[k]] == segments[i]);
        assert(!group[i - cuts[k]].confidence.below(weakest(group)));
    }
}

/// There is nothing to pack in nothing, and something to pack gives something,
/// never more packed segments than segments.
pub proof fn law_pack_count(segments: Seq<SegmentView>, target_samples: nat)
    ensures
        pack_view(segments, target_samples).len() <= segments.len(),
        segments.len() == 0 <==> pack_view(segments, target_samples).len() == 0,
{
    lemma_groups(segments, target_samples, 0);
    lemma_group_count(segments, target_samples, 0);
}

/// There are no more groups than segments.
proof fn lemma_group_count(segments: Seq<SegmentView>, target_samples: nat, from: int)
    requires
        0 <= from <= segments.len(),
    ensures
        groups_from(segments, target_samples, from).len() <= segments.len() - from + 1,
    decreases segments.len() - from,
{
    if from < segments.len() {
        let end = group_end(segments, target_samples, from, from + 1);
        lemma_group_end_bounds(segments, target_samples, from, from + 1);
        lemma_group_count(segments, target_samples, end);
    }
}

/// Packing the chunks of a segment gives back all of its audio, in order.
pub proof fn law_split_then_pack_keeps_audio(
    segment: SegmentView,
    max_samples: nat,
    target_samples: nat,
    meter: spec_fn(Seq<Binary32>) -> Binary32,
    clock: spec_fn(Binary64, Binary64, int, int) -> Binary64,
)
    ensures
        audio(pack_view(split_view(segment, max_samples, meter, clock), target_samples))
            == segment.samples,
{
    law_split_keeps_audio(segment, max_samples, meter, clock);
    law_pack_keeps_audio(split_view(segment, max_samples, meter, clock), target_samples);
}

} // verus!
