//! Speech segments, as voice activity detection delivers them.

use crate::binary::{Binary32, Binary64};
use vstd::prelude::*;

verus! {

/// The rate at which speech is sampled, in samples per second.
pub const SAMPLE_RATE: usize = 16000;

/// A stretch of recorded speech.
#[derive(Debug)]
pub struct SpeechSegment {
    /// The audio, one value per sample.
    pub samples: Vec<Binary32>,
    /// Where the stretch begins in the recording, in milliseconds.
    pub start_timestamp_ms: Binary64,
    /// Where it ends, in milliseconds.
    pub end_timestamp_ms: Binary64,
    /// How certain the detection is that this is speech.
    pub confidence: Binary32,
}

/// What a speech segment holds.
#[verifier::ext_equal]
pub struct SegmentView {
    /// The audio.
    pub samples: Seq<Binary32>,
    /// The start time.
    pub start: Binary64,
    /// The end time.
    pub end: Binary64,
    /// The confidence.
    pub confidence: Binary32,
}

impl View for SpeechSegment {
    type V = SegmentView;

    open spec fn view(&self) -> SegmentView {
        SegmentView {
            samples: self.samples@,
            start: self.start_timestamp_ms,
            end: self.end_timestamp_ms,
            confidence: self.confidence,
        }
    }
}

impl Clone for SpeechSegment {
    fn clone(&self) -> (copy: SpeechSegment)
        ensures
            copy@ == self@,
    {
        SpeechSegment {
            samples: copy_of(self.samples.as_slice()),
            start_timestamp_ms: self.start_timestamp_ms,
            end_timestamp_ms: self.end_timestamp_ms,
            confidence: self.confidence,
        }
    }
}

/// A vector of its own with the samples of `samples`.
pub(crate) fn copy_of(samples: &[Binary32]) -> (copy: Vec<Binary32>)
    ensures
        copy@ == samples@,
{
    vstd::slice::slice_to_vec(samples)
}

/// What each of `segments` holds.
pub open spec fn segment_views(segments: Seq<SpeechSegment>) -> Seq<SegmentView> {
    Seq::new(segments.len(), |i: int| segments[i]@)
}

/// The audio of `segments`, one after the other.
pub open spec fn audio(segments: Seq<SegmentView>) -> Seq<Binary32>
    decreases segments.len(),
{
    if segments.len() == 0 {
        Seq::empty()
    } else {
        audio(segments.drop_last()) + segments.last().samples
    }
}

/// The audio of two runs of segments is the audio of both, one after the other.
pub proof fn lemma_audio_concat(first: Seq<SegmentView>, second: Seq<SegmentView>)
    ensures
        audio(first + second) == audio(first) + audio(second),
    decreases second.len(),
{
    if second.len() == 0 {
        assert(first + second == first);
    } else {
        assert((first + second).drop_last() == first + second.drop_last());
        lemma_audio_concat(first, second.drop_last());
    }
}

/// Each segment begins no earlier than the one before it ends.
pub open spec fn chronological(segments: Seq<SegmentView>) -> bool {
    forall|i: int|
        0 <= i < segments.len() - 1 ==> (#[trigger] segments[i]).end.at_most(segments[i + 1].start)
}

} // verus!
