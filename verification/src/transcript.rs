//! Transcript records, and the document that they are saved as.

use crate::arithmetic::{computes_wide, is_wide, Operation, WideFn};
use crate::binary::Binary64;
use crate::outside::{is_random_uuid, is_utc_time, random_uuid, trimmed, utc_now};
use vstd::prelude::*;
use vstd::string::StringExecFns;

verus! {

/// The binary64 pattern of 1000.
pub const MS_PER_SECOND: u64 = 0x408f_4000_0000_0000;

/// One transcribed stretch of speech.
#[derive(Debug)]
pub struct TranscriptSegment {
    /// A name of its own.
    pub id: String,
    /// What was said.
    pub text: String,
    /// When the record was made.
    pub timestamp: String,
    /// Where the speech begins in the recording, in seconds.
    pub audio_start_time: Option<Binary64>,
    /// Where it ends, in seconds.
    pub audio_end_time: Option<Binary64>,
    /// How long it lasts, in seconds.
    pub duration: Option<Binary64>,
}

/// What a transcript record holds.
#[verifier::ext_equal]
pub struct TranscriptView {
    /// The name.
    pub id: Seq<char>,
    /// The text.
    pub text: Seq<char>,
    /// The time of its making.
    pub timestamp: Seq<char>,
    /// The start of the speech.
    pub start: Option<Binary64>,
    /// The end of the speech.
    pub end: Option<Binary64>,
    /// The duration of the speech.
    pub duration: Option<Binary64>,
}

impl View for TranscriptSegment {
    type V = TranscriptView;

    open spec fn view(&self) -> TranscriptView {
        TranscriptView {
            id: self.id@,
            text: self.text@,
            timestamp: self.timestamp@,
            start: self.audio_start_time,
            end: self.audio_end_time,
            duration: self.duration,
        }
    }
}

/// The record of a transcribed text: it is named after `uuid`, its text is
/// trimmed, and the times are those given.
pub fn transcript_segment(
    text: &str,
    start_seconds: Binary64,
    end_seconds: Binary64,
    duration: Binary64,
    uuid: &str,
    timestamp: String,
) -> (segment: TranscriptSegment)
    ensures
        segment@ == (TranscriptView {
            id: "transcript-"@ + uuid@,
            text: trimmed(text@),
            timestamp: timestamp@,
            start: Some(start_seconds),
            end: Some(end_seconds),
            duration: Some(duration),
        }),
{
    TranscriptSegment {
        id: "transcript-".to_owned().concat(uuid),
        text: text.trim().to_owned(),
        timestamp,
        audio_start_time: Some(start_seconds),
        audio_end_time: Some(end_seconds),
        duration: Some(duration),
    }
}

/// The name of a record: the prefix and a random UUID.
pub open spec fn is_transcript_id(id: Seq<char>) -> bool {
    exists|uuid: Seq<char>| #[trigger] is_random_uuid(uuid) && id == "transcript-"@ + uuid
}

/// The seconds that `ms` milliseconds are.
pub open spec fn seconds(wide: WideFn, ms: Binary64) -> Binary64 {
    wide(Operation::Divide, ms, Binary64 { bits: MS_PER_SECOND })
}

/// `record` has the times of what was said from `start_ms` to `end_ms`
/// milliseconds: these in seconds, and as its duration the difference of the two.
pub open spec fn is_timed(
    record: TranscriptView,
    start_ms: Binary64,
    end_ms: Binary64,
    wide: WideFn,
) -> bool {
    let start = seconds(wide, start_ms);
    let end = seconds(wide, end_ms);
    &&& record.start == Some(start)
    &&& record.end == Some(end)
    &&& record.duration == Some(wide(Operation::Subtract, end, start))
}

/// Each record has the times of its transcription result, whichever function
/// `wide` computes.
pub open spec fn have_times<W>(
    segments: Seq<TranscriptSegment>,
    transcripts: Seq<(String, Binary64, Binary64)>,
    wide: W,
) -> bool where W: Fn(Operation, Binary64, Binary64) -> Binary64 {
    forall|w: WideFn, i: int| #[trigger]
        computes_wide(wide, w) && 0 <= i < segments.len() ==> is_timed(
            (#[trigger] segments[i])@,
            transcripts[i].1,
            transcripts[i].2,
            w,
        )
}

/// Makes the records of transcription results, in order. Each result is a text
/// with the times in milliseconds at which it starts and ends, and has a stamp of
/// its own: the UUID that names its record, and the time of the record's making.
///
/// The caller supplies the arithmetic on binary64 values.
pub fn stamped_transcript_segments<W>(
    transcripts: &[(String, Binary64, Binary64)],
    stamps: &[(String, String)],
    wide: &W,
) -> (segments: Vec<TranscriptSegment>) where W: Fn(Operation, Binary64, Binary64) -> Binary64
    requires
        is_wide(*wide),
        stamps@.len() == transcripts@.len(),
    ensures
        segments@.len() == transcripts@.len(),
        forall|i: int|
            0 <= i < segments@.len() ==> {
                &&& (#[trigger] segments@[i])@.id == "transcript-"@ + stamps@[i].0@
                &&& segments@[i]@.timestamp == stamps@[i].1@
                &&& segments@[i]@.text == trimmed(transcripts@[i].0@)
            },
        forall|w: WideFn, i: int| #[trigger]
            computes_wide(*wide, w) && 0 <= i < segments@.len() ==> is_timed(
                (#[trigger] segments@[i])@,
                transcripts@[i].1,
                transcripts@[i].2,
                w,
            ),
        have_times(segments@, transcripts@, *wide),
{
    let thousand = Binary64 { bits: MS_PER_SECOND };
    let mut segments: Vec<TranscriptSegment> = Vec::new();
    let mut i: usize = 0;
    while i < transcripts.len()
        invariant
            is_wide(*wide),
            stamps@.len() == transcripts@.len(),
            thousand.bits == MS_PER_SECOND,
            i <= transcripts@.len(),
            segments@.len() == i,
            forall|j: int|
                0 <= j < i ==> {
                    &&& (#[trigger] segments@[j])@.id == "transcript-"@ + stamps@[j].0@
                    &&& segments@[j]@.timestamp == stamps@[j].1@
                    &&& segments@[j]@.text == trimmed(transcripts@[j].0@)
                },
            forall|w: WideFn, j: int| #[trigger]
                computes_wide(*wide, w) && 0 <= j < i ==> is_timed(
                    (#[trigger] segments@[j])@,
                    transcripts@[j].1,
                    transcripts@[j].2,
                    w,
                ),
        decreases transcripts@.len() - i,
    {
        let transcript = &transcripts[i];
        let stamp = &stamps[i];
        let start = wide(Operation::Divide, transcript.1, thousand);
        let end = wide(Operation::Divide, transcript.2, thousand);
        let duration = wide(Operation::Subtract, end, start);
        segments.push(
            transcript_segment(
                transcript.0.as_str(),
                start,
                end,
                duration,
                stamp.0.as_str(),
                stamp.1.clone(),
            ),
        );
        i = i + 1;
    }
    segments
}

/// `count` stamps, each with a UUID drawn for it and the time of its drawing.
fn draw_stamps(count: usize) -> (stamps: Vec<(String, String)>)
    ensures
        stamps@.len() == count,
        forall|i: int|
            0 <= i < count ==> is_random_uuid((#[trigger] stamps@[i]).0@) && is_utc_time(
                stamps@[i].1@,
            ),
{
    let mut stamps: Vec<(String, String)> = Vec::new();
    while stamps.len() < count
        invariant
            stamps@.len() <= count,
            forall|i: int|
                0 <= i < stamps@.len() ==> is_random_uuid((#[trigger] stamps@[i]).0@)
                    && is_utc_time(stamps@[i].1@),
        decreases count - stamps@.len(),
    {
        let uuid = random_uuid();
        stamps.push((uuid, utc_now()));
    }
    stamps
}

/// Makes the records of transcription results, in order, each with a freshly drawn
/// name and the current time. Each result is a text with the times in
/// milliseconds at which it starts and ends.
///
/// The caller supplies the arithmetic on binary64 values. That the names differ is
/// likely and is not claimed.
pub fn create_transcript_segments<W>(
    transcripts: &[(String, Binary64, Binary64)],
    wide: W,
) -> (segments: Vec<TranscriptSegment>) where W: Fn(Operation, Binary64, Binary64) -> Binary64
    requires
        is_wide(wide),
    ensures
        segments@.len() == transcripts@.len(),
        forall|i: int|
            0 <= i < segments@.len() ==> {
                &&& is_transcript_id((#[trigger] segments@[i])@.id)
                &&& is_utc_time(segments@[i]@.timestamp)
                &&& segments@[i]@.text == trimmed(transcripts@[i].0@)
            },
        forall|w: WideFn, i: int| #[trigger]
            computes_wide(wide, w) && 0 <= i < segments@.len() ==> is_timed(
                (#[trigger] segments@[i])@,
                transcripts@[i].1,
                transcripts@[i].2,
                w,
            ),
        have_times(segments@, transcripts@, wide),
{
    let stamps = draw_stamps(transcripts.len());
    let segments = stamped_transcript_segments(transcripts, stamps.as_slice(), &wide);
    assert forall|i: int| 0 <= i < segments@.len() implies {
        &&& is_transcript_id((#[trigger] segments@[i])@.id)
        &&& is_utc_time(segments@[i]@.timestamp)
    } by {
        assert(is_random_uuid(stamps@[i].0@));
    }
    segments
}

/// One transcript record in the saved document.
#[derive(Debug)]
pub struct TranscriptEntry {
    /// The name of the record.
    pub id: String,
    /// What was said.
    pub text: String,
    /// When the record was made.
    pub timestamp: String,
    /// Where the speech begins in the recording, in seconds.
    pub audio_start_time: Option<Binary64>,
    /// Where it ends, in seconds.
    pub audio_end_time: Option<Binary64>,
    /// How long it lasts, in seconds.
    pub duration: Option<Binary64>,
    /// The place of the record among all, counted from zero.
    pub sequence_id: usize,
}

impl View for TranscriptEntry {
    type V = (TranscriptView, int);

    open spec fn view(&self) -> (TranscriptView, int) {
        (
            TranscriptView {
                id: self.id@,
                text: self.text@,
                timestamp: self.timestamp@,
                start: self.audio_start_time,
                end: self.audio_end_time,
                duration: self.duration,
            },
            self.sequence_id as int,
        )
    }
}

/// The document that the transcript of a meeting is saved as.
#[derive(Debug)]
pub struct TranscriptsDocument {
    /// The version of the document's layout.
    pub version: String,
    /// When the document was made.
    pub last_updated: String,
    /// How many records it holds.
    pub total_segments: usize,
    /// The records.
    pub segments: Vec<TranscriptEntry>,
}

/// What the entries of a document hold: each record with its place.
pub open spec fn entry_views(entries: Seq<TranscriptEntry>) -> Seq<(TranscriptView, int)> {
    Seq::new(entries.len(), |i: int| entries[i]@)
}

/// The records in order, each with its place counted from zero.
pub open spec fn numbered(segments: Seq<TranscriptSegment>) -> Seq<(TranscriptView, int)> {
    Seq::new(segments.len(), |i: int| (segments[i]@, i))
}

/// The document of `segments`, made at the time `last_updated`.
pub fn transcripts_document_at(segments: &[TranscriptSegment], last_updated: String) -> (document:
    TranscriptsDocument)
    ensures
        document.version@ == "1.0"@,
        document.last_updated@ == last_updated@,
        document.total_segments == segments@.len(),
        entry_views(document.segments@) == numbered(segments@),
{
    let mut entries: Vec<TranscriptEntry> = Vec::new();
    let mut i: usize = 0;
    while i < segments.len()
        invariant
            i <= segments@.len(),
            entries@.len() == i,
            forall|j: int| 0 <= j < i ==> (#[trigger] entries@[j])@ == (segments@[j]@, j),
        decreases segments@.len() - i,
    {
        let segment = &segments[i];
        entries.push(
            TranscriptEntry {
                id: segment.id.clone(),
                text: segment.text.clone(),
                timestamp: segment.timestamp.clone(),
                audio_start_time: segment.audio_start_time,
                audio_end_time: segment.audio_end_time,
                duration: segment.duration,
                sequence_id: i,
            },
        );
        i = i + 1;
    }
    TranscriptsDocument {
        version: "1.0".to_owned(),
        last_updated,
        total_segments: segments.len(),
        segments: entries,
    }
}

/// The document of `segments`, made now.
pub fn transcripts_document(segments: &[TranscriptSegment]) -> (document: TranscriptsDocument)
    ensures
        document.version@ == "1.0"@,
        is_utc_time(document.last_updated@),
        document.total_segments == segments@.len(),
        entry_views(document.segments@) == numbered(segments@),
{
    transcripts_document_at(segments, utc_now())
}

} // verus!
