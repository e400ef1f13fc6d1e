//! What a caller finds in the records and in the document, field by field.

use crate::arithmetic::{computes_wide, Operation, WideFn};
use crate::binary::Binary64;
use crate::exact::{
    is_exact_wide, is_finite_wide, is_wide_worth, law_times_are_ordered_as_worth,
    law_worth_of_1000, one_wide,
};
use crate::order_laws::not_after;
use crate::outside::{
    days_in_month, has_two_digits, is_random_uuid, is_time_in_year, is_utc_time, is_white_space,
    number, starts_with_year, trimmed, trimmed_end, trimmed_start,
};
use crate::transcript::{
    create_transcript_segments, entry_views, have_times, is_transcript_id, numbered,
    stamped_transcript_segments, transcript_segment, transcripts_document, transcripts_document_at,
    TranscriptEntry, TranscriptSegment, TranscriptsDocument,
};
use vstd::prelude::*;

verus! {

/// `inner` is the stretch of `text` from `from` to `to`, around which there is nothing
/// but white space, and which does not start or end with any.
pub open spec fn is_inner_text(text: Seq<char>, inner: Seq<char>, from: int, to: int) -> bool {
    &&& 0 <= from <= to <= text.len()
    &&& inner == text.subrange(from, to)
    &&& forall|i: int| 0 <= i < from ==> is_blank(#[trigger] text[i])
    &&& forall|i: int| to <= i < text.len() ==> is_blank(#[trigger] text[i])
    &&& from < to ==> !is_blank(text[from]) && !is_blank(text[to - 1])
}

/// Tabs and line ends, spaces, the wide ones among them, and the separators of lines
/// and paragraphs.
pub open spec fn is_blank(c: char) -> bool {
    ||| 9 <= c as int <= 13
    ||| c as int == 0x20
    ||| c as int == 0x85
    ||| c as int == 0xa0
    ||| c as int == 0x1680
    ||| 0x2000 <= c as int <= 0x200a
    ||| 0x2028 <= c as int <= 0x2029
    ||| c as int == 0x202f
    ||| c as int == 0x205f
    ||| c as int == 0x3000
}

/// Nothing but white space goes from the start.
proof fn lemma_blank_start(text: Seq<char>) -> (from: int)
    ensures
        0 <= from <= text.len(),
        trimmed_start(text) == text.skip(from),
        forall|i: int| 0 <= i < from ==> is_blank(#[trigger] text[i]),
        from < text.len() ==> !is_blank(text[from]),
    decreases text.len(),
{
    if text.len() > 0 && is_white_space(text.first()) {
        let rest = text.drop_first();
        let from = lemma_blank_start(rest);
        assert forall|i: int| 0 <= i < from + 1 implies is_blank(#[trigger] text[i]) by {
            if i > 0 {
                assert(rest[i - 1] == text[i]);
            }
        }
        assert(rest.skip(from) == text.skip(from + 1));
        from + 1
    } else {
        assert(text.skip(0) == text);
        0
    }
}

/// Nothing but white space goes from the end.
proof fn lemma_blank_end(text: Seq<char>) -> (to: int)
    ensures
        0 <= to <= text.len(),
        trimmed_end(text) == text.take(to),
        forall|i: int| to <= i < text.len() ==> is_blank(#[trigger] text[i]),
        to > 0 ==> !is_blank(text[to - 1]),
    decreases text.len(),
{
    if text.len() > 0 && is_white_space(text.last()) {
        let rest = text.drop_last();
        let to = lemma_blank_end(rest);
        assert forall|i: int| to <= i < text.len() implies is_blank(#[trigger] text[i]) by {
            if i < rest.len() {
                assert(rest[i] == text[i]);
            }
        }
        assert(rest.take(to) == text.take(to));
        to
    } else {
        assert(text.take(text.len() as int) == text);
        text.len() as int
    }
}

/// Trimming takes the white space off both ends and leaves the rest as it is.
pub proof fn law_trimming_leaves_inner_text(text: Seq<char>) -> (stretch: (int, int))
    ensures
        is_inner_text(text, trimmed(text), stretch.0, stretch.1),
{
    let from = lemma_blank_start(text);
    let rest = text.skip(from);
    let to = lemma_blank_end(rest);
    assert(rest.take(to) == text.subrange(from, from + to));
    assert forall|i: int| from + to <= i < text.len() implies is_blank(#[trigger] text[i]) by {
        assert(rest[i - from] == text[i]);
    }
    if to > 0 {
        assert(rest[to - 1] == text[from + to - 1]);
        assert(from < text.len());
    }
    (from, from + to)
}

/// `record` is that of what was said: its text without the white space around it,
/// named after `uuid`.
pub open spec fn is_record_of(
    record: TranscriptSegment,
    text: Seq<char>,
    uuid: Seq<char>,
    timestamp: Seq<char>,
) -> bool {
    &&& record.id@ == "transcript-"@ + uuid
    &&& record.timestamp@ == timestamp
    &&& exists|from: int, to: int| #[trigger] is_inner_text(text, record.text@, from, to)
}

/// A record holds what it is made from, each in its place.
pub proof fn law_record_holds_arguments(
    text: &str,
    start_seconds: Binary64,
    end_seconds: Binary64,
    duration: Binary64,
    uuid: &str,
    timestamp: String,
    record: TranscriptSegment,
)
    requires
        call_ensures(
            transcript_segment,
            (text, start_seconds, end_seconds, duration, uuid, timestamp),
            record,
        ),
    ensures
        is_record_of(record, text@, uuid@, timestamp@),
        record.audio_start_time == Some(start_seconds),
        record.audio_end_time == Some(end_seconds),
        record.duration == Some(duration),
{
    let (from, to) = law_trimming_leaves_inner_text(text@);
    assert(record@.text == record.text@);
    assert(is_inner_text(text@, record.text@, from, to));
}

/// The times of `record` are `start_ms` and `end_ms`, each divided by 1000, and its
/// duration is the difference of the two.
pub open spec fn has_times_of(
    record: TranscriptSegment,
    start_ms: Binary64,
    end_ms: Binary64,
    w: WideFn,
) -> bool {
    let thousand = Binary64 { bits: 0x408f_4000_0000_0000 };
    &&& record.audio_start_time == Some(w(Operation::Divide, start_ms, thousand))
    &&& record.audio_end_time == Some(w(Operation::Divide, end_ms, thousand))
    &&& record.duration == Some(
        w(
            Operation::Subtract,
            w(Operation::Divide, end_ms, thousand),
            w(Operation::Divide, start_ms, thousand),
        ),
    )
}

/// The records of given stamps stand in the order of the results, one for each, with
/// the text, the times and the stamp of its own result.
pub proof fn law_stamped_records<W>(
    transcripts: &[(String, Binary64, Binary64)],
    stamps: &[(String, String)],
    wide: &W,
    records: Vec<TranscriptSegment>,
    w: WideFn,
    i: int,
) where W: Fn(Operation, Binary64, Binary64) -> Binary64
    requires
        call_ensures(stamped_transcript_segments::<W>, (transcripts, stamps, wide), records),
        forall|op: Operation, a: Binary64, b: Binary64, x: Binary64| #[trigger]
            call_ensures(*wide, (op, a, b), x) ==> x == w(op, a, b),
        0 <= i < transcripts@.len(),
    ensures
        records@.len() == transcripts@.len(),
        is_record_of(records@[i], transcripts@[i].0@, stamps@[i].0@, stamps@[i].1@),
        has_times_of(records@[i], transcripts@[i].1, transcripts@[i].2, w),
{
    assert(computes_wide(*wide, w));
    assert(have_times(records@, transcripts@, *wide));
    let record = records@[i];
    assert(record@.text == record.text@ && record@.id == record.id@);
    let (from, to) = law_trimming_leaves_inner_text(transcripts@[i].0@);
    assert(is_inner_text(transcripts@[i].0@, record.text@, from, to));
}

/// The text is that of a random UUID, written out.
pub open spec fn has_uuid_shape(text: Seq<char>) -> bool {
    &&& text.len() == 36
    &&& forall|i: int|
        0 <= i < 36 ==> if i == 8 || i == 13 || i == 18 || i == 23 {
            #[trigger] text[i] == '-'
        } else if i == 14 {
            text[i] == '4'
        } else if i == 19 {
            text[i] == '8' || text[i] == '9' || text[i] == 'a' || text[i] == 'b'
        } else {
            48 <= text[i] as int <= 57 || 97 <= text[i] as int <= 102
        }
}

/// The two characters of `text` from `at` on are digits.
pub open spec fn has_digits_at(text: Seq<char>, at: int) -> bool {
    &&& 0 <= at <= text.len() - 2
    &&& 48 <= text[at] as int <= 57
    &&& 48 <= text[at + 1] as int <= 57
}

/// The text is a date and a time of day in UTC, written as in
/// `2024-01-31T09:05:00+00:00`, with `year` characters for the year.
pub open spec fn has_time_shape(text: Seq<char>, year: int) -> bool {
    let end = text.len() - 6;
    &&& 4 <= year <= end - 15
    &&& text[year] == '-'
    &&& has_digits_at(text, year + 1)
    &&& text[year + 3] == '-'
    &&& has_digits_at(text, year + 4)
    &&& text[year + 6] == 'T'
    &&& has_digits_at(text, year + 7)
    &&& text[year + 9] == ':'
    &&& has_digits_at(text, year + 10)
    &&& text[year + 12] == ':'
    &&& has_digits_at(text, year + 13)
    &&& end == year + 15 || text[year + 15] == '.'
    &&& text.skip(end) == seq!['+', '0', '0', ':', '0', '0']
}

/// The texts of times have the shape of times.
proof fn lemma_time_shape(text: Seq<char>) -> (year: int)
    requires
        is_utc_time(text),
    ensures
        has_time_shape(text, year),
{
    let (width, year) = choose|width: int, year: int|
        0 <= width <= text.len() && #[trigger] starts_with_year(text, width, year)
            && is_time_in_year(text, width, year);
    let end = text.len() - 6;
    reveal_strlit("+00:00");
    assert("+00:00"@ == seq!['+', '0', '0', ':', '0', '0']);
    assert(text.skip(end) == text.subrange(end, text.len() as int));
    lemma_digits_at(text, width + 1, 1, 12);
    lemma_digits_at(
        text,
        width + 4,
        1,
        days_in_month(year, number(text.subrange(width + 1, width + 3))),
    );
    lemma_digits_at(text, width + 7, 0, 23);
    lemma_digits_at(text, width + 10, 0, 59);
    lemma_digits_at(text, width + 13, 0, 59);
    width
}

/// Two digits are digits.
proof fn lemma_digits_at(text: Seq<char>, at: int, low: int, high: int)
    requires
        0 <= at <= text.len() - 2,
        has_two_digits(text, at, low, high),
    ensures
        has_digits_at(text, at),
{
    let digits = text.subrange(at, at + 2);
    assert(digits[0] == text[at] && digits[1] == text[at + 1]);
}

/// New records stand in the order of the results, one for each, with the text and the
/// times of its own result. Each is named after a UUID and tells the time of its making.
pub proof fn law_new_records<W>(
    transcripts: &[(String, Binary64, Binary64)],
    wide: W,
    records: Vec<TranscriptSegment>,
    w: WideFn,
    i: int,
) -> (drawn: (Seq<char>, int)) where W: Fn(Operation, Binary64, Binary64) -> Binary64
    requires
        call_ensures(create_transcript_segments::<W>, (transcripts, wide), records),
        forall|op: Operation, a: Binary64, b: Binary64, x: Binary64| #[trigger]
            call_ensures(wide, (op, a, b), x) ==> x == w(op, a, b),
        0 <= i < transcripts@.len(),
    ensures
        records@.len() == transcripts@.len(),
        has_uuid_shape(drawn.0),
        has_time_shape(records@[i].timestamp@, drawn.1),
        is_record_of(records@[i], transcripts@[i].0@, drawn.0, records@[i].timestamp@),
        has_times_of(records@[i], transcripts@[i].1, transcripts@[i].2, w),
{
    assert(computes_wide(wide, w));
    assert(have_times(records@, transcripts@, wide));
    let record = records@[i];
    assert(record@.text == record.text@ && record@.id == record.id@);
    let (from, to) = law_trimming_leaves_inner_text(transcripts@[i].0@);
    assert(is_inner_text(transcripts@[i].0@, record.text@, from, to));
    assert(is_transcript_id(record.id@));
    let uuid = choose|uuid: Seq<char>| #[trigger]
        is_random_uuid(uuid) && record.id@ == "transcript-"@ + uuid;
    assert(record@.timestamp == record.timestamp@);
    (uuid, lemma_time_shape(record.timestamp@))
}

/// `record` has these times, in seconds: its start and its end, times 1000, are the
/// times in milliseconds, and so is its duration what lies between them.
pub open spec fn is_in_seconds(
    record: TranscriptSegment,
    start_ms: Binary64,
    end_ms: Binary64,
) -> bool {
    &&& record.audio_start_time is Some
    &&& record.audio_end_time is Some
    &&& record.duration is Some
    &&& record.audio_start_time->0.units() * 1000 == start_ms.units()
    &&& record.audio_end_time->0.units() * 1000 == end_ms.units()
    &&& record.duration->0.units() * 1000 == end_ms.units() - start_ms.units()
    &&& not_after(start_ms.bits, end_ms.bits) <==> not_after(
        record.audio_start_time->0.bits,
        record.audio_end_time->0.bits,
    )
}

/// The times in seconds can be had without rounding: `start`, `end` and what lies
/// between them are finite values.
pub open spec fn are_exact_seconds(
    start_ms: Binary64,
    end_ms: Binary64,
    start: int,
    end: int,
) -> bool {
    &&& is_finite_wide(start_ms)
    &&& is_finite_wide(end_ms)
    &&& is_wide_worth(start)
    &&& is_wide_worth(end)
    &&& is_wide_worth(end - start)
    &&& start * 1000 == start_ms.units()
    &&& end * 1000 == end_ms.units()
}

/// Times divided by 1000 are a thousandth.
proof fn lemma_in_seconds(
    record: TranscriptSegment,
    start_ms: Binary64,
    end_ms: Binary64,
    w: WideFn,
    start: int,
    end: int,
)
    requires
        has_times_of(record, start_ms, end_ms, w),
        is_exact_wide(w),
        are_exact_seconds(start_ms, end_ms, start, end),
    ensures
        is_in_seconds(record, start_ms, end_ms),
{
    vstd::arithmetic::power2::lemma_pow2_pos(1074);
    law_worth_of_1000();
    let one = one_wide();
    let thousand = Binary64 { bits: 0x408f_4000_0000_0000 };
    assert(1000 * one != 0) by (nonlinear_arith)
        requires
            one > 0,
    ;
    assert(start * (1000 * one) == (start * 1000) * one) by (nonlinear_arith);
    assert(end * (1000 * one) == (end * 1000) * one) by (nonlinear_arith);
    let first = w(Operation::Divide, start_ms, thousand);
    let last = w(Operation::Divide, end_ms, thousand);
    assert(is_finite_wide(first) && first.units() == start);
    assert(is_finite_wide(last) && last.units() == end);
    assert(is_wide_worth(end - start));
    law_times_are_ordered_as_worth(start_ms, end_ms);
    law_times_are_ordered_as_worth(first, last);
}

/// Whatever their size, the times of records in seconds, times 1000, are the times of
/// the results in milliseconds.
pub proof fn law_records_are_in_seconds<W>(
    transcripts: &[(String, Binary64, Binary64)],
    stamps: &[(String, String)],
    wide: &W,
    records: Vec<TranscriptSegment>,
    w: WideFn,
    i: int,
    start: int,
    end: int,
) where W: Fn(Operation, Binary64, Binary64) -> Binary64
    requires
        call_ensures(stamped_transcript_segments::<W>, (transcripts, stamps, wide), records),
        forall|op: Operation, a: Binary64, b: Binary64, x: Binary64| #[trigger]
            call_ensures(*wide, (op, a, b), x) ==> x == w(op, a, b),
        is_exact_wide(w),
        0 <= i < transcripts@.len(),
        are_exact_seconds(transcripts@[i].1, transcripts@[i].2, start, end),
    ensures
        is_in_seconds(records@[i], transcripts@[i].1, transcripts@[i].2),
{
    law_stamped_records(transcripts, stamps, wide, records, w, i);
    lemma_in_seconds(records@[i], transcripts@[i].1, transcripts@[i].2, w, start, end);
}

/// So are those of new records.
pub proof fn law_new_records_are_in_seconds<W>(
    transcripts: &[(String, Binary64, Binary64)],
    wide: W,
    records: Vec<TranscriptSegment>,
    w: WideFn,
    i: int,
    start: int,
    end: int,
) where W: Fn(Operation, Binary64, Binary64) -> Binary64
    requires
        call_ensures(create_transcript_segments::<W>, (transcripts, wide), records),
        forall|op: Operation, a: Binary64, b: Binary64, x: Binary64| #[trigger]
            call_ensures(wide, (op, a, b), x) ==> x == w(op, a, b),
        is_exact_wide(w),
        0 <= i < transcripts@.len(),
        are_exact_seconds(transcripts@[i].1, transcripts@[i].2, start, end),
    ensures
        is_in_seconds(records@[i], transcripts@[i].1, transcripts@[i].2),
{
    let _ = law_new_records(transcripts, wide, records, w, i);
    lemma_in_seconds(records@[i], transcripts@[i].1, transcripts@[i].2, w, start, end);
}

/// Division by 1000 keeps the order of times, as rounding does.
pub open spec fn keeps_order_of_times(w: WideFn) -> bool {
    forall|a: Binary64, b: Binary64| #[trigger]
        not_after(a.bits, b.bits) ==> not_after(
            w(Operation::Divide, a, Binary64 { bits: 0x408f_4000_0000_0000 }).bits,
            w(Operation::Divide, b, Binary64 { bits: 0x408f_4000_0000_0000 }).bits,
        )
}

/// What is said later in milliseconds is said no earlier in seconds, in one record and
/// between two: of any two starts and ends, whatever their size.
pub proof fn law_records_keep_order_of_times<W>(
    transcripts: &[(String, Binary64, Binary64)],
    stamps: &[(String, String)],
    wide: &W,
    records: Vec<TranscriptSegment>,
    w: WideFn,
    i: int,
    j: int,
) where W: Fn(Operation, Binary64, Binary64) -> Binary64
    requires
        call_ensures(stamped_transcript_segments::<W>, (transcripts, stamps, wide), records),
        forall|op: Operation, a: Binary64, b: Binary64, x: Binary64| #[trigger]
            call_ensures(*wide, (op, a, b), x) ==> x == w(op, a, b),
        keeps_order_of_times(w),
        0 <= i < transcripts@.len(),
        0 <= j < transcripts@.len(),
    ensures
        not_after(transcripts@[i].1.bits, transcripts@[j].1.bits) ==> not_after(
            records@[i].audio_start_time->0.bits,
            records@[j].audio_start_time->0.bits,
        ),
        not_after(transcripts@[i].1.bits, transcripts@[j].2.bits) ==> not_after(
            records@[i].audio_start_time->0.bits,
            records@[j].audio_end_time->0.bits,
        ),
        not_after(transcripts@[i].2.bits, transcripts@[j].1.bits) ==> not_after(
            records@[i].audio_end_time->0.bits,
            records@[j].audio_start_time->0.bits,
        ),
        not_after(transcripts@[i].2.bits, transcripts@[j].2.bits) ==> not_after(
            records@[i].audio_end_time->0.bits,
            records@[j].audio_end_time->0.bits,
        ),
{
    law_stamped_records(transcripts, stamps, wide, records, w, i);
    law_stamped_records(transcripts, stamps, wide, records, w, j);
}

/// `entry` is `record` in place number `i`.
pub open spec fn is_entry_of(entry: TranscriptEntry, record: TranscriptSegment, i: int) -> bool {
    &&& entry.id@ == record.id@
    &&& entry.text@ == record.text@
    &&& entry.timestamp@ == record.timestamp@
    &&& entry.audio_start_time == record.audio_start_time
    &&& entry.audio_end_time == record.audio_end_time
    &&& entry.duration == record.duration
    &&& entry.sequence_id == i
}

/// `document` holds just `records`, in order and numbered from zero.
pub open spec fn is_document_of(
    document: TranscriptsDocument,
    records: Seq<TranscriptSegment>,
) -> bool {
    &&& document.version@ == seq!['1', '.', '0']
    &&& document.total_segments == records.len()
    &&& document.segments@.len() == records.len()
    &&& forall|i: int|
        0 <= i < records.len() ==> is_entry_of(#[trigger] document.segments@[i], records[i], i)
}

/// What equal views of entries say of their fields.
proof fn lemma_document(document: TranscriptsDocument, records: Seq<TranscriptSegment>)
    requires
        document.version@ == "1.0"@,
        document.total_segments == records.len(),
        entry_views(document.segments@) == numbered(records),
    ensures
        is_document_of(document, records),
{
    reveal_strlit("1.0");
    assert(document.version@ == seq!['1', '.', '0']);
    let entries = document.segments@;
    assert(entry_views(entries).len() == numbered(records).len());
    assert forall|i: int| 0 <= i < records.len() implies is_entry_of(
        #[trigger] entries[i],
        records[i],
        i,
    ) by {
        assert(entry_views(entries)[i] == numbered(records)[i]);
        assert(entries[i]@ == (records[i]@, i));
    }
}

/// A document holds every record with each of its fields, in order, numbered from
/// zero, and the time it is given.
pub proof fn law_document_holds_records(
    records: &[TranscriptSegment],
    last_updated: String,
    document: TranscriptsDocument,
)
    requires
        call_ensures(transcripts_document_at, (records, last_updated), document),
    ensures
        is_document_of(document, records@),
        document.last_updated@ == last_updated@,
{
    lemma_document(document, records@);
}

/// So does a new document, which tells the time of its making.
pub proof fn law_new_document_holds_records(
    records: &[TranscriptSegment],
    document: TranscriptsDocument,
) -> (year: int)
    requires
        call_ensures(transcripts_document, (records,), document),
    ensures
        is_document_of(document, records@),
        has_time_shape(document.last_updated@, year),
{
    lemma_document(document, records@);
    lemma_time_shape(document.last_updated@)
}

} // verus!
