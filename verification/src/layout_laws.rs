//! What a reader finds under the keys of the saved document.

use crate::layout::{
    document_field_views, document_fields, document_layout, entry_fields, entry_layout,
    entry_layouts, field_views, DocumentValue, FieldValue,
};
use crate::transcript::{entry_views, TranscriptEntry, TranscriptView, TranscriptsDocument};
use vstd::prelude::*;

verus! {

/// The value is this text.
pub open spec fn holds_text(value: FieldValue, text: Seq<char>) -> bool {
    value is Text && value->Text_0@ == text
}

/// What is laid out for a record: each of its seven fields under its own key, in this
/// order, and nothing else.
pub open spec fn lays_out(entry: TranscriptEntry, fields: Seq<(&'static str, FieldValue)>) -> bool {
    &&& fields.len() == 7
    &&& fields[0].0@ == "id"@ && holds_text(fields[0].1, entry.id@)
    &&& fields[1].0@ == "text"@ && holds_text(fields[1].1, entry.text@)
    &&& fields[2].0@ == "timestamp"@ && holds_text(fields[2].1, entry.timestamp@)
    &&& fields[3].0@ == "audio_start_time"@ && fields[3].1 == FieldValue::Number(
        entry.audio_start_time,
    )
    &&& fields[4].0@ == "audio_end_time"@ && fields[4].1 == FieldValue::Number(entry.audio_end_time)
    &&& fields[5].0@ == "duration"@ && fields[5].1 == FieldValue::Number(entry.duration)
    &&& fields[6].0@ == "sequence_id"@ && fields[6].1 == FieldValue::Count(entry.sequence_id)
}

/// What the view of fields says of them.
proof fn lemma_lays_out(entry: TranscriptEntry, fields: Seq<(&'static str, FieldValue)>)
    requires
        field_views(fields) == entry_layout(entry@),
    ensures
        lays_out(entry, fields),
{
    let views = field_views(fields);
    let layout = entry_layout(entry@);
    assert(views.len() == 7);
    assert forall|i: int| 0 <= i < 7 implies (#[trigger] fields[i]).0@ == layout[i].0
        && fields[i].1@ == layout[i].1 by {
        assert(views[i] == layout[i]);
    }
    assert(fields[0].1 is Text && fields[1].1 is Text && fields[2].1 is Text);
    assert(fields[3].1 is Number && fields[4].1 is Number && fields[5].1 is Number);
    assert(fields[6].1 is Count);
}

/// A record is laid out with each of its fields under the field's own key.
pub proof fn law_entry_fields(entry: &TranscriptEntry, fields: Vec<(&'static str, FieldValue)>)
    requires
        call_ensures(entry_fields, (entry,), fields),
    ensures
        lays_out(*entry, fields@),
{
    lemma_lays_out(*entry, fields@);
}

/// Whatever stands under a key is the field of that name: a reader who looks a key up
/// finds the record's value, whichever place the key has.
pub proof fn law_fields_are_found_under_their_keys(
    entry: &TranscriptEntry,
    fields: Vec<(&'static str, FieldValue)>,
    i: int,
)
    requires
        call_ensures(entry_fields, (entry,), fields),
        0 <= i < fields@.len(),
    ensures
        fields@[i].0@ == "id"@ ==> holds_text(fields@[i].1, entry.id@),
        fields@[i].0@ == "text"@ ==> holds_text(fields@[i].1, entry.text@),
        fields@[i].0@ == "timestamp"@ ==> holds_text(fields@[i].1, entry.timestamp@),
        fields@[i].0@ == "audio_start_time"@ ==> fields@[i].1 == FieldValue::Number(
            entry.audio_start_time,
        ),
        fields@[i].0@ == "audio_end_time"@ ==> fields@[i].1 == FieldValue::Number(
            entry.audio_end_time,
        ),
        fields@[i].0@ == "duration"@ ==> fields@[i].1 == FieldValue::Number(entry.duration),
        fields@[i].0@ == "sequence_id"@ ==> fields@[i].1 == FieldValue::Count(entry.sequence_id),
{
    lemma_lays_out(*entry, fields@);
    reveal_strlit("id");
    reveal_strlit("text");
    reveal_strlit("timestamp");
    reveal_strlit("audio_start_time");
    reveal_strlit("audio_end_time");
    reveal_strlit("duration");
    reveal_strlit("sequence_id");
    // The keys have different lengths.
    assert("id"@.len() == 2 && "text"@.len() == 4 && "timestamp"@.len() == 9);
    assert("audio_start_time"@.len() == 16 && "audio_end_time"@.len() == 14);
    assert("duration"@.len() == 8 && "sequence_id"@.len() == 11);
}

/// The layout of a record tells the record: where two are laid out alike, they are
/// alike in every field.
pub proof fn law_layout_tells_record(
    entry: &TranscriptEntry,
    other: &TranscriptEntry,
    fields: Vec<(&'static str, FieldValue)>,
    other_fields: Vec<(&'static str, FieldValue)>,
)
    requires
        call_ensures(entry_fields, (entry,), fields),
        call_ensures(entry_fields, (other,), other_fields),
        fields@.len() == other_fields@.len(),
        forall|i: int|
            0 <= i < fields@.len() ==> (#[trigger] fields@[i]).1@ == other_fields@[i].1@,
    ensures
        entry.id@ == other.id@,
        entry.text@ == other.text@,
        entry.timestamp@ == other.timestamp@,
        entry.audio_start_time == other.audio_start_time,
        entry.audio_end_time == other.audio_end_time,
        entry.duration == other.duration,
        entry.sequence_id == other.sequence_id,
{
    lemma_lays_out(*entry, fields@);
    lemma_lays_out(*other, other_fields@);
    assert(fields@[0].1@ == other_fields@[0].1@);
    assert(fields@[1].1@ == other_fields@[1].1@);
    assert(fields@[2].1@ == other_fields@[2].1@);
    assert(fields@[3].1@ == other_fields@[3].1@);
    assert(fields@[4].1@ == other_fields@[4].1@);
    assert(fields@[5].1@ == other_fields@[5].1@);
    assert(fields@[6].1@ == other_fields@[6].1@);
}

/// Equal layouts are those of equal records in equal places.
pub proof fn law_entry_layout_is_injective(a: (TranscriptView, int), b: (TranscriptView, int))
    requires
        entry_layout(a) == entry_layout(b),
    ensures
        a == b,
{
    let first = entry_layout(a);
    let second = entry_layout(b);
    assert(first[0] == second[0] && first[1] == second[1] && first[2] == second[2]);
    assert(first[3] == second[3] && first[4] == second[4] && first[5] == second[5]);
    assert(first[6] == second[6]);
}

/// What is laid out for a document: version, time and number of records, each under
/// its own key, then the layouts of all records in order.
pub open spec fn lays_out_document(
    document: TranscriptsDocument,
    fields: Seq<(&'static str, DocumentValue)>,
) -> bool {
    &&& fields.len() == 4
    &&& fields[0].0@ == "version"@ && fields[0].1 is Field && holds_text(
        fields[0].1->Field_0,
        document.version@,
    )
    &&& fields[1].0@ == "last_updated"@ && fields[1].1 is Field && holds_text(
        fields[1].1->Field_0,
        document.last_updated@,
    )
    &&& fields[2].0@ == "total_segments"@ && fields[2].1 == DocumentValue::Field(
        FieldValue::Count(document.total_segments),
    )
    &&& fields[3].0@ == "segments"@ && fields[3].1 is Entries
    &&& fields[3].1->Entries_0@.len() == document.segments@.len()
    &&& forall|i: int|
        0 <= i < document.segments@.len() ==> lays_out(
            document.segments@[i],
            (#[trigger] fields[3].1->Entries_0@[i])@,
        )
}

/// A document is laid out with all it holds: every record with every field.
pub proof fn law_document_fields(
    document: &TranscriptsDocument,
    fields: Vec<(&'static str, DocumentValue)>,
)
    requires
        call_ensures(document_fields, (document,), fields),
    ensures
        lays_out_document(*document, fields@),
{
    let views = document_field_views(fields@);
    let layout = document_layout(*document);
    assert(views == layout);
    assert(views.len() == 4);
    assert forall|i: int| 0 <= i < 4 implies (#[trigger] fields@[i]).0@ == layout[i].0
        && fields@[i].1@ == layout[i].1 by {
        assert(views[i] == layout[i]);
    }
    assert(fields@[0].1 is Field && fields@[1].1 is Field && fields@[2].1 is Field);
    assert(fields@[3].1 is Entries);
    assert(fields@[0].1->Field_0 is Text && fields@[1].1->Field_0 is Text);
    assert(fields@[2].1->Field_0 is Count);
    let entries = fields@[3].1->Entries_0;
    let laid_out = Seq::new(entries@.len(), |i: int| field_views(entries@[i]@));
    let expected = entry_layouts(entry_views(document.segments@));
    assert(laid_out == expected);
    assert(laid_out.len() == entries@.len());
    assert forall|i: int| 0 <= i < document.segments@.len() implies lays_out(
        document.segments@[i],
        (#[trigger] entries@[i])@,
    ) by {
        assert(laid_out[i] == expected[i]);
        lemma_lays_out(document.segments@[i], entries@[i]@);
    }
}

} // verus!
