//! The layout of the saved document: which value stands under which key.

use crate::binary::Binary64;
use crate::transcript::{entry_views, TranscriptEntry, TranscriptView, TranscriptsDocument};
use vstd::prelude::*;

verus! {

/// A value in the saved document.
#[derive(Debug)]
pub enum FieldValue {
    /// A text.
    Text(String),
    /// A number, or nothing.
    Number(Option<Binary64>),
    /// A count.
    Count(usize),
}

/// What a value is.
pub enum FieldView {
    /// A text.
    Text(Seq<char>),
    /// A number, or nothing.
    Number(Option<Binary64>),
    /// A count.
    Count(int),
}

impl View for FieldValue {
    type V = FieldView;

    open spec fn view(&self) -> FieldView {
        match self {
            FieldValue::Text(text) => FieldView::Text(text@),
            FieldValue::Number(number) => FieldView::Number(*number),
            FieldValue::Count(count) => FieldView::Count(*count as int),
        }
    }
}

/// The keys with their values.
pub open spec fn field_views(fields: Seq<(&'static str, FieldValue)>) -> Seq<
    (Seq<char>, FieldView),
> {
    Seq::new(fields.len(), |i: int| (fields[i].0@, fields[i].1@))
}

/// The layout of a record, given with its place.
pub open spec fn entry_layout(entry: (TranscriptView, int)) -> Seq<(Seq<char>, FieldView)> {
    let (record, place) = entry;
    seq![
        ("id"@, FieldView::Text(record.id)),
        ("text"@, FieldView::Text(record.text)),
        ("timestamp"@, FieldView::Text(record.timestamp)),
        ("audio_start_time"@, FieldView::Number(record.start)),
        ("audio_end_time"@, FieldView::Number(record.end)),
        ("duration"@, FieldView::Number(record.duration)),
        ("sequence_id"@, FieldView::Count(place)),
    ]
}

/// The keys and values of a record.
pub fn entry_fields(entry: &TranscriptEntry) -> (fields: Vec<(&'static str, FieldValue)>)
    ensures
        field_views(fields@) == entry_layout(entry@),
{
    let mut fields: Vec<(&'static str, FieldValue)> = Vec::new();
    fields.push(("id", FieldValue::Text(entry.id.clone())));
    fields.push(("text", FieldValue::Text(entry.text.clone())));
    fields.push(("timestamp", FieldValue::Text(entry.timestamp.clone())));
    fields.push(("audio_start_time", FieldValue::Number(entry.audio_start_time)));
    fields.push(("audio_end_time", FieldValue::Number(entry.audio_end_time)));
    fields.push(("duration", FieldValue::Number(entry.duration)));
    fields.push(("sequence_id", FieldValue::Count(entry.sequence_id)));
    assert(field_views(fields@) =~= entry_layout(entry@));
    fields
}

/// What stands under a key of the document.
#[derive(Debug)]
pub enum DocumentValue {
    /// A single value.
    Field(FieldValue),
    /// The records, each with its keys and values.
    Entries(Vec<Vec<(&'static str, FieldValue)>>),
}

/// What stands under a key of the document, as it is.
pub enum DocumentFieldView {
    /// A single value.
    Field(FieldView),
    /// The records, each with its keys and values.
    Entries(Seq<Seq<(Seq<char>, FieldView)>>),
}

impl View for DocumentValue {
    type V = DocumentFieldView;

    open spec fn view(&self) -> DocumentFieldView {
        match self {
            DocumentValue::Field(value) => DocumentFieldView::Field(value@),
            DocumentValue::Entries(entries) => DocumentFieldView::Entries(
                Seq::new(entries@.len(), |i: int| field_views(entries@[i]@)),
            ),
        }
    }
}

/// The keys with what stands under them.
pub open spec fn document_field_views(fields: Seq<(&'static str, DocumentValue)>) -> Seq<
    (Seq<char>, DocumentFieldView),
> {
    Seq::new(fields.len(), |i: int| (fields[i].0@, fields[i].1@))
}

/// The layouts of all records, in order.
pub open spec fn entry_layouts(entries: Seq<(TranscriptView, int)>) -> Seq<
    Seq<(Seq<char>, FieldView)>,
> {
    Seq::new(entries.len(), |i: int| entry_layout(entries[i]))
}

/// The layout of a document.
pub open spec fn document_layout(document: TranscriptsDocument) -> Seq<
    (Seq<char>, DocumentFieldView),
> {
    seq![
        ("version"@, DocumentFieldView::Field(FieldView::Text(document.version@))),
        ("last_updated"@, DocumentFieldView::Field(FieldView::Text(document.last_updated@))),
        (
            "total_segments"@,
            DocumentFieldView::Field(FieldView::Count(document.total_segments as int)),
        ),
        (
            "segments"@,
            DocumentFieldView::Entries(entry_layouts(entry_views(document.segments@))),
        ),
    ]
}

/// The keys of a document and what stands under them.
pub fn document_fields(document: &TranscriptsDocument) -> (fields: Vec<
    (&'static str, DocumentValue),
>)
    ensures
        document_field_views(fields@) == document_layout(*document),
{
    let mut entries: Vec<Vec<(&'static str, FieldValue)>> = Vec::new();
    let mut i: usize = 0;
    while i < document.segments.len()
        invariant
            i <= document.segments@.len(),
            entries@.len() == i,
            forall|j: int|
                0 <= j < i ==> field_views((#[trigger] entries@[j])@) == entry_layout(
                    document.segments@[j]@,
                ),
        decreases document.segments@.len() - i,
    {
        entries.push(entry_fields(&document.segments[i]));
        i = i + 1;
    }
    let ghost laid_out = Seq::new(entries@.len(), |i: int| field_views(entries@[i]@));
    assert(laid_out =~= entry_layouts(entry_views(document.segments@)));
    let mut fields: Vec<(&'static str, DocumentValue)> = Vec::new();
    fields.push(("version", DocumentValue::Field(FieldValue::Text(document.version.clone()))));
    fields.push(
        ("last_updated", DocumentValue::Field(FieldValue::Text(document.last_updated.clone()))),
    );
    fields.push(
        ("total_segments", DocumentValue::Field(FieldValue::Count(document.total_segments))),
    );
    fields.push(("segments", DocumentValue::Entries(entries)));
    assert(document_field_views(fields@) =~= document_layout(*document));
    fields
}

/// No key stands twice, neither in a record nor in a document: no value hides
/// another one.
pub proof fn law_keys_are_distinct(entry: (TranscriptView, int), document: TranscriptsDocument)
    ensures
        forall|i: int, j: int|
            0 <= i < j < entry_layout(entry).len() ==> (#[trigger] entry_layout(entry)[i]).0 != (
            #[trigger] entry_layout(entry)[j]).0,
        forall|i: int, j: int|
            0 <= i < j < document_layout(document).len() ==> (#[trigger] document_layout(
                document,
            )[i]).0 != (#[trigger] document_layout(document)[j]).0,
{
    reveal_strlit("id");
    reveal_strlit("text");
    reveal_strlit("timestamp");
    reveal_strlit("audio_start_time");
    reveal_strlit("audio_end_time");
    reveal_strlit("duration");
    reveal_strlit("sequence_id");
    reveal_strlit("version");
    reveal_strlit("last_updated");
    reveal_strlit("total_segments");
    reveal_strlit("segments");
    // The keys have different lengths.
    let record = entry_layout(entry);
    assert(record[0].0.len() == 2 && record[1].0.len() == 4 && record[2].0.len() == 9);
    assert(record[3].0.len() == 16 && record[4].0.len() == 14 && record[5].0.len() == 8);
    assert(record[6].0.len() == 11);
    assert forall|i: int, j: int| 0 <= i < j < record.len() implies (#[trigger] record[i]).0 != (
    #[trigger] record[j]).0 by {
        assert(record[i].0.len() != record[j].0.len());
    }
    let whole = document_layout(document);
    assert(whole[0].0.len() == 7 && whole[1].0.len() == 12);
    assert(whole[2].0.len() == 14 && whole[3].0.len() == 8);
    assert forall|i: int, j: int| 0 <= i < j < whole.len() implies (#[trigger] whole[i]).0 != (
    #[trigger] whole[j]).0 by {
        assert(whole[i].0.len() != whole[j].0.len());
    }
}

} // verus!
