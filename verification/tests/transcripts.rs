use speech_batch::arithmetic::Operation;
use speech_batch::binary::Binary64;
use speech_batch::layout::{document_fields, entry_fields, DocumentValue, FieldValue};
use speech_batch::transcript::{
    create_transcript_segments, stamped_transcript_segments, transcript_segment, transcripts_document, transcripts_document_at,
    TranscriptSegment, MS_PER_SECOND,
};

fn wide(value: f64) -> Binary64 {
    Binary64 { bits: value.to_bits() }
}

fn as_f64(value: Binary64) -> f64 {
    f64::from_bits(value.bits)
}

fn wide_op(operation: Operation, a: Binary64, b: Binary64) -> Binary64 {
    let (a, b) = (as_f64(a), as_f64(b));
    wide(match operation {
        Operation::Add => a + b,
        Operation::Subtract => a - b,
        Operation::Multiply => a * b,
        Operation::Divide => a / b,
    })
}

fn create(transcripts: &[(String, Binary64, Binary64)]) -> Vec<TranscriptSegment> {
    create_transcript_segments(transcripts, wide_op)
}

fn is_utc_time(text: &str) -> bool {
    let chars: Vec<char> = text.chars().collect();
    [25, 29, 32, 35].contains(&chars.len())
        && text.ends_with("+00:00")
        && chars[4] == '-'
        && chars[7] == '-'
        && chars[10] == 'T'
        && chars[13] == ':'
        && chars[16] == ':'
        && (chars.len() == 25 || chars[19] == '.')
}

#[test]
fn results_become_records_in_order() {
    let segments = create(&[
        ("  Hello there \n".to_string(), wide(1500.0), wide(4000.0)),
        ("second".to_string(), wide(5000.0), wide(5250.0)),
    ]);

    assert_eq!(segments.len(), 2);
    assert_eq!(segments[0].text, "Hello there");
    assert_eq!(segments[0].audio_start_time.map(as_f64), Some(1.5));
    assert_eq!(segments[0].audio_end_time.map(as_f64), Some(4.0));
    assert_eq!(segments[0].duration.map(as_f64), Some(2.5));
    assert_eq!(segments[1].text, "second");
    assert_eq!(segments[1].audio_start_time.map(as_f64), Some(5.0));
    assert_eq!(segments[1].duration.map(as_f64), Some(0.25));
}

#[test]
fn milliseconds_are_divided_by_a_thousand() {
    assert_eq!(MS_PER_SECOND, 1000.0f64.to_bits());
    let segments = create(&[("text".to_string(), wide(0.3), wide(1234.567))]);
    assert_eq!(segments[0].audio_start_time.map(as_f64), Some(0.3 / 1000.0));
    assert_eq!(segments[0].audio_end_time.map(as_f64), Some(1234.567 / 1000.0));
    assert_eq!(segments[0].duration.map(as_f64), Some(1234.567 / 1000.0 - 0.3 / 1000.0));
}

#[test]
fn each_record_gets_its_own_stamp() {
    let transcripts = [
        (" one".to_string(), wide(0.0), wide(1000.0)),
        ("two ".to_string(), wide(2000.0), wide(2500.0)),
    ];
    let stamps = [
        ("u1".to_string(), "t1".to_string()),
        ("u2".to_string(), "t2".to_string()),
    ];
    let segments = stamped_transcript_segments(&transcripts, &stamps, &wide_op);
    assert_eq!(segments.len(), 2);
    assert_eq!(segments[0].id, "transcript-u1");
    assert_eq!(segments[0].timestamp, "t1");
    assert_eq!(segments[0].text, "one");
    assert_eq!(segments[1].id, "transcript-u2");
    assert_eq!(segments[1].timestamp, "t2");
    assert_eq!(segments[1].text, "two");
    assert_eq!(segments[1].audio_start_time.map(as_f64), Some(2.0));
    assert_eq!(segments[1].audio_end_time.map(as_f64), Some(2.5));
    assert_eq!(segments[1].duration.map(as_f64), Some(0.5));
}

#[test]
fn no_results_give_no_records() {
    assert!(create(&[]).is_empty());
}

#[test]
fn records_have_names_of_their_own() {
    let result = ("text".to_string(), wide(0.0), wide(1.0));
    let segments = create(&[result.clone(), result]);
    assert!(segments[0].id != segments[1].id);
    for segment in &segments {
        let uuid: Vec<char> = segment.id.strip_prefix("transcript-").unwrap().chars().collect();
        assert_eq!(uuid.len(), 36);
        for (i, c) in uuid.iter().enumerate() {
            match i {
                8 | 13 | 18 | 23 => assert_eq!(*c, '-'),
                14 => assert_eq!(*c, '4'),
                19 => assert!(['8', '9', 'a', 'b'].contains(c)),
                _ => assert!(c.is_ascii_digit() || ('a'..='f').contains(c)),
            }
        }
    }
}

#[test]
fn records_carry_the_time_of_their_making() {
    let segments = create(&[("text".to_string(), wide(0.0), wide(1.0))]);
    assert!(is_utc_time(&segments[0].timestamp), "{}", segments[0].timestamp);
    assert!(chrono::DateTime::parse_from_rfc3339(&segments[0].timestamp).is_ok());
}

#[test]
fn white_space_is_removed_from_both_ends_only() {
    let text = |inner: &str| {
        transcript_segment(inner, wide(0.0), wide(0.0), wide(0.0), "u", String::new()).text
    };
    assert_eq!(text(" \t\r\n\u{b}\u{c} a  b\u{85}\u{a0}\u{1680}\u{2028}\u{202f}\u{3000}"), "a  b");
    assert_eq!(text("\u{200b}a\u{180e}\u{feff}"), "\u{200b}a\u{180e}\u{feff}");
    assert_eq!(text(" \u{2009} "), "");
    assert_eq!(text(""), "");
}

#[test]
fn white_space_is_the_unicode_property() {
    let listed: Vec<char> = (0x9..=0xd)
        .chain([0x20, 0x85, 0xa0, 0x1680])
        .chain(0x2000..=0x200a)
        .chain([0x2028, 0x2029, 0x202f, 0x205f, 0x3000])
        .map(|code| char::from_u32(code).unwrap())
        .collect();
    let found: Vec<char> = ('\0'..=char::MAX).filter(|c| c.to_string().trim().is_empty()).collect();
    assert_eq!(found, listed);
}

#[test]
fn record_takes_what_it_is_given() {
    let segment = transcript_segment(
        " said ",
        wide(1.0),
        wide(3.0),
        wide(2.0),
        "0b5e",
        "2024-01-01T00:00:00+00:00".to_string(),
    );
    assert_eq!(segment.id, "transcript-0b5e");
    assert_eq!(segment.text, "said");
    assert_eq!(segment.timestamp, "2024-01-01T00:00:00+00:00");
    assert_eq!(segment.audio_start_time, Some(wide(1.0)));
    assert_eq!(segment.audio_end_time, Some(wide(3.0)));
    assert_eq!(segment.duration, Some(wide(2.0)));
}

fn record(id: &str) -> TranscriptSegment {
    TranscriptSegment {
        id: id.to_string(),
        text: format!("text of {}", id),
        timestamp: "t".to_string(),
        audio_start_time: Some(wide(0.5)),
        audio_end_time: None,
        duration: Some(wide(1.25)),
    }
}

#[test]
fn document_numbers_its_records() {
    let segments = vec![record("a"), record("b"), record("c")];
    let document = transcripts_document_at(&segments, "now".to_string());
    assert_eq!(document.version, "1.0");
    assert_eq!(document.last_updated, "now");
    assert_eq!(document.total_segments, 3);
    assert_eq!(document.segments.len(), 3);
    for (i, (entry, segment)) in document.segments.iter().zip(segments.iter()).enumerate() {
        assert_eq!(entry.sequence_id, i);
        assert_eq!(entry.id, segment.id);
        assert_eq!(entry.text, segment.text);
        assert_eq!(entry.timestamp, segment.timestamp);
        assert_eq!(entry.audio_start_time, segment.audio_start_time);
        assert_eq!(entry.audio_end_time, None);
        assert_eq!(entry.duration, segment.duration);
    }
}

fn text(value: &FieldValue) -> &str {
    match value {
        FieldValue::Text(text) => text,
        _ => panic!("no text: {:?}", value),
    }
}

#[test]
fn record_is_laid_out_under_its_keys() {
    let document = transcripts_document_at(&[record("a"), record("b")], "now".to_string());
    let fields = entry_fields(&document.segments[1]);
    let keys: Vec<&str> = fields.iter().map(|(key, _)| *key).collect();
    assert_eq!(
        keys,
        vec![
            "id",
            "text",
            "timestamp",
            "audio_start_time",
            "audio_end_time",
            "duration",
            "sequence_id"
        ]
    );
    assert_eq!(text(&fields[0].1), "b");
    assert_eq!(text(&fields[1].1), "text of b");
    assert_eq!(text(&fields[2].1), "t");
    assert!(matches!(fields[3].1, FieldValue::Number(Some(n)) if n == wide(0.5)));
    assert!(matches!(fields[4].1, FieldValue::Number(None)));
    assert!(matches!(fields[5].1, FieldValue::Number(Some(n)) if n == wide(1.25)));
    assert!(matches!(fields[6].1, FieldValue::Count(1)));
}

#[test]
fn document_is_laid_out_under_its_keys() {
    let document = transcripts_document_at(&[record("a"), record("b")], "now".to_string());
    let fields = document_fields(&document);
    let keys: Vec<&str> = fields.iter().map(|(key, _)| *key).collect();
    assert_eq!(keys, vec!["version", "last_updated", "total_segments", "segments"]);
    assert!(matches!(&fields[0].1, DocumentValue::Field(value) if text(value) == "1.0"));
    assert!(matches!(&fields[1].1, DocumentValue::Field(value) if text(value) == "now"));
    assert!(matches!(&fields[2].1, DocumentValue::Field(FieldValue::Count(2))));
    match &fields[3].1 {
        DocumentValue::Entries(entries) => {
            assert_eq!(entries.len(), 2);
            assert_eq!(text(&entries[0][0].1), "a");
            assert_eq!(text(&entries[1][0].1), "b");
            assert!(matches!(entries[1][6], ("sequence_id", FieldValue::Count(1))));
        }
        other => panic!("no entries: {:?}", other),
    }
}

#[test]
fn document_of_nothing_is_empty() {
    let document = transcripts_document(&[]);
    assert_eq!(document.total_segments, 0);
    assert!(document.segments.is_empty());
    assert!(is_utc_time(&document.last_updated));
}
