use speech_batch::binary::{Binary32, Binary64};
use speech_batch::pack::pack_segments_to_target;
use speech_batch::segment::SpeechSegment;

const SR: usize = 16000;
const TARGET: usize = 25 * SR;

fn narrow(value: f32) -> Binary32 {
    Binary32 { bits: value.to_bits() }
}

fn wide(value: f64) -> Binary64 {
    Binary64 { bits: value.to_bits() }
}

fn as_f64(value: Binary64) -> f64 {
    f64::from_bits(value.bits)
}

fn as_f32(value: Binary32) -> f32 {
    f32::from_bits(value.bits)
}

/// A segment of `seconds` duration whose timestamps start at `start_s`.
fn segment(start_s: f64, seconds: f64) -> SpeechSegment {
    SpeechSegment {
        samples: vec![narrow(0.1); (seconds * SR as f64) as usize],
        start_timestamp_ms: wide(start_s * 1000.0),
        end_timestamp_ms: wide((start_s + seconds) * 1000.0),
        confidence: narrow(0.9),
    }
}

/// A segment with the given samples, one second long in time.
fn small(start_s: f64, values: &[f32]) -> SpeechSegment {
    SpeechSegment {
        samples: values.iter().map(|v| narrow(*v)).collect(),
        start_timestamp_ms: wide(start_s * 1000.0),
        end_timestamp_ms: wide(start_s * 1000.0 + 1000.0),
        confidence: narrow(0.9),
    }
}

fn same(a: &SpeechSegment, b: &SpeechSegment) -> bool {
    a.samples == b.samples
        && a.start_timestamp_ms == b.start_timestamp_ms
        && a.end_timestamp_ms == b.end_timestamp_ms
        && a.confidence == b.confidence
}

#[test]
fn packing_merges_short_segments_up_to_target() {
    // Ten 3.5s segments.
    let segments: Vec<_> = (0..10).map(|i| segment(i as f64 * 4.5, 3.5)).collect();

    let packed = pack_segments_to_target(&segments, TARGET);

    // 3.5s * 7 = 24.5s fits; an eighth would reach 28s and must not.
    assert_eq!(packed.len(), 2);
    assert_eq!(packed[0].samples.len(), (3.5 * 7.0 * SR as f64) as usize);
    assert_eq!(packed[1].samples.len(), (3.5 * 3.0 * SR as f64) as usize);
}

#[test]
fn packing_never_exceeds_target() {
    let segments: Vec<_> = (0..50).map(|i| segment(i as f64 * 2.0, 1.7)).collect();

    for group in pack_segments_to_target(&segments, TARGET) {
        assert!(
            group.samples.len() <= TARGET,
            "packed group of {} samples exceeds target {}",
            group.samples.len(),
            TARGET
        );
    }
}

#[test]
fn packing_spans_first_start_to_last_end() {
    let segments = vec![segment(0.0, 3.0), segment(5.0, 3.0), segment(10.0, 3.0)];

    let packed = pack_segments_to_target(&segments, TARGET);

    assert_eq!(packed.len(), 1);
    assert_eq!(as_f64(packed[0].start_timestamp_ms), 0.0);
    assert_eq!(as_f64(packed[0].end_timestamp_ms), 13_000.0);
    // Inter-segment silence is dropped, so the audio is shorter than the span.
    assert_eq!(packed[0].samples.len(), (9.0 * SR as f64) as usize);
}

#[test]
fn packing_preserves_total_audio_and_order() {
    let segments: Vec<_> = (0..13).map(|i| segment(i as f64 * 6.0, 5.0)).collect();
    let total: usize = segments.iter().map(|s| s.samples.len()).sum();

    let packed = pack_segments_to_target(&segments, TARGET);

    assert_eq!(packed.iter().map(|s| s.samples.len()).sum::<usize>(), total);
    assert!(
        packed
            .windows(2)
            .all(|w| as_f64(w[0].end_timestamp_ms) <= as_f64(w[1].start_timestamp_ms)),
        "packed groups must stay in chronological order"
    );
}

#[test]
fn packing_passes_through_oversized_segment_untouched() {
    // Splitting runs first, so this should not occur -- but if it does, the
    // segment must survive rather than be silently cut.
    let long = segment(0.0, 40.0);

    let packed = pack_segments_to_target(&[long.clone()], TARGET);

    assert_eq!(packed.len(), 1);
    assert_eq!(packed[0].samples.len(), long.samples.len());
}

#[test]
fn packing_handles_empty_input() {
    assert!(pack_segments_to_target(&[], TARGET).is_empty());
}

#[test]
fn packing_takes_weakest_confidence_in_group() {
    let mut low = segment(5.0, 3.0);
    low.confidence = narrow(0.42);
    let segments = vec![segment(0.0, 3.0), low];

    let packed = pack_segments_to_target(&segments, TARGET);

    assert_eq!(packed.len(), 1);
    assert!((as_f32(packed[0].confidence) - 0.42).abs() < f32::EPSILON);
}

#[test]
fn packing_joins_samples_in_order() {
    let segments = vec![
        small(0.0, &[1.0, 2.0]),
        small(2.0, &[]),
        small(4.0, &[3.0]),
        small(6.0, &[4.0, 5.0, 6.0]),
        small(8.0, &[7.0]),
    ];

    let packed = pack_segments_to_target(&segments, 3);

    let groups: Vec<Vec<f32>> =
        packed.iter().map(|p| p.samples.iter().map(|s| as_f32(*s)).collect()).collect();
    assert_eq!(groups, vec![vec![1.0, 2.0, 3.0], vec![4.0, 5.0, 6.0], vec![7.0]]);
    assert_eq!(as_f64(packed[0].start_timestamp_ms), 0.0);
    assert_eq!(as_f64(packed[0].end_timestamp_ms), 5000.0);
    assert_eq!(as_f64(packed[1].start_timestamp_ms), 6000.0);
    assert_eq!(as_f64(packed[1].end_timestamp_ms), 7000.0);
}

#[test]
fn packing_keeps_oversized_segment_apart() {
    let segments =
        vec![small(0.0, &[1.0]), small(2.0, &[2.0, 3.0, 4.0]), small(4.0, &[]), small(6.0, &[5.0])];

    let packed = pack_segments_to_target(&segments, 2);

    assert_eq!(packed.len(), 3);
    assert!(same(&packed[0], &segments[0]));
    assert!(same(&packed[1], &segments[1]));
    assert_eq!(packed[2].samples, vec![narrow(5.0)]);
    assert_eq!(as_f64(packed[2].start_timestamp_ms), 4000.0);
}

#[test]
fn packing_to_zero_joins_only_empty_segments() {
    let segments = vec![small(0.0, &[]), small(2.0, &[]), small(4.0, &[1.0]), small(6.0, &[])];

    let packed = pack_segments_to_target(&segments, 0);

    assert_eq!(packed.iter().map(|p| p.samples.len()).collect::<Vec<_>>(), vec![0, 1, 0]);
    assert_eq!(as_f64(packed[0].end_timestamp_ms), 3000.0);
}

#[test]
fn packing_twice_changes_nothing() {
    let segments: Vec<_> = (0..9).map(|i| small(i as f64 * 2.0, &vec![0.5; i % 4])).collect();

    let once = pack_segments_to_target(&segments, 5);
    let twice = pack_segments_to_target(&once, 5);

    assert_eq!(once.len(), twice.len());
    assert!(once.iter().zip(twice.iter()).all(|(a, b)| same(a, b)));
}

#[test]
fn packing_fills_each_request() {
    let segments: Vec<_> = (0..20).map(|i| small(i as f64, &vec![0.5; 1 + i % 3])).collect();

    let packed = pack_segments_to_target(&segments, 7);

    for pair in packed.windows(2) {
        assert!(pair[0].samples.len() + pair[1].samples.len() > 7);
    }
}

#[test]
fn packed_span_covers_its_members() {
    let segments: Vec<_> = (0..6).map(|i| small(i as f64 * 1.5, &[0.5])).collect();

    let packed = pack_segments_to_target(&segments, 3);

    assert_eq!(packed.len(), 2);
    for group in packed {
        // Three seconds of speech, and two gaps of half a second.
        assert_eq!(as_f64(group.end_timestamp_ms) - as_f64(group.start_timestamp_ms), 4000.0);
    }
}

/// The fewest runs that `sizes` can be divided into, found by trying all.
fn fewest(sizes: &[usize], target: usize) -> usize {
    if sizes.is_empty() {
        return 0;
    }
    (1..=sizes.len())
        .filter(|n| *n == 1 || sizes[..*n].iter().sum::<usize>() <= target)
        .map(|n| 1 + fewest(&sizes[n..], target))
        .min()
        .unwrap()
}

#[test]
fn packing_makes_as_few_requests_as_can_be() {
    for seed in 0..40usize {
        let sizes: Vec<usize> = (0..9).map(|i| (seed * 7 + i * i * 5 + i * seed) % 6).collect();
        let segments: Vec<_> =
            sizes.iter().enumerate().map(|(i, n)| small(i as f64, &vec![0.5; *n])).collect();
        assert_eq!(pack_segments_to_target(&segments, 4).len(), fewest(&sizes, 4));
    }
}

#[test]
fn packing_passes_over_confidence_that_is_no_number() {
    let mut unknown = small(0.0, &[1.0]);
    unknown.confidence = narrow(f32::NAN);
    let mut sure = small(2.0, &[2.0]);
    sure.confidence = narrow(0.7);

    let packed = pack_segments_to_target(&[unknown.clone(), sure.clone()], 10);
    assert_eq!(as_f32(packed[0].confidence), 0.7);

    let packed = pack_segments_to_target(&[sure, unknown], 10);
    assert_eq!(as_f32(packed[0].confidence), 0.7);
}

#[test]
fn clone_keeps_everything() {
    let original = small(3.0, &[0.25, -0.5]);
    assert!(same(&original, &original.clone()));
}
