use speech_batch::arithmetic::{rms, Operation};
use speech_batch::binary::{Binary32, Binary64};
use speech_batch::pack::pack_segments_to_target;
use speech_batch::segment::SpeechSegment;
use speech_batch::split::{
    choose_split, find_quietest, search_range, split_segment_at_silence, split_with_decisions,
    ENERGY_WINDOW,
    FALLBACK_OVERLAP, LARGEST_LEVEL, SEARCH_RADIUS, SILENCE_RMS_THRESHOLD, WINDOW_LENGTH,
    WINDOW_STEP,
};

const SR: usize = 16000;

fn narrow(value: f32) -> Binary32 {
    Binary32 { bits: value.to_bits() }
}

fn wide(value: f64) -> Binary64 {
    Binary64 { bits: value.to_bits() }
}

fn as_f64(value: Binary64) -> f64 {
    f64::from_bits(value.bits)
}

fn narrow_op(operation: Operation, a: Binary32, b: Binary32) -> Binary32 {
    let (a, b) = (f32::from_bits(a.bits), f32::from_bits(b.bits));
    narrow(match operation {
        Operation::Add => a + b,
        Operation::Subtract => a - b,
        Operation::Multiply => a * b,
        Operation::Divide => a / b,
    })
}

fn root(a: Binary32) -> Binary32 {
    narrow(f32::from_bits(a.bits).sqrt())
}

fn wide_op(operation: Operation, a: Binary64, b: Binary64) -> Binary64 {
    let (a, b) = (as_f64(a), as_f64(b));
    wide(match operation {
        Operation::Add => a + b,
        Operation::Subtract => a - b,
        Operation::Multiply => a * b,
        Operation::Divide => a / b,
    })
}

fn count(n: usize) -> Binary64 {
    wide(n as f64)
}

fn time_at(start: Binary64, end: Binary64, total: usize, sample: usize) -> Binary64 {
    let per_sample = (as_f64(end) - as_f64(start)) / total as f64;
    wide(as_f64(start) + sample as f64 * per_sample)
}

/// Speech at level 0.5 from `start_ms` on, 16 samples to the millisecond.
fn loud(start_ms: f64, total: usize) -> SpeechSegment {
    SpeechSegment {
        samples: vec![narrow(0.5); total],
        start_timestamp_ms: wide(start_ms),
        end_timestamp_ms: wide(start_ms + total as f64 / 16.0),
        confidence: narrow(0.8),
    }
}

fn split(segment: &SpeechSegment, max_samples: usize) -> Vec<SpeechSegment> {
    split_segment_at_silence(segment, max_samples, narrow_op, root, wide_op, count)
}

fn lengths(chunks: &[SpeechSegment]) -> Vec<usize> {
    chunks.iter().map(|c| c.samples.len()).collect()
}

fn joined(chunks: &[SpeechSegment]) -> Vec<Binary32> {
    chunks.iter().flat_map(|c| c.samples.iter().copied()).collect()
}

#[test]
fn constants_are_those_of_sixteen_kilohertz() {
    assert_eq!(ENERGY_WINDOW, 1600);
    assert_eq!(SEARCH_RADIUS, 48000);
    assert_eq!(WINDOW_STEP, 160);
    assert_eq!(FALLBACK_OVERLAP, 16000);
    assert_eq!(SILENCE_RMS_THRESHOLD, 0.02f32.to_bits());
    assert_eq!(WINDOW_LENGTH, 1600.0f32.to_bits());
    assert_eq!(LARGEST_LEVEL, f32::MAX.to_bits());
}

#[test]
fn level_is_the_root_of_the_mean_square() {
    let window: Vec<Binary32> = (0..1600).map(|i| narrow((i as f32 * 0.37).sin())).collect();
    let squares = window.iter().map(|s| f32::from_bits(s.bits)).map(|s| s * s);
    let expected = (squares.sum::<f32>() / ENERGY_WINDOW as f32).sqrt();
    let level = rms(&window, narrow(1600.0), &narrow_op, &root);
    assert_eq!(f32::from_bits(level.bits), expected);
    let level = rms(&[narrow(3.0), narrow(-4.0)], narrow(2.0), &narrow_op, &root);
    assert_eq!(f32::from_bits(level.bits), 12.5f32.sqrt());
}

#[test]
fn short_segment_is_not_split() {
    let segment = loud(250.0, 400);
    let chunks = split(&segment, 400);
    assert_eq!(chunks.len(), 1);
    assert_eq!(chunks[0].samples, segment.samples);
    assert_eq!(chunks[0].start_timestamp_ms, segment.start_timestamp_ms);
    assert_eq!(chunks[0].end_timestamp_ms, segment.end_timestamp_ms);
    assert_eq!(chunks[0].confidence, segment.confidence);
}

#[test]
fn empty_segment_is_not_split() {
    let chunks = split(&loud(0.0, 0), 0);
    assert_eq!(lengths(&chunks), vec![0]);
}

#[test]
fn speech_without_silence_runs_on_for_a_second() {
    // All windows are equally loud, so the first one is taken: three seconds
    // before the target, plus half a window, plus one second.
    let segment = loud(0.0, 60 * SR);
    let chunks = split(&segment, 25 * SR);
    assert_eq!(lengths(&chunks), vec![368_800, 368_800, 222_400]);
    assert_eq!(joined(&chunks), segment.samples);
}

#[test]
fn silence_near_target_ends_the_chunk() {
    let mut segment = loud(1000.0, 60 * SR);
    for sample in 410_000..412_000 {
        segment.samples[sample] = narrow(0.0);
    }
    let chunks = split(&segment, 25 * SR);
    // The first window that lies wholly in the silence starts at 410080.
    assert_eq!(chunks[0].samples.len(), 410_880);
    assert_eq!(joined(&chunks), segment.samples);
    assert_eq!(as_f64(chunks[0].start_timestamp_ms), 1000.0);
    assert_eq!(as_f64(chunks[0].end_timestamp_ms), 1000.0 + 410_880.0 / 16.0);
}

#[test]
fn quietest_of_several_silences_is_taken() {
    let mut segment = loud(0.0, 40 * SR);
    for sample in 360_000..364_000 {
        segment.samples[sample] = narrow(0.015);
    }
    for sample in 420_000..424_000 {
        segment.samples[sample] = narrow(0.001);
    }
    let chunks = split(&segment, 25 * SR);
    // Windows start at 352000 + 160 k; 420000 is one of them.
    assert_eq!(chunks[0].samples.len(), 420_800);
}

#[test]
fn silence_outside_the_search_is_not_taken() {
    let mut segment = loud(0.0, 60 * SR);
    for sample in 300_000..304_000 {
        segment.samples[sample] = narrow(0.0);
    }
    assert_eq!(split(&segment, 25 * SR)[0].samples.len(), 368_800);
}

#[test]
fn times_of_chunks_join() {
    let segment = loud(5000.0, 60 * SR);
    let chunks = split(&segment, 25 * SR);
    for pair in chunks.windows(2) {
        assert_eq!(pair[0].end_timestamp_ms, pair[1].start_timestamp_ms);
    }
    assert_eq!(as_f64(chunks[0].start_timestamp_ms), 5000.0);
    assert_eq!(chunks[2].end_timestamp_ms, segment.end_timestamp_ms);
    assert!(chunks.iter().all(|c| c.confidence == segment.confidence));
}

#[test]
fn samples_lie_evenly_in_time() {
    let mut segment = loud(100.0, 60 * SR);
    segment.end_timestamp_ms = wide(12_345.678);
    let chunks = split(&segment, 25 * SR);
    let mut from = 0;
    for (i, chunk) in chunks.iter().enumerate() {
        let to = from + chunk.samples.len();
        let (start, end) = (segment.start_timestamp_ms, segment.end_timestamp_ms);
        assert_eq!(chunk.start_timestamp_ms, time_at(start, end, 60 * SR, from));
        if i + 1 < chunks.len() {
            assert_eq!(chunk.end_timestamp_ms, time_at(start, end, 60 * SR, to));
        } else {
            assert_eq!(chunk.end_timestamp_ms, end);
        }
        from = to;
    }
}

#[test]
fn no_room_for_a_window_cuts_at_the_target() {
    // The target lies within the last second: the chunk takes all the rest.
    let segment = loud(0.0, 10_000);
    let chunks = split(&segment, 9_000);
    assert_eq!(lengths(&chunks), vec![10_000]);
    assert_eq!(
        chunks[0].end_timestamp_ms,
        time_at(segment.start_timestamp_ms, segment.end_timestamp_ms, 10_000, 10_000)
    );
}

#[test]
fn wanted_size_of_zero_still_ends() {
    let segment = loud(0.0, 20_000);
    assert_eq!(lengths(&split(&segment, 0)), vec![20_000]);
    let segment = loud(0.0, 100_000);
    let chunks = split(&segment, 0);
    assert_eq!(lengths(&chunks), vec![32_800, 32_800, 32_800, 1_600]);
    assert_eq!(joined(&chunks), segment.samples);
}

#[test]
fn levels_that_are_no_numbers_are_passed_over() {
    let segment = loud(0.0, 60 * SR);
    let unknown = |_: Binary32| narrow(f32::NAN);
    let chunks = split_segment_at_silence(&segment, 25 * SR, narrow_op, unknown, wide_op, count);
    // No window counts: the target point itself, plus one second.
    assert_eq!(lengths(&chunks), vec![416_000, 416_000, 128_000]);
}

#[test]
fn chunk_sizes_stay_in_bounds() {
    for max_samples in [0usize, 1, 5_000, 20_000, 70_000] {
        let mut segment = loud(0.0, 200_000);
        for sample in 90_000..93_000 {
            segment.samples[sample] = narrow(0.0);
        }
        let chunks = split(&segment, max_samples);
        assert_eq!(joined(&chunks), segment.samples);
        for (i, chunk) in chunks.iter().enumerate() {
            assert!(chunk.samples.len() > 0);
            assert!(chunk.samples.len() <= max_samples + 47_200 + FALLBACK_OVERLAP);
            assert!(i == chunks.len() - 1 || chunk.samples.len() >= SR);
            assert!(i == chunks.len() - 1 || chunk.samples.len() + 47_200 >= max_samples);
        }
    }
}

#[test]
fn search_range_is_clipped_to_the_segment() {
    assert_eq!(search_range(0, 400_000, 960_000), Some((352_000, 591)));
    assert_eq!(search_range(0, 0, 20_000), Some((16_000, 6)));
    assert_eq!(search_range(0, 9_000, 10_000), None);
    assert_eq!(search_range(0, 0, 100), None);
    assert_eq!(search_range(usize::MAX - 10, 5, usize::MAX), None);
}

#[test]
fn first_of_the_quietest_is_found() {
    let levels: Vec<Binary32> =
        [0.3, f32::NAN, 0.1, 0.2, 0.1, f32::INFINITY].iter().map(|v| narrow(*v)).collect();
    assert_eq!(find_quietest(&levels), Some(2));
    assert_eq!(find_quietest(&[]), None);
    assert_eq!(find_quietest(&[narrow(f32::NAN), narrow(f32::MAX)]), None);
}

#[test]
fn threshold_itself_counts_as_silence() {
    let mut levels = vec![narrow(0.5); 6];
    levels[3] = narrow(0.02);
    let decision = choose_split(&levels, 0, 0, 20_000);
    assert_eq!(decision.sample, 16_000 + 3 * 160 + 800);
    assert_eq!(decision.level, narrow(0.02));
    assert!(decision.silent);
    assert_eq!(decision.chunk_end(20_000), 16_000 + 3 * 160 + 800);
    levels[3] = Binary32 { bits: 0.02f32.to_bits() + 1 };
    let decision = choose_split(&levels, 0, 0, 20_000);
    assert!(!decision.silent);
    assert_eq!(decision.chunk_end(20_000), 20_000);
    assert_eq!(decision.chunk_end(100_000), 16_000 + 3 * 160 + 800 + 16_000);
}

#[test]
fn decisions_tell_where_and_why() {
    let mut segment = loud(0.0, 60 * SR);
    for sample in 410_000..412_000 {
        segment.samples[sample] = narrow(0.0);
    }
    let (chunks, decisions) =
        split_with_decisions(&segment, 25 * SR, narrow_op, root, wide_op, count);
    // The second chunk finds no silence, and the third takes the rest.
    assert_eq!(lengths(&chunks), vec![410_880, 368_800, 180_320]);
    assert_eq!(decisions.len(), 2);
    assert_eq!((decisions[0].sample, decisions[0].silent), (410_880, true));
    assert_eq!(decisions[0].level, narrow(0.0));
    assert_eq!((decisions[1].sample, decisions[1].silent), (410_880 + 352_800, false));
    assert_eq!(decisions[1].level, narrow(0.5));
    assert!(split_with_decisions(&segment, 60 * SR, narrow_op, root, wide_op, count).1.is_empty());
}

#[test]
fn earliest_and_latest_silence_bound_the_chunk() {
    // Windows of the search start at 352000 up to 446400.
    let mut segment = loud(0.0, 60 * SR);
    for sample in 352_000..353_600 {
        segment.samples[sample] = narrow(0.0);
    }
    assert_eq!(split(&segment, 25 * SR)[0].samples.len(), 400_000 - 47_200);
    let mut segment = loud(0.0, 60 * SR);
    for sample in 446_400..448_000 {
        segment.samples[sample] = narrow(0.0);
    }
    assert_eq!(split(&segment, 25 * SR)[0].samples.len(), 400_000 + 47_200);
    let mut segment = loud(0.0, 60 * SR);
    for sample in 446_400..448_000 {
        segment.samples[sample] = narrow(0.4);
    }
    assert_eq!(split(&segment, 25 * SR)[0].samples.len(), 400_000 + 47_200 + 16_000);
}

#[test]
fn splitting_the_rest_gives_the_later_chunks() {
    let mut segment = loud(0.0, 60 * SR);
    for sample in 410_000..412_000 {
        segment.samples[sample] = narrow(0.0);
    }
    let chunks = split(&segment, 10 * SR);
    let mut rest = segment.clone();
    rest.samples = segment.samples[chunks[0].samples.len()..].to_vec();
    let later = split(&rest, 10 * SR);
    assert!(chunks.len() > 2);
    assert_eq!(lengths(&chunks)[1..].to_vec(), lengths(&later));
    assert!(chunks[1..].iter().zip(later.iter()).all(|(a, b)| a.samples == b.samples));
}

#[test]
fn packing_chunks_gives_the_audio_back() {
    let mut segment = loud(0.0, 50 * SR);
    for (i, sample) in segment.samples.iter_mut().enumerate() {
        *sample = narrow((i % 997) as f32 / 997.0);
    }
    let packed = pack_segments_to_target(&split(&segment, 10 * SR), 25 * SR);
    assert_eq!(joined(&packed), segment.samples);
}
