use speech_batch::binary::Binary32;

fn patterns() -> Vec<u32> {
    let mut all = vec![
        0,
        1,
        2,
        0x007f_ffff,
        0x0080_0000,
        0x0080_0001,
        0x3f7f_ffff,
        0x3f80_0000,
        0x3f80_0001,
        0x7f7f_ffff,
        0x7f80_0000,
        0x7f80_0001,
        0x7fc0_0000,
        0x7fff_ffff,
    ];
    let mut mixed: u32 = 12345;
    for _ in 0..200 {
        mixed = mixed.wrapping_mul(1_664_525).wrapping_add(1_013_904_223);
        all.push(mixed & 0x7fff_ffff);
    }
    let negative: Vec<u32> = all.iter().map(|bits| bits | 0x8000_0000).collect();
    all.extend(negative);
    all
}

#[test]
fn less_than_agrees_with_values() {
    let all = patterns();
    for a in &all {
        for b in &all {
            let expected = f32::from_bits(*a) < f32::from_bits(*b);
            assert_eq!(Binary32 { bits: *a }.less_than(Binary32 { bits: *b }), expected);
        }
    }
}

#[test]
fn min_agrees_with_values() {
    let all = patterns();
    for a in &all {
        for b in &all {
            let expected = f32::from_bits(*a).min(f32::from_bits(*b));
            let found = f32::from_bits(Binary32 { bits: *a }.min(Binary32 { bits: *b }).bits);
            assert!(found == expected || (found.is_nan() && expected.is_nan()));
        }
    }
}
