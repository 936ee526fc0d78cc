use airlog::logic::binary32::{pow10_u32, Binary32};

fn number(value: f32) -> Binary32 {
    Binary32::from_bits(value.to_bits())
}

#[test]
fn bits_are_kept() {
    assert_eq!(number(1.0).to_bits(), 0x3f80_0000);
    assert_eq!(Binary32::from_bits(0x406e_147b).to_bits(), 3.72f32.to_bits());
}

#[test]
fn bytes_are_joined_most_significant_first() {
    assert_eq!(Binary32::from_be_bytes([0x43, 0xdb, 0x8c, 0x2e]).to_bits(), 0x43db_8c2e);
    assert_eq!(Binary32::from_be_bytes([0xff, 0xff, 0xff, 0xff]).to_bits(), u32::MAX);
    assert_eq!(
        f32::from_bits(Binary32::from_be_bytes([0x41, 0xd9, 0xe7, 0xff]).to_bits()),
        f32::from_be_bytes([0x41, 0xd9, 0xe7, 0xff])
    );
}

#[test]
fn whole_parts() {
    assert_eq!(number(0.0).floor_u32(), 0);
    assert_eq!(number(0.999).floor_u32(), 0);
    assert_eq!(number(1.0).floor_u32(), 1);
    assert_eq!(number(439.09515).floor_u32(), 439);
    assert_eq!(number(16777216.0).floor_u32(), 16777216);
    assert_eq!(number(16777218.0).floor_u32(), 16777218);
    assert_eq!(number(4294967040.0).floor_u32(), 4294967040);
    assert_eq!(number(f32::from_bits(1)).floor_u32(), 0);
    assert_eq!(number(f32::MIN_POSITIVE).floor_u32(), 0);
}

#[test]
fn whole_parts_agree_with_the_machine() {
    let mut bits: u32 = 0;
    loop {
        let value = f32::from_bits(bits);
        assert_eq!(number(value).floor_u32(), value.floor() as u32, "bits {bits:#x}");
        match bits.checked_add(0x0003_1337) {
            Some(next) => bits = next,
            None => break,
        }
    }
}

#[test]
fn what_is_no_measure_counts_as_zero_or_saturates() {
    assert_eq!(number(-0.0).floor_u32(), 0);
    assert_eq!(number(-1.5).floor_u32(), 0);
    assert_eq!(number(f32::NEG_INFINITY).floor_u32(), 0);
    assert_eq!(number(f32::NAN).floor_u32(), 0);
    assert_eq!(number(f32::INFINITY).floor_u32(), u32::MAX);
    assert_eq!(number(4294967296.0).floor_u32(), u32::MAX);
    assert_eq!(number(f32::MAX).floor_u32(), u32::MAX);
    assert_eq!(number(-1.5).fract_scaled_u32(2), 0);
    assert_eq!(number(f32::NAN).fract_scaled_u32(2), 0);
    assert_eq!(number(f32::INFINITY).fract_scaled_u32(2), 0);
    assert!(number(1.5).is_measurable());
    assert!(number(0.0).is_measurable());
    assert!(!number(-0.0).is_measurable());
    assert!(!number(-1.5).is_measurable());
    assert!(!number(f32::NAN).is_measurable());
    assert!(!number(f32::INFINITY).is_measurable());
}

#[test]
fn scaled_fractions() {
    assert_eq!(number(0.0).fract_scaled_u32(2), 0);
    assert_eq!(number(1.01).fract_scaled_u32(2), 1);
    assert_eq!(number(1.001).fract_scaled_u32(2), 0);
    assert_eq!(number(123.125).fract_scaled_u32(2), 13);
    assert_eq!(number(123.125).fract_scaled_u32(3), 125);
    assert_eq!(number(0.999).fract_scaled_u32(2), 100);
    assert_eq!(number(0.999).fract_scaled_u32(3), 999);
    assert_eq!(number(0.5).fract_scaled_u32(0), 1);
    assert_eq!(number(0.25).fract_scaled_u32(0), 0);
    assert_eq!(number(3.72).fract_scaled_u32(2), 72);
    assert_eq!(number(0.123456789).fract_scaled_u32(9), 123456791);
    assert_eq!(number(1.0e-30).fract_scaled_u32(9), 0);
    assert_eq!(number(f32::from_bits(1)).fract_scaled_u32(9), 0);
    assert_eq!(number(16777216.0).fract_scaled_u32(9), 0);
    assert_eq!(number(8388607.5).fract_scaled_u32(1), 5);
}

#[test]
fn scaled_fractions_agree_with_exact_arithmetic() {
    let mut bits: u32 = 0x3000_0000;
    while bits < 0x4b80_0000 {
        let value = f32::from_bits(bits) as f64;
        let exact = ((value - value.floor()) * 10000.0 + 0.5).floor() as u32;
        assert_eq!(number(value as f32).fract_scaled_u32(4), exact, "bits {bits:#x}");
        bits += 0x0000_7313;
    }
}

#[test]
fn hundredths_become_the_nearest_number() {
    assert_eq!(Binary32::from_hundredths(0).to_bits(), 0);
    assert_eq!(Binary32::from_hundredths(100).to_bits(), 1.0f32.to_bits());
    assert_eq!(Binary32::from_hundredths(372).to_bits(), 3.72f32.to_bits());
    assert_eq!(Binary32::from_hundredths(1).to_bits(), 0.01f32.to_bits());
    assert_eq!(Binary32::from_hundredths(65535).to_bits(), 655.35f32.to_bits());
    for hundredths in 0..=u16::MAX {
        let quotient = hundredths as f32 / 100.0;
        assert_eq!(Binary32::from_hundredths(hundredths).to_bits(), quotient.to_bits());
    }
}

#[test]
fn powers_of_ten() {
    assert_eq!(pow10_u32(0), 1);
    assert_eq!(pow10_u32(1), 10);
    assert_eq!(pow10_u32(4), 10_000);
    assert_eq!(pow10_u32(9), 1_000_000_000);
}
