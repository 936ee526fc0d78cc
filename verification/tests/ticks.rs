use airlog::logic::ticks::{
    div_rem, humidity_to_ticks, temperature_to_ticks, ticks_to_value, value_to_ticks,
};

#[test]
fn quotient_and_remainder() {
    assert_eq!(div_rem(17, 5), (3, 2));
    assert_eq!(div_rem(0, 7), (0, 0));
    assert_eq!(div_rem(3276750, 100), (32767, 50));
    assert_eq!(div_rem(u32::MAX, 1), (u32::MAX, 0));
}

#[test]
fn humidity_ticks() {
    assert_eq!(humidity_to_ticks(0), 0);
    assert_eq!(humidity_to_ticks(1), 655);
    assert_eq!(humidity_to_ticks(43), 28180);
    assert_eq!(humidity_to_ticks(50), 32768);
    assert_eq!(humidity_to_ticks(100), 65535);
}

#[test]
fn temperature_ticks() {
    assert_eq!(temperature_to_ticks(-45), 0);
    assert_eq!(temperature_to_ticks(0), 16852);
    assert_eq!(temperature_to_ticks(21), 24716);
    assert_eq!(temperature_to_ticks(25), 26214);
    assert_eq!(temperature_to_ticks(43), 32955);
    assert_eq!(temperature_to_ticks(130), 65535);
}

#[test]
fn a_remainder_of_half_rounds_up() {
    // 50 * 65535 / 100 = 32767.5
    assert_eq!(value_to_ticks(50, 0, 100), 32768);
    // 1 * 65535 / 2 = 32767.5
    assert_eq!(value_to_ticks(1, 0, 2), 32768);
    // 1 * 65535 / 4 = 16383.75, 3 * 65535 / 4 = 49151.25
    assert_eq!(value_to_ticks(1, 0, 4), 16384);
    assert_eq!(value_to_ticks(3, 0, 4), 49151);
}

#[test]
fn out_of_domain_saturates() {
    assert_eq!(humidity_to_ticks(101), 65535);
    assert_eq!(humidity_to_ticks(255), 65535);
    assert_eq!(temperature_to_ticks(-46), 0);
    assert_eq!(temperature_to_ticks(i16::MIN), 0);
    assert_eq!(temperature_to_ticks(131), 65535);
    assert_eq!(temperature_to_ticks(i16::MAX), 65535);
    assert_eq!(value_to_ticks(i32::MIN, -5, 5), 0);
    assert_eq!(value_to_ticks(i32::MAX, -5, 5), 65535);
}

#[test]
fn widest_domain() {
    assert_eq!(value_to_ticks(i32::MIN, i32::MIN, i32::MAX), 0);
    assert_eq!(value_to_ticks(i32::MAX, i32::MIN, i32::MAX), 65535);
    assert_eq!(value_to_ticks(0, i32::MIN, i32::MAX), 32768);
    assert_eq!(ticks_to_value(0, i32::MIN, i32::MAX), i32::MIN);
    assert_eq!(ticks_to_value(65535, i32::MIN, i32::MAX), i32::MAX);
}

#[test]
fn ticks_decode_to_the_nearest_value() {
    assert_eq!(ticks_to_value(32768, 0, 100), 50);
    assert_eq!(ticks_to_value(26214, -45, 130), 25);
    assert_eq!(ticks_to_value(0, -45, 130), -45);
    assert_eq!(ticks_to_value(65535, -45, 130), 130);
    assert_eq!(ticks_to_value(327, 0, 100), 0);
    assert_eq!(ticks_to_value(328, 0, 100), 1);
}

#[test]
fn round_trip_over_the_sensor_domains() {
    for humidity in 0..=100u8 {
        assert_eq!(ticks_to_value(humidity_to_ticks(humidity), 0, 100), humidity as i32);
    }
    for temperature in -45..=130i16 {
        assert_eq!(
            ticks_to_value(temperature_to_ticks(temperature), -45, 130),
            temperature as i32
        );
    }
    for value in 0..=65535 {
        assert_eq!(ticks_to_value(value_to_ticks(value, 0, 65535), 0, 65535), value);
    }
}

#[test]
fn encoding_is_within_half_a_tick() {
    for temperature in -45..=130i64 {
        let ticks = temperature_to_ticks(temperature as i16) as i64;
        let drift = 2 * (ticks * 175 - (temperature + 45) * 65535);
        assert!(-175 < drift && drift <= 175);
    }
}

#[test]
fn encoding_never_decreases() {
    let mut last = 0;
    for temperature in -60..=140i16 {
        let ticks = temperature_to_ticks(temperature);
        assert!(ticks >= last);
        last = ticks;
    }
}
