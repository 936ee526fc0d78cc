use airlog::logic::binary32::Binary32;
use airlog::logic::formatting::{
    float_measurement_fits, format_float_measurement, format_float_measurement_optional,
    format_u32_measurement, format_u32_measurement_optional, u32_len, u32_measurement_fits,
};

fn number(value: f32) -> Binary32 {
    Binary32::from_bits(value.to_bits())
}

#[test]
fn format_zero() {
    assert!(u32_measurement_fits(0, 4, "ppm"));
    let res = format_u32_measurement(0, 4, "ppm");
    assert_eq!(res.as_str(), "   0 ppm");
}

#[test]
fn format_ten() {
    assert!(u32_measurement_fits(10, 4, "ppm"));
    let res = format_u32_measurement(10, 4, "ppm");
    assert_eq!(res.as_str(), "  10 ppm");
}

#[test]
fn format_single_digit() {
    assert!(u32_measurement_fits(2, 4, "ppm"));
    let res = format_u32_measurement(2, 4, "ppm");
    assert_eq!(res.as_str(), "   2 ppm");
}

#[test]
fn format_all_digits() {
    assert!(u32_measurement_fits(1234, 4, "ppm"));
    let res = format_u32_measurement(1234, 4, "ppm");
    assert_eq!(res.as_str(), "1234 ppm");
}

#[test]
fn format_more_digits() {
    assert!(u32_measurement_fits(12345, 4, "ppm"));
    let res = format_u32_measurement(12345, 4, "ppm");
    assert_eq!(res.as_str(), "12345 ppm");
}

#[test]
fn format_dont_pad() {
    assert!(u32_measurement_fits(22, 0, "ppm"));
    let res = format_u32_measurement(22, 0, "ppm");
    assert_eq!(res.as_str(), "22 ppm");
}

#[test]
fn format_float_zero() {
    assert!(float_measurement_fits(number(0.), 2, 2, "°C"));
    let res = format_float_measurement(number(0.), 2, 2, "°C");
    assert_eq!(res.as_str(), " 0.00 °C");
}

#[test]
fn format_float_small_fract() {
    assert!(float_measurement_fits(number(1.01), 2, 2, "°C"));
    let res = format_float_measurement(number(1.01), 2, 2, "°C");
    assert_eq!(res.as_str(), " 1.01 °C");
}

#[test]
fn format_float_smaller_fract() {
    assert!(float_measurement_fits(number(1.001), 2, 2, "°C"));
    let res = format_float_measurement(number(1.001), 2, 2, "°C");
    assert_eq!(res.as_str(), " 1.00 °C");
}

#[test]
fn format_float_single_digit() {
    assert!(float_measurement_fits(number(2.), 2, 2, "°C"));
    let res = format_float_measurement(number(2.), 2, 2, "°C");
    assert_eq!(res.as_str(), " 2.00 °C");
}

#[test]
fn format_float_more_digits() {
    assert!(float_measurement_fits(number(123.125), 2, 2, "°C"));
    let res = format_float_measurement(number(123.125), 2, 2, "°C");
    assert_eq!(res.as_str(), "123.13 °C");
}

#[test]
fn format_float_carry_over() {
    assert!(float_measurement_fits(number(0.999), 2, 2, "°C"));
    let res = format_float_measurement(number(0.999), 2, 2, "°C");
    assert_eq!(res.as_str(), " 1.00 °C");
}

#[test]
fn format_carry_over_ascii_unit() {
    let res = format_float_measurement(number(0.999), 2, 2, "C");
    assert_eq!(res.as_str(), " 1.00 C");
}

#[test]
fn format_float_without_fraction_is_floor() {
    let res = format_float_measurement(number(417.9), 4, 0, "ppm");
    assert_eq!(res.as_str(), " 417 ppm");
}

#[test]
fn format_float_one_digit() {
    let res = format_float_measurement(number(12.34), 2, 1, "ug");
    assert_eq!(res.as_str(), "12.3 ug");
    let res = format_float_measurement(number(9.96), 2, 1, "ug");
    assert_eq!(res.as_str(), "10.0 ug");
}

#[test]
fn format_float_pads_fraction_with_zeros() {
    let res = format_float_measurement(number(3.0625), 1, 4, "V");
    assert_eq!(res.as_str(), "3.0625 V");
    let res = format_float_measurement(number(3.004), 1, 3, "V");
    assert_eq!(res.as_str(), "3.004 V");
    let res = format_float_measurement(number(3.004), 1, 2, "V");
    assert_eq!(res.as_str(), "3.00 V");
}

#[test]
fn format_float_negative_and_nan_count_as_zero() {
    let res = format_float_measurement(number(-1.5), 2, 2, "C");
    assert_eq!(res.as_str(), " 0.00 C");
    let res = format_float_measurement(number(f32::NAN), 2, 2, "C");
    assert_eq!(res.as_str(), " 0.00 C");
}

#[test]
fn format_float_saturates() {
    let res = format_float_measurement(number(f32::INFINITY), 2, 1, "x");
    assert_eq!(res.as_str(), "4294967295.0 x");
    let res = format_float_measurement(number(1.0e20), 2, 0, "x");
    assert_eq!(res.as_str(), "4294967295 x");
    let res = format_float_measurement(number(4294967040.0), 2, 0, "x");
    assert_eq!(res.as_str(), "4294967040 x");
}

#[test]
fn format_float_tiny_numbers() {
    let res = format_float_measurement(number(1.0e-30), 1, 4, "x");
    assert_eq!(res.as_str(), "0.0000 x");
    let res = format_float_measurement(number(f32::from_bits(1)), 1, 4, "x");
    assert_eq!(res.as_str(), "0.0000 x");
    let res = format_float_measurement(number(0.00006), 1, 4, "x");
    assert_eq!(res.as_str(), "0.0001 x");
    let res = format_float_measurement(number(0.00004), 1, 4, "x");
    assert_eq!(res.as_str(), "0.0000 x");
}

#[test]
fn format_float_rounds_half_up() {
    let res = format_float_measurement(number(0.125), 1, 2, "x");
    assert_eq!(res.as_str(), "0.13 x");
    let res = format_float_measurement(number(0.375), 1, 2, "x");
    assert_eq!(res.as_str(), "0.38 x");
    let res = format_float_measurement(number(0.5), 1, 1, "x");
    assert_eq!(res.as_str(), "0.5 x");
    let res = format_float_measurement(number(7.96875), 1, 1, "x");
    assert_eq!(res.as_str(), "8.0 x");
}

#[test]
fn format_missing_values() {
    let res = format_u32_measurement_optional(None, 4, "ppm");
    assert_eq!(res.as_str(), "   - ppm");
    let res = format_u32_measurement_optional(Some(417), 4, "ppm");
    assert_eq!(res.as_str(), " 417 ppm");
    let res = format_float_measurement_optional(None, 2, 2, "C");
    assert_eq!(res.as_str(), "    - C");
    let res = format_float_measurement_optional(Some(number(21.5)), 2, 2, "C");
    assert_eq!(res.as_str(), "21.50 C");
    let res = format_float_measurement_optional(None, 4, 0, "ppm");
    assert_eq!(res.as_str(), "   - ppm");
    let res = format_u32_measurement_optional(None, 0, "ppm");
    assert_eq!(res.as_str(), " ppm");
}

#[test]
fn format_missing_value_drops_a_unit_that_does_not_fit() {
    let res = format_u32_measurement_optional(None, 12, "ppm");
    assert_eq!(res.as_str(), "           - ppm");
    let res = format_u32_measurement_optional(None, 13, "ppm");
    assert_eq!(res.as_str(), "            - ");
}

#[test]
fn fit_is_counted_in_bytes() {
    assert!(u32_measurement_fits(4294967295, 0, "12345"));
    assert!(!u32_measurement_fits(4294967295, 0, "123456"));
    assert!(u32_measurement_fits(1, 12, "abc"));
    assert!(!u32_measurement_fits(1, 13, "abc"));
    assert!(u32_measurement_fits(1, 12, "°C"));
    assert!(!u32_measurement_fits(1, 13, "°C"));
    assert!(float_measurement_fits(number(1.5), 2, 4, "12345678"));
    assert!(!float_measurement_fits(number(1.5), 2, 4, "123456789"));
    assert!(!float_measurement_fits(number(1.5), 2, 5, ""));
    let res = format_u32_measurement(4294967295, 0, "12345");
    assert_eq!(res.as_str(), "4294967295 12345");
}

#[test]
fn digit_counts() {
    assert_eq!(u32_len(0), 1);
    assert_eq!(u32_len(9), 1);
    assert_eq!(u32_len(10), 2);
    assert_eq!(u32_len(99999), 5);
    assert_eq!(u32_len(100000), 6);
    assert_eq!(u32_len(u32::MAX), 10);
}
