use openflite::value::SimValue;

#[test]
fn literals_parse_to_exact_micro_counts() {
    assert_eq!(SimValue::parse_literal("1000"), Some(SimValue::from_micros(1_000_000_000)));
    assert_eq!(SimValue::parse_literal("-1.5"), Some(SimValue::from_micros(-1_500_000)));
    assert_eq!(SimValue::parse_literal("+0.25"), Some(SimValue::from_micros(250_000)));
    assert_eq!(SimValue::parse_literal(".5"), Some(SimValue::from_micros(500_000)));
    assert_eq!(SimValue::parse_literal("2."), Some(SimValue::from_micros(2_000_000)));
    assert_eq!(SimValue::parse_literal("0.1234567"), Some(SimValue::from_micros(123_456)));
    assert_eq!(SimValue::parse_literal("0"), Some(SimValue::from_micros(0)));
}

#[test]
fn exponent_literals_parse_to_exact_micro_counts() {
    assert_eq!(SimValue::parse_literal("1e3"), Some(SimValue::from_micros(1_000_000_000)));
    assert_eq!(SimValue::parse_literal("2.5E2"), Some(SimValue::from_micros(250_000_000)));
    assert_eq!(SimValue::parse_literal("1.5e-1"), Some(SimValue::from_micros(150_000)));
    assert_eq!(SimValue::parse_literal("-1e2"), Some(SimValue::from_micros(-100_000_000)));
    assert_eq!(SimValue::parse_literal("1e+2"), Some(SimValue::from_micros(100_000_000)));
    assert_eq!(SimValue::parse_literal(".5e1"), Some(SimValue::from_micros(5_000_000)));
    assert_eq!(SimValue::parse_literal("12345678e-3"), Some(SimValue::from_micros(12_345_678_000)));
    // Digits promoted from below the resolution by the exponent still count.
    assert_eq!(SimValue::parse_literal("0.0000015e1"), Some(SimValue::from_micros(15)));
    // Scaling below the resolution truncates toward zero.
    assert_eq!(SimValue::parse_literal("1e-7"), Some(SimValue::from_micros(0)));
    assert_eq!(SimValue::parse_literal("0e999999999999999999999999"), Some(SimValue::from_micros(0)));
    assert_eq!(SimValue::parse_literal("5e-999999999999999999999999"), Some(SimValue::from_micros(0)));
    // Magnitudes beyond the representable range are rejected.
    assert_eq!(SimValue::parse_literal("1e19"), None);
    assert_eq!(SimValue::parse_literal("5e999999999999999999999999"), None);
}

#[test]
fn malformed_literals_are_rejected() {
    assert_eq!(SimValue::parse_literal(""), None);
    assert_eq!(SimValue::parse_literal("-"), None);
    assert_eq!(SimValue::parse_literal("."), None);
    assert_eq!(SimValue::parse_literal("1.2.3"), None);
    assert_eq!(SimValue::parse_literal("12a"), None);
    assert_eq!(SimValue::parse_literal(" 1"), None);
    assert_eq!(SimValue::parse_literal("e3"), None);
    assert_eq!(SimValue::parse_literal("1e"), None);
    assert_eq!(SimValue::parse_literal("1e+"), None);
    assert_eq!(SimValue::parse_literal("1e2.5"), None);
    assert_eq!(SimValue::parse_literal("1e2e3"), None);
    assert_eq!(SimValue::parse_literal("99999999999999999999"), None);
}

#[test]
fn parse_or_falls_back_to_default() {
    let d = SimValue::from_units(7);
    assert_eq!(SimValue::parse_or("junk", d), d);
    assert_eq!(SimValue::parse_or("3", d), SimValue::from_units(3));
}

#[test]
fn pin_values_truncate_toward_zero_and_clamp() {
    assert_eq!(SimValue::from_micros(1_900_000).to_pin_value(), 1);
    assert_eq!(SimValue::from_micros(-1_900_000).to_pin_value(), 0);
    assert_eq!(SimValue::from_units(255).to_pin_value(), 255);
    assert_eq!(SimValue::from_units(300).to_pin_value(), 255);
    assert_eq!(SimValue::from_units(0).to_pin_value(), 0);
}

#[test]
fn rounded_strings_round_ties_to_even() {
    assert_eq!(SimValue::from_micros(2_500_000).to_rounded_string(), "2");
    assert_eq!(SimValue::from_micros(1_500_000).to_rounded_string(), "2");
    assert_eq!(SimValue::from_micros(3_500_000).to_rounded_string(), "4");
    assert_eq!(SimValue::from_micros(500_000).to_rounded_string(), "0");
    assert_eq!(SimValue::from_micros(2_500_001).to_rounded_string(), "3");
    assert_eq!(SimValue::from_micros(2_400_000).to_rounded_string(), "2");
    assert_eq!(SimValue::from_micros(-2_500_000).to_rounded_string(), "-2");
    assert_eq!(SimValue::from_micros(-1_500_000).to_rounded_string(), "-2");
    assert_eq!(SimValue::from_micros(-400_000).to_rounded_string(), "0");
    assert_eq!(SimValue::from_units(1200).to_rounded_string(), "1200");
}

#[test]
fn f32_bit_patterns_decode_to_micro_counts() {
    assert_eq!(SimValue::from_f32_bits(1.0f32.to_bits()), SimValue::from_micros(1_000_000));
    assert_eq!(SimValue::from_f32_bits(2.5f32.to_bits()), SimValue::from_micros(2_500_000));
    assert_eq!(SimValue::from_f32_bits((-1200.5f32).to_bits()), SimValue::from_micros(-1_200_500_000));
    assert_eq!(SimValue::from_f32_bits(0.0f32.to_bits()), SimValue::from_micros(0));
    assert_eq!(SimValue::from_f32_bits((-0.0f32).to_bits()), SimValue::from_micros(0));
    // Truncation toward zero below the micro-unit resolution.
    assert_eq!(SimValue::from_f32_bits(0.0000001f32.to_bits()), SimValue::from_micros(0));
    // NaN and the infinities decode to zero.
    assert_eq!(SimValue::from_f32_bits(f32::NAN.to_bits()), SimValue::from_micros(0));
    assert_eq!(SimValue::from_f32_bits(f32::INFINITY.to_bits()), SimValue::from_micros(0));
    assert_eq!(SimValue::from_f32_bits(f32::NEG_INFINITY.to_bits()), SimValue::from_micros(0));
    // Magnitudes beyond the fixed-point range saturate.
    assert_eq!(SimValue::from_f32_bits(1.0e30f32.to_bits()), SimValue::from_micros(i64::MAX));
    assert_eq!(SimValue::from_f32_bits((-1.0e30f32).to_bits()), SimValue::from_micros(-i64::MAX));
}

#[test]
fn f32_decode_matches_float_arithmetic_on_samples() {
    for &x in &[0.1f32, 1.0, -1.0, 3.14159, 1200.5, -99.875, 65536.0, 0.015625] {
        let micros = SimValue::from_f32_bits(x.to_bits()).micros;
        let expect = (x as f64) * 1_000_000.0;
        // Decoding truncates toward zero, so the exact value lies within one
        // micro-unit of the float product.
        assert!((micros as f64 - expect).abs() < 1.0, "{}: {} vs {}", x, micros, expect);
    }
}
