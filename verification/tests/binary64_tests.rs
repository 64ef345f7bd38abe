use raster_vm::binary64::{encode, nan, positive, BIAS, HIDDEN, INFINITY, SIGN};
use raster_vm::raster::{pixel, sample_x, sample_y, HEIGHT, INSIDE, OUTSIDE, SCALE, WIDTH};

fn interesting() -> Vec<f64> {
    let mut values = vec![
        0.0,
        -0.0,
        5e-324,
        -5e-324,
        f64::MIN_POSITIVE,
        -f64::MIN_POSITIVE,
        2.2250738585072009e-308,
        1e-300,
        -1e-300,
        0.5,
        -0.5,
        1.0,
        -1.0,
        1.5,
        f64::MAX,
        f64::MIN,
        f64::INFINITY,
        f64::NEG_INFINITY,
        f64::NAN,
        -f64::NAN,
        f64::from_bits(0x7ff0_0000_0000_0001),
        f64::from_bits(0xfff0_0000_0000_0001),
        f64::from_bits(0x7fff_ffff_ffff_ffff),
        f64::from_bits(0xffff_ffff_ffff_ffff),
        f64::from_bits(0x7fef_ffff_ffff_ffff),
        f64::from_bits(0x000f_ffff_ffff_ffff),
    ];
    let mut seed: u64 = 0x9e37_79b9_7f4a_7c15;
    for _ in 0..20000 {
        seed ^= seed << 13;
        seed ^= seed >> 7;
        seed ^= seed << 17;
        values.push(f64::from_bits(seed));
    }
    values
}

#[test]
fn constants_are_the_bit_patterns_they_name() {
    assert_eq!(SIGN, (-0.0f64).to_bits());
    assert_eq!(INFINITY, f64::INFINITY.to_bits());
    assert_eq!(HIDDEN, 1u64 << 52);
    assert_eq!(BIAS, 1075);
    assert_eq!(SCALE, 9);
    assert_eq!(1u32 << SCALE, WIDTH / 2);
    assert_eq!(WIDTH, 1024);
    assert_eq!(HEIGHT, 1024);
}

#[test]
fn positive_is_greater_than_zero() {
    for v in interesting() {
        assert_eq!(positive(v.to_bits()), v > 0.0, "{:?} {:#x}", v, v.to_bits());
    }
}

#[test]
fn nan_is_not_a_number() {
    for v in interesting() {
        assert_eq!(nan(v.to_bits()), v.is_nan(), "{:?} {:#x}", v, v.to_bits());
    }
}

#[test]
fn pixel_is_dark_above_zero() {
    for v in interesting() {
        let expected = if v > 0.0 { 0 } else { 255 };
        assert_eq!(pixel(v.to_bits()), expected, "{:?}", v);
    }
    assert_eq!(INSIDE, 0);
    assert_eq!(OUTSIDE, 255);
    assert_eq!(pixel(0.5f64.to_bits()), 0);
    assert_eq!(pixel((-0.5f64).to_bits()), 255);
    assert_eq!(pixel(0f64.to_bits()), 255);
    assert_eq!(pixel((-0f64).to_bits()), 255);
    assert_eq!(pixel(f64::NAN.to_bits()), 255);
    assert_eq!(pixel(f64::INFINITY.to_bits()), 0);
    assert_eq!(pixel(f64::NEG_INFINITY.to_bits()), 255);
}

#[test]
fn encode_given_values() {
    assert_eq!(encode(false, 1, 1075), 1.0f64.to_bits());
    assert_eq!(encode(true, 1, 1075), (-1.0f64).to_bits());
    assert_eq!(encode(false, 3, 1074), 1.5f64.to_bits());
    assert_eq!(encode(true, 5, 1075), (-5.0f64).to_bits());
    assert_eq!(encode(false, 1, 1066), 0.001953125f64.to_bits());
    assert_eq!(encode(false, 512, 1066), 1.0f64.to_bits());
    assert_eq!(encode(false, 0, 1066), 0);
    assert_eq!(encode(true, 0, 1066), SIGN);
    assert_eq!(encode(false, 1, 1), 1);
    assert_eq!(encode(false, 1, 2), 2);
    assert_eq!(encode(false, HIDDEN, 1), f64::MIN_POSITIVE.to_bits());
    assert_eq!(encode(false, HIDDEN - 1, 1), HIDDEN - 1);
    assert_eq!(encode(false, 2 * HIDDEN - 1, 2046), f64::MAX.to_bits());
    assert_eq!(encode(false, 1, 2046), 2f64.powi(971).to_bits());
    assert_eq!(encode(false, (1 << 53) - 1, 1075), 9007199254740991f64.to_bits());
}

#[test]
fn encode_agrees_with_scaling_an_integer() {
    for sig in [1u64, 2, 3, 7, 255, 256, 511, 513, 1 << 20, (1 << 52) + 12345, (1 << 53) - 1] {
        for exp in (1..=2046u64).step_by(5) {
            let shift = exp as i32 - 1075;
            let low = shift.max(-1000);
            let expected = (sig as f64) * 2f64.powi(low) * 2f64.powi(shift - low);
            if expected.is_finite() && expected >= f64::MIN_POSITIVE {
                assert_eq!(encode(false, sig, exp), expected.to_bits(), "{} {}", sig, exp);
                assert_eq!(encode(true, sig, exp), (-expected).to_bits(), "{} {}", sig, exp);
            }
        }
    }
}

#[test]
fn columns_sample_x_from_minus_one() {
    assert_eq!(sample_x(0), (-1.0f64).to_bits());
    assert_eq!(sample_x(256), (-0.5f64).to_bits());
    assert_eq!(sample_x(512), 0f64.to_bits());
    assert_eq!(sample_x(768), 0.5f64.to_bits());
    assert_eq!(sample_x(1023), 0.998046875f64.to_bits());
    for col in 0..WIDTH {
        let expected = (col as f64 / 512.0) - 1.0;
        assert_eq!(sample_x(col), expected.to_bits(), "column {}", col);
    }
}

#[test]
fn rows_sample_y_down_from_one() {
    assert_eq!(sample_y(0), 1.0f64.to_bits());
    assert_eq!(sample_y(256), 0.5f64.to_bits());
    assert_eq!(sample_y(512), 0f64.to_bits());
    assert_eq!(sample_y(768), (-0.5f64).to_bits());
    assert_eq!(sample_y(1023), (-0.998046875f64).to_bits());
    for row in 0..HEIGHT {
        let expected = 1.0 - (row as f64 / 512.0);
        assert_eq!(sample_y(row), expected.to_bits(), "row {}", row);
    }
}
