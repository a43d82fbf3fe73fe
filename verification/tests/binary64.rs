use black_scholes_mc::binary64::is_above_zero;
use black_scholes_mc::binary64::is_below_zero;
use black_scholes_mc::binary64::is_finite;
use black_scholes_mc::binary64::is_less;
use black_scholes_mc::binary64::is_nan;
use black_scholes_mc::binary64::is_zero;
use black_scholes_mc::binary64::truncate_to_size;

fn samples() -> Vec<f64> {
    vec![
        0.0,
        -0.0,
        5e-324,
        -5e-324,
        2.2250738585072009e-308,
        2.2250738585072014e-308,
        -2.2250738585072014e-308,
        1e-300,
        0.1,
        0.5,
        0.9999999999999999,
        1.0,
        1.0000000000000002,
        1.5,
        -1.5,
        2.0,
        2.5,
        3.999,
        100.0,
        105.12710963760242,
        -100.0,
        1e6,
        1_000_000.7,
        4503599627370496.0,
        4503599627370497.0,
        9007199254740992.0,
        9007199254740994.0,
        4294967295.0,
        4294967296.0,
        4294967296.5,
        9223372036854775808.0,
        18446744073709549568.0,
        18446744073709551616.0,
        36893488147419103232.0,
        1e300,
        -1e300,
        f64::MAX,
        f64::MIN,
        f64::INFINITY,
        f64::NEG_INFINITY,
    ]
}

#[test]
fn classification_agrees_with_the_hardware() {
    for x in samples().into_iter().chain([f64::NAN, -f64::NAN]) {
        let bits = x.to_bits();
        assert_eq!(is_nan(bits), x.is_nan(), "{x}");
        assert_eq!(is_finite(bits), x.is_finite(), "{x}");
        assert_eq!(is_zero(bits), x == 0.0, "{x}");
        assert_eq!(is_below_zero(bits), x < 0.0, "{x}");
        assert_eq!(is_above_zero(bits), x > 0.0, "{x}");
    }
}

#[test]
fn classification_of_named_patterns() {
    assert!(is_zero(0));
    assert!(is_zero(0x8000_0000_0000_0000));
    assert!(is_finite(0x7fef_ffff_ffff_ffff));
    assert!(!is_finite(0x7ff0_0000_0000_0000));
    assert!(!is_nan(0x7ff0_0000_0000_0000));
    assert!(is_nan(0x7ff0_0000_0000_0001));
    assert!(is_nan(0xfff8_0000_0000_0000));
    assert!(!is_finite(0xfff0_0000_0000_0000));
    assert!(is_below_zero(0xfff0_0000_0000_0000));
    assert!(is_above_zero(0x7ff0_0000_0000_0000));
    assert!(is_above_zero(1));
    assert!(is_below_zero(0x8000_0000_0000_0001));
    assert!(!is_below_zero(0x8000_0000_0000_0000));
    assert!(!is_above_zero(0));
}

#[test]
fn order_agrees_with_the_hardware() {
    let values: Vec<f64> = samples().into_iter().filter(|x| x.is_finite()).collect();
    for a in &values {
        for b in &values {
            assert_eq!(is_less(a.to_bits(), b.to_bits()), a < b, "{a} < {b}");
        }
    }
}

#[test]
fn the_two_zeros_are_equal_in_order() {
    let plus = 0.0_f64.to_bits();
    let minus = (-0.0_f64).to_bits();
    assert!(!is_less(plus, minus));
    assert!(!is_less(minus, plus));
    assert!(is_less(minus, 5e-324_f64.to_bits()));
    assert!(is_less((-5e-324_f64).to_bits(), plus));
}

#[test]
fn truncation_agrees_with_the_cast() {
    for x in samples().into_iter().chain([f64::NAN, -f64::NAN]) {
        assert_eq!(truncate_to_size(x.to_bits()), x as usize, "{x}");
    }
}

#[test]
fn truncation_of_chosen_numbers() {
    assert_eq!(truncate_to_size(0.0_f64.to_bits()), 0);
    assert_eq!(truncate_to_size(0.9999999999999999_f64.to_bits()), 0);
    assert_eq!(truncate_to_size(1.0_f64.to_bits()), 1);
    assert_eq!(truncate_to_size(2.5_f64.to_bits()), 2);
    assert_eq!(truncate_to_size(3.999_f64.to_bits()), 3);
    assert_eq!(truncate_to_size(100.0_f64.to_bits()), 100);
    assert_eq!(truncate_to_size(1_000_000.0_f64.to_bits()), 1_000_000);
    assert_eq!(truncate_to_size((-3.0_f64).to_bits()), 0);
    assert_eq!(truncate_to_size(f64::NAN.to_bits()), 0);
    assert_eq!(truncate_to_size(f64::INFINITY.to_bits()), usize::MAX);
    assert_eq!(truncate_to_size(f64::NEG_INFINITY.to_bits()), 0);
    assert_eq!(truncate_to_size(1e300_f64.to_bits()), usize::MAX);
    assert_eq!(truncate_to_size(4503599627370497.0_f64.to_bits()), 4503599627370497);
    assert_eq!(truncate_to_size(9007199254740994.0_f64.to_bits()), 9007199254740994);
}

#[test]
fn truncation_of_a_sweep_of_patterns() {
    let mut bits: u64 = 0x3fe0_0000_0000_0000;
    while bits < 0x4400_0000_0000_0000 {
        let x = f64::from_bits(bits);
        assert_eq!(truncate_to_size(bits), x as usize, "{x}");
        bits += 0x0000_3a5c_1234_5677;
    }
}
