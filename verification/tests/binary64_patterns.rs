use squiggle_mc::binary64::{
    abs, are_finite, are_not_negative, from_count, is_finite, is_nan, is_not_negative, is_positive,
    order_key, precedes, INFINITY, ONE, SIGN,
};

fn table() -> Vec<f64> {
    vec![
        0.0,
        -0.0,
        1.0,
        -1.0,
        0.25,
        0.75,
        1.34,
        -0.2,
        5e-324,
        -5e-324,
        2.2250738585072014e-308,
        -2.2250738585072014e-308,
        1.7976931348623157e308,
        -1.7976931348623157e308,
        f64::INFINITY,
        f64::NEG_INFINITY,
        3.5,
        -3.5,
        1e-10,
        -1e-10,
        123456789.125,
        -123456789.125,
    ]
}

#[test]
fn constants_are_the_patterns_of_their_numbers() {
    assert_eq!(SIGN, (-0.0f64).to_bits());
    assert_eq!(INFINITY, f64::INFINITY.to_bits());
    assert_eq!(ONE, 1.0f64.to_bits());
}

#[test]
fn nan_test_agrees_with_the_hardware() {
    for v in table() {
        assert_eq!(is_nan(v.to_bits()), v.is_nan());
    }
    assert!(is_nan(f64::NAN.to_bits()));
    assert!(is_nan((-f64::NAN).to_bits()));
    assert!(is_nan(0x7FF0_0000_0000_0001));
    assert!(is_nan(0xFFFF_FFFF_FFFF_FFFF));
    assert!(!is_nan(0x7FF0_0000_0000_0000));
    assert!(!is_nan(0xFFF0_0000_0000_0000));
}

#[test]
fn finite_test_agrees_with_the_hardware() {
    for v in table() {
        assert_eq!(is_finite(v.to_bits()), v.is_finite());
    }
    assert!(!is_finite(f64::NAN.to_bits()));
    assert!(is_finite(0x7FEF_FFFF_FFFF_FFFF));
    assert!(!is_finite(0x7FF0_0000_0000_0000));
}

#[test]
fn abs_agrees_with_the_hardware() {
    for v in table() {
        assert_eq!(abs(v.to_bits()), v.abs().to_bits());
    }
    assert_eq!(abs((-2.0f64).to_bits()), 2.0f64.to_bits());
    assert_eq!(abs((-0.0f64).to_bits()), 0);
    assert!(f64::from_bits(abs((-f64::NAN).to_bits())).is_nan());
}

#[test]
fn positive_test_agrees_with_the_hardware() {
    for v in table() {
        assert_eq!(is_positive(v.to_bits()), v > 0.0);
    }
    assert!(!is_positive(f64::NAN.to_bits()));
    assert!(!is_positive(0));
    assert!(!is_positive(SIGN));
    assert!(is_positive(1));
    assert!(is_positive(INFINITY));
    assert!(!is_positive(INFINITY + 1));
}

#[test]
fn keys_order_as_the_numbers_do() {
    let t = table();
    for a in &t {
        for b in &t {
            assert_eq!(precedes(a.to_bits(), b.to_bits()), a < b);
            assert_eq!(order_key(a.to_bits()) == order_key(b.to_bits()), a == b);
            assert_eq!(order_key(a.to_bits()) <= order_key(b.to_bits()), a <= b);
        }
    }
}

#[test]
fn keys_of_chosen_patterns() {
    assert_eq!(order_key(0), 0);
    assert_eq!(order_key(SIGN), 0);
    assert_eq!(order_key(1), 1);
    assert_eq!(order_key(SIGN + 1), -1);
    assert_eq!(order_key(ONE), 0x3FF0_0000_0000_0000);
    assert_eq!(order_key((-1.0f64).to_bits()), -0x3FF0_0000_0000_0000);
    assert_eq!(order_key(u64::MAX), -i64::MAX);
    assert_eq!(order_key(0x7FFF_FFFF_FFFF_FFFF), i64::MAX);
}

#[test]
fn are_finite_finds_the_odd_one_out() {
    let bits = |v: &[f64]| v.iter().map(|x| x.to_bits()).collect::<Vec<u64>>();
    assert!(are_finite(&bits(&[])));
    assert!(are_finite(&bits(&[1.0, -2.0, 0.0])));
    assert!(!are_finite(&bits(&[1.0, f64::NAN, 0.0])));
    assert!(!are_finite(&bits(&[1.0, 2.0, f64::INFINITY])));
    assert!(!are_finite(&bits(&[f64::NEG_INFINITY])));
}

#[test]
fn not_negative_test_agrees_with_the_hardware() {
    for v in table() {
        assert_eq!(is_not_negative(v.to_bits()), v >= 0.0);
    }
    assert!(!is_not_negative(f64::NAN.to_bits()));
    assert!(!is_not_negative((-f64::NAN).to_bits()));
    assert!(is_not_negative(0));
    assert!(is_not_negative(SIGN));
    assert!(!is_not_negative(SIGN + 1));
    assert!(is_not_negative(INFINITY));
    assert!(!is_not_negative(INFINITY + 1));
    let bits = |v: &[f64]| v.iter().map(|x| x.to_bits()).collect::<Vec<u64>>();
    assert!(are_not_negative(&bits(&[])));
    assert!(are_not_negative(&bits(&[0.0, -0.0, 2.0, f64::INFINITY])));
    assert!(!are_not_negative(&bits(&[0.0, -1e-300, 2.0])));
    assert!(!are_not_negative(&bits(&[f64::NAN])));
}

#[test]
fn small_counts_convert_exactly() {
    assert_eq!(from_count(0), 0);
    assert_eq!(from_count(1), ONE);
    assert_eq!(from_count(2), 0x4000_0000_0000_0000);
    assert_eq!(from_count(3), 0x4008_0000_0000_0000);
    assert_eq!(from_count(10000), 0x40C3_8800_0000_0000);
    for n in 0..5000usize {
        assert_eq!(from_count(n), (n as f64).to_bits());
        assert_eq!(f64::from_bits(from_count(n)) as usize, n);
    }
}

#[test]
fn counts_convert_as_the_hardware_converts_them() {
    let mut state: u64 = 0x9E37_79B9_7F4A_7C15;
    for _ in 0..20000 {
        state = state.wrapping_mul(6364136223846793005).wrapping_add(1442695040888963407);
        let n = (state >> (state % 64)) as usize;
        assert_eq!(from_count(n), (n as f64).to_bits());
    }
}

#[test]
fn large_counts_round_to_the_nearest_even() {
    let two_53: usize = 1 << 53;
    for n in [
        two_53 - 2,
        two_53 - 1,
        two_53,
        two_53 + 1,
        two_53 + 2,
        two_53 + 3,
        two_53 + 4,
        two_53 + 5,
        two_53 + 6,
        (1 << 54) - 1,
        (1 << 54) + 2,
        (1 << 54) + 6,
        (1 << 60) + (1 << 7),
        (1 << 60) + (1 << 7) + 1,
        (1 << 60) + 3 * (1 << 7),
        (1 << 63) - 1,
        1 << 63,
        (1 << 63) + 1024,
        (1 << 63) + 1025,
        (1 << 63) + 3072,
        usize::MAX - 1024,
        usize::MAX - 1023,
        usize::MAX,
    ] {
        assert_eq!(from_count(n), (n as f64).to_bits());
    }
    assert_eq!(f64::from_bits(from_count(two_53 + 1)), 9007199254740992.0);
    assert_eq!(f64::from_bits(from_count(two_53 + 3)), 9007199254740996.0);
    assert_eq!(f64::from_bits(from_count(usize::MAX)), 18446744073709551616.0);
}

#[test]
fn powers_of_two_and_their_neighbours() {
    for e in 0..64 {
        let p: usize = 1 << e;
        for n in [p - 1, p, p.wrapping_add(1)] {
            assert_eq!(from_count(n), (n as f64).to_bits());
        }
    }
}
