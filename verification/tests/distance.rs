use grandma::distance::{key, lt, max, nan, INFINITY, NEG_INFINITY, SIGN_BIT, ZERO};

fn sample_values() -> Vec<f32> {
    vec![
        0.0,
        -0.0,
        1.0,
        -1.0,
        0.5,
        2.0,
        3.0e-45,
        -3.0e-45,
        1.1754944e-38,
        f32::MAX,
        f32::MIN,
        f32::MIN_POSITIVE,
        f32::EPSILON,
        f32::INFINITY,
        f32::NEG_INFINITY,
        f32::NAN,
        -f32::NAN,
        f32::from_bits(0x7f80_0001),
        f32::from_bits(0xffff_ffff),
        0.494,
        0.49,
        123456.79,
        -123456.79,
    ]
}

#[test]
fn constants_are_the_bits_of_the_floats() {
    assert_eq!(ZERO, 0.0f32.to_bits());
    assert_eq!(SIGN_BIT, (-0.0f32).to_bits());
    assert_eq!(INFINITY, f32::INFINITY.to_bits());
    assert_eq!(NEG_INFINITY, f32::NEG_INFINITY.to_bits());
}

#[test]
fn lt_is_the_comparison_of_floats() {
    let values = sample_values();
    for a in &values {
        for b in &values {
            assert_eq!(lt(a.to_bits(), b.to_bits()), a < b, "{:?} < {:?}", a, b);
        }
    }
}

#[test]
fn lt_is_the_comparison_of_random_floats() {
    for _round in 0..20000 {
        let a = f32::from_bits(rand::random::<u32>());
        let b = f32::from_bits(rand::random::<u32>());
        assert_eq!(lt(a.to_bits(), b.to_bits()), a < b, "{:?} < {:?}", a, b);
    }
}

#[test]
fn lt_is_strict_at_equal_values() {
    assert!(!lt(1.0f32.to_bits(), 1.0f32.to_bits()));
    assert!(!lt(0.0f32.to_bits(), (-0.0f32).to_bits()));
    assert!(!lt((-0.0f32).to_bits(), 0.0f32.to_bits()));
    assert!(lt(0.99999994f32.to_bits(), 1.0f32.to_bits()));
    assert!(lt((-1.0f32).to_bits(), 0.0f32.to_bits()));
    assert!(lt((-2.0f32).to_bits(), (-1.0f32).to_bits()));
}

#[test]
fn nan_is_told_from_numbers() {
    for a in sample_values() {
        assert_eq!(nan(a.to_bits()), a.is_nan(), "{:?}", a);
    }
    assert!(!nan(INFINITY));
    assert!(!nan(NEG_INFINITY));
    assert!(nan(INFINITY + 1));
    assert!(nan(NEG_INFINITY + 1));
    assert!(nan(u32::MAX));
}

#[test]
fn key_has_exact_values() {
    assert_eq!(key(0.0f32.to_bits()), 0);
    assert_eq!(key((-0.0f32).to_bits()), 0);
    assert_eq!(key(1), 1);
    assert_eq!(key(SIGN_BIT + 1), -1);
    assert_eq!(key(1.0f32.to_bits()), 0x3f80_0000);
    assert_eq!(key((-1.0f32).to_bits()), -0x3f80_0000);
    assert_eq!(key(INFINITY), 0x7f80_0000);
    assert_eq!(key(NEG_INFINITY), -0x7f80_0000);
    assert_eq!(key(f32::NAN.to_bits()), 0x7f80_0001);
    assert_eq!(key(u32::MAX), 0x7f80_0001);
}

#[test]
fn key_orders_as_the_floats_do() {
    let values = sample_values();
    for a in &values {
        for b in &values {
            if !a.is_nan() && !b.is_nan() {
                assert_eq!(key(a.to_bits()) < key(b.to_bits()), a < b, "{:?} {:?}", a, b);
                assert_eq!(key(a.to_bits()) == key(b.to_bits()), a == b, "{:?} {:?}", a, b);
            }
            if a.is_nan() && !b.is_nan() {
                assert!(key(a.to_bits()) > key(b.to_bits()));
            }
        }
    }
}

#[test]
fn max_is_the_maximum_of_floats() {
    let values = sample_values();
    for a in &values {
        for b in &values {
            let ours = f32::from_bits(max(a.to_bits(), b.to_bits()));
            let theirs = a.max(*b);
            if theirs.is_nan() {
                assert!(ours.is_nan());
            } else {
                assert_eq!(ours, theirs, "{:?} {:?}", a, b);
            }
        }
    }
    assert_eq!(max(1.0f32.to_bits(), 2.0f32.to_bits()), 2.0f32.to_bits());
    assert_eq!(max(2.0f32.to_bits(), 1.0f32.to_bits()), 2.0f32.to_bits());
    assert_eq!(max(f32::NAN.to_bits(), 1.0f32.to_bits()), 1.0f32.to_bits());
    assert_eq!(max(1.0f32.to_bits(), f32::NAN.to_bits()), 1.0f32.to_bits());
    assert_eq!(max(0.0f32.to_bits(), (-0.0f32).to_bits()), 0.0f32.to_bits());
    assert_eq!(max((-0.0f32).to_bits(), 0.0f32.to_bits()), (-0.0f32).to_bits());
}
