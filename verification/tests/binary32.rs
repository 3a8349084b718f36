use missile_sim::binary32::{abs, finite, lt, FRACTIONS, HALF, INFINITY, SIGN, ZERO};
use missile_sim::collision::{is_within_reach, REACH};

fn samples() -> Vec<f32> {
    vec![
        0.0,
        -0.0,
        f32::from_bits(1),
        -f32::from_bits(1),
        f32::MIN_POSITIVE,
        -f32::MIN_POSITIVE,
        0.25,
        0.49999997,
        0.5,
        0.50000006,
        -0.5,
        1.0,
        -1.0,
        858.0,
        25_000.0,
        f32::MAX,
        f32::MIN,
        f32::INFINITY,
        f32::NEG_INFINITY,
        f32::NAN,
        -f32::NAN,
        f32::from_bits(0x7f80_0001),
        f32::from_bits(0xffff_ffff),
    ]
}

#[test]
fn constants_encode_their_values() {
    assert_eq!(ZERO, 0.0f32.to_bits());
    assert_eq!(SIGN, (-0.0f32).to_bits());
    assert_eq!(HALF, 0.5f32.to_bits());
    assert_eq!(INFINITY, f32::INFINITY.to_bits());
    assert_eq!(REACH, 0.5f32.to_bits());
    assert_eq!(FRACTIONS, 1 << 23);
    assert_eq!(FRACTIONS, f32::MIN_POSITIVE.to_bits());
}

#[test]
fn abs_clears_the_sign() {
    for value in samples() {
        assert_eq!(abs(value.to_bits()), value.abs().to_bits());
    }
    assert_eq!(abs(0x8000_0000), 0);
    assert_eq!(abs(0xbf00_0000), 0x3f00_0000);
    assert_eq!(abs(0x3f00_0000), 0x3f00_0000);
}

#[test]
fn finite_agrees_with_the_floats() {
    for value in samples() {
        assert_eq!(finite(value.to_bits()), value.is_finite(), "{:?}", value);
    }
    assert!(finite(0x7f7f_ffff));
    assert!(!finite(0x7f80_0000));
    assert!(!finite(0xff80_0000));
    assert!(!finite(0x7fc0_0000));
}

#[test]
fn lt_agrees_with_the_floats_on_samples() {
    for a in samples() {
        for b in samples() {
            assert_eq!(lt(a.to_bits(), b.to_bits()), a < b, "{:?} < {:?}", a, b);
        }
    }
}

#[test]
fn lt_agrees_with_the_floats_on_a_sweep() {
    let mut seed: u32 = 0x2545_f491;
    let mut previous: u32 = 0;
    for _ in 0..200_000 {
        seed = seed.wrapping_mul(1_664_525).wrapping_add(1_013_904_223);
        let bits = seed ^ (seed >> 15);
        let a = f32::from_bits(previous);
        let b = f32::from_bits(bits);
        assert_eq!(lt(previous, bits), a < b, "{:#x} < {:#x}", previous, bits);
        assert_eq!(lt(bits, previous), b < a, "{:#x} < {:#x}", bits, previous);
        assert_eq!(finite(bits), b.is_finite());
        previous = bits;
    }
}

#[test]
fn lt_treats_both_zeros_alike() {
    assert!(!lt(ZERO, SIGN));
    assert!(!lt(SIGN, ZERO));
    assert!(lt(SIGN, 1));
    assert!(lt(SIGN + 1, ZERO));
}

#[test]
fn lt_is_false_on_what_is_no_number() {
    let nan = f32::NAN.to_bits();
    assert!(!lt(nan, HALF));
    assert!(!lt(HALF, nan));
    assert!(!lt(nan, nan));
    assert!(!lt(0xffc0_0000, ZERO));
}

#[test]
fn reach_is_strictly_below_one_half() {
    assert!(is_within_reach(0.0f32.to_bits()));
    assert!(is_within_reach(0.3f32.to_bits()));
    assert!(is_within_reach(0.49999997f32.to_bits()));
    assert!(!is_within_reach(0.5f32.to_bits()));
    assert!(!is_within_reach(0.50000006f32.to_bits()));
    assert!(!is_within_reach(2.0f32.to_bits()));
    assert!(!is_within_reach(f32::INFINITY.to_bits()));
    assert!(!is_within_reach(f32::NAN.to_bits()));
}

#[test]
fn reach_agrees_with_the_floats() {
    for value in samples() {
        assert_eq!(is_within_reach(value.to_bits()), value < 0.5, "{:?}", value);
    }
}
