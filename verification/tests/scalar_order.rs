use riaw::scalar::Scalar;
use riaw::scalar::INFINITY_BITS;
use riaw::scalar::MAX_BITS;
use riaw::scalar::NEG_INFINITY_BITS;
use riaw::scalar::ONE_BITS;

fn s(v: f32) -> Scalar {
    Scalar::from_bits(v.to_bits())
}

fn samples() -> Vec<f32> {
    let mut out = vec![
        0.0f32,
        -0.0,
        1.0,
        -1.0,
        0.5,
        1e-3,
        f32::MAX,
        f32::MIN,
        f32::MIN_POSITIVE,
        -f32::MIN_POSITIVE,
        1e-45,
        -1e-45,
        f32::INFINITY,
        f32::NEG_INFINITY,
        f32::NAN,
        -f32::NAN,
        3.25,
        -7.75,
    ];
    // a spread of patterns over the whole range, both signs
    let mut bits: u32 = 1;
    while bits < 0x7fff_0000 {
        out.push(f32::from_bits(bits));
        out.push(f32::from_bits(bits | 0x8000_0000));
        bits = bits + bits / 3 + 977;
    }
    out
}

#[test]
fn less_than_agrees_with_hardware_on_samples() {
    let all = samples();
    for a in all.iter() {
        for b in all.iter() {
            assert_eq!(s(*a).lt(s(*b)), *a < *b);
            assert_eq!(s(*a).le(s(*b)), *a <= *b);
            assert_eq!(s(*a).gt(s(*b)), *a > *b);
            assert_eq!(s(*a).ge(s(*b)), *a >= *b);
            assert_eq!(s(*a).same(s(*b)), *a == *b);
        }
    }
}

#[test]
fn is_nan_agrees_with_hardware() {
    for a in samples().iter() {
        assert_eq!(s(*a).is_nan(), a.is_nan());
    }
    assert!(Scalar::from_bits(0x7f80_0001).is_nan());
    assert!(Scalar::from_bits(0xffff_ffff).is_nan());
    assert!(!Scalar::from_bits(0x7f80_0000).is_nan());
    assert!(!Scalar::from_bits(0xff80_0000).is_nan());
}

#[test]
fn both_zeros_are_the_same_number() {
    assert!(s(0.0).same(s(-0.0)));
    assert!(!s(0.0).lt(s(-0.0)));
    assert!(!s(-0.0).lt(s(0.0)));
    assert!(s(-0.0).le(s(0.0)));
}

#[test]
fn nan_is_unordered() {
    let nan = s(f32::NAN);
    let one = s(1.0);
    assert!(!nan.lt(one));
    assert!(!nan.gt(one));
    assert!(!nan.le(one));
    assert!(!nan.ge(one));
    assert!(!nan.same(nan));
    assert!(!one.lt(nan));
}

#[test]
fn min_and_max_agree_with_hardware_where_the_numbers_differ() {
    let all = samples();
    for a in all.iter() {
        for b in all.iter() {
            if *a == *b {
                continue;
            }
            let lo = s(*a).min(s(*b));
            let hi = s(*a).max(s(*b));
            if a.is_nan() && b.is_nan() {
                assert!(lo.is_nan());
                assert!(hi.is_nan());
            } else {
                assert_eq!(lo.to_bits(), a.min(*b).to_bits());
                assert_eq!(hi.to_bits(), a.max(*b).to_bits());
            }
        }
    }
}

#[test]
fn min_and_max_keep_the_first_of_two_level_numbers() {
    assert_eq!(s(-0.0).max(s(0.0)).to_bits(), (-0.0f32).to_bits());
    assert_eq!(s(0.0).min(s(-0.0)).to_bits(), 0.0f32.to_bits());
    assert_eq!(s(1.0).min(s(1.0)).to_bits(), 1.0f32.to_bits());
}

#[test]
fn fast_min_and_fast_max_take_the_second_unless_the_first_wins() {
    assert_eq!(s(1.0).fast_min(s(2.0)).to_bits(), 1.0f32.to_bits());
    assert_eq!(s(2.0).fast_min(s(1.0)).to_bits(), 1.0f32.to_bits());
    assert_eq!(s(1.0).fast_max(s(2.0)).to_bits(), 2.0f32.to_bits());
    assert_eq!(s(2.0).fast_max(s(1.0)).to_bits(), 2.0f32.to_bits());
    // what is not a number never wins a comparison, so the second is taken
    assert_eq!(s(f32::NAN).fast_min(s(3.0)).to_bits(), 3.0f32.to_bits());
    assert!(s(3.0).fast_min(s(f32::NAN)).is_nan());
    assert_eq!(s(f32::NAN).fast_max(s(3.0)).to_bits(), 3.0f32.to_bits());
    assert!(s(3.0).fast_max(s(f32::NAN)).is_nan());
}

#[test]
fn constants_are_the_patterns_of_their_numbers() {
    assert_eq!(Scalar::zero().to_bits(), 0.0f32.to_bits());
    assert_eq!(Scalar::one().to_bits(), 1.0f32.to_bits());
    assert_eq!(Scalar::max_value().to_bits(), f32::MAX.to_bits());
    assert_eq!(Scalar::infinity().to_bits(), f32::INFINITY.to_bits());
    assert_eq!(Scalar::neg_infinity().to_bits(), f32::NEG_INFINITY.to_bits());
    assert_eq!(ONE_BITS, 1.0f32.to_bits());
    assert_eq!(MAX_BITS, f32::MAX.to_bits());
    assert_eq!(INFINITY_BITS, f32::INFINITY.to_bits());
    assert_eq!(NEG_INFINITY_BITS, f32::NEG_INFINITY.to_bits());
}

#[test]
fn bits_round_trip() {
    for bits in [0u32, 1, 0x3f80_0000, 0x8000_0000, 0xffff_ffff, 0x7fc0_0000] {
        assert_eq!(Scalar::from_bits(bits).to_bits(), bits);
    }
}
