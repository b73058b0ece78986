use riaw::scalar::Scalar;
use riaw::vec3::Vec3;

fn s(v: f32) -> Scalar {
    Scalar::from_bits(v.to_bits())
}

fn f(v: Scalar) -> f32 {
    f32::from_bits(v.to_bits())
}

fn v3(x: f32, y: f32, z: f32) -> Vec3 {
    Vec3::new(s(x), s(y), s(z))
}

fn hardware_to_u8(v: f32) -> u8 {
    (256.0 * v).min(255.0) as u8
}

fn hardware_from_u8(v: u8) -> f32 {
    v as f32 / 256.0 + 0.001953125
}

#[test]
fn from_u8_is_the_middle_of_the_step_for_every_byte() {
    for b in 0..=255u8 {
        assert_eq!(Vec3::from_u8(b).to_bits(), hardware_from_u8(b).to_bits());
    }
}

#[test]
fn from_u8_exact_values() {
    assert_eq!(f(Vec3::from_u8(0)), 0.001953125);
    assert_eq!(f(Vec3::from_u8(1)), 3.0 / 512.0);
    assert_eq!(f(Vec3::from_u8(128)), 257.0 / 512.0);
    assert_eq!(f(Vec3::from_u8(255)), 511.0 / 512.0);
}

#[test]
fn to_u8_agrees_with_hardware_at_the_steps() {
    for k in 0..=256u32 {
        let at = k as f32 / 256.0;
        let below = f32::from_bits(at.to_bits().wrapping_sub(1));
        let above = f32::from_bits(at.to_bits() + 1);
        assert_eq!(Vec3::to_u8(s(at)), hardware_to_u8(at));
        assert_eq!(Vec3::to_u8(s(above)), hardware_to_u8(above));
        if k > 0 {
            assert_eq!(Vec3::to_u8(s(below)), hardware_to_u8(below));
        }
    }
}

#[test]
fn to_u8_agrees_with_hardware_on_a_spread_of_patterns() {
    let mut bits: u32 = 0;
    let mut n = 0;
    while bits < 0x7f80_0000 {
        let v = f32::from_bits(bits);
        assert_eq!(Vec3::to_u8(s(v)), hardware_to_u8(v));
        assert_eq!(Vec3::to_u8(s(-v)), hardware_to_u8(-v));
        bits += 104_729;
        n += 1;
    }
    assert!(n > 20_000);
}

#[test]
fn to_u8_agrees_with_hardware_between_zero_and_one() {
    let mut bits: u32 = 0x3b00_0000;
    while bits < 0x3f80_0100 {
        let v = f32::from_bits(bits);
        assert_eq!(Vec3::to_u8(s(v)), hardware_to_u8(v));
        bits += 1009;
    }
}

#[test]
fn to_u8_at_the_edges() {
    assert_eq!(Vec3::to_u8(s(0.0)), 0);
    assert_eq!(Vec3::to_u8(s(-0.0)), 0);
    assert_eq!(Vec3::to_u8(s(-1.0)), 0);
    assert_eq!(Vec3::to_u8(s(f32::NEG_INFINITY)), 0);
    assert_eq!(Vec3::to_u8(s(1.0)), 255);
    assert_eq!(Vec3::to_u8(s(1000.0)), 255);
    assert_eq!(Vec3::to_u8(s(f32::MAX)), 255);
    assert_eq!(Vec3::to_u8(s(f32::INFINITY)), 255);
    assert_eq!(Vec3::to_u8(s(f32::NAN)), 255);
    assert_eq!(Vec3::to_u8(s(f32::NAN)), hardware_to_u8(f32::NAN));
    assert_eq!(Vec3::to_u8(s(0.5)), 128);
    assert_eq!(Vec3::to_u8(s(0.25)), 64);
    assert_eq!(Vec3::to_u8(s(1.0 / 256.0)), 1);
    assert_eq!(Vec3::to_u8(s(0.0039)), 0);
}

#[test]
fn every_byte_comes_back_from_its_number() {
    for b in 0..=255u8 {
        assert_eq!(Vec3::to_u8(Vec3::from_u8(b)), b);
    }
}

#[test]
fn to_argb_packs_red_green_blue_from_the_top() {
    let c = v3(0.5, 0.25, 1.0);
    assert_eq!(c.to_argb(), 0x0080_40ff);
    assert_eq!(c.to_rgb(), [0x80, 0x40, 0xff]);
    assert_eq!(v3(0.0, 0.0, 0.0).to_argb(), 0);
    assert_eq!(v3(2.0, 2.0, 2.0).to_argb(), 0x00ff_ffff);
}

#[test]
fn from_argb_unpacks_and_ignores_the_top_byte() {
    let c = Vec3::from_argb(0xab80_40ff);
    assert_eq!(f(c.x), hardware_from_u8(0x80));
    assert_eq!(f(c.y), hardware_from_u8(0x40));
    assert_eq!(f(c.z), hardware_from_u8(0xff));
    let d = Vec3::from_argb(0x0080_40ff);
    assert_eq!(d.x.to_bits(), c.x.to_bits());
    assert_eq!(d.y.to_bits(), c.y.to_bits());
    assert_eq!(d.z.to_bits(), c.z.to_bits());
}

#[test]
fn a_packed_pixel_survives_unpacking_and_packing() {
    for v in [0u32, 1, 0x00ff_ffff, 0x0012_3456, 0x0080_0000, 0x0000_ff00, 0x00fe_01a5] {
        assert_eq!(Vec3::from_argb(v).to_argb(), v);
    }
    assert_eq!(Vec3::from_argb(0xff12_3456).to_argb(), 0x0012_3456);
}

#[test]
fn constructors_and_components() {
    let c = v3(1.0, 2.0, 3.0);
    assert_eq!(f(c.axis(0)), 1.0);
    assert_eq!(f(c.axis(1)), 2.0);
    assert_eq!(f(c.axis(2)), 3.0);
    let a = c.to_array();
    assert_eq!([f(a[0]), f(a[1]), f(a[2])], [1.0, 2.0, 3.0]);
    let one = Vec3::ones();
    assert_eq!([f(one.x), f(one.y), f(one.z)], [1.0, 1.0, 1.0]);
    let zero = Vec3::zeros();
    assert_eq!([f(zero.x), f(zero.y), f(zero.z)], [0.0, 0.0, 0.0]);
    assert!(c.is_ordered());
    assert!(!v3(1.0, f32::NAN, 3.0).is_ordered());
}

#[test]
fn the_prelude_names_the_same_types() {
    let a: riaw::prelude::Vec3 = v3(1.0, 2.0, 3.0);
    let b: riaw::prelude::Scalar = a.x;
    assert_eq!(f(b), 1.0);
}

#[test]
fn make_dyadic_is_the_quotient_by_a_power_of_two() {
    for shift in [0u32, 1, 8, 9, 23, 24, 64, 100] {
        let scale = 2.0f32.powi(shift as i32);
        for m in (1u32..600).chain([65_535, 65_536, 8_388_607, 8_388_608, 8_388_609, 16_777_215]) {
            let expected = m as f32 / scale;
            assert_eq!(riaw::dyadic::make_dyadic(m, shift).to_bits(), expected.to_bits());
        }
    }
}

#[test]
fn count_steps_counts_the_steps_that_are_reached() {
    assert_eq!(riaw::dyadic::count_steps(s(0.0)), 0);
    assert_eq!(riaw::dyadic::count_steps(s(1.0 / 256.0)), 1);
    assert_eq!(riaw::dyadic::count_steps(s(100.5 / 256.0)), 100);
    assert_eq!(riaw::dyadic::count_steps(s(255.0 / 256.0)), 255);
    assert_eq!(riaw::dyadic::count_steps(s(f32::INFINITY)), 255);
    assert_eq!(riaw::dyadic::count_steps(s(f32::NEG_INFINITY)), 0);
}
