use pathcore::scalar::Scalar;
use pathcore::types::{Ray, Vec3};

fn s(x: f32) -> Scalar {
    Scalar::from_bits(x.to_bits())
}

fn samples() -> Vec<f32> {
    let mut v = vec![
        0.0,
        -0.0,
        1.0,
        -1.0,
        0.001,
        0.999,
        0.5,
        2.0,
        1.5,
        -1.5,
        255.0,
        1.0e-40,
        -1.0e-40,
        f32::MIN_POSITIVE,
        -f32::MIN_POSITIVE,
        f32::MAX,
        f32::MIN,
        f32::INFINITY,
        f32::NEG_INFINITY,
        f32::NAN,
        -f32::NAN,
        f32::EPSILON,
        3.25,
        1.0e30,
        -1.0e30,
    ];
    let mut state: u32 = 12345;
    for _ in 0..200 {
        state = state.wrapping_mul(1664525).wrapping_add(1013904223);
        v.push(f32::from_bits(state));
    }
    v
}

#[test]
fn ordering_agrees_with_hardware() {
    let values = samples();
    for &a in &values {
        for &b in &values {
            assert_eq!(s(a).lt(&s(b)), a < b, "{} < {}", a, b);
            assert_eq!(s(a).le(&s(b)), a <= b, "{} <= {}", a, b);
            assert_eq!(s(a).gt(&s(b)), a > b, "{} > {}", a, b);
            assert_eq!(s(a).ge(&s(b)), a >= b, "{} >= {}", a, b);
            assert_eq!(s(a).same(&s(b)), a == b, "{} == {}", a, b);
        }
    }
}

#[test]
fn classification_agrees_with_hardware() {
    for &a in &samples() {
        assert_eq!(s(a).is_nan(), a.is_nan());
        assert_eq!(s(a).is_zero(), a == 0.0);
    }
}

#[test]
fn negation_flips_the_sign_bit() {
    for &a in &samples() {
        assert_eq!(s(a).neg().to_bits(), (-a).to_bits());
        assert_eq!(s(a).neg().neg(), s(a));
    }
    assert_eq!(s(0.0).neg().to_bits(), 0x8000_0000);
    assert_eq!(s(1.0).neg().to_bits(), 0xbf80_0000);
}

#[test]
fn constants_have_their_values() {
    assert_eq!(f32::from_bits(Scalar::zero().to_bits()), 0.0);
    assert_eq!(f32::from_bits(Scalar::one().to_bits()), 1.0);
    assert_eq!(f32::from_bits(Scalar::infinity().to_bits()), f32::INFINITY);
    assert_eq!(Scalar::one().to_bits(), 0x3f80_0000);
}

fn clamp_by_rule(x: f32, low: f32, high: f32) -> f32 {
    if x > low {
        if x < high {
            x
        } else {
            high
        }
    } else {
        low
    }
}

#[test]
fn clamp_follows_the_rule() {
    for &a in &samples() {
        let got = s(a).clamp(&s(0.0), &s(0.999));
        assert_eq!(got.to_bits(), clamp_by_rule(a, 0.0, 0.999).to_bits(), "{}", a);
    }
    assert_eq!(s(1.3).clamp(&s(3.25), &s(5.5)), s(3.25));
    assert_eq!(s(4.5).clamp(&s(3.25), &s(5.5)), s(4.5));
    assert_eq!(s(7.8).clamp(&s(3.25), &s(5.5)), s(5.5));
    assert_eq!(s(f32::NAN).clamp(&s(3.25), &s(5.5)), s(3.25));
}

#[test]
fn vector_negation_is_componentwise() {
    let v = Vec3::new(s(1.0), s(-2.0), s(0.0));
    let n = v.neg();
    assert_eq!(n, Vec3::new(s(-1.0), s(2.0), s(-0.0)));
    assert_eq!(Vec3::from_bits(1, 2, 3).x.to_bits(), 1);
    assert_eq!(Vec3::from_bits(1, 2, 3).y.to_bits(), 2);
    assert_eq!(Vec3::from_bits(1, 2, 3).z.to_bits(), 3);
}

#[test]
fn ray_keeps_its_parts() {
    let o = Vec3::new(s(0.0), s(0.0), s(3.0));
    let d = Vec3::new(s(0.0), s(0.0), s(-1.0));
    let r = Ray::new(o, d, s(0.25));
    assert_eq!(r.origin(), o);
    assert_eq!(r.direction(), d);
    assert_eq!(r.time(), s(0.25));
}

#[test]
fn cast_to_isize_agrees_with_hardware() {
    for &a in &samples() {
        assert_eq!(s(a).to_isize(), a as isize, "{}", a);
    }
    let mut state: u32 = 4242;
    for _ in 0..20000 {
        state = state.wrapping_mul(1664525).wrapping_add(1013904223);
        let x = (state >> 8) as f32 / (1u32 << 24) as f32 * 4000.0 - 2000.0;
        assert_eq!(s(x).to_isize(), x as isize, "{}", x);
        assert_eq!(s(x.floor()).to_isize(), x.floor() as isize, "{}", x);
    }
    for k in 0..64 {
        for x in [2.0f32.powi(k), 2.0f32.powi(k) * 1.5, -(2.0f32.powi(k)), 2.0f32.powi(-k)] {
            assert_eq!(s(x).to_isize(), x as isize, "{}", x);
        }
    }
    assert_eq!(s(2.5).to_isize(), 2);
    assert_eq!(s(-2.5).to_isize(), -2);
    assert_eq!(s(0.999).to_isize(), 0);
    assert_eq!(s(-0.999).to_isize(), 0);
    assert_eq!(s(1.0e30).to_isize(), isize::MAX);
    assert_eq!(s(-1.0e30).to_isize(), isize::MIN);
    assert_eq!(s(f32::INFINITY).to_isize(), isize::MAX);
    assert_eq!(s(f32::NEG_INFINITY).to_isize(), isize::MIN);
    assert_eq!(s(f32::NAN).to_isize(), 0);
}
