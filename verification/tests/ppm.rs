use pathcore::ppm::{channel, write_header, write_image, write_pixel, WritePPM};
use pathcore::scalar::Scalar;
use pathcore::types::{Color, Vec3};

fn s(x: f32) -> Scalar {
    Scalar::from_bits(x.to_bits())
}

fn color(r: f32, g: f32, b: f32) -> Color {
    Vec3::new(s(r), s(g), s(b))
}

fn clamp_by_rule(x: f32, low: f32, high: f32) -> f32 {
    if x > low {
        if x < high {
            x
        } else {
            high
        }
    } else {
        low
    }
}

/// The bytes of an image file: the magic token, then the rest.
fn file(rest: &str) -> Vec<u8> {
    let mut bytes = vec![b'P', b'3', b'\n'];
    bytes.extend(rest.bytes());
    bytes
}

fn channel_by_arithmetic(x: f32) -> u8 {
    (256.0 * clamp_by_rule(x, 0.0, 0.999)) as u8
}

#[test]
fn header_of_an_image() {
    let mut out = Vec::new();
    write_header(&mut out, 500, 281);
    assert_eq!(out, file("500 281\n255\n"));
}

#[test]
fn header_appends_to_what_is_there() {
    let mut out = file("");
    write_header(&mut out, 256, 256);
    let mut twice = file("");
    twice.extend(file("256 256\n255\n"));
    assert_eq!(out, twice);
}

#[test]
fn header_prints_any_size_as_decimal() {
    let mut out = Vec::new();
    write_header(&mut out, 0, 7);
    assert_eq!(out, file("0 7\n255\n"));
    let mut out = Vec::new();
    write_header(&mut out, -12, i32::MAX);
    assert_eq!(out, file(&format!("{} {}\n255\n", -12, i32::MAX)));
    let mut out = Vec::new();
    write_header(&mut out, i32::MIN, 1000000);
    assert_eq!(out, file(&format!("{} {}\n255\n", i32::MIN, 1000000)));
}

#[test]
fn channel_of_known_intensities() {
    assert_eq!(channel(s(0.0)), 0);
    assert_eq!(channel(s(0.5)), 128);
    assert_eq!(channel(s(0.25)), 64);
    assert_eq!(channel(s(0.999)), 255);
    assert_eq!(channel(s(1.0)), 255);
    assert_eq!(channel(s(7.5)), 255);
    assert_eq!(channel(s(f32::INFINITY)), 255);
    assert_eq!(channel(s(-0.5)), 0);
    assert_eq!(channel(s(-0.0)), 0);
    assert_eq!(channel(s(f32::NAN)), 0);
    assert_eq!(channel(s(1.0 / 256.0)), 1);
    assert_eq!(channel(s(0.0039)), 0);
    assert_eq!(channel(s(1.0e-40)), 0);
}

#[test]
fn channel_agrees_with_rounding_arithmetic() {
    let mut state: u32 = 99;
    for _ in 0..20000 {
        state = state.wrapping_mul(1664525).wrapping_add(1013904223);
        let x = f32::from_bits(state);
        assert_eq!(channel(s(x)), channel_by_arithmetic(x), "{}", x);
        let unit = (state >> 8) as f32 / (1u32 << 24) as f32;
        assert_eq!(channel(s(unit)), channel_by_arithmetic(unit), "{}", unit);
    }
    for k in 0..=256 {
        let x = k as f32 / 256.0;
        assert_eq!(channel(s(x)), channel_by_arithmetic(x), "{}", x);
    }
}

#[test]
fn pixel_line_has_three_channels() {
    let mut out = Vec::new();
    write_pixel(&mut out, &color(0.0, 0.5, 1.0));
    assert_eq!(out, b"0 128 255\n".to_vec());
    let mut out = Vec::new();
    color(0.25, 0.04, 0.999).write_ppm(&mut out);
    assert_eq!(out, b"64 10 255\n".to_vec());
}

#[test]
fn image_is_header_then_pixels_in_order() {
    let pixels = vec![color(1.0, 0.0, 0.0), color(0.0, 1.0, 0.0), color(0.0, 0.0, 1.0), color(0.5, 0.5, 0.5)];
    let mut out = Vec::new();
    write_image(&mut out, 2, 2, &pixels);
    assert_eq!(out, file("2 2\n255\n255 0 0\n0 255 0\n0 0 255\n128 128 128\n"));
}

#[test]
fn writing_twice_gives_the_same_bytes() {
    let pixels = vec![color(0.1, 0.2, 0.3), color(0.9, 0.8, 0.7)];
    let mut first = Vec::new();
    write_image(&mut first, 2, 1, &pixels);
    let mut second = Vec::new();
    write_image(&mut second, 2, 1, &pixels);
    assert_eq!(first, second);
}
