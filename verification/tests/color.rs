use path_tracer::color::{channel, linear_to_gamma, write_color, Color, MAX_INTENSITY};
use path_tracer::scalar::{Scalar, LIMIT};
use path_tracer::vec3::Vec3;

fn raw(v: i64) -> Scalar {
    Scalar::from_raw(v)
}

#[test]
fn parts_of_a_color() {
    let color: Color = Vec3::new(raw(1), raw(2), raw(3));
    assert_eq!(color.r().raw(), 1);
    assert_eq!(color.g().raw(), 2);
    assert_eq!(color.b().raw(), 3);
}

#[test]
fn gamma_is_the_square_root() {
    assert_eq!(linear_to_gamma(raw(250_000)).raw(), 500_000);
    assert_eq!(linear_to_gamma(raw(1_000_000)).raw(), 1_000_000);
    assert_eq!(linear_to_gamma(raw(0)).raw(), 0);
    assert_eq!(linear_to_gamma(raw(500_000)).raw(), 707_106);
}

#[test]
fn gamma_of_a_negative_intensity_is_zero() {
    assert_eq!(linear_to_gamma(raw(-1)).raw(), 0);
    assert_eq!(linear_to_gamma(raw(-LIMIT)).raw(), 0);
}

#[test]
fn channels_are_whole_numbers_up_to_254() {
    assert_eq!(MAX_INTENSITY, 999_000);
    assert_eq!(channel(raw(0)), 0);
    assert_eq!(channel(raw(-3_000_000)), 0);
    assert_eq!(channel(raw(250_000)), 127);
    assert_eq!(channel(raw(500_000)), 180);
    assert_eq!(channel(raw(1_000_000)), 254);
    assert_eq!(channel(raw(4_000_000)), 254);
    assert_eq!(channel(raw(LIMIT)), 254);
    assert_eq!(channel(raw(16)), 1);
    assert_eq!(channel(raw(15)), 0);
}

#[test]
fn a_pixel_as_text() {
    assert_eq!(write_color(Vec3::new(raw(250_000), raw(1_000_000), raw(0))), "127 254 0");
    assert_eq!(write_color(Vec3::new(raw(-1), raw(500_000), raw(LIMIT))), "0 180 254");
}
