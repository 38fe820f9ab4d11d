//! Colors, and their encoding as three whole numbers.

use crate::interval::Interval;
use crate::scalar::{lemma_of_view, Scalar, SCALE};
use crate::text::{push_decimal, spec_decimal};
use crate::vec3::Vec3;
use vstd::prelude::*;
use vstd::string::StringExecFns;

verus! {

/// Red, green and blue, each from zero (none) to one (full).
pub type Color = Vec3;

/// The largest intensity that is encoded, in millionths: 0.999.
pub const MAX_INTENSITY: i64 = 999_000;

impl Vec3 {
    /// The red part.
    pub fn r(&self) -> (r: Scalar)
        ensures
            r == self.x,
    {
        self.x
    }

    /// The green part.
    pub fn g(&self) -> (r: Scalar)
        ensures
            r == self.y,
    {
        self.y
    }

    /// The blue part.
    pub fn b(&self) -> (r: Scalar)
        ensures
            r == self.z,
    {
        self.z
    }
}

/// Gamma 2: the square root of a linear intensity, and zero for a
/// negative one.
pub open spec fn spec_linear_to_gamma(value: Scalar) -> Scalar {
    if value@ < 0 {
        Scalar::of(0)
    } else {
        value.spec_sqrt()
    }
}

/// Turns a linear intensity into a gamma-corrected one.
pub fn linear_to_gamma(value: Scalar) -> (r: Scalar)
    ensures
        r == spec_linear_to_gamma(value),
{
    proof {
        lemma_of_view(0);
    }
    if value.lt(Scalar::zero()) {
        Scalar::zero()
    } else {
        value.sqrt()
    }
}

/// The range of intensities that are encoded: from zero to 0.999.
pub open spec fn spec_intensity() -> Interval {
    Interval { min: Scalar::of(0), max: Scalar::of(MAX_INTENSITY as int) }
}

/// The whole number that encodes a linear intensity: 255 times the
/// gamma-corrected intensity brought into the range from zero to 0.999,
/// rounded down.
pub open spec fn spec_channel(value: Scalar) -> int {
    255 * spec_intensity().spec_clamp(spec_linear_to_gamma(value))@ / (SCALE as int)
}

/// The whole number, from 0 to 254, that encodes a linear intensity.
pub fn channel(value: Scalar) -> (r: u8)
    ensures
        r == spec_channel(value),
        r <= 254,
{
    let intensity = Interval::new(Scalar::zero(), Scalar::from_raw(MAX_INTENSITY));
    let clamped = intensity.clamp(linear_to_gamma(value));
    proof {
        lemma_of_view(0);
        lemma_of_view(MAX_INTENSITY as int);
    }
    let scaled: i64 = 255 * clamped.raw();
    (scaled / SCALE) as u8
}

/// The three encoded parts of a color in base ten, with one space between
/// them.
pub open spec fn spec_write_color(pixel_color: Color) -> Seq<char> {
    spec_decimal(spec_channel(pixel_color.x)) + seq![' '] + spec_decimal(
        spec_channel(pixel_color.y),
    ) + seq![' '] + spec_decimal(spec_channel(pixel_color.z))
}

/// The text of one pixel: its red, green and blue parts, encoded.
pub fn write_color(pixel_color: Color) -> (r: String)
    ensures
        r@ == spec_write_color(pixel_color),
{
    proof {
        reveal_strlit(" ");
    }
    let mut text = String::new();
    push_decimal(&mut text, channel(pixel_color.r()) as i64);
    text.append(" ");
    push_decimal(&mut text, channel(pixel_color.g()) as i64);
    text.append(" ");
    push_decimal(&mut text, channel(pixel_color.b()) as i64);
    assert(text@ =~= spec_write_color(pixel_color));
    text
}

} // verus!
