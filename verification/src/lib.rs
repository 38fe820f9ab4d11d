//! A CPU path tracer over exact fixed-point arithmetic.
//!
//! Every quantity is a [`scalar::Scalar`]: a whole number of millionths that
//! saturates at the ends of its range. All arithmetic is therefore exact
//! integer arithmetic, and each function states what it computes as a
//! function of its arguments.
//!
//! Random choices come from a [`random::RandomStream`], which is named by a
//! seed and a lane and yields the same numbers whenever it is asked again.
//! An image is thus a function of the camera, the world and the seed, and
//! each scanline, traced with a lane of its own, can be handed to any
//! thread.
//!
//! - [`scalar`], [`vec3`], [`interval`], [`ray`]: numbers, vectors, ranges
//!   and rays.
//! - [`hittable`]: what a ray can hit, and the nearest hit in a list.
//! - [`material`]: how a surface scatters a ray.
//! - [`camera`]: rays through pixels, the light along a ray, rows and
//!   images.
//! - [`color`], [`text`]: the encoding of colors as plain text.
//! - [`accuracy`]: how far rounding can take a hit off its sphere, and a
//!   normal off length one.

pub mod accuracy;
pub mod camera;
pub mod color;
pub mod hittable;
pub mod interval;
pub mod material;
pub mod random;
pub mod ray;
pub mod scalar;
pub mod text;
pub mod vec3;
