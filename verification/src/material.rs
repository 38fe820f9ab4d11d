//! Surfaces: how a ray leaves the point it hit.

use crate::color::Color;
use crate::hittable::HitRecord;
use crate::interval::Interval;
use crate::random::RandomStream;
use crate::ray::Ray;
use crate::scalar::{lemma_of_view, Scalar, SCALE};
use crate::vec3::{lemma_not_near_zero_has_length, Vec3};
use vstd::prelude::*;

verus! {

/// A surface. Given the incoming ray and the hit, it either scatters the
/// ray, and says how much of each color the scattered ray keeps, or
/// absorbs it.
pub trait Material: Sync + Send {
    /// What `scatter` returns, and the stream it leaves, as a function of
    /// its arguments.
    spec fn spec_scatter(&self, r_in: Ray, rec: HitRecord, stream: RandomStream) -> (
        Option<(Color, Ray)>,
        RandomStream,
    );

    /// The attenuation and the scattered ray, or `None` where the ray is
    /// absorbed. Random choices are drawn from `stream`.
    fn scatter(&self, r_in: &Ray, rec: &HitRecord, stream: &mut RandomStream) -> (res: Option<
        (Color, Ray),
    >)
        ensures
            (res, *final(stream)) == self.spec_scatter(*r_in, *rec, *old(stream)),
    ;
}

/// A matte surface: it scatters around the normal, whatever the incoming
/// direction.
#[derive(Clone, Copy, Debug, PartialEq, Eq, Structural)]
pub struct Lambertian {
    pub albedo: Color,
}

impl Lambertian {
    /// The matte surface that reflects the fraction `a` of each color.
    pub fn new(a: Color) -> (r: Lambertian)
        ensures
            r == (Lambertian { albedo: a }),
    {
        Lambertian { albedo: a }
    }

    /// The direction in which a matte surface with the given normal sends
    /// a ray on: the normal plus the sampled direction, or the normal
    /// itself where nothing was sampled or the sum is near zero.
    pub open spec fn spec_direction(normal: Vec3, sample: Option<Vec3>) -> Vec3 {
        match sample {
            Some(v) => if normal.spec_add(v).spec_near_zero() {
                normal
            } else {
                normal.spec_add(v)
            },
            None => normal,
        }
    }

    /// The direction in which a matte surface with the given normal sends
    /// a ray on, for a sampled direction on the normal's side. Unless the
    /// normal itself is near zero, the direction has a length.
    pub fn direction(normal: Vec3, sample: Option<Vec3>) -> (r: Vec3)
        ensures
            r == Lambertian::spec_direction(normal, sample),
            !normal.spec_near_zero() ==> r.spec_length_squared()@ > 0,
    {
        proof {
            if !Lambertian::spec_direction(normal, sample).spec_near_zero() {
                lemma_not_near_zero_has_length(Lambertian::spec_direction(normal, sample));
            }
        }
        match sample {
            Some(v) => {
                let scatter_direction = normal.add(v);
                if scatter_direction.near_zero() {
                    normal
                } else {
                    scatter_direction
                }
            },
            None => normal,
        }
    }
}

impl Material for Lambertian {
    /// A ray from the hit point along `spec_direction` of a direction
    /// sampled on the normal's side, attenuated by the albedo.
    open spec fn spec_scatter(&self, r_in: Ray, rec: HitRecord, stream: RandomStream) -> (
        Option<(Color, Ray)>,
        RandomStream,
    ) {
        let (sample, rest) = Vec3::spec_on_unit_sphere(rec.normal, stream);
        (
            Some(
                (
                    self.albedo,
                    Ray { origin: rec.p, direction: Lambertian::spec_direction(rec.normal, sample) },
                ),
            ),
            rest,
        )
    }

    fn scatter(&self, r_in: &Ray, rec: &HitRecord, stream: &mut RandomStream) -> (res: Option<
        (Color, Ray),
    >)
        ensures
            res is Some,
    {
        let normal = rec.normal;
        let sample = Vec3::random_on_unit_sphere(&normal, stream);
        let scattered = Ray::new(rec.p, Lambertian::direction(normal, sample));
        Some((self.albedo, scattered))
    }
}

/// A polished surface: it mirrors the incoming direction, blurred by
/// `fuzz`, which lies between zero and one.
#[derive(Clone, Copy, Debug, PartialEq, Eq, Structural)]
pub struct Metal {
    pub albedo: Color,
    pub fuzz: Scalar,
}

impl Metal {
    /// The range of a fuzz: from zero to one.
    pub open spec fn spec_fuzz_range() -> Interval {
        Interval { min: Scalar::of(0), max: Scalar::of(SCALE as int) }
    }

    /// The polished surface that reflects the fraction `a` of each color,
    /// with `fuzz` brought into the range from zero to one.
    pub fn new(a: Color, fuzz: Scalar) -> (r: Metal)
        ensures
            r == (Metal { albedo: a, fuzz: Metal::spec_fuzz_range().spec_clamp(fuzz) }),
            0 <= r.fuzz@ <= SCALE,
    {
        proof {
            lemma_of_view(0);
            lemma_of_view(SCALE as int);
        }
        Metal { albedo: a, fuzz: Interval::new(Scalar::zero(), Scalar::one()).clamp(fuzz) }
    }

    /// The mirrored direction plus `fuzz` times the sampled direction;
    /// the mirrored direction alone where nothing was sampled.
    pub open spec fn spec_direction(self, incoming: Vec3, normal: Vec3, sample: Option<Vec3>) -> Vec3 {
        match sample {
            Some(v) => incoming.spec_reflect(normal).spec_add(self.fuzz.spec_mul_vec(v)),
            None => incoming.spec_reflect(normal),
        }
    }

    /// The direction in which this surface sends on a ray that comes in
    /// along `incoming`, for a sampled direction of length one.
    pub fn direction(&self, incoming: Vec3, normal: Vec3, sample: Option<Vec3>) -> (r: Vec3)
        ensures
            r == self.spec_direction(incoming, normal, sample),
    {
        let reflected = incoming.reflect(normal);
        match sample {
            Some(v) => reflected.add(self.fuzz.mul_vec(v)),
            None => reflected,
        }
    }
}

impl Material for Metal {
    /// A ray from the hit point along `spec_direction` of a sampled
    /// direction, attenuated by the albedo.
    open spec fn spec_scatter(&self, r_in: Ray, rec: HitRecord, stream: RandomStream) -> (
        Option<(Color, Ray)>,
        RandomStream,
    ) {
        let (sample, rest) = Vec3::spec_unit_sample(stream, crate::vec3::SAMPLE_ATTEMPTS as nat);
        (
            Some(
                (
                    self.albedo,
                    Ray {
                        origin: rec.p,
                        direction: self.spec_direction(r_in.direction, rec.normal, sample),
                    },
                ),
            ),
            rest,
        )
    }

    fn scatter(&self, r_in: &Ray, rec: &HitRecord, stream: &mut RandomStream) -> (res: Option<
        (Color, Ray),
    >)
        ensures
            res is Some,
    {
        let sample = Vec3::random_unit_vector_in_unit_sphere(stream);
        let reflected = self.direction(r_in.direction(), rec.normal, sample);
        let scattered = Ray::new(rec.p, reflected);
        Some((self.albedo, scattered))
    }
}

/// One of the surfaces that this library knows.
#[derive(Clone, Copy, Debug, PartialEq, Eq, Structural)]
pub enum Surface {
    Lambertian(Lambertian),
    Metal(Metal),
}

impl Material for Surface {
    /// What the surface inside scatters.
    open spec fn spec_scatter(&self, r_in: Ray, rec: HitRecord, stream: RandomStream) -> (
        Option<(Color, Ray)>,
        RandomStream,
    ) {
        match *self {
            Surface::Lambertian(matte) => matte.spec_scatter(r_in, rec, stream),
            Surface::Metal(polished) => polished.spec_scatter(r_in, rec, stream),
        }
    }

    fn scatter(&self, r_in: &Ray, rec: &HitRecord, stream: &mut RandomStream) -> (res: Option<
        (Color, Ray),
    >)
        ensures
            res is Some,
    {
        match self {
            Surface::Lambertian(matte) => matte.scatter(r_in, rec, stream),
            Surface::Metal(polished) => polished.scatter(r_in, rec, stream),
        }
    }
}

} // verus!
