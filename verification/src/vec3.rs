//! Vectors of three scalars: points, directions and colors.

use crate::random::RandomStream;
use crate::accuracy::lemma_sample_near_unit;
use crate::scalar::{
    lemma_add_neg, lemma_mul_neg, lemma_of_view, lemma_square_not_negative,
    lemma_sum_not_negative, lemma_view_range, magnitude, trunc_div, Scalar, SCALE,
};
use vstd::prelude::*;

verus! {

/// A vector of three scalars.
#[derive(Clone, Copy, Debug, PartialEq, Eq, Structural)]
pub struct Vec3 {
    pub x: Scalar,
    pub y: Scalar,
    pub z: Scalar,
}

/// A position in space.
pub type Point3 = Vec3;

/// How many candidates `Vec3::random_unit_vector_in_unit_sphere` tries.
pub const SAMPLE_ATTEMPTS: u32 = 64;

/// The least squared length, in millionths, of a candidate that
/// `Vec3::random_unit_vector_in_unit_sphere` accepts: a quarter. A shorter
/// candidate could not be scaled to length one within `UNIT_TOLERANCE`.
pub const SHORTEST_SAMPLE: i64 = 250_000;

/// The most, in millionths of millionths, by which the squared length of
/// a sampled direction differs from one.
pub const UNIT_TOLERANCE: i64 = 30_000_000;

/// The magnitude, in millionths, below which a component counts as zero:
/// the least whose square is not rounded to zero.
pub const NEAR_ZERO: i64 = 1_000;

/// Inner product: the three products summed from the first to the third.
pub open spec fn spec_dot(u: Vec3, v: Vec3) -> Scalar {
    u.x.spec_mul(v.x).spec_add(u.y.spec_mul(v.y)).spec_add(u.z.spec_mul(v.z))
}

/// Inner product of two vectors.
pub fn dot(u: Vec3, v: Vec3) -> (r: Scalar)
    ensures
        r == spec_dot(u, v),
{
    u.x.mul(v.x).add(u.y.mul(v.y)).add(u.z.mul(v.z))
}

/// The inner product with the opposite of a vector is the opposite of
/// the inner product.
pub proof fn lemma_dot_neg(u: Vec3, v: Vec3)
    requires
        v.wf(),
    ensures
        spec_dot(u, v.spec_neg()) == spec_dot(u, v).spec_neg(),
{
    lemma_mul_neg(u.x, v.x);
    lemma_mul_neg(u.y, v.y);
    lemma_mul_neg(u.z, v.z);
    lemma_of_view(trunc_div(u.x@ * v.x@, SCALE as int));
    lemma_of_view(trunc_div(u.y@ * v.y@, SCALE as int));
    lemma_of_view(trunc_div(u.z@ * v.z@, SCALE as int));
    lemma_add_neg(u.x.spec_mul(v.x), u.y.spec_mul(v.y));
    lemma_of_view(u.x.spec_mul(v.x)@ + u.y.spec_mul(v.y)@);
    lemma_add_neg(u.x.spec_mul(v.x).spec_add(u.y.spec_mul(v.y)), u.z.spec_mul(v.z));
}

/// The opposite of a vector of length one up to rounding has length one
/// up to rounding.
pub proof fn lemma_neg_near_unit(v: Vec3)
    requires
        v.wf(),
        v.spec_near_unit(),
    ensures
        v.spec_neg().spec_near_unit(),
{
    let n = v.spec_neg();
    lemma_view_range(v.x);
    lemma_view_range(v.y);
    lemma_view_range(v.z);
    lemma_of_view(-v.x@);
    lemma_of_view(-v.y@);
    lemma_of_view(-v.z@);
    assert(n.x@ * n.x@ == v.x@ * v.x@) by (nonlinear_arith)
        requires
            n.x@ == -v.x@,
    ;
    assert(n.y@ * n.y@ == v.y@ * v.y@) by (nonlinear_arith)
        requires
            n.y@ == -v.y@,
    ;
    assert(n.z@ * n.z@ == v.z@ * v.z@) by (nonlinear_arith)
        requires
            n.z@ == -v.z@,
    ;
}

/// A vector that is not near zero has a squared length above zero:
/// `NEAR_ZERO` is the least magnitude whose square is not rounded to
/// zero.
pub proof fn lemma_not_near_zero_has_length(v: Vec3)
    requires
        !v.spec_near_zero(),
    ensures
        v.spec_length_squared()@ > 0,
{
    lemma_square_not_negative(v.x);
    lemma_square_not_negative(v.y);
    lemma_square_not_negative(v.z);
    lemma_square_of_long(v.x);
    lemma_square_of_long(v.y);
    lemma_square_of_long(v.z);
    lemma_of_view(v.x.spec_mul(v.x)@ + v.y.spec_mul(v.y)@);
    lemma_of_view(v.x.spec_mul(v.x).spec_add(v.y.spec_mul(v.y))@ + v.z.spec_mul(v.z)@);
}

/// The square of a scalar of magnitude `NEAR_ZERO` or more is at least
/// one millionth.
proof fn lemma_square_of_long(a: Scalar)
    ensures
        magnitude(a@) >= NEAR_ZERO ==> a.spec_mul(a)@ >= 1,
{
    if magnitude(a@) >= NEAR_ZERO {
        assert(a@ * a@ >= SCALE) by (nonlinear_arith)
            requires
                a@ >= 1_000 || a@ <= -1_000,
                SCALE == 1_000_000,
        ;
        vstd::arithmetic::div_mod::lemma_div_is_ordered(SCALE as int, a@ * a@, SCALE as int);
        lemma_of_view(trunc_div(a@ * a@, SCALE as int));
    }
}

/// A squared length is not negative.
pub proof fn lemma_length_squared_not_negative(v: Vec3)
    ensures
        v.spec_length_squared()@ >= 0,
{
    lemma_square_not_negative(v.x);
    lemma_square_not_negative(v.y);
    lemma_square_not_negative(v.z);
    lemma_sum_not_negative(v.x.spec_mul(v.x), v.y.spec_mul(v.y));
    lemma_sum_not_negative(v.x.spec_mul(v.x).spec_add(v.y.spec_mul(v.y)), v.z.spec_mul(v.z));
}

/// Vector product in a right-handed frame.
pub open spec fn spec_cross(u: Vec3, v: Vec3) -> Vec3 {
    Vec3 {
        x: u.y.spec_mul(v.z).spec_sub(u.z.spec_mul(v.y)),
        y: u.z.spec_mul(v.x).spec_sub(u.x.spec_mul(v.z)),
        z: u.x.spec_mul(v.y).spec_sub(u.y.spec_mul(v.x)),
    }
}

/// Vector product of two vectors.
pub fn cross(u: Vec3, v: Vec3) -> (r: Vec3)
    ensures
        r == spec_cross(u, v),
{
    Vec3 {
        x: u.y.mul(v.z).sub(u.z.mul(v.y)),
        y: u.z.mul(v.x).sub(u.x.mul(v.z)),
        z: u.x.mul(v.y).sub(u.y.mul(v.x)),
    }
}

impl Scalar {
    /// The vector `v` with each component multiplied by this scalar.
    pub open spec fn spec_mul_vec(self, v: Vec3) -> Vec3 {
        Vec3 { x: self.spec_mul(v.x), y: self.spec_mul(v.y), z: self.spec_mul(v.z) }
    }

    /// The vector `v` with each component multiplied by this scalar.
    pub fn mul_vec(self, v: Vec3) -> (r: Vec3)
        ensures
            r == self.spec_mul_vec(v),
    {
        Vec3 { x: self.mul(v.x), y: self.mul(v.y), z: self.mul(v.z) }
    }

    /// This scalar divided by each component of `v`.
    pub open spec fn spec_div_vec(self, v: Vec3) -> Vec3 {
        Vec3 { x: self.spec_div(v.x), y: self.spec_div(v.y), z: self.spec_div(v.z) }
    }

    /// This scalar divided by each component of `v`.
    pub fn div_vec(self, v: Vec3) -> (r: Vec3)
        ensures
            r == self.spec_div_vec(v),
    {
        Vec3 { x: self.div(v.x), y: self.div(v.y), z: self.div(v.z) }
    }
}

impl Vec3 {
    /// The vector of the three components.
    pub fn new(x: Scalar, y: Scalar, z: Scalar) -> (r: Vec3)
        ensures
            r == (Vec3 { x, y, z }),
    {
        Vec3 { x, y, z }
    }

    /// The vector of three whole numbers of millionths.
    pub open spec fn of(x: int, y: int, z: int) -> Vec3 {
        Vec3 { x: Scalar::of(x), y: Scalar::of(y), z: Scalar::of(z) }
    }

    /// Whether each component is in range.
    pub open spec fn wf(self) -> bool {
        self.x.wf() && self.y.wf() && self.z.wf()
    }

    /// Sum, component by component.
    pub open spec fn spec_add(self, other: Vec3) -> Vec3 {
        Vec3 { x: self.x.spec_add(other.x), y: self.y.spec_add(other.y), z: self.z.spec_add(other.z) }
    }

    /// Sum, component by component.
    pub fn add(self, other: Vec3) -> (r: Vec3)
        ensures
            r == self.spec_add(other),
    {
        Vec3 { x: self.x.add(other.x), y: self.y.add(other.y), z: self.z.add(other.z) }
    }

    /// Adds `other` to this vector in place.
    pub fn add_assign(&mut self, other: Vec3)
        ensures
            *final(self) == old(self).spec_add(other),
    {
        *self = Vec3 { x: self.x.add(other.x), y: self.y.add(other.y), z: self.z.add(other.z) };
    }

    /// Difference, component by component.
    pub open spec fn spec_sub(self, other: Vec3) -> Vec3 {
        Vec3 { x: self.x.spec_sub(other.x), y: self.y.spec_sub(other.y), z: self.z.spec_sub(other.z) }
    }

    /// Difference, component by component.
    pub fn sub(self, other: Vec3) -> (r: Vec3)
        ensures
            r == self.spec_sub(other),
    {
        Vec3 { x: self.x.sub(other.x), y: self.y.sub(other.y), z: self.z.sub(other.z) }
    }

    /// Each component multiplied by `t`.
    pub open spec fn spec_mul(self, t: Scalar) -> Vec3 {
        Vec3 { x: self.x.spec_mul(t), y: self.y.spec_mul(t), z: self.z.spec_mul(t) }
    }

    /// Each component multiplied by `t`.
    pub fn mul(self, t: Scalar) -> (r: Vec3)
        ensures
            r == self.spec_mul(t),
    {
        Vec3 { x: self.x.mul(t), y: self.y.mul(t), z: self.z.mul(t) }
    }

    /// Product, component by component.
    pub open spec fn spec_mul_each(self, other: Vec3) -> Vec3 {
        Vec3 { x: self.x.spec_mul(other.x), y: self.y.spec_mul(other.y), z: self.z.spec_mul(other.z) }
    }

    /// Product, component by component: a color filtered by another.
    pub fn mul_each(self, other: Vec3) -> (r: Vec3)
        ensures
            r == self.spec_mul_each(other),
    {
        Vec3 { x: self.x.mul(other.x), y: self.y.mul(other.y), z: self.z.mul(other.z) }
    }

    /// Each component divided by `t`.
    pub open spec fn spec_div(self, t: Scalar) -> Vec3 {
        Vec3 { x: self.x.spec_div(t), y: self.y.spec_div(t), z: self.z.spec_div(t) }
    }

    /// Each component divided by `t`.
    pub fn div(self, t: Scalar) -> (r: Vec3)
        ensures
            r == self.spec_div(t),
    {
        Vec3 { x: self.x.div(t), y: self.y.div(t), z: self.z.div(t) }
    }

    /// The vector of opposite direction.
    pub open spec fn spec_neg(self) -> Vec3 {
        Vec3 { x: self.x.spec_neg(), y: self.y.spec_neg(), z: self.z.spec_neg() }
    }

    /// The vector of opposite direction.
    pub fn neg(self) -> (r: Vec3)
        ensures
            r == self.spec_neg(),
    {
        Vec3 { x: self.x.neg(), y: self.y.neg(), z: self.z.neg() }
    }

    /// Square of the length.
    pub open spec fn spec_length_squared(self) -> Scalar {
        self.x.spec_mul(self.x).spec_add(self.y.spec_mul(self.y)).spec_add(self.z.spec_mul(self.z))
    }

    /// Square of the length.
    pub fn length_squared(&self) -> (r: Scalar)
        ensures
            r == self.spec_length_squared(),
            r@ >= 0,
    {
        proof {
            lemma_length_squared_not_negative(*self);
        }
        self.x.mul(self.x).add(self.y.mul(self.y)).add(self.z.mul(self.z))
    }

    /// Length: the square root, rounded down, of the squared length.
    pub open spec fn spec_length(self) -> Scalar {
        self.spec_length_squared().spec_sqrt()
    }

    /// Length of the vector.
    pub fn length(&self) -> (r: Scalar)
        ensures
            r == self.spec_length(),
    {
        self.length_squared().sqrt()
    }

    /// The vector divided by its length.
    pub open spec fn spec_unit_vector(self) -> Vec3 {
        self.spec_div(self.spec_length())
    }

    /// The vector divided by its length. A vector whose length rounds to
    /// zero has no direction: each nonzero component becomes infinite.
    pub fn unit_vector(&self) -> (r: Vec3)
        ensures
            r == self.spec_unit_vector(),
    {
        let vector = Vec3::new(self.x, self.y, self.z);
        vector.div(self.length())
    }

    /// The first component.
    pub fn x(&self) -> (r: Scalar)
        ensures
            r == self.x,
    {
        self.x
    }

    /// The second component.
    pub fn y(&self) -> (r: Scalar)
        ensures
            r == self.y,
    {
        self.y
    }

    /// The third component.
    pub fn z(&self) -> (r: Scalar)
        ensures
            r == self.z,
    {
        self.z
    }

    /// Whether every component is nearer to zero than `NEAR_ZERO`
    /// millionths.
    pub open spec fn spec_near_zero(self) -> bool {
        &&& -NEAR_ZERO < self.x@ < NEAR_ZERO
        &&& -NEAR_ZERO < self.y@ < NEAR_ZERO
        &&& -NEAR_ZERO < self.z@ < NEAR_ZERO
    }

    /// Whether the vector is too short to serve as a direction.
    pub fn near_zero(&self) -> (r: bool)
        ensures
            r == self.spec_near_zero(),
    {
        let low = -NEAR_ZERO;
        low < self.x.raw() && self.x.raw() < NEAR_ZERO && low < self.y.raw() && self.y.raw()
            < NEAR_ZERO && low < self.z.raw() && self.z.raw() < NEAR_ZERO
    }

    /// Mirror image of this direction in the plane with normal `n`:
    /// `v - (2 * dot(v, n)) * n`.
    pub open spec fn spec_reflect(self, n: Vec3) -> Vec3 {
        self.spec_sub(n.spec_mul(Scalar::spec_from_int(2).spec_mul(spec_dot(self, n))))
    }

    /// Mirror image of this direction in the plane with normal `n`.
    pub fn reflect(&self, n: Vec3) -> (r: Vec3)
        ensures
            r == self.spec_reflect(n),
    {
        self.sub(n.mul(Scalar::from_int(2).mul(dot(*self, n))))
    }

    /// Three draws from `stream`, for the components in order, and the
    /// stream after them.
    pub open spec fn spec_random(min: Scalar, max: Scalar, stream: RandomStream) -> (
        Vec3,
        RandomStream,
    ) {
        let second = stream.spec_next();
        let third = second.spec_next();
        (
            Vec3 {
                x: stream.spec_draw(min, max),
                y: second.spec_draw(min, max),
                z: third.spec_draw(min, max),
            },
            third.spec_next(),
        )
    }

    /// A vector whose components are drawn from `min` up to, but not
    /// including, `max`.
    pub fn random(min: Scalar, max: Scalar, stream: &mut RandomStream) -> (r: Vec3)
        requires
            min@ < max@,
        ensures
            (r, *final(stream)) == Vec3::spec_random(min, max, *old(stream)),
            min@ <= r.x@ < max@,
            min@ <= r.y@ < max@,
            min@ <= r.z@ < max@,
    {
        let x = stream.draw(min, max);
        let y = stream.draw(min, max);
        let z = stream.draw(min, max);
        Vec3::new(x, y, z)
    }

    /// Whether a point of the cube lies strictly inside the unit sphere
    /// and not too near its center: its squared length is at least
    /// `SHORTEST_SAMPLE` millionths and less than one.
    pub open spec fn spec_inside_unit_sphere(self) -> bool {
        SHORTEST_SAMPLE <= self.spec_length_squared()@ < SCALE
    }

    /// Whether the vector has length one up to rounding: the sum of the
    /// squares of its components differs from one by at most
    /// `UNIT_TOLERANCE` millionths of millionths.
    pub open spec fn spec_near_unit(self) -> bool {
        magnitude(self.x@ * self.x@ + self.y@ * self.y@ + self.z@ * self.z@ - SCALE * SCALE)
            <= UNIT_TOLERANCE
    }

    /// Rejection sampling: the first of up to `attempts` points drawn from
    /// the cube from -1 to 1 that lies inside the unit sphere, scaled to
    /// the sphere's surface, with the stream after it; `None` where all
    /// were rejected.
    pub open spec fn spec_unit_sample(stream: RandomStream, attempts: nat) -> (
        Option<Vec3>,
        RandomStream,
    )
        decreases attempts,
    {
        if attempts == 0 {
            (None, stream)
        } else {
            let (candidate, rest) = Vec3::spec_random(
                Scalar::spec_from_int(-1),
                Scalar::spec_from_int(1),
                stream,
            );
            if candidate.spec_inside_unit_sphere() {
                (Some(candidate.spec_unit_vector()), rest)
            } else {
                Vec3::spec_unit_sample(rest, (attempts - 1) as nat)
            }
        }
    }

    /// A random direction of length one, by rejection sampling with at
    /// most `SAMPLE_ATTEMPTS` candidates; `None` where every candidate was
    /// rejected.
    pub fn random_unit_vector_in_unit_sphere(stream: &mut RandomStream) -> (r: Option<Vec3>)
        ensures
            (r, *final(stream)) == Vec3::spec_unit_sample(*old(stream), SAMPLE_ATTEMPTS as nat),
            r matches Some(direction) ==> direction.spec_near_unit(),
    {
        let low = Scalar::from_int(-1);
        let high = Scalar::from_int(1);
        proof {
            lemma_of_view(-1 * SCALE);
            lemma_of_view(1 * SCALE);
        }
        let mut left: u32 = SAMPLE_ATTEMPTS;
        while left > 0
            invariant
                low == Scalar::spec_from_int(-1),
                high == Scalar::spec_from_int(1),
                low@ == -SCALE,
                high@ == SCALE,
                Vec3::spec_unit_sample(*stream, left as nat) == Vec3::spec_unit_sample(
                    *old(stream),
                    SAMPLE_ATTEMPTS as nat,
                ),
            decreases left,
        {
            let candidate = Vec3::random(low, high, stream);
            let length_squared = candidate.length_squared();
            if Scalar::from_raw(SHORTEST_SAMPLE).le(length_squared) && length_squared.lt(
                Scalar::one(),
            ) {
                proof {
                    lemma_sample_near_unit(candidate);
                }
                return Some(candidate.unit_vector());
            }
            left = left - 1;
        }
        None
    }

    /// `spec_unit_sample`, turned into the half-space that `normal` points
    /// into.
    pub open spec fn spec_on_unit_sphere(normal: Vec3, stream: RandomStream) -> (
        Option<Vec3>,
        RandomStream,
    ) {
        let (sample, rest) = Vec3::spec_unit_sample(stream, SAMPLE_ATTEMPTS as nat);
        match sample {
            Some(v) => if spec_dot(v, normal)@ > 0 {
                (Some(v), rest)
            } else {
                (Some(v.spec_neg()), rest)
            },
            None => (None, rest),
        }
    }

    /// A random direction of length one on the side of `normal`: a sample
    /// whose inner product with `normal` is not positive is reversed.
    pub fn random_on_unit_sphere(normal: &Vec3, stream: &mut RandomStream) -> (r: Option<Vec3>)
        ensures
            (r, *final(stream)) == Vec3::spec_on_unit_sphere(*normal, *old(stream)),
            r matches Some(direction) ==> direction.spec_near_unit(),
    {
        match Vec3::random_unit_vector_in_unit_sphere(stream) {
            Some(on_unit_sphere) => {
                proof {
                    lemma_of_view(0);
                    use_type_invariant(&on_unit_sphere.x);
                    use_type_invariant(&on_unit_sphere.y);
                    use_type_invariant(&on_unit_sphere.z);
                    lemma_neg_near_unit(on_unit_sphere);
                }
                if Scalar::zero().lt(dot(on_unit_sphere, *normal)) {
                    Some(on_unit_sphere)
                } else {
                    Some(on_unit_sphere.neg())
                }
            },
            None => None,
        }
    }
}

} // verus!
