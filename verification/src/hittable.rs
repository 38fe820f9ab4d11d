//! What a ray can hit: spheres, and lists of things.

use crate::accuracy::{
    lemma_ordinary_hit, spec_near_sphere, spec_normal_near_unit, spec_ordinary,
};
use crate::interval::Interval;
use crate::material::Surface;
use crate::ray::Ray;
use crate::scalar::{
    lemma_div_monotone, lemma_of_view, lemma_sqrt_not_negative, lemma_sub_below_add,
    lemma_view_range, Scalar,
};
use crate::vec3::{dot, lemma_dot_neg, lemma_length_squared_not_negative, spec_dot, Point3, Vec3};
use vstd::prelude::*;

verus! {

/// Where and how a ray met a surface.
#[derive(Clone, Copy, Debug, PartialEq, Eq, Structural)]
pub struct HitRecord {
    /// The point of intersection.
    pub p: Point3,
    /// The surface normal there, turned against the ray.
    pub normal: Vec3,
    /// The ray's parameter at the point.
    pub t: Scalar,
    /// The surface that was hit.
    pub material: Option<Surface>,
    /// Whether the ray came from outside.
    pub front_face: bool,
}

/// Whether a ray along `direction` meets a surface with the given outward
/// normal from outside.
pub open spec fn spec_front_face(direction: Vec3, outward_normal: Vec3) -> bool {
    spec_dot(direction, outward_normal)@ < 0
}

/// The outward normal, turned against a ray along `direction`.
pub open spec fn spec_face_normal(direction: Vec3, outward_normal: Vec3) -> Vec3 {
    if spec_front_face(direction, outward_normal) {
        outward_normal
    } else {
        outward_normal.spec_neg()
    }
}

/// The normal of a hit never points along the ray: its inner product
/// with the ray's direction is negative where the ray came from outside,
/// and otherwise the outward normal is reversed and the product is not
/// positive.
pub proof fn lemma_normal_against_ray(direction: Vec3, outward_normal: Vec3)
    requires
        outward_normal.wf(),
    ensures
        spec_dot(direction, spec_face_normal(direction, outward_normal))@ <= 0,
        spec_front_face(direction, outward_normal) ==> spec_face_normal(direction, outward_normal)
            == outward_normal && spec_dot(direction, outward_normal)@ < 0,
        !spec_front_face(direction, outward_normal) ==> spec_face_normal(direction, outward_normal)
            == outward_normal.spec_neg(),
{
    if !spec_front_face(direction, outward_normal) {
        lemma_dot_neg(direction, outward_normal);
        lemma_of_view(-spec_dot(direction, outward_normal)@);
        lemma_view_range(spec_dot(direction, outward_normal));
    }
}

impl HitRecord {
    /// A record of nothing: all zero, no material.
    pub fn new() -> (r: HitRecord)
        ensures
            r == (HitRecord {
                p: Vec3::of(0, 0, 0),
                normal: Vec3::of(0, 0, 0),
                t: Scalar::of(0),
                material: None,
                front_face: false,
            }),
    {
        let zero = Scalar::zero();
        HitRecord {
            p: Vec3::new(zero, zero, zero),
            normal: Vec3::new(zero, zero, zero),
            t: zero,
            material: None,
            front_face: false,
        }
    }

    /// Sets `front_face` and `normal` from the ray and the outward normal:
    /// the stored normal always points against the ray.
    pub fn set_face_normal(&mut self, r: &Ray, outward_normal: Vec3)
        ensures
            final(self).front_face == spec_front_face(r.direction, outward_normal),
            final(self).normal == spec_face_normal(r.direction, outward_normal),
            spec_dot(r.direction, final(self).normal)@ <= 0,
            final(self).p == old(self).p,
            final(self).t == old(self).t,
            final(self).material == old(self).material,
    {
        proof {
            lemma_of_view(0);
            use_type_invariant(&outward_normal.x);
            use_type_invariant(&outward_normal.y);
            use_type_invariant(&outward_normal.z);
            lemma_normal_against_ray(r.direction, outward_normal);
        }
        let front_face = dot(r.direction(), outward_normal).lt(Scalar::zero());
        let normal = if front_face {
            outward_normal
        } else {
            outward_normal.neg()
        };
        self.front_face = front_face;
        self.normal = normal;
    }

    /// The point of intersection.
    pub fn p(&self) -> (r: Point3)
        ensures
            r == self.p,
    {
        self.p
    }

    /// The surface normal, turned against the ray.
    pub fn normal(&self) -> (r: Vec3)
        ensures
            r == self.normal,
    {
        self.normal
    }

    /// The ray's parameter at the point of intersection.
    pub fn t(&self) -> (r: Scalar)
        ensures
            r == self.t,
    {
        self.t
    }

    /// Whether the ray came from outside.
    pub fn front_face(&self) -> (r: bool)
        ensures
            r == self.front_face,
    {
        self.front_face
    }

    /// The surface that was hit.
    pub fn material(&self) -> (r: Option<Surface>)
        ensures
            r == self.material,
    {
        self.material
    }
}

/// How the answers to one ray over two ranges with the same lower end
/// agree, where the first range ends at `bound` and the second not before:
/// a hit in the first is the hit in the second, and where the first has
/// none, the second has none before `bound`.
pub open spec fn spec_agree(narrow: Option<HitRecord>, wide: Option<HitRecord>, bound: Scalar) -> bool {
    match narrow {
        Some(rec) => wide == Some(rec),
        None => wide matches Some(far) ==> far.t@ >= bound@,
    }
}

/// Anything that a ray can hit.
pub trait Hittable: Sync + Send {
    /// The hit that `hit` reports, as a function of the ray and the range.
    spec fn spec_hit(&self, r: Ray, range: Interval) -> Option<HitRecord>;

    /// The surface of this thing, where it has one of its own.
    spec fn spec_material(&self) -> Option<Surface>;

    /// The nearest intersection of `r` with this thing whose parameter
    /// lies strictly inside `range`, or `None` where there is none. The
    /// normal of a hit never points along the ray.
    ///
    /// For this ray the answers over all ranges hang together: each hit
    /// lies strictly inside its range, and a longer range with the same
    /// lower end gives the same hit or, where the shorter gave none, none
    /// before the shorter one's end.
    fn hit(&self, r: &Ray, range: &Interval) -> (res: Option<HitRecord>)
        ensures
            res == self.spec_hit(*r, *range),
            res matches Some(rec) ==> spec_dot(r.direction, rec.normal)@ <= 0,
            forall|any: Interval|
                (#[trigger] self.spec_hit(*r, any)) matches Some(rec)
                    ==> any.spec_exclusive_contains(rec.t),
            forall|narrow: Interval, wide: Interval|
                narrow.min == wide.min && narrow.max@ <= wide.max@ ==> spec_agree(
                    #[trigger] self.spec_hit(*r, narrow),
                    #[trigger] self.spec_hit(*r, wide),
                    narrow.max,
                ),
    ;

    /// The surface of this thing; `None` for a collection.
    fn material(&self) -> (res: Option<Surface>)
        ensures
            res == self.spec_material(),
    ;
}

/// What `Hittable::hit` promises of the ray `r` over all ranges: each hit
/// lies strictly inside its range, and the answers over two ranges with
/// the same lower end agree.
pub open spec fn spec_lawful<H: Hittable>(h: &H, r: Ray) -> bool {
    &&& forall|any: Interval|
        (#[trigger] h.spec_hit(r, any)) matches Some(rec) ==> any.spec_exclusive_contains(
            rec.t,
        )
    &&& forall|narrow: Interval, wide: Interval|
        narrow.min == wide.min && narrow.max@ <= wide.max@ ==> spec_agree(
            #[trigger] h.spec_hit(r, narrow),
            #[trigger] h.spec_hit(r, wide),
            narrow.max,
        )
}

/// A sphere with a surface of its own.
#[derive(Clone, Copy, Debug, PartialEq, Eq, Structural)]
pub struct Sphere {
    pub center: Point3,
    pub radius: Scalar,
    pub material: Surface,
}

impl Sphere {
    /// The sphere round `center` with the given radius and surface.
    pub fn new(center: Point3, radius: Scalar, material: Surface) -> (r: Sphere)
        ensures
            r == (Sphere { center, radius, material }),
    {
        Sphere { center, radius, material }
    }

    /// The middle of the sphere.
    pub fn center(&self) -> (r: Point3)
        ensures
            r == self.center,
    {
        self.center
    }

    /// The radius of the sphere.
    pub fn radius(&self) -> (r: Scalar)
        ensures
            r == self.radius,
    {
        self.radius
    }

    /// The way from the origin of `r` to the center.
    pub open spec fn spec_offset(&self, r: Ray) -> Vec3 {
        self.center.spec_sub(r.origin)
    }

    /// Half the linear coefficient of the quadratic: the inner product of
    /// the direction of `r` with the way to the center.
    pub open spec fn spec_half_b(&self, r: Ray) -> Scalar {
        spec_dot(r.direction, self.spec_offset(r))
    }

    /// The constant coefficient of the quadratic: the squared distance of
    /// the origin of `r` from the center, less the squared radius.
    pub open spec fn spec_c(&self, r: Ray) -> Scalar {
        spec_dot(self.spec_offset(r), self.spec_offset(r)).spec_sub(
            self.radius.spec_mul(self.radius),
        )
    }

    /// The discriminant `h^2 - a c` of the quadratic, for `a` the squared
    /// length of the direction of `r`.
    pub open spec fn spec_discriminant(&self, r: Ray) -> Scalar {
        let h = self.spec_half_b(r);
        h.spec_mul(h).spec_sub(r.direction.spec_length_squared().spec_mul(self.spec_c(r)))
    }

    /// The two parameters at which the line of `r` meets the sphere, the
    /// lesser first, or `None` where it misses: `(h - s) / a` and
    /// `(h + s) / a` for `s` the square root of the discriminant, where
    /// that is not negative.
    pub open spec fn spec_roots(&self, r: Ray) -> Option<(Scalar, Scalar)> {
        let a = r.direction.spec_length_squared();
        let h = self.spec_half_b(r);
        let discriminant = self.spec_discriminant(r);
        if discriminant@ < 0 {
            None
        } else {
            let root = discriminant.spec_sqrt();
            Some((h.spec_sub(root).spec_div(a), h.spec_add(root).spec_div(a)))
        }
    }

    /// The two parameters at which the line of `r` meets the sphere, the
    /// lesser first, or `None` where it misses.
    pub fn roots(&self, r: &Ray) -> (res: Option<(Scalar, Scalar)>)
        ensures
            res == self.spec_roots(*r),
            res matches Some((near, far)) ==> near@ <= far@,
    {
        let oc = self.center.sub(r.origin());
        let a = r.direction().length_squared();
        let h = dot(r.direction(), oc);
        let c = dot(oc, oc).sub(self.radius.mul(self.radius));
        let discriminant = h.mul(h).sub(a.mul(c));
        proof {
            lemma_of_view(0);
        }
        if discriminant.lt(Scalar::zero()) {
            return None;
        }
        let root = discriminant.sqrt();
        proof {
            lemma_roots_in_order(*self, *r);
        }
        Some((h.sub(root).div(a), h.add(root).div(a)))
    }

    /// The lesser parameter where it lies strictly inside `range`, else
    /// the greater where that does, else `None`.
    pub open spec fn spec_choose_root(range: Interval, near: Scalar, far: Scalar) -> Option<Scalar> {
        if range.spec_exclusive_contains(near) {
            Some(near)
        } else if range.spec_exclusive_contains(far) {
            Some(far)
        } else {
            None
        }
    }

    /// The first of `near` and `far` that lies strictly inside `range`.
    pub fn choose_root(range: &Interval, near: Scalar, far: Scalar) -> (res: Option<Scalar>)
        ensures
            res == Sphere::spec_choose_root(*range, near, far),
    {
        if range.exclusive_contains(near) {
            Some(near)
        } else if range.exclusive_contains(far) {
            Some(far)
        } else {
            None
        }
    }

    /// The hit at parameter `t`: the point of the ray there, and as
    /// outward normal the way from the center to that point, divided by
    /// the radius.
    pub open spec fn spec_record_at(&self, r: Ray, t: Scalar) -> HitRecord {
        let p = r.spec_at(t);
        let outward = p.spec_sub(self.center).spec_div(self.radius);
        HitRecord {
            p,
            normal: spec_face_normal(r.direction, outward),
            t,
            material: Some(self.material),
            front_face: spec_front_face(r.direction, outward),
        }
    }

    /// The hit of `r` on this sphere at parameter `t`.
    pub fn record_at(&self, r: &Ray, t: Scalar) -> (res: HitRecord)
        ensures
            res == self.spec_record_at(*r, t),
            spec_dot(r.direction, res.normal)@ <= 0,
    {
        let p = r.at(t);
        let mut record = HitRecord {
            p,
            normal: p,
            t,
            material: Some(self.material),
            front_face: false,
        };
        record.set_face_normal(r, p.sub(self.center).div(self.radius));
        record
    }
}

/// The lesser of the two parameters at which a line meets a sphere is
/// not above the greater.
pub proof fn lemma_roots_in_order(sphere: Sphere, r: Ray)
    ensures
        sphere.spec_roots(r) matches Some((near, far)) ==> near@ <= far@,
{
    let a = r.direction.spec_length_squared();
    let h = sphere.spec_half_b(r);
    let root = sphere.spec_discriminant(r).spec_sqrt();
    lemma_length_squared_not_negative(r.direction);
    lemma_sqrt_not_negative(sphere.spec_discriminant(r));
    lemma_sub_below_add(h, root);
    lemma_div_monotone(h.spec_sub(root), h.spec_add(root), a);
}

/// A sphere keeps to what `Hittable::hit` promises of every ray.
pub proof fn lemma_sphere_lawful(sphere: Sphere, r: Ray)
    ensures
        spec_lawful(&sphere, r),
{
    lemma_roots_in_order(sphere, r);
}

/// The hit of a list of spheres is the hit of one of them over the whole
/// range, and no sphere of the list is hit nearer.
pub proof fn lemma_nearest_sphere(spheres: Seq<Sphere>, r: Ray, range: Interval)
    ensures
        spec_nearest(spheres, r, range) matches Some(rec) ==> exists|k: int|
            0 <= k < spheres.len() && #[trigger] spheres[k].spec_hit(r, range) == Some(rec),
        forall|k: int|
            0 <= k < spheres.len() ==> ((#[trigger] spheres[k].spec_hit(r, range)) matches Some(
                other,
            ) ==> (spec_nearest(spheres, r, range) matches Some(rec) && rec.t@ <= other.t@)),
{
    assert forall|k: int| 0 <= k < spheres.len() implies spec_lawful(&#[trigger] spheres[k], r) by {
        lemma_sphere_lawful(spheres[k], r);
    }
    lemma_nearest_is_nearest(spheres, r, range);
}

impl Hittable for Sphere {
    /// The hit at the lesser of the two parameters at which the line
    /// of the ray meets the sphere, where that lies strictly inside the
    /// range, else at the greater where that does.
    open spec fn spec_hit(&self, r: Ray, range: Interval) -> Option<HitRecord> {
        match self.spec_roots(r) {
            Some((near, far)) => match Sphere::spec_choose_root(range, near, far) {
                Some(t) => Some(self.spec_record_at(r, t)),
                None => None,
            },
            None => None,
        }
    }

    open spec fn spec_material(&self) -> Option<Surface> {
        Some(self.material)
    }

    /// For a sphere and a ray of ordinary size the hit lies on the sphere
    /// and its normal has length one, both up to rounding.
    fn hit(&self, r: &Ray, range: &Interval) -> (res: Option<HitRecord>)
        ensures
            res matches Some(rec) ==> (spec_ordinary(*self, *r) ==> spec_near_sphere(
                *self,
                *r,
                rec.t,
                rec.p,
            ) && spec_normal_near_unit(*self, *r, rec.t, rec.p, rec.normal)),
    {
        proof {
            if spec_ordinary(*self, *r) && self.spec_hit(*r, *range) is Some {
                lemma_ordinary_hit(*self, *r, *range, self.spec_hit(*r, *range).unwrap());
            }
        }
        match self.roots(r) {
            Some((near, far)) => match Sphere::choose_root(range, near, far) {
                Some(t) => Some(self.record_at(r, t)),
                None => None,
            },
            None => None,
        }
    }

    fn material(&self) -> (res: Option<Surface>) {
        Some(self.material)
    }
}

/// The nearest hit among `objects`: each in turn is asked for a hit
/// before the nearest found so far.
pub open spec fn spec_nearest<H: Hittable>(objects: Seq<H>, r: Ray, range: Interval) -> Option<
    HitRecord,
>
    decreases objects.len(),
{
    if objects.len() == 0 {
        None
    } else {
        let before = spec_nearest(objects.drop_last(), r, range);
        let bound = match before {
            Some(rec) => rec.t,
            None => range.max,
        };
        match objects.last().spec_hit(r, range.spec_up_to(bound)) {
            Some(rec) => Some(rec),
            None => before,
        }
    }
}

/// Whether every one of `objects` keeps to what `Hittable::hit` promises
/// of the ray `r`.
pub open spec fn spec_all_lawful<H: Hittable>(objects: Seq<H>, r: Ray) -> bool {
    forall|k: int| 0 <= k < objects.len() ==> spec_lawful(&#[trigger] objects[k], r)
}

/// A list of lawful things is lawful: its hit lies strictly inside the
/// range asked for, and its answers over two ranges with the same lower
/// end agree.
pub proof fn lemma_nearest_lawful<H: Hittable>(objects: Seq<H>, r: Ray, narrow: Interval, wide: Interval)
    requires
        spec_all_lawful(objects, r),
    ensures
        spec_nearest(objects, r, narrow) matches Some(rec) ==> narrow.spec_exclusive_contains(
            rec.t,
        ),
        narrow.min == wide.min && narrow.max@ <= wide.max@ ==> spec_agree(
            spec_nearest(objects, r, narrow),
            spec_nearest(objects, r, wide),
            narrow.max,
        ),
    decreases objects.len(),
{
    if objects.len() > 0 {
        let rest = objects.drop_last();
        let last = objects.last();
        assert(spec_lawful(&objects[objects.len() - 1], r));
        assert forall|k: int| 0 <= k < rest.len() implies spec_lawful(&#[trigger] rest[k], r) by {
            assert(rest[k] == objects[k]);
        }
        lemma_nearest_lawful(rest, r, narrow, wide);
        lemma_nearest_lawful(rest, r, wide, wide);
        let before_narrow = spec_nearest(rest, r, narrow);
        let bound_narrow = match before_narrow {
            Some(rec) => rec.t,
            None => narrow.max,
        };
        let before_wide = spec_nearest(rest, r, wide);
        let bound_wide = match before_wide {
            Some(rec) => rec.t,
            None => wide.max,
        };
        let got_narrow = last.spec_hit(r, narrow.spec_up_to(bound_narrow));
        let got_wide = last.spec_hit(r, wide.spec_up_to(bound_wide));
        if narrow.min == wide.min && narrow.max@ <= wide.max@ {
            if before_narrow is None {
                assert(spec_agree(got_narrow, got_wide, bound_narrow));
            }
        }
    }
}

/// The hit of a list of lawful things is a hit of one of them over the
/// whole range, and no hit of any of them over the whole range is nearer.
pub proof fn lemma_nearest_is_nearest<H: Hittable>(objects: Seq<H>, r: Ray, range: Interval)
    requires
        spec_all_lawful(objects, r),
    ensures
        spec_nearest(objects, r, range) matches Some(rec) ==> exists|k: int|
            0 <= k < objects.len() && #[trigger] objects[k].spec_hit(r, range) == Some(rec),
        forall|k: int|
            0 <= k < objects.len() ==> ((#[trigger] objects[k].spec_hit(r, range)) matches Some(
                other,
            ) ==> (spec_nearest(objects, r, range) matches Some(rec) && rec.t@
                <= other.t@)),
    decreases objects.len(),
{
    if objects.len() > 0 {
        let rest = objects.drop_last();
        let last = objects.last();
        assert(spec_lawful(&objects[objects.len() - 1], r));
        assert forall|k: int| 0 <= k < rest.len() implies spec_lawful(&#[trigger] rest[k], r) by {
            assert(rest[k] == objects[k]);
        }
        lemma_nearest_is_nearest(rest, r, range);
        lemma_nearest_lawful(rest, r, range, range);
        let before = spec_nearest(rest, r, range);
        let bound = match before {
            Some(rec) => rec.t,
            None => range.max,
        };
        let got = last.spec_hit(r, range.spec_up_to(bound));
        let whole = last.spec_hit(r, range);
        assert(spec_agree(got, whole, bound));
        match spec_nearest(objects, r, range) {
            Some(rec) => {
                if got is Some {
                    assert(objects[objects.len() - 1].spec_hit(r, range) == Some(rec));
                } else {
                    let k = choose|k: int|
                        0 <= k < rest.len() && #[trigger] rest[k].spec_hit(r, range) == Some(rec);
                    assert(rest[k] == objects[k]);
                    assert(objects[k].spec_hit(r, range) == Some(rec));
                }
            },
            None => {},
        }
        assert forall|k: int| 0 <= k < objects.len() implies ((#[trigger] objects[k].spec_hit(
            r,
            range,
        )) matches Some(other) ==> (spec_nearest(objects, r, range) matches Some(rec)
            && rec.t@ <= other.t@)) by {
            if k < rest.len() {
                assert(rest[k] == objects[k]);
            }
        }
    }
}

/// A list of things, hit as one.
pub struct HittableList<H: Hittable> {
    pub objects: Vec<H>,
}

impl<H: Hittable> HittableList<H> {
    /// The empty list.
    pub fn new() -> (r: HittableList<H>)
        ensures
            r.objects@.len() == 0,
    {
        HittableList { objects: Vec::new() }
    }

    /// Puts `object` at the end of the list.
    pub fn add(&mut self, object: H)
        ensures
            final(self).objects@ == old(self).objects@.push(object),
    {
        self.objects.push(object);
    }

    /// Empties the list.
    pub fn clear(&mut self)
        ensures
            final(self).objects@.len() == 0,
    {
        self.objects.clear();
    }
}

impl<H: Hittable> Hittable for HittableList<H> {
    /// The nearest hit among the members.
    open spec fn spec_hit(&self, r: Ray, range: Interval) -> Option<HitRecord> {
        spec_nearest(self.objects@, r, range)
    }

    open spec fn spec_material(&self) -> Option<Surface> {
        None
    }

    fn hit(&self, r: &Ray, range: &Interval) -> (res: Option<HitRecord>)
        ensures
            spec_all_lawful(self.objects@, *r),
            res matches Some(rec) ==> exists|k: int|
                0 <= k < self.objects@.len() && #[trigger] self.objects@[k].spec_hit(*r, *range)
                    == Some(rec),
            forall|k: int|
                0 <= k < self.objects@.len() ==> ((#[trigger] self.objects@[k].spec_hit(
                    *r,
                    *range,
                )) matches Some(other) ==> (res matches Some(rec) && rec.t@
                    <= other.t@)),
    {
        let mut best: Option<HitRecord> = None;
        let mut closest = Interval::new(range.min(), range.max());
        let mut i: usize = 0;
        while i < self.objects.len()
            invariant
                i <= self.objects.len(),
                best == spec_nearest(self.objects@.take(i as int), *r, *range),
                closest == range.spec_up_to(
                    match best {
                        Some(rec) => rec.t,
                        None => range.max,
                    },
                ),
                forall|k: int|
                    0 <= k < i ==> spec_lawful(&#[trigger] self.objects@[k], *r),
                best matches Some(rec) ==> spec_dot(r.direction, rec.normal)@ <= 0,
            decreases self.objects.len() - i,
        {
            let found = self.objects[i].hit(r, &closest);
            proof {
                assert(self.objects@.take(i + 1).drop_last() =~= self.objects@.take(i as int));
                assert(self.objects@.take(i + 1).last() == self.objects@[i as int]);
            }
            match found {
                Some(rec) => {
                    closest = Interval::new(range.min(), rec.t());
                    best = Some(rec);
                },
                None => {},
            }
            i = i + 1;
        }
        proof {
            assert(self.objects@.take(i as int) =~= self.objects@);
            lemma_nearest_is_nearest(self.objects@, *r, *range);
            assert forall|narrow: Interval, wide: Interval|
                narrow.min == wide.min && narrow.max@ <= wide.max@ implies spec_agree(
                #[trigger] self.spec_hit(*r, narrow),
                #[trigger] self.spec_hit(*r, wide),
                narrow.max,
            ) by {
                lemma_nearest_lawful(self.objects@, *r, narrow, wide);
            }
            assert forall|any: Interval|
                (#[trigger] self.spec_hit(*r, any)) matches Some(rec)
                    ==> any.spec_exclusive_contains(rec.t) by {
                lemma_nearest_lawful(self.objects@, *r, any, any);
            }
        }
        best
    }

    fn material(&self) -> (res: Option<Surface>) {
        None
    }
}

} // verus!
