use path_tracer::hittable::{HitRecord, Hittable, HittableList, Sphere};
use path_tracer::interval::Interval;
use path_tracer::material::{Lambertian, Metal, Surface};
use path_tracer::random::RandomStream;
use path_tracer::ray::Ray;
use path_tracer::scalar::{Scalar, LIMIT};
use path_tracer::vec3::{dot, Vec3};

fn v(x: i64, y: i64, z: i64) -> Vec3 {
    Vec3::new(Scalar::from_raw(x), Scalar::from_raw(y), Scalar::from_raw(z))
}

fn whole(x: i64, y: i64, z: i64) -> Vec3 {
    Vec3::new(Scalar::from_int(x), Scalar::from_int(y), Scalar::from_int(z))
}

fn matte(r: i64, g: i64, b: i64) -> Surface {
    Surface::Lambertian(Lambertian::new(v(r, g, b)))
}

fn sight() -> Interval {
    Interval::new(Scalar::from_raw(1_000), Scalar::infinity())
}

fn small_sphere() -> Sphere {
    Sphere::new(whole(0, 0, -1), Scalar::from_raw(500_000), matte(100_000, 200_000, 500_000))
}

#[test]
fn an_empty_record() {
    let record = HitRecord::new();
    assert_eq!(record.p(), whole(0, 0, 0));
    assert_eq!(record.normal(), whole(0, 0, 0));
    assert_eq!(record.t().raw(), 0);
    assert!(!record.front_face());
    assert!(record.material().is_none());
}

#[test]
fn face_normal_from_outside() {
    let mut record = HitRecord::new();
    let ray = Ray::new(whole(0, 0, 0), whole(0, 0, -1));
    record.set_face_normal(&ray, whole(0, 0, 1));
    assert!(record.front_face());
    assert_eq!(record.normal(), whole(0, 0, 1));
}

#[test]
fn face_normal_from_inside_is_reversed() {
    let mut record = HitRecord::new();
    let ray = Ray::new(whole(0, 0, 0), whole(0, 0, -1));
    record.set_face_normal(&ray, whole(0, 0, -1));
    assert!(!record.front_face());
    assert_eq!(record.normal(), whole(0, 0, 1));
}

#[test]
fn face_normal_along_the_surface_counts_as_inside() {
    let mut record = HitRecord::new();
    let ray = Ray::new(whole(0, 0, 0), whole(1, 0, 0));
    record.set_face_normal(&ray, whole(0, 1, 0));
    assert!(!record.front_face());
    assert_eq!(record.normal(), whole(0, -1, 0));
}

#[test]
fn sphere_keeps_what_it_was_made_of() {
    let sphere = small_sphere();
    assert_eq!(sphere.center(), whole(0, 0, -1));
    assert_eq!(sphere.radius().raw(), 500_000);
    assert_eq!(sphere.material(), Some(matte(100_000, 200_000, 500_000)));
}

#[test]
fn roots_of_a_ray_through_the_center() {
    let sphere = small_sphere();
    let ray = Ray::new(whole(0, 0, 0), whole(0, 0, -1));
    let (near, far) = sphere.roots(&ray).unwrap();
    assert_eq!(near.raw(), 500_000);
    assert_eq!(far.raw(), 1_500_000);
}

#[test]
fn roots_scale_with_the_direction() {
    let sphere = small_sphere();
    let ray = Ray::new(whole(0, 0, 0), whole(0, 0, -2));
    let (near, far) = sphere.roots(&ray).unwrap();
    assert_eq!(near.raw(), 250_000);
    assert_eq!(far.raw(), 750_000);
}

#[test]
fn no_roots_for_a_ray_that_passes_by() {
    let sphere = small_sphere();
    assert!(sphere.roots(&Ray::new(whole(0, 0, 0), whole(0, 1, 0))).is_none());
    assert!(sphere.roots(&Ray::new(whole(0, 0, 0), whole(1, 0, -1))).is_none());
}

#[test]
fn the_lesser_root_is_preferred() {
    let near = Scalar::from_raw(500_000);
    let far = Scalar::from_raw(1_500_000);
    assert_eq!(Sphere::choose_root(&sight(), near, far), Some(near));
    let beyond = Interval::new(near, Scalar::infinity());
    assert_eq!(Sphere::choose_root(&beyond, near, far), Some(far));
    let short = Interval::new(Scalar::from_raw(1_000), near);
    assert_eq!(Sphere::choose_root(&short, near, far), None);
    let between = Interval::new(Scalar::from_raw(600_000), Scalar::from_raw(1_400_000));
    assert_eq!(Sphere::choose_root(&between, near, far), None);
}

#[test]
fn hit_from_outside() {
    let sphere = small_sphere();
    let ray = Ray::new(whole(0, 0, 0), whole(0, 0, -1));
    let record = sphere.hit(&ray, &sight()).unwrap();
    assert_eq!(record.t().raw(), 500_000);
    assert_eq!(record.p(), v(0, 0, -500_000));
    assert_eq!(record.normal(), whole(0, 0, 1));
    assert!(record.front_face());
    assert_eq!(record.material(), Some(matte(100_000, 200_000, 500_000)));
    assert_eq!(
        record,
        HitRecord {
            p: v(0, 0, -500_000),
            normal: whole(0, 0, 1),
            t: Scalar::from_raw(500_000),
            material: Some(matte(100_000, 200_000, 500_000)),
            front_face: true
        }
    );
}

#[test]
fn hit_from_inside_takes_the_greater_root() {
    let sphere = small_sphere();
    let ray = Ray::new(whole(0, 0, -1), whole(0, 0, -1));
    let record = sphere.hit(&ray, &sight()).unwrap();
    assert_eq!(record.t().raw(), 500_000);
    assert_eq!(record.p(), v(0, 0, -1_500_000));
    assert!(!record.front_face());
    assert_eq!(record.normal(), whole(0, 0, 1));
}

#[test]
fn no_hit_behind_the_ray() {
    let sphere = small_sphere();
    let ray = Ray::new(whole(0, 0, 0), whole(0, 0, 1));
    assert!(sphere.hit(&ray, &sight()).is_none());
}

#[test]
fn no_hit_outside_the_range() {
    let sphere = small_sphere();
    let ray = Ray::new(whole(0, 0, 0), whole(0, 0, -1));
    let short = Interval::new(Scalar::from_raw(1_000), Scalar::from_raw(500_000));
    assert!(sphere.hit(&ray, &short).is_none());
    let late = Interval::new(Scalar::from_raw(1_500_000), Scalar::infinity());
    assert!(sphere.hit(&ray, &late).is_none());
    let far_only = Interval::new(Scalar::from_raw(500_000), Scalar::infinity());
    assert_eq!(sphere.hit(&ray, &far_only).unwrap().t().raw(), 1_500_000);
}

#[test]
fn a_ray_without_direction_hits_nothing() {
    let sphere = small_sphere();
    assert!(sphere.hit(&Ray::new(whole(0, 0, 0), whole(0, 0, 0)), &sight()).is_none());
    assert!(sphere.hit(&Ray::new(whole(0, 0, 0), v(0, 0, -1)), &sight()).is_none());
    assert!(sphere.hit(&Ray::new(whole(0, 0, -1), v(0, 0, 0)), &sight()).is_none());
}

#[test]
fn a_sphere_without_radius_gives_no_wild_numbers() {
    let point = Sphere::new(whole(0, 0, -1), Scalar::zero(), matte(1, 1, 1));
    assert!(point.hit(&Ray::new(whole(0, 0, 0), whole(0, 1, -1)), &sight()).is_none());
    let through = point.hit(&Ray::new(whole(0, 0, 0), whole(0, 0, -1)), &sight()).unwrap();
    assert_eq!(through.t().raw(), 1_000_000);
    assert_eq!(through.p(), whole(0, 0, -1));
    for c in [through.normal().x.raw(), through.normal().y.raw(), through.normal().z.raw()] {
        assert!(-LIMIT <= c && c <= LIMIT);
    }
}

#[test]
fn hit_points_lie_on_the_sphere() {
    let sphere = Sphere::new(v(300_000, -200_000, -4_000_000), Scalar::from_raw(1_250_000), matte(1, 1, 1));
    let mut stream = RandomStream::new(21, 0);
    let mut hits = 0;
    for _ in 0..400 {
        let low = Scalar::from_raw(-400_000);
        let high = Scalar::from_raw(400_000);
        let x = stream.draw(low, high);
        let y = stream.draw(low, high);
        let ray = Ray::new(whole(0, 0, 0), Vec3::new(x, y, Scalar::from_int(-1)));
        if let Some(record) = sphere.hit(&ray, &sight()) {
            hits += 1;
            let distance = record.p().sub(sphere.center()).length().raw();
            assert!((distance - 1_250_000).abs() < 50, "distance {}", distance);
        }
    }
    assert!(hits > 100);
}

#[test]
fn normals_have_length_one_and_face_the_ray() {
    let sphere = Sphere::new(v(300_000, -200_000, -4_000_000), Scalar::from_raw(1_250_000), matte(1, 1, 1));
    let mut stream = RandomStream::new(22, 0);
    let mut outside = 0;
    let mut inside = 0;
    for round in 0..400 {
        let low = Scalar::from_raw(-400_000);
        let high = Scalar::from_raw(400_000);
        let x = stream.draw(low, high);
        let y = stream.draw(low, high);
        let origin = if round % 2 == 0 { whole(0, 0, 0) } else { v(300_000, -200_000, -4_000_000) };
        let ray = Ray::new(origin, Vec3::new(x, y, Scalar::from_int(-1)));
        if let Some(record) = sphere.hit(&ray, &sight()) {
            let length = record.normal().length().raw();
            assert!((length - 1_000_000).abs() < 50, "length {}", length);
            let along = dot(ray.direction(), record.normal()).raw();
            assert!(along <= 0);
            let outward = record.p().sub(sphere.center()).div(sphere.radius());
            if record.front_face() {
                outside += 1;
                assert_eq!(record.normal(), outward);
                assert!(along < 0);
            } else {
                inside += 1;
                assert_eq!(record.normal(), outward.neg());
            }
        }
    }
    assert!(outside > 50);
    assert_eq!(inside, 200);
}

#[test]
fn an_empty_list_hits_nothing() {
    let world: HittableList<Sphere> = HittableList::new();
    assert!(world.hit(&Ray::new(whole(0, 0, 0), whole(0, 0, -1)), &sight()).is_none());
    assert!(world.material().is_none());
}

#[test]
fn list_reports_the_nearer_of_two_overlapping_spheres() {
    let near = Sphere::new(whole(0, 0, -1), Scalar::from_raw(500_000), matte(1, 0, 0));
    let far = Sphere::new(v(0, 0, -1_300_000), Scalar::from_raw(500_000), Surface::Metal(Metal::new(v(0, 1, 0), Scalar::zero())));
    let ray = Ray::new(whole(0, 0, 0), whole(0, 0, -1));
    let mut world = HittableList::new();
    world.add(far);
    world.add(near);
    let record = world.hit(&ray, &sight()).unwrap();
    assert_eq!(record.t().raw(), 500_000);
    assert_eq!(record.material(), Some(matte(1, 0, 0)));
    assert_eq!(Some(record), near.hit(&ray, &sight()));
    let mut reversed = HittableList::new();
    reversed.add(near);
    reversed.add(far);
    assert_eq!(reversed.hit(&ray, &sight()), Some(record));
}

#[test]
fn list_reports_the_first_of_two_equal_hits() {
    let first = Sphere::new(whole(0, 0, -1), Scalar::from_raw(500_000), matte(1, 0, 0));
    let second = Sphere::new(whole(0, 0, -1), Scalar::from_raw(500_000), matte(0, 1, 0));
    let mut world = HittableList::new();
    world.add(first);
    world.add(second);
    let record = world.hit(&Ray::new(whole(0, 0, 0), whole(0, 0, -1)), &sight()).unwrap();
    assert_eq!(record.material(), Some(matte(1, 0, 0)));
}

#[test]
fn list_hit_is_the_least_of_its_members_hits() {
    let mut world = HittableList::new();
    let mut stream = RandomStream::new(33, 0);
    let low = Scalar::from_int(-3);
    let high = Scalar::from_int(3);
    for _ in 0..12 {
        let center = Vec3::new(stream.draw(low, high), stream.draw(low, high), Scalar::from_int(-5));
        world.add(Sphere::new(center, Scalar::from_int(1), matte(1, 1, 1)));
    }
    let mut seen = 0;
    for _ in 0..200 {
        let direction = Vec3::new(stream.draw(low, high), stream.draw(low, high), Scalar::from_int(-5));
        let ray = Ray::new(whole(0, 0, 0), direction);
        let mut least: Option<HitRecord> = None;
        for sphere in world.objects.iter() {
            if let Some(record) = sphere.hit(&ray, &sight()) {
                if least.map_or(true, |best| record.t().lt(best.t())) {
                    least = Some(record);
                }
            }
        }
        assert_eq!(world.hit(&ray, &sight()), least);
        if least.is_some() {
            seen += 1;
        }
    }
    assert!(seen > 20);
}

#[test]
fn lists_can_hold_lists() {
    let mut inner = HittableList::new();
    inner.add(small_sphere());
    let mut outer = HittableList::new();
    outer.add(inner);
    let ray = Ray::new(whole(0, 0, 0), whole(0, 0, -1));
    assert_eq!(outer.hit(&ray, &sight()), small_sphere().hit(&ray, &sight()));
}

#[test]
fn clear_empties_the_list() {
    let mut world = HittableList::new();
    world.add(small_sphere());
    assert_eq!(world.objects.len(), 1);
    world.clear();
    assert_eq!(world.objects.len(), 0);
    assert!(world.hit(&Ray::new(whole(0, 0, 0), whole(0, 0, -1)), &sight()).is_none());
}
