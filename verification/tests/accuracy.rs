use path_tracer::hittable::{Hittable, Sphere};
use path_tracer::interval::Interval;
use path_tracer::material::{Lambertian, Surface};
use path_tracer::random::RandomStream;
use path_tracer::ray::Ray;
use path_tracer::scalar::Scalar;
use path_tracer::vec3::{dot, Vec3};

const S: i128 = 1_000_000;

fn v(x: i64, y: i64, z: i64) -> Vec3 {
    Vec3::new(Scalar::from_raw(x), Scalar::from_raw(y), Scalar::from_raw(z))
}

fn gray() -> Surface {
    Surface::Lambertian(Lambertian::new(v(500_000, 500_000, 500_000)))
}

fn sight() -> Interval {
    Interval::new(Scalar::from_raw(1_000), Scalar::infinity())
}

fn tolerance(a: i128, s: i128, t: i128, w: i128) -> i128 {
    S * (S * S * (2 * s + 2 * S) + a * a + 2 * a * s * S)
        + a * (3 * S * t * t + 6 * S * S * t.abs() + 3 * S * S * S + 2 * S * S * w + 3 * S * S)
}

fn check(sphere: &Sphere, ray: &Ray) -> bool {
    let record = match sphere.hit(ray, &sight()) {
        Some(record) => record,
        None => return false,
    };
    let d = ray.direction();
    let oc = sphere.center().sub(ray.origin());
    let a = d.length_squared();
    let h = dot(d, oc);
    let c = dot(oc, oc).sub(sphere.radius().mul(sphere.radius()));
    let s = h.mul(h).sub(a.mul(c)).sqrt();
    let a = a.raw() as i128;
    let r = sphere.radius().raw() as i128;
    let w = [
        record.p().x.raw() as i128 - sphere.center().x.raw() as i128,
        record.p().y.raw() as i128 - sphere.center().y.raw() as i128,
        record.p().z.raw() as i128 - sphere.center().z.raw() as i128,
    ];
    let w2: i128 = w.iter().map(|c| c * c).sum();
    let wsum: i128 = w.iter().map(|c| c.abs()).sum();
    let allowed = tolerance(a, s.raw() as i128, record.t().raw() as i128, wsum);
    let off_sphere = (a * (S * S * (w2 - r * r))).abs();
    assert!(off_sphere <= allowed, "{} above {}", off_sphere, allowed);
    assert!(allowed / (a * S * S) < 100 * S, "tolerance {}", allowed / (a * S * S));
    let n = [
        record.normal().x.raw() as i128,
        record.normal().y.raw() as i128,
        record.normal().z.raw() as i128,
    ];
    let n2: i128 = n.iter().map(|c| c * c).sum();
    let off_unit = (a * (r * r * (n2 - S * S))).abs();
    assert!(off_unit <= allowed + a * (2 * S * r * wsum + 3 * r * r));
    true
}

#[test]
fn hits_stay_within_the_tolerance() {
    let mut stream = RandomStream::new(314, 0);
    let low = Scalar::from_int(-3);
    let high = Scalar::from_int(3);
    let mut hits = 0;
    for _ in 0..2000 {
        let center = Vec3::new(stream.draw(low, high), stream.draw(low, high), Scalar::from_int(-4));
        let radius = stream.draw(Scalar::from_raw(100_000), high);
        let sphere = Sphere::new(center, radius, gray());
        let direction = Vec3::new(stream.draw(low, high), stream.draw(low, high), Scalar::from_int(-4));
        let origin = Vec3::new(stream.draw(low, high), stream.draw(low, high), stream.draw(low, high));
        if check(&sphere, &Ray::new(origin, direction)) {
            hits += 1;
        }
    }
    assert!(hits > 200, "{} hits", hits);
}

#[test]
fn a_ray_through_the_center_hits_at_the_radius() {
    let sphere = Sphere::new(v(0, 0, -1_000_000), Scalar::from_raw(500_000), gray());
    let ray = Ray::new(v(0, 0, 0), v(0, 0, -1_000_000));
    assert!(check(&sphere, &ray));
    let record = sphere.hit(&ray, &sight()).unwrap();
    assert_eq!(record.p().sub(sphere.center()).length().raw(), 500_000);
    assert_eq!(record.normal().length().raw(), 1_000_000);
}

#[test]
fn beyond_the_range_a_hit_can_lie_off_the_sphere() {
    let far = Sphere::new(v(0, 0, -4_000_000_000_000), Scalar::from_int(1), gray());
    let ray = Ray::new(v(0, 0, 0), v(0, 100_000, -1_000_000));
    let oc = far.center().sub(ray.origin());
    assert_eq!(dot(oc, oc), Scalar::infinity());
    let record = far.hit(&ray, &sight()).unwrap();
    let distance = record.p().sub(far.center()).length().raw();
    assert!(distance > 1_000 * 1_000_000, "distance {}", distance);
}
