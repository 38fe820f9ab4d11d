use path_tracer::ray::Ray;
use path_tracer::scalar::Scalar;
use path_tracer::vec3::Vec3;

fn whole(x: i64, y: i64, z: i64) -> Vec3 {
    Vec3::new(Scalar::from_int(x), Scalar::from_int(y), Scalar::from_int(z))
}

#[test]
fn origin_and_direction_come_back() {
    let ray = Ray::new(whole(1, 2, 3), whole(0, 0, -1));
    assert_eq!(ray.origin(), whole(1, 2, 3));
    assert_eq!(ray.direction(), whole(0, 0, -1));
}

#[test]
fn points_along_the_ray() {
    let ray = Ray::new(whole(1, 2, 3), whole(2, 0, -4));
    assert_eq!(ray.at(Scalar::zero()), whole(1, 2, 3));
    assert_eq!(ray.at(Scalar::from_int(1)), whole(3, 2, -1));
    assert_eq!(ray.at(Scalar::from_raw(500_000)), whole(2, 2, 1));
    assert_eq!(ray.at(Scalar::from_int(-2)), whole(-3, 2, 11));
}
