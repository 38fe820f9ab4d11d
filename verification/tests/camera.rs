use path_tracer::camera::{background, missing_materials, write_image, Camera, CameraError, Row, Trace, NEAREST_HIT};
use path_tracer::color::write_color;
use path_tracer::hittable::{HitRecord, Hittable, HittableList, Sphere};
use path_tracer::interval::Interval;
use path_tracer::material::{Lambertian, Material, Metal, Surface};
use path_tracer::random::RandomStream;
use path_tracer::ray::Ray;
use path_tracer::scalar::{Scalar, LIMIT};
use path_tracer::vec3::Vec3;

fn v(x: i64, y: i64, z: i64) -> Vec3 {
    Vec3::new(Scalar::from_raw(x), Scalar::from_raw(y), Scalar::from_raw(z))
}

fn whole(x: i64, y: i64, z: i64) -> Vec3 {
    Vec3::new(Scalar::from_int(x), Scalar::from_int(y), Scalar::from_int(z))
}

fn matte(r: i64, g: i64, b: i64) -> Surface {
    Surface::Lambertian(Lambertian::new(v(r, g, b)))
}

fn polished(r: i64, g: i64, b: i64, fuzz: i64) -> Surface {
    Surface::Metal(Metal::new(v(r, g, b), Scalar::from_raw(fuzz)))
}

fn scene() -> HittableList<Sphere> {
    let mut world = HittableList::new();
    world.add(Sphere::new(v(0, -100_500_000, -1_000_000), Scalar::from_int(100), matte(800_000, 800_000, 0)));
    world.add(Sphere::new(v(0, 0, -1_200_000), Scalar::from_raw(500_000), matte(100_000, 200_000, 500_000)));
    world.add(Sphere::new(v(-1_000_000, 0, -1_000_000), Scalar::from_raw(500_000), polished(800_000, 800_000, 800_000, 300_000)));
    world.add(Sphere::new(v(1_000_000, 0, -1_000_000), Scalar::from_raw(500_000), polished(800_000, 600_000, 200_000, 1_000_000)));
    world
}

fn one_sphere() -> HittableList<Sphere> {
    let mut world = HittableList::new();
    world.add(Sphere::new(whole(0, 0, -1), Scalar::from_raw(500_000), matte(500_000, 500_000, 500_000)));
    world
}

fn start(seed: u64) -> Trace {
    Trace::new(RandomStream::new(seed, 0))
}

fn black() -> Vec3 {
    whole(0, 0, 0)
}

#[test]
fn a_width_below_one_is_refused() {
    let one = Scalar::from_int(1);
    assert_eq!(Camera::new(one, 0, 10, 5), Err(CameraError::NonPositiveWidth));
    assert_eq!(Camera::new(one, -4, 10, 5), Err(CameraError::NonPositiveWidth));
    assert_eq!(Camera::new(Scalar::zero(), 0, 0, 5), Err(CameraError::NonPositiveWidth));
}

#[test]
fn an_aspect_ratio_not_above_zero_is_refused() {
    assert_eq!(Camera::new(Scalar::zero(), 4, 10, 5), Err(CameraError::NonPositiveAspectRatio));
    assert_eq!(Camera::new(Scalar::from_int(-2), 4, 10, 5), Err(CameraError::NonPositiveAspectRatio));
    assert_eq!(Camera::new(Scalar::from_int(-2), 4, 0, 5), Err(CameraError::NonPositiveAspectRatio));
}

#[test]
fn a_sample_count_below_one_is_refused() {
    let one = Scalar::from_int(1);
    assert_eq!(Camera::new(one, 4, 0, 5), Err(CameraError::NonPositiveSamples));
    assert_eq!(Camera::new(one, 4, -1, 5), Err(CameraError::NonPositiveSamples));
}

#[test]
fn any_depth_is_taken() {
    let one = Scalar::from_int(1);
    assert_eq!(Camera::new(one, 4, 1, 0).unwrap().max_depth, 0);
    assert_eq!(Camera::new(one, 4, 1, -3).unwrap().max_depth, -3);
}

#[test]
fn a_square_camera_two_pixels_wide() {
    let camera = Camera::new(Scalar::from_int(1), 2, 4, 5).unwrap();
    assert_eq!(camera.aspect_ratio.raw(), 1_000_000);
    assert_eq!(camera.image_width, 2);
    assert_eq!(camera.image_height, 2);
    assert_eq!(camera.samples_per_pixel, 4);
    assert_eq!(camera.max_depth, 5);
    assert_eq!(camera.pixel_samples_scale.raw(), 250_000);
    assert_eq!(camera.center, whole(0, 0, 0));
    assert_eq!(camera.pixel_delta_horizontal, whole(1, 0, 0));
    assert_eq!(camera.pixel_delta_vertical, whole(0, -1, 0));
    assert_eq!(camera.pixel_000_loc, v(-500_000, 500_000, -1_000_000));
}

#[test]
fn a_wide_camera() {
    let camera = Camera::new(Scalar::from_ratio(16, 9), 400, 100, 50).unwrap();
    assert_eq!(camera.image_height, 225);
    assert_eq!(camera.pixel_samples_scale.raw(), 10_000);
    assert_eq!(camera.pixel_delta_horizontal, v(8_888, 0, 0));
    assert_eq!(camera.pixel_delta_vertical, v(0, -8_888, 0));
    assert_eq!(camera.pixel_000_loc, v(-1_773_333, 995_556, -1_000_000));
}

#[test]
fn the_height_is_rounded_down() {
    assert_eq!(Camera::new(Scalar::from_int(2), 5, 1, 1).unwrap().image_height, 2);
    assert_eq!(Camera::new(Scalar::from_raw(1_500_000), 100, 1, 1).unwrap().image_height, 66);
    assert_eq!(Camera::new(Scalar::from_int(3), 2, 1, 1).unwrap().image_height, 0);
}

#[test]
fn the_height_stops_at_the_largest_row_count() {
    let camera = Camera::new(Scalar::from_raw(1), i32::MAX, 1, 1).unwrap();
    assert_eq!(camera.image_height, i32::MAX);
    let squat = Camera::new(Scalar::from_raw(LIMIT), 1, 1, 1).unwrap();
    assert_eq!(squat.image_height, 0);
}

#[test]
fn points_of_the_unit_square() {
    let mut stream = RandomStream::new(4, 0);
    let mut left = 0;
    for n in 0..200 {
        let point = Camera::sample_square(&mut stream);
        assert!(-500_000 <= point.x.raw() && point.x.raw() < 500_000);
        assert!(-500_000 <= point.y.raw() && point.y.raw() < 500_000);
        assert_eq!(point.z.raw(), 0);
        assert_eq!(stream.index, 2 * (n + 1));
        if point.x.raw() < 0 {
            left += 1;
        }
    }
    assert!(left > 50 && left < 150);
}

#[test]
fn rays_start_at_the_camera_and_pass_through_the_pixel() {
    let camera = Camera::new(Scalar::from_int(1), 2, 4, 5).unwrap();
    let mut stream = RandomStream::new(8, 1);
    for (i, j) in [(0, 0), (1, 0), (0, 1), (1, 1)] {
        let mut same = stream;
        let offset = Camera::sample_square(&mut same);
        let ray = camera.get_ray(i, j, &mut stream);
        assert_eq!(stream, same);
        assert_eq!(ray.origin(), whole(0, 0, 0));
        let expected = v(
            -500_000 + 1_000_000 * i as i64 + offset.x.raw(),
            500_000 - 1_000_000 * j as i64 - offset.y.raw(),
            -1_000_000,
        );
        assert_eq!(ray.direction(), expected);
    }
}

#[test]
fn the_sky_is_white_below_and_blue_above() {
    assert_eq!(background(&Ray::new(whole(0, 0, 0), whole(0, 1, 0))), v(500_000, 700_000, 1_000_000));
    assert_eq!(background(&Ray::new(whole(0, 0, 0), whole(0, -1, 0))), whole(1, 1, 1));
    assert_eq!(background(&Ray::new(whole(0, 0, 0), whole(1, 0, 0))), v(750_000, 850_000, 1_000_000));
    assert_eq!(background(&Ray::new(whole(5, 5, 5), whole(0, 0, -3))), v(750_000, 850_000, 1_000_000));
    assert_eq!(background(&Ray::new(whole(0, 0, 0), whole(3, 4, 0))), v(550_000, 730_000, 1_000_000));
}

#[test]
fn no_bounce_left_gives_black() {
    let world = scene();
    for depth in [0, -1, i32::MIN] {
        for direction in [whole(0, 0, -1), whole(0, 1, 0), whole(-1, 0, -1), whole(0, 0, 0)] {
            let mut trace = start(12);
            let color = Camera::ray_color(&Ray::new(whole(0, 0, 0), direction), depth, &world, &mut trace);
            assert_eq!(color, black());
            assert_eq!(trace, start(12));
        }
    }
}

#[test]
fn a_ray_that_misses_everything_gives_the_sky() {
    let empty: HittableList<Sphere> = HittableList::new();
    let world = one_sphere();
    for direction in [whole(0, 1, 0), whole(0, -1, 0), whole(1, 0, 0), whole(3, 4, 0), whole(0, 0, 1)] {
        let ray = Ray::new(whole(0, 0, 0), direction);
        for depth in [1, 2, 50] {
            let mut trace = start(12);
            assert_eq!(Camera::ray_color(&ray, depth, &empty, &mut trace), background(&ray));
            assert_eq!(trace, start(12));
            assert_eq!(Camera::ray_color(&ray, depth, &world, &mut trace), background(&ray));
            assert_eq!(trace, start(12));
        }
    }
}

#[test]
fn the_center_ray_hits_the_sphere_and_is_not_the_sky() {
    let camera = Camera::new(Scalar::from_int(1), 2, 1, 10).unwrap();
    assert_eq!(camera.center, whole(0, 0, 0));
    let world = one_sphere();
    let center_ray = Ray::new(camera.center, whole(0, 0, -1));
    let sight = Interval::new(Scalar::from_raw(NEAREST_HIT), Scalar::infinity());
    let record = world.hit(&center_ray, &sight).unwrap();
    assert_eq!(record.t().raw(), 500_000);
    assert_eq!(record.normal(), whole(0, 0, 1));
    let away = Ray::new(camera.center, whole(0, 0, 1));
    assert!(world.hit(&away, &sight).is_none());
    let mut trace = start(1);
    let hit_color = Camera::ray_color(&center_ray, camera.max_depth, &world, &mut trace);
    assert!(trace.stream.index > 0);
    let mut other = start(1);
    let sky = Camera::ray_color(&away, camera.max_depth, &world, &mut other);
    assert_eq!(sky, background(&away));
    assert_ne!(hit_color, sky);
    assert_ne!(hit_color, background(&center_ray));
}

#[test]
fn one_bounce_into_the_sky_is_the_sky_filtered_by_the_surface() {
    let world = one_sphere();
    let ray = Ray::new(whole(0, 0, 0), whole(0, 0, -1));
    let record = world.hit(&ray, &Interval::new(Scalar::from_raw(NEAREST_HIT), Scalar::infinity())).unwrap();
    let mut trace = start(5);
    let mut same = trace.stream;
    let (attenuation, onward) = matte(500_000, 500_000, 500_000).scatter(&ray, &record, &mut same).unwrap();
    let color = Camera::ray_color(&ray, 2, &world, &mut trace);
    assert_eq!(trace.stream, same);
    assert_eq!(trace.missing_materials, 0);
    assert_eq!(color, background(&onward).mul_each(attenuation));
}

#[test]
fn the_last_bounce_gives_black() {
    let world = one_sphere();
    let ray = Ray::new(whole(0, 0, 0), whole(0, 0, -1));
    let mut trace = start(5);
    assert_eq!(Camera::ray_color(&ray, 1, &world, &mut trace), black());
    assert!(trace.stream.index > 0);
}

struct Bare;

impl Hittable for Bare {
    fn spec_hit(&self, _: Ray, _: Interval) -> Option<HitRecord> {
        unreachable!()
    }

    fn spec_material(&self) -> Option<Surface> {
        unreachable!()
    }

    fn hit(&self, r: &Ray, range: &Interval) -> Option<HitRecord> {
        let t = Scalar::from_int(1);
        if range.exclusive_contains(t) {
            let mut record = HitRecord {
                p: r.at(t),
                normal: whole(0, 0, 0),
                t,
                material: None,
                front_face: false,
            };
            record.set_face_normal(r, whole(0, 0, 1));
            Some(record)
        } else {
            None
        }
    }

    fn material(&self) -> Option<Surface> {
        None
    }
}

#[test]
fn a_hit_without_a_surface_is_black_and_counted() {
    let ray = Ray::new(whole(0, 0, 0), whole(0, 0, -1));
    let mut trace = start(5);
    assert_eq!(Camera::ray_color(&ray, 5, &Bare, &mut trace), black());
    assert_eq!(trace, Trace { stream: RandomStream::new(5, 0), missing_materials: 1 });
    assert_eq!(Camera::ray_color(&ray, 5, &Bare, &mut trace), black());
    assert_eq!(trace.missing_materials, 2);
    let mut full = Trace { stream: RandomStream::new(5, 0), missing_materials: u64::MAX };
    assert_eq!(Camera::ray_color(&ray, 5, &Bare, &mut full), black());
    assert_eq!(full.missing_materials, u64::MAX);
}

#[test]
fn a_row_without_surfaces_counts_every_sample() {
    let camera = Camera::new(Scalar::from_int(1), 3, 4, 5).unwrap();
    let row = camera.render_row(&Bare, 1, 0);
    assert_eq!(row.missing_materials, 12);
    assert_eq!(row.text, "0 0 0\n0 0 0\n0 0 0\n");
}

#[test]
fn a_pixel_is_the_mean_of_its_samples() {
    let camera = Camera::new(Scalar::from_int(1), 4, 3, 6).unwrap();
    let world = scene();
    let mut trace = start(40);
    let mut same = start(40);
    let mut sum = black();
    for _ in 0..3 {
        let mut stream = same.stream;
        let ray = camera.get_ray(2, 1, &mut stream);
        same.stream = stream;
        sum.add_assign(Camera::ray_color(&ray, 6, &world, &mut same));
    }
    let color = camera.pixel(&world, 2, 1, &mut trace);
    assert_eq!(trace, same);
    assert_eq!(color, sum.div(Scalar::from_int(3)));
}

#[test]
fn a_pixel_of_open_sky() {
    let camera = Camera::new(Scalar::from_int(1), 2, 5, 3).unwrap();
    let empty: HittableList<Sphere> = HittableList::new();
    let mut trace = start(2);
    let color = camera.pixel(&empty, 0, 0, &mut trace);
    assert_eq!(trace.stream.index, 10);
    assert!(color.x.raw() > 500_000 && color.x.raw() < 1_000_000);
    assert!(color.y.raw() > 700_000 && color.y.raw() < 1_000_000);
    assert!(color.z.raw() > 999_990 && color.z.raw() <= 1_000_000);
}

#[test]
fn a_row_is_its_pixels_one_to_a_line() {
    let camera = Camera::new(Scalar::from_int(2), 6, 2, 4).unwrap();
    let world = scene();
    let row = camera.render_row(&world, 99, 1);
    let mut trace = Trace::new(RandomStream::new(99, 1));
    let mut text = String::new();
    for i in 0..6 {
        text += &write_color(camera.pixel(&world, i, 1, &mut trace));
        text += "\n";
    }
    assert_eq!(row.text, text);
    assert_eq!(row.missing_materials, 0);
    assert_eq!(row.text.lines().count(), 6);
    for line in row.text.lines() {
        let parts: Vec<u32> = line.split(' ').map(|part| part.parse().unwrap()).collect();
        assert_eq!(parts.len(), 3);
        assert!(parts.iter().all(|&part| part <= 254));
    }
}

#[test]
fn rows_differ_from_each_other() {
    let camera = Camera::new(Scalar::from_int(1), 8, 2, 4).unwrap();
    let world = scene();
    assert_ne!(camera.render_row(&world, 1, 0).text, camera.render_row(&world, 1, 7).text);
    assert_ne!(camera.render_row(&world, 1, 3).text, camera.render_row(&world, 2, 3).text);
}

#[test]
fn rendering_twice_gives_the_same_image() {
    let camera = Camera::new(Scalar::from_ratio(16, 9), 16, 3, 8).unwrap();
    let world = scene();
    let first = camera.render(&world, 2024);
    let second = camera.render(&world, 2024);
    assert_eq!(first.len(), 9);
    assert_eq!(first.len(), second.len());
    for (a, b) in first.iter().zip(second.iter()) {
        assert_eq!(a.text, b.text);
        assert_eq!(a.missing_materials, b.missing_materials);
    }
    let other = camera.render(&world, 2025);
    assert!(first.iter().zip(other.iter()).any(|(a, b)| a.text != b.text));
}

#[test]
fn row_j_of_the_image_is_scanline_j() {
    let camera = Camera::new(Scalar::from_ratio(4, 3), 12, 2, 5).unwrap();
    let world = scene();
    let rows = camera.render(&world, 7);
    assert_eq!(rows.len(), camera.image_height as usize);
    assert_eq!(rows.len(), 9);
    for (j, row) in rows.iter().enumerate() {
        let alone = camera.render_row(&world, 7, j as i32);
        assert_eq!(row.text, alone.text);
        assert_eq!(row.missing_materials, alone.missing_materials);
        assert_eq!(row.text.lines().count(), 12);
    }
    assert_ne!(rows[0].text, rows[8].text);
}

#[test]
fn an_image_without_rows() {
    let camera = Camera::new(Scalar::from_int(3), 2, 1, 1).unwrap();
    assert_eq!(camera.image_height, 0);
    assert!(camera.render(&scene(), 1).is_empty());
    let mut reversed = camera;
    reversed.image_height = -5;
    assert!(reversed.render(&scene(), 1).is_empty());
}

#[test]
fn the_header_names_format_size_and_depth() {
    let camera = Camera::new(Scalar::from_ratio(16, 9), 400, 100, 50).unwrap();
    assert_eq!(camera.header(), "P3\n400 225\n255\n");
    let small = Camera::new(Scalar::from_int(1), 2, 1, 1).unwrap();
    assert_eq!(small.header(), "P3\n2 2\n255\n");
}

#[test]
fn the_image_is_the_header_and_the_rows_from_the_top() {
    let rows = vec![
        Row { text: String::from("1 2 3\n4 5 6\n"), missing_materials: 2 },
        Row { text: String::from("7 8 9\n10 11 12\n"), missing_materials: 0 },
        Row { text: String::from("13 14 15\n16 17 18\n"), missing_materials: 5 },
    ];
    let text = write_image(&String::from("P3\n2 3\n255\n"), &rows);
    assert_eq!(text, "P3\n2 3\n255\n1 2 3\n4 5 6\n7 8 9\n10 11 12\n13 14 15\n16 17 18\n");
    assert_eq!(write_image(&String::from("P3\n0 0\n255\n"), &Vec::new()), "P3\n0 0\n255\n");
    assert_eq!(missing_materials(&rows), 7);
    assert_eq!(missing_materials(&Vec::new()), 0);
}

#[test]
fn the_count_of_missing_surfaces_stops_at_the_largest_number() {
    let rows = vec![
        Row { text: String::new(), missing_materials: u64::MAX - 1 },
        Row { text: String::new(), missing_materials: 5 },
    ];
    assert_eq!(missing_materials(&rows), u64::MAX);
}

#[test]
fn a_whole_image_as_text() {
    let camera = Camera::new(Scalar::from_int(1), 3, 2, 4).unwrap();
    let world = scene();
    let rows = camera.render(&world, 5);
    let text = write_image(&camera.header(), &rows);
    let mut lines = text.lines();
    assert_eq!(lines.next(), Some("P3"));
    assert_eq!(lines.next(), Some("3 3"));
    assert_eq!(lines.next(), Some("255"));
    assert_eq!(lines.count(), 9);
    assert!(text.ends_with('\n'));
}

fn channels(line: &str) -> Vec<u32> {
    line.split(' ').map(|part| part.parse().unwrap()).collect()
}

#[test]
fn sky_above_and_ground_below() {
    let camera = Camera::new(Scalar::from_ratio(16, 9), 32, 8, 10).unwrap();
    assert_eq!(camera.image_height, 18);
    let rows = camera.render(&scene(), 3);
    let top: Vec<Vec<u32>> = rows[0].text.lines().map(channels).collect();
    let bottom: Vec<Vec<u32>> = rows[17].text.lines().map(channels).collect();
    assert_eq!(top.len(), 32);
    assert_eq!(bottom.len(), 32);
    let corner = &top[0];
    assert!(corner[2] >= corner[1] && corner[1] >= corner[0]);
    assert!(corner[2] > 200);
    let floor = &bottom[16];
    assert_eq!(floor[2], 0);
    assert!(floor[0] > 0 && floor[1] > 0);
    assert_eq!(missing_materials(&rows), 0);
}
