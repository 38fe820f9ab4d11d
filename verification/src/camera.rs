//! The camera: from a pixel to rays, from rays to a color, from colors to
//! the rows of an image.

use crate::color::{spec_write_color, write_color, Color};
use crate::text::{push_decimal, spec_decimal};
use rayon::iter::{IntoParallelIterator, ParallelIterator};
use vstd::string::StringExecFns;
use crate::hittable::Hittable;
use crate::interval::Interval;
use crate::material::Material;
use crate::random::RandomStream;
use crate::ray::Ray;
use crate::scalar::{lemma_of_view, lemma_view_range, Scalar, LIMIT, SCALE};
use crate::vec3::{Point3, Vec3};
use vstd::prelude::*;

verus! {

/// The least parameter, in millionths, at which a ray can hit: nearer
/// hits are the surface that the ray has just left.
pub const NEAREST_HIT: i64 = 1_000;

/// Why a camera could not be made.
#[derive(Clone, Copy, Debug, PartialEq, Eq, Structural)]
pub enum CameraError {
    /// The image would be less than one pixel wide.
    NonPositiveWidth,
    /// The aspect ratio is zero or negative.
    NonPositiveAspectRatio,
    /// Less than one sample would be taken of each pixel.
    NonPositiveSamples,
}

/// What tracing leaves behind: the random stream at its next position,
/// and how many hits had no surface to scatter from.
#[derive(Clone, Copy, Debug, PartialEq, Eq, Structural)]
pub struct Trace {
    pub stream: RandomStream,
    pub missing_materials: u64,
}

impl Trace {
    /// The state before the first ray: `stream` untouched, nothing missed.
    pub fn new(stream: RandomStream) -> (r: Trace)
        ensures
            r == (Trace { stream, missing_materials: 0 }),
    {
        Trace { stream, missing_materials: 0 }
    }

    /// This state with the stream moved to `stream`.
    pub open spec fn spec_with_stream(self, stream: RandomStream) -> Trace {
        Trace { stream, missing_materials: self.missing_materials }
    }

    /// This state with one more hit without a surface; the count stays at
    /// its largest value once it is reached.
    pub open spec fn spec_missed(self) -> Trace {
        Trace {
            stream: self.stream,
            missing_materials: if self.missing_materials == u64::MAX {
                u64::MAX
            } else {
                (self.missing_materials + 1) as u64
            },
        }
    }
}

/// A pinhole camera at the origin that looks down the negative z axis at
/// a viewport of height two at distance one.
#[derive(Clone, Copy, Debug, PartialEq, Eq, Structural)]
pub struct Camera {
    pub aspect_ratio: Scalar,
    pub image_width: i32,
    pub samples_per_pixel: i32,
    pub max_depth: i32,
    pub image_height: i32,
    pub pixel_samples_scale: Scalar,
    pub center: Point3,
    pub pixel_000_loc: Point3,
    pub pixel_delta_horizontal: Vec3,
    pub pixel_delta_vertical: Vec3,
}

/// One row of an image as text, and how many hits had no surface to
/// scatter from while it was traced.
pub struct Row {
    pub text: String,
    pub missing_materials: u64,
}

/// The range of parameters at which a ray can hit: from `NEAREST_HIT`
/// millionths to infinity.
pub open spec fn spec_sight() -> Interval {
    Interval { min: Scalar::of(NEAREST_HIT as int), max: Scalar::of(LIMIT as int) }
}

/// The color of the sky along `ray`: white at the horizon blended into
/// blue at the zenith. With `y` the second component of the direction
/// scaled to length one and `a = (y + 1) / 2`, it is
/// `(1 - a) * (1, 1, 1) + a * (0.5, 0.7, 1)`.
pub open spec fn spec_background(ray: Ray) -> Color {
    let unit_direction = ray.direction.spec_unit_vector();
    let a = Scalar::of(SCALE / 2).spec_mul(unit_direction.y.spec_add(Scalar::of(SCALE as int)));
    Scalar::of(SCALE as int).spec_sub(a).spec_mul_vec(
        Vec3::of(SCALE as int, SCALE as int, SCALE as int),
    ).spec_add(a.spec_mul_vec(Vec3::of(SCALE / 2, 7 * SCALE / 10, SCALE as int)))
}

/// The color of the sky along `ray`.
pub fn background(ray: &Ray) -> (r: Color)
    ensures
        r == spec_background(*ray),
{
    let unit_direction = ray.direction().unit_vector();
    let half = Scalar::from_raw(SCALE / 2);
    let one = Scalar::one();
    let a = half.mul(unit_direction.y().add(one));
    let white = Vec3::new(one, one, one);
    let blue = Vec3::new(half, Scalar::from_raw(7 * SCALE / 10), one);
    one.sub(a).mul_vec(white).add(a.mul_vec(blue))
}

/// The light that comes back along `ray` after at most `depth` bounces,
/// and the state that tracing it leaves.
///
/// No bounce left: black. A miss: the sky. A hit on a surface that
/// scatters: the light along the scattered ray with one bounce less,
/// filtered by the attenuation. A hit that is absorbed: black. A hit
/// with no surface: black, and one more hit counted as missing.
pub open spec fn spec_ray_color<W: Hittable>(world: &W, ray: Ray, depth: int, trace: Trace) -> (
    Color,
    Trace,
)
    decreases depth,
{
    if depth <= 0 {
        (Vec3::of(0, 0, 0), trace)
    } else {
        match world.spec_hit(ray, spec_sight()) {
            Some(record) => match record.material {
                Some(material) => {
                    let (scattered, stream) = material.spec_scatter(ray, record, trace.stream);
                    match scattered {
                        Some((attenuation, onward)) => {
                            let (light, after) = spec_ray_color(
                                world,
                                onward,
                                depth - 1,
                                trace.spec_with_stream(stream),
                            );
                            (light.spec_mul_each(attenuation), after)
                        },
                        None => (Vec3::of(0, 0, 0), trace.spec_with_stream(stream)),
                    }
                },
                None => (Vec3::of(0, 0, 0), trace.spec_missed()),
            },
            None => (spec_background(ray), trace),
        }
    }
}

impl Camera {
    /// The number of rows of an image of the given width and aspect
    /// ratio: the width divided by the ratio, rounded down, and at most
    /// the largest number that the row count can hold.
    pub open spec fn spec_image_height(aspect_ratio: Scalar, image_width: i32) -> int {
        let rows = Scalar::spec_from_int(image_width as int).spec_div(aspect_ratio)@ / (SCALE as int);
        if rows > i32::MAX {
            i32::MAX as int
        } else {
            rows
        }
    }

    /// The camera for the given settings: the pixel grid spans a viewport
    /// of height two and of width twice the aspect ratio, one unit in
    /// front of the origin; `pixel_000_loc` is the middle of the top left
    /// pixel.
    pub open spec fn spec_new(
        aspect_ratio: Scalar,
        image_width: i32,
        samples_per_pixel: i32,
        max_depth: i32,
    ) -> Camera {
        let image_height = Camera::spec_image_height(aspect_ratio, image_width);
        let two = Scalar::spec_from_int(2);
        let zero = Scalar::of(0);
        let viewport_width = aspect_ratio.spec_mul(two);
        let center = Vec3 { x: zero, y: zero, z: zero };
        let horizontal = Vec3 { x: viewport_width, y: zero, z: zero };
        let vertical = Vec3 { x: zero, y: two.spec_neg(), z: zero };
        let pixel_delta_horizontal = horizontal.spec_div(Scalar::spec_from_int(image_width as int));
        let pixel_delta_vertical = vertical.spec_div(Scalar::spec_from_int(image_height));
        let viewport_upper_left = center.spec_sub(
            Vec3 { x: zero, y: zero, z: Scalar::spec_from_int(1) },
        ).spec_sub(horizontal.spec_div(two)).spec_sub(vertical.spec_div(two));
        Camera {
            aspect_ratio,
            image_width,
            samples_per_pixel,
            max_depth,
            image_height: image_height as i32,
            pixel_samples_scale: Scalar::spec_from_int(1).spec_div(
                Scalar::spec_from_int(samples_per_pixel as int),
            ),
            center,
            pixel_000_loc: viewport_upper_left.spec_add(
                Scalar::of(SCALE / 2).spec_mul_vec(
                    pixel_delta_horizontal.spec_add(pixel_delta_vertical),
                ),
            ),
            pixel_delta_horizontal,
            pixel_delta_vertical,
        }
    }

    /// The error that the settings give, if any: the first of a width
    /// below one, an aspect ratio not above zero, and a sample count
    /// below one.
    pub open spec fn spec_error(
        aspect_ratio: Scalar,
        image_width: i32,
        samples_per_pixel: i32,
    ) -> Option<CameraError> {
        if image_width <= 0 {
            Some(CameraError::NonPositiveWidth)
        } else if aspect_ratio@ <= 0 {
            Some(CameraError::NonPositiveAspectRatio)
        } else if samples_per_pixel <= 0 {
            Some(CameraError::NonPositiveSamples)
        } else {
            None
        }
    }

    /// The camera for the given settings, or the reason why they give
    /// none.
    pub fn new(aspect_ratio: Scalar, image_width: i32, samples_per_pixel: i32, max_depth: i32) -> (res:
        Result<Camera, CameraError>)
        ensures
            match res {
                Ok(camera) => Camera::spec_error(aspect_ratio, image_width, samples_per_pixel)
                    is None && camera == Camera::spec_new(
                    aspect_ratio,
                    image_width,
                    samples_per_pixel,
                    max_depth,
                ) && camera.image_height >= 0,
                Err(error) => Camera::spec_error(aspect_ratio, image_width, samples_per_pixel)
                    == Some(error),
            },
    {
        proof {
            lemma_of_view(0);
        }
        let zero = Scalar::zero();
        if image_width <= 0 {
            return Err(CameraError::NonPositiveWidth);
        }
        if aspect_ratio.le(zero) {
            return Err(CameraError::NonPositiveAspectRatio);
        }
        if samples_per_pixel <= 0 {
            return Err(CameraError::NonPositiveSamples);
        }
        let width = Scalar::from_int(image_width as i64);
        let rows: i64 = width.div(aspect_ratio).raw() / SCALE;
        proof {
            lemma_view_range(width.spec_div(aspect_ratio));
            lemma_view_range(aspect_ratio);
            lemma_of_view(image_width * SCALE);
            assert(image_width * SCALE > 0) by (nonlinear_arith)
                requires
                    image_width > 0,
                    SCALE > 0,
            ;
            assert(image_width * SCALE * SCALE > 0) by (nonlinear_arith)
                requires
                    image_width * SCALE > 0,
                    SCALE > 0,
            ;
            lemma_of_view(crate::scalar::quotient(width@ * SCALE, aspect_ratio@));
        }
        let image_height: i32 = if rows > i32::MAX as i64 {
            i32::MAX
        } else {
            rows as i32
        };
        let two = Scalar::from_int(2);
        let one = Scalar::from_int(1);
        let viewport_width = aspect_ratio.mul(two);
        let camera_center = Vec3::new(zero, zero, zero);
        let horizontal = Vec3::new(viewport_width, zero, zero);
        let vertical = Vec3::new(zero, two.neg(), zero);
        let pixel_delta_horizontal = horizontal.div(width);
        let pixel_delta_vertical = vertical.div(Scalar::from_int(image_height as i64));
        let viewport_upper_left = camera_center.sub(Vec3::new(zero, zero, one)).sub(
            horizontal.div(two),
        ).sub(vertical.div(two));
        let pixel_000_loc = viewport_upper_left.add(
            Scalar::from_raw(SCALE / 2).mul_vec(pixel_delta_horizontal.add(pixel_delta_vertical)),
        );
        Ok(
            Camera {
                aspect_ratio,
                image_width,
                samples_per_pixel,
                max_depth,
                image_height,
                pixel_samples_scale: one.div(Scalar::from_int(samples_per_pixel as i64)),
                center: camera_center,
                pixel_000_loc,
                pixel_delta_horizontal,
                pixel_delta_vertical,
            },
        )
    }

    /// A point of the square of side one round the origin, from two
    /// draws, and the stream after them.
    pub open spec fn spec_sample_square(stream: RandomStream) -> (Point3, RandomStream) {
        let zero = Scalar::of(0);
        let one = Scalar::of(SCALE as int);
        let half = Scalar::of(SCALE / 2);
        let second = stream.spec_next();
        (
            Vec3 {
                x: stream.spec_draw(zero, one).spec_sub(half),
                y: second.spec_draw(zero, one).spec_sub(half),
                z: zero,
            },
            second.spec_next(),
        )
    }

    /// A random point of the square from (-0.5, -0.5) to (0.5, 0.5).
    pub fn sample_square(stream: &mut RandomStream) -> (r: Point3)
        ensures
            (r, *final(stream)) == Camera::spec_sample_square(*old(stream)),
            -SCALE / 2 <= r.x@ < SCALE / 2,
            -SCALE / 2 <= r.y@ < SCALE / 2,
            r.z@ == 0,
    {
        proof {
            lemma_of_view(0);
            lemma_of_view(SCALE as int);
            lemma_of_view(SCALE / 2);
        }
        let zero = Scalar::zero();
        let one = Scalar::one();
        let half = Scalar::from_raw(SCALE / 2);
        let x = stream.draw(zero, one);
        let y = stream.draw(zero, one);
        proof {
            lemma_of_view(x@ - half@);
            lemma_of_view(y@ - half@);
        }
        Vec3::new(x.sub(half), y.sub(half), zero)
    }

    /// The ray from the camera through the point of pixel (`i`, `j`) that
    /// lies `offset` pixels from its middle.
    pub open spec fn spec_ray_through(self, i: i32, j: i32, offset: Point3) -> Ray {
        let pixel_center = self.pixel_000_loc.spec_add(
            self.pixel_delta_horizontal.spec_mul(Scalar::spec_from_int(i as int).spec_add(offset.x)),
        ).spec_add(
            self.pixel_delta_vertical.spec_mul(Scalar::spec_from_int(j as int).spec_add(offset.y)),
        );
        Ray { origin: self.center, direction: pixel_center.spec_sub(self.center) }
    }

    /// The ray through a random point of pixel (`i`, `j`), and the stream
    /// after the draws.
    pub open spec fn spec_get_ray(self, i: i32, j: i32, stream: RandomStream) -> (Ray, RandomStream) {
        let (offset, rest) = Camera::spec_sample_square(stream);
        (self.spec_ray_through(i, j, offset), rest)
    }

    /// A ray from the camera through a random point of the pixel in
    /// column `i` of row `j`.
    pub fn get_ray(&self, i: i32, j: i32, stream: &mut RandomStream) -> (r: Ray)
        ensures
            (r, *final(stream)) == self.spec_get_ray(i, j, *old(stream)),
    {
        let offset = Camera::sample_square(stream);
        let pixel_center = self.pixel_000_loc.add(
            self.pixel_delta_horizontal.mul(Scalar::from_int(i as i64).add(offset.x())),
        ).add(self.pixel_delta_vertical.mul(Scalar::from_int(j as i64).add(offset.y())));
        let ray_direction = pixel_center.sub(self.center);
        Ray::new(self.center, ray_direction)
    }

    /// The light that comes back along `ray` after at most `depth`
    /// bounces in `world`. No bounce left gives black, whatever the world
    /// holds; a ray that hits nothing gives the color of the sky.
    pub fn ray_color<W: Hittable>(ray: &Ray, depth: i32, world: &W, trace: &mut Trace) -> (r: Color)
        ensures
            (r, *final(trace)) == spec_ray_color(world, *ray, depth as int, *old(trace)),
            depth <= 0 ==> r == Vec3::of(0, 0, 0) && *final(trace) == *old(trace),
            depth > 0 && world.spec_hit(*ray, spec_sight()) is None ==> r == spec_background(*ray)
                && *final(trace) == *old(trace),
        decreases depth,
    {
        let zero = Scalar::zero();
        if depth <= 0 {
            return Vec3::new(zero, zero, zero);
        }
        let sight = Interval::new(Scalar::from_raw(NEAREST_HIT), Scalar::infinity());
        match world.hit(ray, &sight) {
            Some(record) => match record.material() {
                Some(material) => {
                    let mut stream = trace.stream;
                    let scattered = material.scatter(ray, &record, &mut stream);
                    trace.stream = stream;
                    match scattered {
                        Some((attenuation, onward)) => {
                            Camera::ray_color(&onward, depth - 1, world, trace).mul_each(attenuation)
                        },
                        None => Vec3::new(zero, zero, zero),
                    }
                },
                None => {
                    if trace.missing_materials < u64::MAX {
                        trace.missing_materials = trace.missing_materials + 1;
                    }
                    Vec3::new(zero, zero, zero)
                },
            },
            None => background(ray),
        }
    }

    /// The number of samples that are taken of a pixel.
    pub open spec fn spec_sample_count(self) -> nat {
        if self.samples_per_pixel > 0 {
            self.samples_per_pixel as nat
        } else {
            0
        }
    }

    /// The number of pixels in a row.
    pub open spec fn spec_columns(self) -> nat {
        if self.image_width > 0 {
            self.image_width as nat
        } else {
            0
        }
    }

    /// The number of rows.
    pub open spec fn spec_rows(self) -> nat {
        if self.image_height > 0 {
            self.image_height as nat
        } else {
            0
        }
    }

    /// The sum of the light along the first `count` sampled rays through
    /// pixel (`i`, `j`), and the state after them.
    pub open spec fn spec_samples<W: Hittable>(
        self,
        world: &W,
        i: i32,
        j: i32,
        count: nat,
        trace: Trace,
    ) -> (Color, Trace)
        decreases count,
    {
        if count == 0 {
            (Vec3::of(0, 0, 0), trace)
        } else {
            let (sum, before) = self.spec_samples(world, i, j, (count - 1) as nat, trace);
            let (ray, stream) = self.spec_get_ray(i, j, before.stream);
            let (light, after) = spec_ray_color(
                world,
                ray,
                self.max_depth as int,
                before.spec_with_stream(stream),
            );
            (sum.spec_add(light), after)
        }
    }

    /// The color of pixel (`i`, `j`): the light along its sampled rays,
    /// summed and divided by their number.
    pub open spec fn spec_pixel<W: Hittable>(self, world: &W, i: i32, j: i32, trace: Trace) -> (
        Color,
        Trace,
    ) {
        let (sum, after) = self.spec_samples(world, i, j, self.spec_sample_count(), trace);
        (sum.spec_div(Scalar::spec_from_int(self.samples_per_pixel as int)), after)
    }

    /// The color of the pixel in column `i` of row `j`: the mean of the
    /// light along `samples_per_pixel` rays through random points of it.
    pub fn pixel<W: Hittable>(&self, world: &W, i: i32, j: i32, trace: &mut Trace) -> (r: Color)
        ensures
            (r, *final(trace)) == self.spec_pixel(world, i, j, *old(trace)),
    {
        let zero = Scalar::zero();
        let mut pixel_color = Vec3::new(zero, zero, zero);
        let mut sample: i32 = 0;
        while sample < self.samples_per_pixel
            invariant
                0 <= sample,
                sample <= self.samples_per_pixel || sample == 0,
                (pixel_color, *trace) == self.spec_samples(world, i, j, sample as nat, *old(trace)),
            decreases self.samples_per_pixel - sample,
        {
            let mut stream = trace.stream;
            let ray = self.get_ray(i, j, &mut stream);
            trace.stream = stream;
            let light = Camera::ray_color(&ray, self.max_depth, world, trace);
            pixel_color.add_assign(light);
            sample = sample + 1;
        }
        pixel_color.div(Scalar::from_int(self.samples_per_pixel as i64))
    }

    /// The text of the first `columns` pixels of row `j`, one pixel to a
    /// line, and the state after them.
    pub open spec fn spec_row<W: Hittable>(self, world: &W, j: i32, columns: nat, trace: Trace) -> (
        Seq<char>,
        Trace,
    )
        decreases columns,
    {
        if columns == 0 {
            (Seq::empty(), trace)
        } else {
            let (text, before) = self.spec_row(world, j, (columns - 1) as nat, trace);
            let (color, after) = self.spec_pixel(world, (columns - 1) as i32, j, before);
            (text + spec_write_color(color) + seq!['\n'], after)
        }
    }

    /// The text of row `j`, and the number of hits without a surface in
    /// it. The row has a random stream of its own, named by `seed` and
    /// the row's number.
    pub open spec fn spec_render_row<W: Hittable>(self, world: &W, seed: u64, j: i32) -> (
        Seq<char>,
        u64,
    ) {
        let (text, after) = self.spec_row(
            world,
            j,
            self.spec_columns(),
            Trace { stream: RandomStream { seed, lane: j as i64, index: 0 }, missing_materials: 0 },
        );
        (text, after.missing_materials)
    }

    /// Row `j` of the image: the encoded color of each of its pixels from
    /// left to right, each followed by a line break.
    pub fn render_row<W: Hittable>(&self, world: &W, seed: u64, j: i32) -> (r: Row)
        ensures
            (r.text@, r.missing_materials) == self.spec_render_row(world, seed, j),
    {
        let mut trace = Trace::new(RandomStream::new(seed, j as i64));
        let mut text = String::new();
        let mut i: i32 = 0;
        let ghost start = trace;
        while i < self.image_width
            invariant
                0 <= i,
                i <= self.image_width || i == 0,
                (text@, trace) == self.spec_row(world, j, i as nat, start),
            decreases self.image_width - i,
        {
            let pixel_color = self.pixel(world, i, j, &mut trace);
            let encoded = write_color(pixel_color);
            let ghost before = text@;
            text.append(encoded.as_str());
            text.append("\n");
            proof {
                reveal_strlit("\n");
            }
            assert(text@ =~= before + spec_write_color(pixel_color) + seq!['\n']);
            i = i + 1;
        }
        Row { text, missing_materials: trace.missing_materials }
    }

    /// Whether `rows` is the image of `world` for `seed`: one row for
    /// each scanline, the row at position `j` being scanline `j`.
    pub open spec fn spec_rendered<W: Hittable>(self, rows: Seq<Row>, world: &W, seed: u64) -> bool {
        &&& rows.len() == self.spec_rows()
        &&& forall|j: int|
            0 <= j < rows.len() ==> (#[trigger] rows[j].text@, rows[j].missing_materials)
                == self.spec_render_row(world, seed, j as i32)
    }

    /// The image of `world`, row by row from the top. Each row is traced
    /// with a random stream of its own, so the image is a function of
    /// the camera, the world and `seed`.
    pub fn render<W: Hittable>(&self, world: &W, seed: u64) -> (rows: Vec<Row>)
        ensures
            self.spec_rendered(rows@, world, seed),
    {
        rows_in_parallel(self, world, seed)
    }

    /// The first lines of a plain-text image: the format, the width and
    /// height, and the largest value of a channel.
    pub open spec fn spec_header(self) -> Seq<char> {
        seq!['P', '3', '\n'] + spec_decimal(self.image_width as int) + seq![' '] + spec_decimal(
            self.image_height as int,
        ) + seq!['\n', '2', '5', '5', '\n']
    }

    /// The header of the image as plain text.
    pub fn header(&self) -> (r: String)
        ensures
            r@ == self.spec_header(),
    {
        proof {
            reveal_strlit("P3\n");
            reveal_strlit(" ");
            reveal_strlit("\n255\n");
        }
        let mut text = String::from_str("P3\n");
        assert(text@ =~= seq!['P', '3', '\n']);
        push_decimal(&mut text, self.image_width as i64);
        text.append(" ");
        push_decimal(&mut text, self.image_height as i64);
        text.append("\n255\n");
        assert(text@ =~= self.spec_header());
        text
    }
}

/// Rendering is repeatable: two images of the same world by the same
/// camera with the same seed have the same rows, text for text and count
/// for count.
pub proof fn lemma_render_repeatable<W: Hittable>(
    camera: Camera,
    world: &W,
    seed: u64,
    first: Seq<Row>,
    second: Seq<Row>,
)
    requires
        camera.spec_rendered(first, world, seed),
        camera.spec_rendered(second, world, seed),
    ensures
        first.len() == second.len(),
        forall|j: int|
            0 <= j < first.len() ==> (#[trigger] first[j].text@) == second[j].text@
                && first[j].missing_materials == second[j].missing_materials,
{
    assert forall|j: int| 0 <= j < first.len() implies (#[trigger] first[j].text@)
        == second[j].text@ && first[j].missing_materials == second[j].missing_materials by {
        assert((first[j].text@, first[j].missing_materials) == camera.spec_render_row(
            world,
            seed,
            j as i32,
        ));
        assert((second[j].text@, second[j].missing_materials) == camera.spec_render_row(
            world,
            seed,
            j as i32,
        ));
    }
}

/// Rows keep their places: in an image, the row at position `j` is
/// scanline `j`, traced with the stream of lane `j`, whatever the order
/// in which the rows were finished.
pub proof fn lemma_row_is_scanline<W: Hittable>(
    camera: Camera,
    world: &W,
    seed: u64,
    rows: Seq<Row>,
    j: int,
)
    requires
        camera.spec_rendered(rows, world, seed),
        0 <= j < rows.len(),
    ensures
        rows.len() == camera.spec_rows(),
        j <= i32::MAX,
        rows[j].text@ == camera.spec_row(
            world,
            j as i32,
            camera.spec_columns(),
            Trace { stream: RandomStream { seed, lane: j as i64, index: 0 }, missing_materials: 0 },
        ).0,
{
    assert((rows[j].text@, rows[j].missing_materials) == camera.spec_render_row(
        world,
        seed,
        j as i32,
    ));
}

/// The texts of `rows`, one after the other.
pub open spec fn spec_concat(rows: Seq<Row>) -> Seq<char>
    decreases rows.len(),
{
    if rows.len() == 0 {
        Seq::empty()
    } else {
        spec_concat(rows.drop_last()) + rows.last().text@
    }
}

/// The number of hits without a surface in all of `rows`, and at most
/// the largest number that the count can hold.
pub open spec fn spec_missing(rows: Seq<Row>) -> int
    decreases rows.len(),
{
    if rows.len() == 0 {
        0
    } else {
        let sum = spec_missing(rows.drop_last()) + rows.last().missing_materials;
        if sum > u64::MAX {
            u64::MAX as int
        } else {
            sum
        }
    }
}

/// The whole image as plain text: `header`, then the rows from the top.
pub fn write_image(header: &String, rows: &Vec<Row>) -> (r: String)
    ensures
        r@ == header@ + spec_concat(rows@),
{
    let mut text = header.clone();
    let mut j: usize = 0;
    while j < rows.len()
        invariant
            j <= rows.len(),
            text@ == header@ + spec_concat(rows@.take(j as int)),
        decreases rows.len() - j,
    {
        proof {
            assert(rows@.take(j + 1).drop_last() =~= rows@.take(j as int));
        }
        let ghost before = text@;
        text.append(rows[j].text.as_str());
        assert(text@ =~= header@ + spec_concat(rows@.take(j + 1)));
        j = j + 1;
    }
    proof {
        assert(rows@.take(j as int) =~= rows@);
    }
    text
}

/// The number of hits without a surface in the whole image.
pub fn missing_materials(rows: &Vec<Row>) -> (r: u64)
    ensures
        r == spec_missing(rows@),
{
    let mut total: u64 = 0;
    let mut j: usize = 0;
    while j < rows.len()
        invariant
            j <= rows.len(),
            total == spec_missing(rows@.take(j as int)),
        decreases rows.len() - j,
    {
        proof {
            assert(rows@.take(j + 1).drop_last() =~= rows@.take(j as int));
        }
        total = total.saturating_add(rows[j].missing_materials);
        j = j + 1;
    }
    proof {
        assert(rows@.take(j as int) =~= rows@);
    }
    total
}

/// Hands the scanlines of `camera` to rayon's thread pool: it calls
/// `into_par_iter` on the range of row numbers, `map` with `render_row`
/// and `collect` into a vector. Rayon's `collect` of an indexed iterator
/// into a `Vec` keeps the items in the order of the range, whichever
/// thread finishes first, so the row at position `j` is the one that
/// `render_row` returns for `j`; an empty or reversed range gives no row.
#[verifier::external_body]
fn rows_in_parallel<W: Hittable>(camera: &Camera, world: &W, seed: u64) -> (rows: Vec<Row>)
    ensures
        camera.spec_rendered(rows@, world, seed),
{
    (0..camera.image_height).into_par_iter().map(|j| camera.render_row(world, seed, j)).collect()
}

} // verus!
