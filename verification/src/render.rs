//! The radiance along a ray: what the camera sees in one direction.
use crate::camera::{direction_through, Camera};
use crate::color::{rgb_add, rgb_mul, rgb_scale, rgb_sum, Color, Rgb};
use crate::fixed::{clamp_raw, fx_add, fx_div, fx_mul, fx_sub, Scalar, LIMIT_RAW, ONE_RAW};
use crate::hittable::Hittable;
use crate::hittable_list::HittableList;
use crate::material::{may_scatter, scatter_view, LightReflection, Scattered};
use crate::ray::Ray;
use crate::utils::random_number;
use crate::vec3::{v3_unit, Vec3, V3};
use vstd::prelude::*;

verus! {

/// The raw value of the smallest ray parameter that counts as a hit, about
/// 0.001: a ray does not hit the surface that it leaves.
pub const NEAREST_RAW: i64 = 65;

/// The raw value of 0.7, the green of the sky.
pub const SKY_GREEN_RAW: i64 = 45875;

pub open spec fn black() -> Rgb {
    Rgb { r: 0, g: 0, b: 0 }
}

pub open spec fn white() -> Rgb {
    Rgb { r: ONE_RAW as int, g: ONE_RAW as int, b: ONE_RAW as int }
}

pub open spec fn sky_blue() -> Rgb {
    Rgb { r: ONE_RAW as int / 2, g: SKY_GREEN_RAW as int, b: ONE_RAW as int }
}

/// How far up the ray points, from zero (down) to one (up):
/// `0.5 * (unit(dir).y + 1)`.
pub open spec fn sky_blend(dir: V3) -> int {
    fx_mul(ONE_RAW as int / 2, fx_add(v3_unit(dir).y, ONE_RAW as int))
}

/// The colour of the sky in the direction `dir`: white blended with blue.
pub open spec fn background(dir: V3) -> Rgb {
    let t = sky_blend(dir);
    rgb_add(rgb_scale(white(), fx_sub(ONE_RAW as int, t)), rgb_scale(sky_blue(), t))
}

/// The blend of the sky lies between zero and one.
pub proof fn lemma_sky_blend_bounds(dir: V3)
    requires
        crate::vec3::v3_in_range(dir),
    ensures
        0 <= sky_blend(dir) <= ONE_RAW as int,
{
    crate::vec3::lemma_unit_components_bounded(dir);
}

/// The colour that arrives along the ray with `depth` bounces left, where
/// `path` holds what the materials on the way made of the ray, one entry
/// for each hit: black without bounces; the sky where nothing is hit;
/// black where the material absorbed the ray; and else the attenuation
/// times the colour that arrives along the scattered ray.
pub open spec fn trace_along<T: Hittable>(
    world: HittableList<T>,
    origin: V3,
    dir: V3,
    depth: int,
    path: Seq<Option<Scattered>>,
) -> Rgb
    decreases depth,
{
    if depth <= 0 {
        black()
    } else {
        match world.hit_model(origin, dir, NEAREST_RAW as int, LIMIT_RAW as int) {
            None => background(dir),
            Some((rec, m)) => if path.len() == 0 {
                black()
            } else {
                match path[0] {
                    None => black(),
                    Some(sc) => rgb_mul(
                        sc.attenuation,
                        trace_along(world, sc.origin, sc.dir, depth - 1, path.drop_first()),
                    ),
                }
            },
        }
    }
}

/// Whether each entry of `path` is something that the material of the
/// surface hit at that step may return.
pub open spec fn path_allowed<T: Hittable>(
    world: HittableList<T>,
    origin: V3,
    dir: V3,
    depth: int,
    path: Seq<Option<Scattered>>,
) -> bool
    decreases depth,
{
    if depth <= 0 {
        true
    } else {
        match world.hit_model(origin, dir, NEAREST_RAW as int, LIMIT_RAW as int) {
            None => true,
            Some((rec, m)) => path.len() > 0 && may_scatter(m, dir, rec, path[0]) && match path[0] {
                None => true,
                Some(sc) => path_allowed(world, sc.origin, sc.dir, depth - 1, path.drop_first()),
            },
        }
    }
}

/// Whether `c` is a colour that tracing the ray may give: the colour along
/// some path that the materials allow.
pub open spec fn may_trace<T: Hittable>(
    world: HittableList<T>,
    origin: V3,
    dir: V3,
    depth: int,
    c: Rgb,
) -> bool {
    exists|path: Seq<Option<Scattered>>|
        path_allowed(world, origin, dir, depth, path) && c == #[trigger] trace_along(
            world,
            origin,
            dir,
            depth,
            path,
        )
}

/// The colour of the sky behind the ray.
pub fn background_color(r: &Ray) -> (c: Color)
    ensures
        c@ == background(r.dir@),
{
    let unit_direction: Vec3 = Vec3::unit_vector(r.direction());
    let half: Scalar = Scalar::from_raw(ONE_RAW / 2);
    let t: Scalar = half.mul(unit_direction.y().add(Scalar::one()));
    let blue: Color = Color::new(half, Scalar::from_raw(SKY_GREEN_RAW), Scalar::one());
    Color::white().scale(Scalar::one().sub(t)).add(blue.scale(t))
}

/// The colour that arrives along the ray, with at most `depth` bounces.
pub fn ray_color<T: Hittable>(r: &Ray, world: &HittableList<T>, depth: i32) -> (c: Color)
    ensures
        may_trace(*world, r.origin@, r.dir@, depth as int, c@),
        depth <= 0 ==> c@ == black(),
        depth > 0 && world.hit_model(r.origin@, r.dir@, NEAREST_RAW as int, LIMIT_RAW as int)
            is None ==> c@ == background(r.dir@),
    decreases depth,
{
    let ghost none: Seq<Option<Scattered>> = Seq::empty();
    if depth <= 0 {
        let c: Color = Color::black();
        assert(c@ == trace_along(*world, r.origin@, r.dir@, depth as int, none));
        return c;
    }
    let found = world.hit(r, Scalar::from_raw(NEAREST_RAW), Scalar::max_value());
    match found {
        Some((rec, m)) => {
            let scattering = m.scatter(r, &rec);
            let ghost s = scatter_view(scattering);
            match scattering {
                Some((attenuation, scattered)) => {
                    let inner: Color = ray_color(&scattered, world, depth - 1);
                    let c: Color = attenuation.mul(inner);
                    proof {
                        let rest = choose|p: Seq<Option<Scattered>>|
                            path_allowed(*world, scattered.origin@, scattered.dir@, depth - 1, p)
                                && inner@ == #[trigger] trace_along(
                                *world,
                                scattered.origin@,
                                scattered.dir@,
                                depth - 1,
                                p,
                            );
                        let path = seq![s].add(rest);
                        assert(path.drop_first() =~= rest);
                        assert(path[0] == s);
                        assert(path_allowed(*world, r.origin@, r.dir@, depth as int, path));
                        assert(c@ == trace_along(*world, r.origin@, r.dir@, depth as int, path));
                    }
                    c
                },
                None => {
                    let c: Color = Color::black();
                    proof {
                        let path = seq![s];
                        assert(path[0] == s);
                        assert(path_allowed(*world, r.origin@, r.dir@, depth as int, path));
                        assert(c@ == trace_along(*world, r.origin@, r.dir@, depth as int, path));
                    }
                    c
                },
            }
        },
        None => {
            let c: Color = background_color(r);
            assert(c@ == trace_along(*world, r.origin@, r.dir@, depth as int, none));
            c
        },
    }
}

/// The fraction of the image's width or height at which the sample lies
/// that is `jitter` of a pixel beyond the pixel `index`:
/// `(index + jitter) / (size - 1)`.
pub open spec fn image_fraction(index: int, jitter: int, size: int) -> int {
    fx_div(
        fx_add(clamp_raw(index * ONE_RAW as int), jitter),
        clamp_raw((size - 1) * ONE_RAW as int),
    )
}

/// The direction of the camera ray through the pixel in column `i` and
/// row `j` of an image of `width` by `height` pixels, moved within the
/// pixel by the two jitters.
pub open spec fn sample_direction(
    cam: Camera,
    i: int,
    j: int,
    width: int,
    height: int,
    jitter_u: int,
    jitter_v: int,
) -> V3 {
    direction_through(
        cam@.lower_left_corner,
        cam@.horizontal,
        cam@.vertical,
        cam@.origin,
        image_fraction(i, jitter_u, width),
        image_fraction(j, jitter_v, height),
    )
}

/// Whether `c` is a colour that one sample of the pixel may give.
pub open spec fn may_sample<T: Hittable>(
    cam: Camera,
    world: HittableList<T>,
    i: int,
    j: int,
    width: int,
    height: int,
    depth: int,
    c: Rgb,
) -> bool {
    exists|jitter_u: int, jitter_v: int|
        0 <= jitter_u < ONE_RAW && 0 <= jitter_v < ONE_RAW && may_trace(
            world,
            cam@.origin,
            #[trigger] sample_direction(cam, i, j, width, height, jitter_u, jitter_v),
            depth,
            c,
        )
}

/// The fraction `(index + jitter) / (size - 1)`.
pub fn image_fraction_of(index: u32, jitter: Scalar, size: u32) -> (f: Scalar)
    ensures
        f@ == image_fraction(index as int, jitter@, size as int),
{
    let at: Scalar = Scalar::from_raw((index as i64) * ONE_RAW);
    let last: Scalar = Scalar::from_raw((size as i64 - 1) * ONE_RAW);
    at.add(jitter).div(last)
}

/// The camera ray through a pixel, moved within the pixel by the jitters.
pub fn primary_ray(
    cam: &Camera,
    i: u32,
    j: u32,
    width: u32,
    height: u32,
    jitter_u: Scalar,
    jitter_v: Scalar,
) -> (r: Ray)
    ensures
        r.origin@ == cam@.origin,
        r.dir@ == sample_direction(
            *cam,
            i as int,
            j as int,
            width as int,
            height as int,
            jitter_u@,
            jitter_v@,
        ),
{
    let u: Scalar = image_fraction_of(i, jitter_u, width);
    let v: Scalar = image_fraction_of(j, jitter_v, height);
    Ray::new(cam.origin(), cam.get_dir(u, v))
}

/// The sum of the colours of `samples_per_pixel` rays through random
/// points of one pixel.
pub fn pixel_color<T: Hittable>(
    cam: &Camera,
    world: &HittableList<T>,
    i: u32,
    j: u32,
    width: u32,
    height: u32,
    samples_per_pixel: u32,
    max_depth: i32,
) -> (c: Color)
    ensures
        exists|samples: Seq<Rgb>|
            {
                &&& samples.len() == samples_per_pixel
                &&& c@ == #[trigger] rgb_sum(samples)
                &&& forall|k: int|
                    0 <= k < samples.len() ==> may_sample(
                        *cam,
                        *world,
                        i as int,
                        j as int,
                        width as int,
                        height as int,
                        max_depth as int,
                        #[trigger] samples[k],
                    )
            },
{
    let mut pixel: Color = Color::black();
    let ghost mut samples: Seq<Rgb> = Seq::empty();
    let mut s: u32 = 0;
    while s < samples_per_pixel
        invariant
            s <= samples_per_pixel,
            samples.len() == s,
            pixel@ == rgb_sum(samples),
            forall|k: int|
                0 <= k < samples.len() ==> may_sample(
                    *cam,
                    *world,
                    i as int,
                    j as int,
                    width as int,
                    height as int,
                    max_depth as int,
                    #[trigger] samples[k],
                ),
        decreases samples_per_pixel - s,
    {
        let jitter_u: Scalar = random_number();
        let jitter_v: Scalar = random_number();
        let r: Ray = primary_ray(cam, i, j, width, height, jitter_u, jitter_v);
        let sample: Color = ray_color(&r, world, max_depth);
        proof {
            let before = samples;
            samples = samples.push(sample@);
            assert(samples.drop_last() =~= before);
            assert(r.dir@ == sample_direction(
                *cam,
                i as int,
                j as int,
                width as int,
                height as int,
                jitter_u@,
                jitter_v@,
            ));
            assert(may_sample(
                *cam,
                *world,
                i as int,
                j as int,
                width as int,
                height as int,
                max_depth as int,
                sample@,
            ));
        }
        pixel.add_assign(sample);
        s += 1;
    }
    pixel
}

} // verus!
