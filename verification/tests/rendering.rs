use pathtracer::camera::Camera;
use pathtracer::color::Color;
use pathtracer::fixed::{Scalar, LIMIT_RAW};
use pathtracer::hittable::Hittable;
use pathtracer::hittable_list::HittableList;
use pathtracer::material::{Dielectric, Lambertian, MaterialType, Metal};
use pathtracer::ray::Ray;
use pathtracer::render::{background_color, image_fraction_of, pixel_color, primary_ray, ray_color};
use pathtracer::sphere::Sphere;
use pathtracer::vec3::Vec3;
use std::rc::Rc;

fn s(x: f64) -> Scalar {
    Scalar::from_raw((x * 65536.0).round() as i64)
}

fn v(x: f64, y: f64, z: f64) -> Vec3 {
    Vec3::new(s(x), s(y), s(z))
}

fn raw(col: &Color) -> (i64, i64, i64) {
    (col.r().raw(), col.g().raw(), col.b().raw())
}

fn matte(r: f64, g: f64, b: f64) -> Rc<MaterialType> {
    Rc::new(MaterialType::Lambertian(Lambertian::new(Color::new(s(r), s(g), s(b)))))
}

fn two_spheres() -> HittableList<Sphere> {
    let mut world: HittableList<Sphere> = HittableList::new();
    world.add(Rc::new(Sphere::new(v(0.0, 0.0, -3.0), s(1.0), matte(0.5, 0.5, 0.5)).unwrap()));
    world.add(Rc::new(Sphere::new(v(0.0, -101.0, -3.0), s(100.0), matte(0.5, 0.5, 0.5)).unwrap()));
    world
}

#[test]
fn camera_needs_a_positive_aspect_ratio() {
    assert!(Camera::new(s(1.0), s(0.0)).is_none());
    assert!(Camera::new(s(1.0), s(-2.0)).is_none());
    assert!(Camera::new(s(1.0), s(2.0)).is_some());
}

#[test]
fn camera_viewport_follows_from_height_and_aspect_ratio() {
    let cam = Camera::new(s(1.0), s(2.0)).unwrap();
    assert_eq!(cam.aspect_ratio(), s(2.0));
    assert_eq!(cam.viewport_height(), s(2.0));
    assert_eq!(cam.viewport_width(), s(4.0));
    assert_eq!(cam.focal_length(), s(1.0));
    assert_eq!(cam.origin(), Vec3::zero());
    let wide = Camera::new(s(1.0), s(16.0 / 9.0)).unwrap();
    assert_eq!(wide.viewport_width().raw(), 233016);
    let narrow = Camera::new(s(0.5), s(1.0)).unwrap();
    assert_eq!(narrow.viewport_height(), s(1.0));
    assert_eq!(narrow.viewport_width(), s(1.0));
}

#[test]
fn camera_directions_span_the_viewport() {
    let cam = Camera::new(s(1.0), s(2.0)).unwrap();
    assert_eq!(cam.get_dir(s(0.0), s(0.0)), v(-2.0, -1.0, -1.0));
    assert_eq!(cam.get_dir(s(1.0), s(1.0)), v(2.0, 1.0, -1.0));
    assert_eq!(cam.get_dir(s(0.5), s(0.5)), v(0.0, 0.0, -1.0));
    assert_eq!(cam.get_dir(s(0.25), s(0.75)), v(-1.0, 0.5, -1.0));
    let wide = Camera::new(s(1.0), s(16.0 / 9.0)).unwrap();
    assert_eq!(wide.get_dir(s(0.0), s(0.0)).raw(), (-116508, -65536, -65536));
    assert_eq!(wide.get_dir(s(1.0), s(1.0)).raw(), (116508, 65536, -65536));
}

#[test]
fn image_fractions_run_from_zero_to_one() {
    assert_eq!(image_fraction_of(0, s(0.0), 20).raw(), 0);
    assert_eq!(image_fraction_of(19, s(0.0), 20).raw(), 65536);
    assert_eq!(image_fraction_of(10, s(0.5), 20).raw(), 36217);
    assert_eq!(image_fraction_of(0, s(0.0), 1).raw(), 0);
    assert_eq!(image_fraction_of(5, s(0.0), 1).raw(), LIMIT_RAW);
}

#[test]
fn primary_ray_starts_at_the_camera() {
    let cam = Camera::new(s(1.0), s(2.0)).unwrap();
    let r = primary_ray(&cam, 0, 10, 21, 11, s(0.0), s(0.0));
    assert_eq!(*r.origin(), Vec3::zero());
    assert_eq!(*r.direction(), v(-2.0, 1.0, -1.0));
    let middle = primary_ray(&cam, 10, 5, 21, 11, s(0.0), s(0.0));
    assert_eq!(*middle.direction(), v(0.0, 0.0, -1.0));
}

#[test]
fn background_blends_white_and_blue() {
    let from = Vec3::zero();
    assert_eq!(raw(&background_color(&Ray::new(from, v(0.0, 1.0, 0.0)))), (32768, 45875, 65536));
    assert_eq!(raw(&background_color(&Ray::new(from, v(0.0, -1.0, 0.0)))), (65536, 65536, 65536));
    assert_eq!(raw(&background_color(&Ray::new(from, v(1.0, 0.0, 0.0)))), (49152, 55705, 65536));
    assert_eq!(raw(&background_color(&Ray::new(from, v(1.0, 1.0, -1.0)))), (39693, 50030, 65536));
    assert_eq!(raw(&background_color(&Ray::new(from, v(0.0, 9.0, 0.0)))), (32768, 45875, 65536));
}

#[test]
fn no_bounces_left_gives_black() {
    let world = two_spheres();
    let empty: HittableList<Sphere> = HittableList::new();
    for d in [v(0.0, 0.0, -1.0), v(0.0, 1.0, 0.0), v(0.3, -0.2, -1.0), Vec3::zero()] {
        let r = Ray::new(Vec3::zero(), d);
        assert_eq!(ray_color(&r, &world, 0), Color::black());
        assert_eq!(ray_color(&r, &world, -3), Color::black());
        assert_eq!(ray_color(&r, &empty, 0), Color::black());
    }
}

#[test]
fn a_ray_that_hits_nothing_sees_the_sky() {
    let world = two_spheres();
    let empty: HittableList<Sphere> = HittableList::new();
    for d in [v(0.0, 1.0, 0.0), v(1.0, 1.0, -1.0), v(-2.0, 1.0, -1.0)] {
        let r = Ray::new(Vec3::zero(), d);
        assert!(world.hit(&r, Scalar::from_raw(65), Scalar::max_value()).is_none());
        assert_eq!(ray_color(&r, &world, 10), background_color(&r));
        assert_eq!(ray_color(&r, &world, 1), background_color(&r));
        assert_eq!(ray_color(&r, &empty, 5), background_color(&r));
    }
}

#[test]
fn the_last_bounce_gathers_no_light() {
    let world = two_spheres();
    let r = Ray::new(Vec3::zero(), v(0.0, 0.0, -1.0));
    for _ in 0..50 {
        assert_eq!(ray_color(&r, &world, 1), Color::black());
    }
}

#[test]
fn a_mirror_shows_the_sky_times_its_albedo() {
    let mut world: HittableList<Sphere> = HittableList::new();
    let mirror = Rc::new(MaterialType::Metal(Metal::new(Color::new(s(0.8), s(0.6), s(0.2)), s(0.0))));
    world.add(Rc::new(Sphere::new(Vec3::zero(), s(1.0), mirror).unwrap()));
    let r = Ray::new(v(0.0, 0.0, 5.0), v(0.0, 0.0, -1.0));
    assert_eq!(raw(&ray_color(&r, &world, 2)), (39321, 33423, 13107));
    assert_eq!(raw(&ray_color(&r, &world, 50)), (39321, 33423, 13107));
    assert_eq!(ray_color(&r, &world, 1), Color::black());
}

#[test]
fn a_matte_sphere_darkens_what_it_scatters() {
    let mut world: HittableList<Sphere> = HittableList::new();
    world.add(Rc::new(Sphere::new(v(0.0, 0.0, -3.0), s(1.0), matte(0.5, 0.25, 0.125)).unwrap()));
    let r = Ray::new(Vec3::zero(), v(0.0, 0.0, -1.0));
    for _ in 0..200 {
        let col = raw(&ray_color(&r, &world, 2));
        assert!(0 <= col.0 && col.0 <= 32768);
        assert!(0 <= col.1 && col.1 <= 16384);
        assert!(0 <= col.2 && col.2 <= 8192);
    }
}

#[test]
fn glass_passes_light_on() {
    let mut world: HittableList<Sphere> = HittableList::new();
    let glass = Rc::new(MaterialType::Dielectric(Dielectric::new(s(1.5))));
    world.add(Rc::new(Sphere::new(v(0.0, 0.0, -3.0), s(1.0), glass).unwrap()));
    let r = Ray::new(Vec3::zero(), v(0.0, 0.0, -1.0));
    for _ in 0..50 {
        let col = raw(&ray_color(&r, &world, 50));
        assert!(col.0 <= 65536 && col.1 <= 65536 && col.2 <= 65536);
        assert_eq!(col.2, 65536);
    }
}

#[test]
fn pixel_without_samples_is_black() {
    let cam = Camera::new(s(1.0), s(2.0)).unwrap();
    assert_eq!(pixel_color(&cam, &two_spheres(), 3, 4, 20, 11, 0, 10), Color::black());
}

#[test]
fn two_spheres_render_end_to_end() {
    let width: u32 = 20;
    let height: u32 = 11;
    let samples: u32 = 4;
    let depth: i32 = 10;
    let world = two_spheres();
    let cam = Camera::new(s(1.0), Scalar::from_ratio(20, 11)).unwrap();
    let mut dark_pixels = 0;
    for j in 0..height {
        for i in 0..width {
            let sum = pixel_color(&cam, &world, i, j, width, height, samples, depth);
            let col = raw(&sum);
            assert!(col.0 >= 0 && col.1 >= 0 && col.2 >= 0);
            assert!(col.0 <= 4 * 65536 && col.1 <= 4 * 65536 && col.2 <= 4 * 65536);
            let bytes = sum.write_color(samples);
            if bytes.2 < 255 {
                dark_pixels += 1;
            }
        }
    }
    assert!(dark_pixels > 0);
    for (i, j) in [(0u32, height - 1), (width - 1, height - 1)] {
        for (ju, jv) in [(0.0, 0.0), (0.5, 0.25), (0.999, 0.999)] {
            let r = primary_ray(&cam, i, j, width, height, s(ju), s(jv));
            assert!(world.hit(&r, Scalar::from_raw(65), Scalar::max_value()).is_none());
            assert_eq!(ray_color(&r, &world, depth), background_color(&r));
        }
        let sum = pixel_color(&cam, &world, i, j, width, height, samples, depth);
        assert_eq!(sum.b().raw(), 4 * 65536);
        assert!(4 * 32768 <= sum.r().raw() && sum.r().raw() <= 4 * 65536);
        assert!(4 * 45875 <= sum.g().raw() && sum.g().raw() <= 4 * 65536);
    }
}
