use pathtracer::color::Color;
use pathtracer::fixed::Scalar;
use pathtracer::hittable::HitRecord;
use pathtracer::material::{fifth_power, Dielectric, Lambertian, LightReflection, MaterialType, Metal};
use pathtracer::ray::Ray;
use pathtracer::vec3::Vec3;

fn s(x: f64) -> Scalar {
    Scalar::from_raw((x * 65536.0).round() as i64)
}

fn v(x: f64, y: f64, z: f64) -> Vec3 {
    Vec3::new(s(x), s(y), s(z))
}

fn floor_hit(front_face: bool) -> HitRecord {
    HitRecord { p: v(1.0, 0.0, 2.0), normal: v(0.0, 1.0, 0.0), t: s(3.0), front_face }
}

fn slanted() -> Ray {
    Ray::new(v(0.0, 1.0, 2.0), v(1.0, -1.0, 0.0))
}

#[test]
fn lambertian_always_scatters() {
    let m = Lambertian::new(Color::new(s(0.5), s(0.5), s(0.5)));
    for _ in 0..500 {
        let (attenuation, ray) = m.scatter(&slanted(), &floor_hit(true)).unwrap();
        assert_eq!(attenuation, Color::new(s(0.5), s(0.5), s(0.5)));
        assert_eq!(*ray.origin(), v(1.0, 0.0, 2.0));
        assert!(!ray.direction().near_zero());
    }
}

#[test]
fn lambertian_adds_the_random_direction_to_the_normal() {
    let m = Lambertian::new(Color::new(s(0.1), s(0.2), s(0.3)));
    let (attenuation, ray) = m.scatter_toward(&floor_hit(true), &v(1.0, 0.0, 0.0)).unwrap();
    assert_eq!(attenuation, Color::new(s(0.1), s(0.2), s(0.3)));
    assert_eq!(*ray.origin(), v(1.0, 0.0, 2.0));
    assert_eq!(*ray.direction(), v(1.0, 1.0, 0.0));
}

#[test]
fn lambertian_takes_the_normal_where_the_sum_cancels() {
    let m = Lambertian::new(Color::new(s(0.1), s(0.2), s(0.3)));
    let (_, ray) = m.scatter_toward(&floor_hit(true), &v(0.0, -1.0, 0.0)).unwrap();
    assert_eq!(*ray.direction(), v(0.0, 1.0, 0.0));
    let almost = Vec3::new(Scalar::from_raw(3), Scalar::from_raw(-65536 + 2), Scalar::from_raw(-3));
    let (_, ray) = m.scatter_toward(&floor_hit(true), &almost).unwrap();
    assert_eq!(*ray.direction(), v(0.0, 1.0, 0.0));
    let not_quite = Vec3::new(Scalar::from_raw(4), Scalar::from_raw(-65536), Scalar::from_raw(0));
    let (_, ray) = m.scatter_toward(&floor_hit(true), &not_quite).unwrap();
    assert_eq!(ray.direction().raw(), (4, 0, 0));
}

#[test]
fn metal_fuzz_is_kept_between_zero_and_one() {
    let c = Color::new(s(0.8), s(0.8), s(0.8));
    assert_eq!(Metal::new(c, s(0.3)).fuzz, s(0.3));
    assert_eq!(Metal::new(c, s(1.0)).fuzz, s(1.0));
    assert_eq!(Metal::new(c, s(7.0)).fuzz, s(1.0));
    assert_eq!(Metal::new(c, s(-0.5)).fuzz, s(0.0));
    assert_eq!(Metal::new(c, s(0.3)).albedo, c);
}

#[test]
fn polished_metal_mirrors_the_ray() {
    let m = Metal::new(Color::new(s(0.8), s(0.6), s(0.2)), s(0.0));
    let (attenuation, ray) = m.scatter_fuzzed(&slanted(), &floor_hit(true), &v(0.3, -0.9, 0.1)).unwrap();
    assert_eq!(attenuation, Color::new(s(0.8), s(0.6), s(0.2)));
    assert_eq!(*ray.origin(), v(1.0, 0.0, 2.0));
    assert_eq!(ray.direction().raw(), (46341, 46341, 0));
}

#[test]
fn rough_metal_moves_the_mirror_image() {
    let m = Metal::new(Color::new(s(0.8), s(0.6), s(0.2)), s(0.5));
    let (_, ray) = m.scatter_fuzzed(&slanted(), &floor_hit(true), &v(0.5, 0.0, 0.0)).unwrap();
    assert_eq!(ray.direction().raw(), (62725, 46341, 0));
}

#[test]
fn metal_absorbs_a_ray_that_would_enter_the_surface() {
    let m = Metal::new(Color::new(s(0.8), s(0.6), s(0.2)), s(1.0));
    assert!(m.scatter_fuzzed(&slanted(), &floor_hit(true), &v(0.0, -0.9, 0.0)).is_none());
    let grazing = Ray::new(v(0.0, 1.0, 2.0), v(1.0, -0.01, 0.0));
    assert!(m.scatter_fuzzed(&grazing, &floor_hit(true), &v(0.0, -0.9, 0.0)).is_none());
    assert!(m.scatter_fuzzed(&grazing, &floor_hit(true), &v(0.0, 0.9, 0.0)).is_some());
}

#[test]
fn metal_absorbs_where_the_direction_lies_in_the_surface() {
    let m = Metal::new(Color::new(s(0.8), s(0.6), s(0.2)), s(0.0));
    let along = Ray::new(v(0.0, 0.0, 2.0), v(1.0, 0.0, 0.0));
    assert!(m.scatter_fuzzed(&along, &floor_hit(true), &Vec3::zero()).is_none());
}

#[test]
fn metal_scatter_is_either_absorbed_or_leaves_the_surface() {
    let m = Metal::new(Color::new(s(0.8), s(0.6), s(0.2)), s(1.0));
    let grazing = Ray::new(v(0.0, 1.0, 2.0), v(1.0, -0.05, 0.0));
    let rec = floor_hit(true);
    let mut absorbed = 0;
    let mut scattered = 0;
    for _ in 0..2000 {
        match m.scatter(&grazing, &rec) {
            Some((_, ray)) => {
                scattered += 1;
                assert!(ray.direction().dot(&rec.normal).raw() > 0);
            }
            None => absorbed += 1,
        }
    }
    assert!(absorbed > 0);
    assert!(scattered > 0);
}

#[test]
fn fifth_power_is_exact_up_to_one_rounding() {
    assert_eq!(fifth_power(s(0.5)).raw(), 2048);
    assert_eq!(fifth_power(s(2.0)).raw(), 32 * 65536);
    assert_eq!(fifth_power(s(-2.0)).raw(), -32 * 65536);
    assert_eq!(fifth_power(s(3.0)).raw(), 243 * 65536);
    assert_eq!(fifth_power(s(1.0)).raw(), 65536);
    assert_eq!(fifth_power(s(0.0)).raw(), 0);
}

#[test]
fn fifth_power_saturates() {
    assert_eq!(fifth_power(s(600.0)), Scalar::max_value());
    assert_eq!(fifth_power(s(-600.0)), Scalar::max_value().neg());
    assert_eq!(fifth_power(s(512.0)), Scalar::max_value());
    assert_eq!(fifth_power(s(100.0)), Scalar::max_value());
    assert_eq!(fifth_power(Scalar::max_value()), Scalar::max_value());
    assert_eq!(fifth_power(Scalar::max_value().neg()), Scalar::max_value().neg());
}

#[test]
fn reflectance_follows_schlick() {
    assert_eq!(Dielectric::reflectance(s(1.0), s(1.5)).raw(), 2621);
    assert_eq!(Dielectric::reflectance(s(0.0), s(1.5)).raw(), 65536);
    assert_eq!(Dielectric::reflectance(s(0.5), s(1.5)).raw(), 4587);
    assert_eq!(Dielectric::reflectance(s(0.5), s(1.0)).raw(), 2048);
    assert_eq!(Dielectric::reflectance(s(1.0), s(1.0)).raw(), 0);
}

#[test]
fn glass_refracts_or_reflects_by_chance() {
    let d = Dielectric::new(s(1.5));
    let (attenuation, ray) = d.scatter_by_chance(&slanted(), &floor_hit(true), s(0.5)).unwrap();
    assert_eq!(attenuation, Color::white());
    assert_eq!(*ray.origin(), v(1.0, 0.0, 2.0));
    assert_eq!(ray.direction().raw(), (30893, -57798, 0));
    let (_, ray) = d.scatter_by_chance(&slanted(), &floor_hit(true), s(0.0)).unwrap();
    assert_eq!(ray.direction().raw(), (46341, 46341, 0));
}

#[test]
fn glass_reflects_totally_from_inside() {
    let d = Dielectric::new(s(1.5));
    let (_, ray) = d.scatter_by_chance(&slanted(), &floor_hit(false), Scalar::from_raw(65535)).unwrap();
    assert_eq!(ray.direction().raw(), (46341, 46341, 0));
}

#[test]
fn glass_always_scatters_white() {
    let d = Dielectric::new(s(1.5));
    for front in [true, false] {
        for _ in 0..200 {
            let (attenuation, ray) = d.scatter(&slanted(), &floor_hit(front)).unwrap();
            assert_eq!(attenuation, Color::white());
            assert_eq!(*ray.origin(), v(1.0, 0.0, 2.0));
        }
    }
}

#[test]
fn index_one_lets_a_head_on_ray_pass_straight() {
    let d = Dielectric::new(s(1.0));
    let down = Ray::new(v(1.0, 3.0, 2.0), v(0.0, -2.0, 0.0));
    for front in [true, false] {
        for chance in [0, 1, 32768, 65535] {
            let (_, ray) = d.scatter_by_chance(&down, &floor_hit(front), Scalar::from_raw(chance)).unwrap();
            assert_eq!(*ray.direction(), v(0.0, -1.0, 0.0));
        }
    }
}

// The part of the refracted direction along the normal is the square root
// of `1 - |perp|^2`, which is known to a few units of rounding. A square
// root magnifies an error in its argument by `1 / (2 cos)`; for the rays
// below the cosine is at least a quarter, so the direction may differ from
// the incoming one by some eight units, and by no more.
#[test]
fn index_one_bends_a_refracted_ray_by_no_more_than_rounding() {
    let d = Dielectric::new(s(1.0));
    let mut largest = 0;
    for front in [true, false] {
        for k in 1..39 {
            let incoming = Ray::new(v(0.0, 1.0, 2.0), v(k as f64 / 10.0, -1.0, 0.3));
            let unit = Vec3::unit_vector(incoming.direction());
            assert!(unit.neg().dot(&v(0.0, 1.0, 0.0)).raw() >= 65536 / 4);
            let (_, ray) = d.scatter_by_chance(&incoming, &floor_hit(front), Scalar::from_raw(65535)).unwrap();
            let bent = ray.direction().sub(&unit).raw();
            assert!(bent.0.abs() <= 8 && bent.1.abs() <= 8 && bent.2.abs() <= 8);
            largest = largest.max(bent.0.abs()).max(bent.1.abs()).max(bent.2.abs());
        }
    }
    assert_eq!(largest, 4);
}

#[test]
fn index_one_still_reflects_a_grazing_ray_on_a_small_draw() {
    let d = Dielectric::new(s(1.0));
    let grazing = Ray::new(v(0.0, 1.0, 2.0), v(1.0, -0.05, 0.0));
    let (_, ray) = d.scatter_by_chance(&grazing, &floor_hit(true), s(0.5)).unwrap();
    assert_eq!(ray.direction().raw(), (65455, 3272, 0));
}

#[test]
fn material_type_dispatches_to_its_variant() {
    let rec = floor_hit(true);
    let matte = MaterialType::Lambertian(Lambertian::new(Color::new(s(0.5), s(0.25), s(0.125))));
    let (attenuation, _) = matte.scatter(&slanted(), &rec).unwrap();
    assert_eq!(attenuation, Color::new(s(0.5), s(0.25), s(0.125)));
    let mirror = MaterialType::Metal(Metal::new(Color::new(s(0.8), s(0.6), s(0.2)), s(0.0)));
    let (attenuation, ray) = mirror.scatter(&slanted(), &rec).unwrap();
    assert_eq!(attenuation, Color::new(s(0.8), s(0.6), s(0.2)));
    assert_eq!(ray.direction().raw(), (46341, 46341, 0));
    let glass = MaterialType::Dielectric(Dielectric::new(s(1.5)));
    let (attenuation, _) = glass.scatter(&slanted(), &rec).unwrap();
    assert_eq!(attenuation, Color::white());
}
