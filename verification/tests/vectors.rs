use pathtracer::fixed::Scalar;
use pathtracer::ray::Ray;
use pathtracer::vec3::Vec3;

fn s(x: f64) -> Scalar {
    Scalar::from_raw((x * 65536.0).round() as i64)
}

fn v(x: f64, y: f64, z: f64) -> Vec3 {
    Vec3::new(s(x), s(y), s(z))
}

fn raw(a: &Vec3) -> (i64, i64, i64) {
    a.raw()
}

#[test]
fn components_are_kept() {
    let a = v(1.0, -2.0, 3.5);
    assert_eq!(a.x().raw(), 65536);
    assert_eq!(a.y().raw(), -131072);
    assert_eq!(a.z().raw(), 229376);
    assert_eq!(raw(&Vec3::zero()), (0, 0, 0));
}

#[test]
fn sums_differences_and_negation() {
    let a = v(1.0, 2.0, 3.0);
    let b = v(0.5, -1.0, 4.0);
    assert_eq!(a.add(&b), v(1.5, 1.0, 7.0));
    assert_eq!(a.sub(&b), v(0.5, 3.0, -1.0));
    assert_eq!(a.neg(), v(-1.0, -2.0, -3.0));
}

#[test]
fn scaling_and_division() {
    let a = v(1.0, -2.0, 3.0);
    assert_eq!(a.scale(s(0.5)), v(0.5, -1.0, 1.5));
    assert_eq!(a.div(s(2.0)), v(0.5, -1.0, 1.5));
    assert_eq!(a.scale(s(0.0)), Vec3::zero());
}

#[test]
fn dot_product() {
    let a = v(1.0, 2.0, 3.0);
    let b = v(4.0, -5.0, 6.0);
    assert_eq!(a.dot(&b).raw(), s(12.0).raw());
    assert_eq!(a.dot_exact(&b), 12 * 65536 * 65536);
    assert_eq!(a.dot(&b), b.dot(&a));
    assert_eq!(a.neg().dot(&b).raw(), -a.dot(&b).raw());
}

#[test]
fn dot_product_rounds_once() {
    let a = Vec3::new(Scalar::from_raw(1), Scalar::from_raw(1), Scalar::from_raw(1));
    let b = Vec3::new(Scalar::from_raw(30000), Scalar::from_raw(30000), Scalar::from_raw(30000));
    assert_eq!(a.dot(&b).raw(), 1);
}

#[test]
fn cross_product() {
    let x = v(1.0, 0.0, 0.0);
    let y = v(0.0, 1.0, 0.0);
    assert_eq!(x.cross(&y), v(0.0, 0.0, 1.0));
    assert_eq!(y.cross(&x), v(0.0, 0.0, -1.0));
    assert_eq!(v(1.0, 2.0, 3.0).cross(&v(4.0, 5.0, 6.0)), v(-3.0, 6.0, -3.0));
}

#[test]
fn length_and_unit_vector() {
    let a = v(3.0, 4.0, 0.0);
    assert_eq!(a.norm().raw(), 5 * 65536);
    assert_eq!(raw(&Vec3::unit_vector(&a)), (39321, 52428, 0));
    assert_eq!(raw(&Vec3::unit_vector(&v(1.0, 1.0, -1.0))), (37837, 37837, -37837));
    assert_eq!(Vec3::unit_vector(&v(0.0, 0.0, -7.0)), v(0.0, 0.0, -1.0));
}

#[test]
fn the_zero_vector_has_no_direction() {
    assert_eq!(Vec3::zero().norm().raw(), 0);
    assert_eq!(Vec3::unit_vector(&Vec3::zero()), Vec3::zero());
}

#[test]
fn unit_vector_components_are_at_most_one() {
    for a in [v(1.0, 1.0, 1.0), v(-5.0, 0.25, 3.0), v(0.001, 0.0, 0.0), v(16000.0, -16000.0, 1.0)] {
        let u = raw(&Vec3::unit_vector(&a));
        assert!(u.0.abs() <= 65536 && u.1.abs() <= 65536 && u.2.abs() <= 65536);
    }
}

#[test]
fn near_zero_is_below_four_parts() {
    assert!(Vec3::zero().near_zero());
    assert!(Vec3::new(Scalar::from_raw(3), Scalar::from_raw(-3), Scalar::from_raw(0)).near_zero());
    assert!(!Vec3::new(Scalar::from_raw(4), Scalar::from_raw(0), Scalar::from_raw(0)).near_zero());
    assert!(!Vec3::new(Scalar::from_raw(0), Scalar::from_raw(0), Scalar::from_raw(-4)).near_zero());
}

#[test]
fn reflection_mirrors_at_the_normal() {
    let n = v(0.0, 1.0, 0.0);
    assert_eq!(Vec3::reflect(&v(1.0, -1.0, 0.0), &n), v(1.0, 1.0, 0.0));
    assert_eq!(Vec3::reflect(&v(0.0, -1.0, 0.0), &n), v(0.0, 1.0, 0.0));
    assert_eq!(Vec3::reflect(&v(1.0, 0.0, 0.0), &n), v(1.0, 0.0, 0.0));
}

#[test]
fn refraction_head_on_goes_straight() {
    let n = v(0.0, 0.0, 1.0);
    let d = v(0.0, 0.0, -1.0);
    assert_eq!(Vec3::refract(&d, &n, s(1.0)), d);
    assert_eq!(Vec3::refract(&d, &n, Scalar::one().div(s(1.5))), d);
}

#[test]
fn refraction_bends_toward_the_normal() {
    let n = v(0.0, 1.0, 0.0);
    let u = Vec3::unit_vector(&v(1.0, -1.0, 0.0));
    assert_eq!(raw(&u), (46341, -46341, 0));
    let ratio = Scalar::one().div(s(1.5));
    assert_eq!(ratio.raw(), 43690);
    assert_eq!(raw(&Vec3::refract(&u, &n, ratio)), (30893, -57798, 0));
}

#[test]
fn random_points_lie_inside_the_unit_sphere() {
    for _ in 0..500 {
        let p = Vec3::random_in_unit_sphere();
        assert!(p.dot(&p).raw() < 65536);
    }
}

#[test]
fn random_directions_have_length_one() {
    let mut seen_different = false;
    let first = Vec3::random_unit_vector();
    for _ in 0..500 {
        let u = Vec3::random_unit_vector();
        let n = u.norm().raw();
        assert!(n == 0 || (65536 - 8 <= n && n <= 65536 + 8));
        if u != first {
            seen_different = true;
        }
    }
    assert!(seen_different);
}

#[test]
fn ray_keeps_origin_and_direction() {
    let r = Ray::new(v(1.0, 2.0, 3.0), v(0.0, 0.0, -1.0));
    assert_eq!(*r.origin(), v(1.0, 2.0, 3.0));
    assert_eq!(*r.direction(), v(0.0, 0.0, -1.0));
}

#[test]
fn ray_at_walks_along_the_direction() {
    let r = Ray::new(v(1.0, 2.0, 3.0), v(0.5, 0.0, -1.0));
    assert_eq!(r.at(s(0.0)), v(1.0, 2.0, 3.0));
    assert_eq!(r.at(s(2.0)), v(2.0, 2.0, 1.0));
    assert_eq!(r.at(s(-1.0)), v(0.5, 2.0, 4.0));
}
