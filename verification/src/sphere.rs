//! Spheres and their intersection with rays.
//!
//! The quadratic for the ray parameter is solved on the raw components
//! without rounding: whether a ray meets a sphere is decided exactly, and
//! only the parameter of the hit is rounded.
use crate::fixed::{
    int_sqrt, isqrt, lemma_int_sqrt_bound, lemma_int_sqrt_exists, lemma_product_bound, trunc_div,
    Scalar, LIMIT_RAW, ONE_RAW,
};
use crate::hittable::{faces_front, facing_normal, HitModel, HitRecord, Hittable, SurfaceHit};
use crate::material::MaterialType;
use crate::ray::{ray_at, Ray};
use crate::vec3::{v3_div, v3_dot_exact, v3_sub, Vec3, V3};
use std::rc::Rc;
use vstd::prelude::*;

verus! {

/// The exact difference of two points, without saturation.
pub open spec fn offset(a: V3, b: V3) -> V3 {
    V3 { x: a.x - b.x, y: a.y - b.y, z: a.z - b.z }
}

/// The discriminant of the quadratic, divided by four:
/// `(d . oc)^2 - |d|^2 (|oc|^2 - r^2)`, on raw values.
pub open spec fn discriminant(center: V3, radius: int, origin: V3, dir: V3) -> int {
    let oc = offset(origin, center);
    let a = v3_dot_exact(dir, dir);
    let half_b = v3_dot_exact(dir, oc);
    let c = v3_dot_exact(oc, oc) - radius * radius;
    half_b * half_b - a * c
}

/// The nearer root of the quadratic, as a raw ray parameter rounded toward
/// zero.
pub open spec fn near_root(center: V3, radius: int, origin: V3, dir: V3) -> int {
    let half_b = v3_dot_exact(dir, offset(origin, center));
    trunc_div(
        (-half_b - int_sqrt(discriminant(center, radius, origin, dir))) * ONE_RAW as int,
        v3_dot_exact(dir, dir),
    )
}

/// The farther root of the quadratic.
pub open spec fn far_root(center: V3, radius: int, origin: V3, dir: V3) -> int {
    let half_b = v3_dot_exact(dir, offset(origin, center));
    trunc_div(
        (-half_b + int_sqrt(discriminant(center, radius, origin, dir))) * ONE_RAW as int,
        v3_dot_exact(dir, dir),
    )
}

/// The record of a hit at the parameter `t`.
pub open spec fn record_at(center: V3, radius: int, origin: V3, dir: V3, t: int) -> HitModel {
    let p = ray_at(origin, dir, t);
    let outward = v3_div(v3_sub(p, center), radius);
    HitModel {
        p,
        normal: facing_normal(dir, outward),
        t,
        front_face: faces_front(dir, outward),
    }
}

/// The parameter at which the ray meets the sphere within `(t_min, t_max]`:
/// the nearer root where it lies in the interval, else the farther one.
/// A ray without direction, and one that misses, meets nothing.
pub open spec fn sphere_root(
    center: V3,
    radius: int,
    origin: V3,
    dir: V3,
    t_min: int,
    t_max: int,
) -> Option<int> {
    if v3_dot_exact(dir, dir) == 0 || discriminant(center, radius, origin, dir) < 0 {
        None
    } else {
        let near = near_root(center, radius, origin, dir);
        let far = far_root(center, radius, origin, dir);
        if t_min < near <= t_max {
            Some(near)
        } else if t_min < far <= t_max {
            Some(far)
        } else {
            None
        }
    }
}

/// The hit of a ray on a sphere.
pub open spec fn sphere_hit(
    center: V3,
    radius: int,
    origin: V3,
    dir: V3,
    t_min: int,
    t_max: int,
) -> Option<HitModel> {
    match sphere_root(center, radius, origin, dir, t_min, t_max) {
        Some(t) => Some(record_at(center, radius, origin, dir, t)),
        None => None,
    }
}

/// The squared length of the cross product of `a` and `b`, on raw values:
/// `|a|^2 |b|^2 - (a . b)^2`.
pub open spec fn cross_norm_squared(a: V3, b: V3) -> int {
    v3_dot_exact(a, a) * v3_dot_exact(b, b) - v3_dot_exact(a, b) * v3_dot_exact(a, b)
}

/// Whether the line of the ray passes the centre at more than the radius:
/// the distance is `|oc x d| / |d|`, so the line misses where
/// `|oc x d|^2 > r^2 |d|^2`.
pub open spec fn line_misses(center: V3, radius: int, origin: V3, dir: V3) -> bool {
    cross_norm_squared(dir, offset(origin, center)) > radius * radius * v3_dot_exact(dir, dir)
}

/// Truncating division by a positive number is monotone in the dividend.
pub proof fn lemma_trunc_div_monotone(a: int, b: int, d: int)
    requires
        a <= b,
        d > 0,
    ensures
        trunc_div(a, d) <= trunc_div(b, d),
{
    if a >= 0 {
        vstd::arithmetic::div_mod::lemma_div_is_ordered(a, b, d);
    } else if b < 0 {
        vstd::arithmetic::div_mod::lemma_div_is_ordered(-b, -a, d);
    } else {
        vstd::arithmetic::div_mod::lemma_div_pos_is_pos(-a, d);
        vstd::arithmetic::div_mod::lemma_div_pos_is_pos(b, d);
    }
}

/// The nearer root is not beyond the farther one.
pub proof fn lemma_roots_ordered(center: V3, radius: int, origin: V3, dir: V3)
    requires
        v3_dot_exact(dir, dir) > 0,
        discriminant(center, radius, origin, dir) >= 0,
    ensures
        near_root(center, radius, origin, dir) <= far_root(center, radius, origin, dir),
{
    let disc = discriminant(center, radius, origin, dir);
    lemma_int_sqrt_exists(disc);
    let s = int_sqrt(disc);
    let half_b = v3_dot_exact(dir, offset(origin, center));
    lemma_trunc_div_monotone(
        (-half_b - s) * ONE_RAW as int,
        (-half_b + s) * ONE_RAW as int,
        v3_dot_exact(dir, dir),
    );
}

/// A ray whose line passes the centre at more than the radius hits nothing,
/// whatever the interval.
pub proof fn lemma_miss_is_no_hit(
    center: V3,
    radius: int,
    origin: V3,
    dir: V3,
    t_min: int,
    t_max: int,
)
    requires
        line_misses(center, radius, origin, dir),
    ensures
        sphere_hit(center, radius, origin, dir, t_min, t_max) is None,
{
    let oc = offset(origin, center);
    let a = v3_dot_exact(dir, dir);
    let half_b = v3_dot_exact(dir, oc);
    let q = v3_dot_exact(oc, oc);
    let rr = radius * radius;
    assert(half_b * half_b - a * (q - rr) == half_b * half_b - a * q + rr * a)
        by (nonlinear_arith);
}

/// The exact cross product of two vectors, on raw values.
pub open spec fn cross_exact(a: V3, b: V3) -> V3 {
    V3 { x: a.y * b.z - a.z * b.y, y: a.z * b.x - a.x * b.z, z: a.x * b.y - a.y * b.x }
}

/// Lagrange's identity: `|a|^2 |b|^2 - (a . b)^2` is the squared length of
/// the cross product.
pub proof fn lemma_cross_norm_squared(a: V3, b: V3)
    ensures
        cross_norm_squared(a, b) == v3_dot_exact(cross_exact(a, b), cross_exact(a, b)),
        cross_norm_squared(a, b) >= 0,
{
    let c = cross_exact(a, b);
    assert((a.x * a.x) * (b.x * b.x) == (a.x * b.x) * (a.x * b.x)) by (nonlinear_arith);
    assert((a.x * a.x) * (b.y * b.y) == (a.x * b.y) * (a.x * b.y)) by (nonlinear_arith);
    assert((a.x * a.x) * (b.z * b.z) == (a.x * b.z) * (a.x * b.z)) by (nonlinear_arith);
    assert((a.y * a.y) * (b.x * b.x) == (a.y * b.x) * (a.y * b.x)) by (nonlinear_arith);
    assert((a.y * a.y) * (b.y * b.y) == (a.y * b.y) * (a.y * b.y)) by (nonlinear_arith);
    assert((a.y * a.y) * (b.z * b.z) == (a.y * b.z) * (a.y * b.z)) by (nonlinear_arith);
    assert((a.z * a.z) * (b.x * b.x) == (a.z * b.x) * (a.z * b.x)) by (nonlinear_arith);
    assert((a.z * a.z) * (b.y * b.y) == (a.z * b.y) * (a.z * b.y)) by (nonlinear_arith);
    assert((a.z * a.z) * (b.z * b.z) == (a.z * b.z) * (a.z * b.z)) by (nonlinear_arith);
    assert((a.x * b.x) * (a.y * b.y) == (a.x * b.y) * (a.y * b.x)) by (nonlinear_arith);
    assert((a.x * b.x) * (a.z * b.z) == (a.x * b.z) * (a.z * b.x)) by (nonlinear_arith);
    assert((a.y * b.y) * (a.z * b.z) == (a.y * b.z) * (a.z * b.y)) by (nonlinear_arith);
    let (a1, a2, a3) = (a.x * a.x, a.y * a.y, a.z * a.z);
    let (b1, b2, b3) = (b.x * b.x, b.y * b.y, b.z * b.z);
    let (p11, p12, p13) = (a.x * b.x, a.x * b.y, a.x * b.z);
    let (p21, p22, p23) = (a.y * b.x, a.y * b.y, a.y * b.z);
    let (p31, p32, p33) = (a.z * b.x, a.z * b.y, a.z * b.z);
    assert((a1 + a2 + a3) * (b1 + b2 + b3) == a1 * b1 + a1 * b2 + a1 * b3 + a2 * b1 + a2 * b2 + a2
        * b3 + a3 * b1 + a3 * b2 + a3 * b3) by (nonlinear_arith);
    assert((p11 + p22 + p33) * (p11 + p22 + p33) == p11 * p11 + p22 * p22 + p33 * p33 + 2 * (p11
        * p22) + 2 * (p11 * p33) + 2 * (p22 * p33)) by (nonlinear_arith);
    assert((p23 - p32) * (p23 - p32) == p23 * p23 + p32 * p32 - 2 * (p23 * p32))
        by (nonlinear_arith);
    assert((p31 - p13) * (p31 - p13) == p31 * p31 + p13 * p13 - 2 * (p13 * p31))
        by (nonlinear_arith);
    assert((p12 - p21) * (p12 - p21) == p12 * p12 + p21 * p21 - 2 * (p12 * p21))
        by (nonlinear_arith);
    crate::vec3::lemma_dot_self_nonnegative(c);
}

/// A ray of unit length that starts outside a sphere, at the distance
/// `dist` from its centre, and points straight at the centre, hits the
/// sphere at the parameter `dist - radius`.
pub proof fn lemma_aimed_at_center(
    center: V3,
    radius: int,
    origin: V3,
    dir: V3,
    dist: int,
    t_min: int,
    t_max: int,
)
    requires
        radius > 0,
        dist > radius,
        v3_dot_exact(dir, dir) == ONE_RAW as int * ONE_RAW as int,
        v3_dot_exact(offset(origin, center), offset(origin, center)) == dist * dist,
        v3_dot_exact(dir, offset(origin, center)) == -(dist * ONE_RAW as int),
        t_min < dist - radius <= t_max,
    ensures
        near_root(center, radius, origin, dir) == dist - radius,
        sphere_root(center, radius, origin, dir, t_min, t_max) == Some(dist - radius),
        sphere_hit(center, radius, origin, dir, t_min, t_max) matches Some(h) && h.t == dist
            - radius,
{
    let one = ONE_RAW as int;
    let a = v3_dot_exact(dir, dir);
    let half_b = v3_dot_exact(dir, offset(origin, center));
    let q = v3_dot_exact(offset(origin, center), offset(origin, center));
    let disc = discriminant(center, radius, origin, dir);
    let s = one * radius;
    assert(disc == s * s) by (nonlinear_arith)
        requires
            disc == half_b * half_b - a * (q - radius * radius),
            a == one * one,
            q == dist * dist,
            half_b == -(dist * one),
            s == one * radius,
    ;
    assert(s >= 0 && (s + 1) * (s + 1) > s * s) by (nonlinear_arith)
        requires
            s == one * radius,
            one == 65536,
            radius > 0,
    ;
    crate::fixed::lemma_int_sqrt_is(disc, s);
    let num = (-half_b - s) * one;
    assert(num == (dist - radius) * a) by (nonlinear_arith)
        requires
            num == (-half_b - s) * one,
            half_b == -(dist * one),
            s == one * radius,
            a == one * one,
    ;
    assert(num >= 0) by (nonlinear_arith)
        requires
            num == (dist - radius) * a,
            dist > radius,
            a == one * one,
    ;
    vstd::arithmetic::div_mod::lemma_div_multiples_vanish(dist - radius, a);
}

/// One component of the outward normal at the point where a ray of unit
/// length, aimed at the centre of a sphere from the distance `dist`, hits
/// it: the component is the reversed component `d` of the direction, up
/// to the rounding of the hit point and of the division by the radius.
pub proof fn lemma_aimed_component(o: int, c: int, d: int, dist: int, r: int)
    requires
        r >= 1,
        dist > r,
        dist - r <= LIMIT_RAW,
        -(ONE_RAW as int) <= d <= ONE_RAW as int,
        (o - c) * ONE_RAW as int == -(dist * d),
        -(LIMIT_RAW as int) <= c - r,
        c + r <= LIMIT_RAW as int,
    ensures
        -(ONE_RAW as int / r) - 1 <= crate::fixed::fx_div(
            crate::fixed::fx_sub(
                crate::fixed::fx_add(o, crate::fixed::fx_mul(d, dist - r)),
                c,
            ),
            r,
        ) + d <= ONE_RAW as int / r + 1,
{
    let one = ONE_RAW as int;
    let oc = o - c;
    let t = dist - r;
    let x = d * r;
    assert(d * t == -(oc * one) - x) by (nonlinear_arith)
        requires
            t == dist - r,
            x == d * r,
            oc * one == -(dist * d),
    ;
    let m = trunc_div(d * t, one);
    crate::fixed::lemma_trunc_div_error(d * t, one);
    lemma_product_bound(d, r, one, r);
    lemma_product_bound(d, t, one, t);
    assert(one * r == r * one && one * t == t * one) by (nonlinear_arith);
    let e = oc + m;
    assert(e * one == oc * one + m * one) by (nonlinear_arith)
        requires
            e == oc + m,
    ;
    assert(-r <= e <= r) by (nonlinear_arith)
        requires
            -x - one < e * one < -x + one,
            -(r * one) <= x <= r * one,
            one == 65536,
    ;
    assert(-t <= m <= t) by (nonlinear_arith)
        requires
            -one < d * t - m * one < one,
            -(t * one) <= d * t <= t * one,
            one == 65536,
    ;
    assert(crate::fixed::fx_mul(d, t) == m);
    assert(o + m == c + e);
    let q = trunc_div(e * one, r);
    crate::fixed::lemma_trunc_div_error(e * one, r);
    let b = one / r + 1;
    vstd::arithmetic::div_mod::lemma_fundamental_div_mod(one, r);
    vstd::arithmetic::div_mod::lemma_mod_bound(one, r);
    let w = one / r;
    assert(w * r == r * w) by (nonlinear_arith);
    assert(w * r > one - r);
    assert((q + d) * r == q * r + x) by (nonlinear_arith)
        requires
            x == d * r,
    ;
    assert(-(one + r) < (q + d) * r < one + r);
    assert(-b <= q + d <= b) by (nonlinear_arith)
        requires
            -(one + r) < (q + d) * r < one + r,
            b == w + 1,
            w * r > one - r,
            w >= 0,
            r >= 1,
    ;
    vstd::arithmetic::div_mod::lemma_div_is_ordered_by_denominator(one, 1, r);
    assert(w <= one);
}

/// A ray of unit length that starts outside a sphere, at the distance
/// `dist` from its centre, and points straight at the centre, hits the
/// sphere from outside, and the normal there is the reversed direction of
/// the ray, up to rounding: each component is off by at most
/// `1 / radius + 1` raw units.
pub proof fn lemma_aimed_normal(
    center: V3,
    radius: int,
    origin: V3,
    dir: V3,
    dist: int,
    t_min: int,
    t_max: int,
)
    requires
        radius >= 4,
        dist > radius,
        v3_dot_exact(dir, dir) == ONE_RAW as int * ONE_RAW as int,
        offset(origin, center).x * ONE_RAW as int == -(dist * dir.x),
        offset(origin, center).y * ONE_RAW as int == -(dist * dir.y),
        offset(origin, center).z * ONE_RAW as int == -(dist * dir.z),
        t_min < dist - radius <= t_max,
        t_max <= LIMIT_RAW,
        crate::vec3::v3_in_range(offset(center, V3 { x: radius, y: radius, z: radius })),
        crate::vec3::v3_in_range(offset(center, V3 { x: -radius, y: -radius, z: -radius })),
    ensures
        sphere_hit(center, radius, origin, dir, t_min, t_max) matches Some(h) && {
            let slack = ONE_RAW as int / radius + 1;
            &&& h.t == dist - radius
            &&& h.front_face
            &&& -slack <= h.normal.x + dir.x <= slack
            &&& -slack <= h.normal.y + dir.y <= slack
            &&& -slack <= h.normal.z + dir.z <= slack
        },
{
    let one = ONE_RAW as int;
    let oc = offset(origin, center);
    assert(dir.x * dir.x >= 0 && dir.y * dir.y >= 0 && dir.z * dir.z >= 0) by (nonlinear_arith);
    assert(one * one == 0x1_0000_0000) by (nonlinear_arith)
        requires
            one == 65536,
    ;
    assert(-one <= dir.x <= one) by (nonlinear_arith)
        requires
            0 <= dir.x * dir.x <= one * one,
            one == 65536,
    ;
    assert(-one <= dir.y <= one) by (nonlinear_arith)
        requires
            0 <= dir.y * dir.y <= one * one,
            one == 65536,
    ;
    assert(-one <= dir.z <= one) by (nonlinear_arith)
        requires
            0 <= dir.z * dir.z <= one * one,
            one == 65536,
    ;
    // The direction is minus the offset, scaled: so the two premises of
    // the hit at `dist - radius` hold.
    let (ax, hx, qx) = (dir.x * dir.x, dir.x * oc.x, oc.x * oc.x);
    assert(hx * one == -(dist * ax)) by (nonlinear_arith)
        requires
            oc.x * one == -(dist * dir.x),
            hx == dir.x * oc.x,
            ax == dir.x * dir.x,
    ;
    assert(qx * one == -(dist * hx)) by (nonlinear_arith)
        requires
            oc.x * one == -(dist * dir.x),
            qx == oc.x * oc.x,
            hx == dir.x * oc.x,
    ;
    let (ay, hy, qy) = (dir.y * dir.y, dir.y * oc.y, oc.y * oc.y);
    assert(hy * one == -(dist * ay)) by (nonlinear_arith)
        requires
            oc.y * one == -(dist * dir.y),
            hy == dir.y * oc.y,
            ay == dir.y * dir.y,
    ;
    assert(qy * one == -(dist * hy)) by (nonlinear_arith)
        requires
            oc.y * one == -(dist * dir.y),
            qy == oc.y * oc.y,
            hy == dir.y * oc.y,
    ;
    let (az, hz, qz) = (dir.z * dir.z, dir.z * oc.z, oc.z * oc.z);
    assert(hz * one == -(dist * az)) by (nonlinear_arith)
        requires
            oc.z * one == -(dist * dir.z),
            hz == dir.z * oc.z,
            az == dir.z * dir.z,
    ;
    assert(qz * one == -(dist * hz)) by (nonlinear_arith)
        requires
            oc.z * one == -(dist * dir.z),
            qz == oc.z * oc.z,
            hz == dir.z * oc.z,
    ;
    let (a, half_b, q) = (ax + ay + az, hx + hy + hz, qx + qy + qz);
    assert(half_b * one == -(dist * a)) by (nonlinear_arith)
        requires
            hx * one == -(dist * ax),
            hy * one == -(dist * ay),
            hz * one == -(dist * az),
            half_b == hx + hy + hz,
            a == ax + ay + az,
    ;
    assert(half_b == -(dist * one)) by (nonlinear_arith)
        requires
            half_b * one == -(dist * a),
            a == one * one,
            one == 65536,
    ;
    assert(q * one == -(dist * half_b)) by (nonlinear_arith)
        requires
            qx * one == -(dist * hx),
            qy * one == -(dist * hy),
            qz * one == -(dist * hz),
            half_b == hx + hy + hz,
            q == qx + qy + qz,
    ;
    assert(q == dist * dist) by (nonlinear_arith)
        requires
            q * one == -(dist * half_b),
            half_b == -(dist * one),
            one == 65536,
    ;
    lemma_aimed_at_center(center, radius, origin, dir, dist, t_min, t_max);
    let t = dist - radius;
    lemma_aimed_component(origin.x, center.x, dir.x, dist, radius);
    lemma_aimed_component(origin.y, center.y, dir.y, dist, radius);
    lemma_aimed_component(origin.z, center.z, dir.z, dist, radius);
    let h = record_at(center, radius, origin, dir, t);
    let p = ray_at(origin, dir, t);
    let outward = v3_div(v3_sub(p, center), radius);
    let slack = one / radius + 1;
    vstd::arithmetic::div_mod::lemma_div_is_ordered_by_denominator(one, 4, radius);
    assert(one / 4 == 16384);
    assert(slack <= 16385);
    let (ex, ey, ez) = (outward.x + dir.x, outward.y + dir.y, outward.z + dir.z);
    lemma_product_bound(dir.x, ex, one, slack);
    lemma_product_bound(dir.y, ey, one, slack);
    lemma_product_bound(dir.z, ez, one, slack);
    assert(dir.x * outward.x == dir.x * ex - dir.x * dir.x) by (nonlinear_arith)
        requires
            ex == outward.x + dir.x,
    ;
    assert(dir.y * outward.y == dir.y * ey - dir.y * dir.y) by (nonlinear_arith)
        requires
            ey == outward.y + dir.y,
    ;
    assert(dir.z * outward.z == dir.z * ez - dir.z * dir.z) by (nonlinear_arith)
        requires
            ez == outward.z + dir.z,
    ;
    assert(one * slack <= 65536 * 16385) by (nonlinear_arith)
        requires
            one == 65536,
            0 <= slack <= 16385,
    ;
    assert(v3_dot_exact(dir, outward) <= -one);
    assert(faces_front(dir, outward));
}

/// A sphere with a material.
#[derive(Debug)]
pub struct Sphere {
    center: Vec3,
    radius: Scalar,
    m: Rc<MaterialType>,
}

impl Sphere {
    #[verifier::type_invariant]
    spec fn inv(self) -> bool {
        self.radius@ > 0
    }

    pub closed spec fn center_model(&self) -> V3 {
        self.center@
    }

    pub closed spec fn radius_model(&self) -> int {
        self.radius@
    }

    pub closed spec fn material_model(&self) -> MaterialType {
        *self.m
    }

    /// A sphere, where the radius is positive; none where it is not.
    pub fn new(center: Vec3, radius: Scalar, m: Rc<MaterialType>) -> (s: Option<Sphere>)
        ensures
            (s is Some) == (radius@ > 0),
            s matches Some(sphere) ==> sphere.center_model() == center@ && sphere.radius_model()
                == radius@ && sphere.material_model() == *m,
    {
        if radius.gt(Scalar::zero()) {
            Some(Sphere { center, radius, m })
        } else {
            None
        }
    }

    pub fn center(&self) -> (c: Vec3)
        ensures
            c@ == self.center_model(),
    {
        self.center
    }

    /// The radius, which is positive.
    pub fn radius(&self) -> (r: Scalar)
        ensures
            r@ == self.radius_model(),
            r@ > 0,
    {
        proof {
            use_type_invariant(self);
        }
        self.radius
    }

    pub fn material(&self) -> (m: Rc<MaterialType>)
        ensures
            *m == self.material_model(),
    {
        self.m.clone()
    }

    /// The parameter of the hit within `(t_min, t_max]`, if there is one.
    fn root(&self, r: &Ray, t_min: Scalar, t_max: Scalar) -> (t: Option<Scalar>)
        ensures
            match t {
                Some(s) => Some(s@),
                None => None,
            } == sphere_root(
                self.center_model(),
                self.radius_model(),
                r.origin@,
                r.dir@,
                t_min@,
                t_max@,
            ),
    {
        let o: (i64, i64, i64) = r.origin.raw();
        let d: (i64, i64, i64) = r.dir.raw();
        let c: (i64, i64, i64) = self.center.raw();
        let rad: i64 = self.radius.raw();
        let lo: i64 = t_min.raw();
        let hi: i64 = t_max.raw();
        let ocx: i128 = (o.0 - c.0) as i128;
        let ocy: i128 = (o.1 - c.1) as i128;
        let ocz: i128 = (o.2 - c.2) as i128;
        let dx: i128 = d.0 as i128;
        let dy: i128 = d.1 as i128;
        let dz: i128 = d.2 as i128;
        let ghost l: int = LIMIT_RAW as int;
        let ghost l2: int = 0x1000_0000_0000_0000int;
        proof {
            assert(l * l == l2) by (nonlinear_arith)
                requires
                    l == 0x4000_0000,
                    l2 == 0x1000_0000_0000_0000int,
            ;
            assert((2 * l) * (2 * l) == 4 * l2) by (nonlinear_arith)
                requires
                    l * l == l2,
            ;
            assert(l * (2 * l) == 2 * l2) by (nonlinear_arith)
                requires
                    l * l == l2,
            ;
            lemma_product_bound(dx as int, dx as int, l, l);
            lemma_product_bound(dy as int, dy as int, l, l);
            lemma_product_bound(dz as int, dz as int, l, l);
            lemma_product_bound(dx as int, ocx as int, l, 2 * l);
            lemma_product_bound(dy as int, ocy as int, l, 2 * l);
            lemma_product_bound(dz as int, ocz as int, l, 2 * l);
            lemma_product_bound(ocx as int, ocx as int, 2 * l, 2 * l);
            lemma_product_bound(ocy as int, ocy as int, 2 * l, 2 * l);
            lemma_product_bound(ocz as int, ocz as int, 2 * l, 2 * l);
            lemma_product_bound(rad as int, rad as int, l, l);
            assert(dx * dx >= 0 && dy * dy >= 0 && dz * dz >= 0) by (nonlinear_arith);
            assert(ocx * ocx >= 0 && ocy * ocy >= 0 && ocz * ocz >= 0) by (nonlinear_arith);
            assert(rad * rad >= 0) by (nonlinear_arith);
        }
        let a: i128 = dx * dx + dy * dy + dz * dz;
        let half_b: i128 = dx * ocx + dy * ocy + dz * ocz;
        let rr: i128 = (rad as i128) * (rad as i128);
        let cc: i128 = ocx * ocx + ocy * ocy + ocz * ocz - rr;
        let ghost l4: int = 0x100_0000_0000_0000_0000_0000_0000_0000int;
        proof {
            assert(l2 * l2 == l4) by (nonlinear_arith)
                requires
                    l2 == 0x1000_0000_0000_0000int,
                    l4 == 0x100_0000_0000_0000_0000_0000_0000_0000int,
            ;
            assert((6 * l2) * (6 * l2) == 36 * l4) by (nonlinear_arith)
                requires
                    l2 * l2 == l4,
            ;
            assert((3 * l2) * (12 * l2) == 36 * l4) by (nonlinear_arith)
                requires
                    l2 * l2 == l4,
            ;
            lemma_product_bound(half_b as int, half_b as int, 6 * l2, 6 * l2);
            lemma_product_bound(a as int, cc as int, 3 * l2, 12 * l2);
            assert(half_b * half_b >= 0) by (nonlinear_arith);
        }
        let hb2: i128 = half_b * half_b;
        let ac: i128 = a * cc;
        let disc: i128 = hb2 - ac;
        proof {
            assert(a as int == v3_dot_exact(r.dir@, r.dir@));
            assert(half_b as int == v3_dot_exact(r.dir@, offset(r.origin@, self.center@)));
            assert(disc as int == discriminant(self.center@, self.radius@, r.origin@, r.dir@));
        }
        if a == 0 || disc < 0 {
            return None;
        }
        let sq: u64 = isqrt(disc as u128);
        proof {
            assert((9 * l2) * (9 * l2) == 81 * l4) by (nonlinear_arith)
                requires
                    l2 * l2 == l4,
            ;
            lemma_int_sqrt_bound(disc as int, sq as int, 9 * l2);
        }
        let s: i128 = sq as i128;
        let one: i128 = ONE_RAW as i128;
        let near_num: i128 = (-half_b - s) * one;
        let far_num: i128 = (-half_b + s) * one;
        let near: i128 = near_num / a;
        let far: i128 = far_num / a;
        proof {
            assert(near as int == near_root(self.center@, self.radius@, r.origin@, r.dir@));
            assert(far as int == far_root(self.center@, self.radius@, r.origin@, r.dir@));
        }
        if (lo as i128) < near && near <= (hi as i128) {
            Some(Scalar::from_raw(near as i64))
        } else if (lo as i128) < far && far <= (hi as i128) {
            Some(Scalar::from_raw(far as i64))
        } else {
            None
        }
    }
}

/// A sphere is not hit by a ray whose line passes its centre at more than
/// its radius.
pub proof fn lemma_missed_sphere_is_not_hit(
    sphere: Sphere,
    origin: V3,
    dir: V3,
    t_min: int,
    t_max: int,
)
    requires
        line_misses(sphere.center_model(), sphere.radius_model(), origin, dir),
    ensures
        sphere.hit_model(origin, dir, t_min, t_max) is None,
{
    lemma_miss_is_no_hit(sphere.center_model(), sphere.radius_model(), origin, dir, t_min, t_max);
}

impl Hittable for Sphere {
    open spec fn hit_model(&self, origin: V3, dir: V3, t_min: int, t_max: int) -> Option<
        SurfaceHit,
    > {
        match sphere_hit(self.center_model(), self.radius_model(), origin, dir, t_min, t_max) {
            Some(h) => Some((h, self.material_model())),
            None => None,
        }
    }

    proof fn lemma_hit_in_range(&self, origin: V3, dir: V3, t_min: int, t_max: int) {
    }

    proof fn lemma_hit_faces_ray(&self, origin: V3, dir: V3, t_min: int, t_max: int) {
        match sphere_root(self.center_model(), self.radius_model(), origin, dir, t_min, t_max) {
            Some(t) => {
                let p = ray_at(origin, dir, t);
                let outward = v3_div(v3_sub(p, self.center_model()), self.radius_model());
                crate::hittable::lemma_facing_normal_opposes(dir, outward);
            },
            None => {},
        }
    }

    proof fn lemma_hit_window(&self, origin: V3, dir: V3, t_min: int, bound: int, t_max: int) {
        let c = self.center_model();
        let rad = self.radius_model();
        if v3_dot_exact(dir, dir) != 0 && discriminant(c, rad, origin, dir) >= 0 {
            crate::vec3::lemma_dot_self_nonnegative(dir);
            lemma_roots_ordered(c, rad, origin, dir);
        }
    }

    fn hit(&self, r: &Ray, t_min: Scalar, t_max: Scalar) -> (res: Option<
        (HitRecord, Rc<MaterialType>),
    >)
        ensures
            res matches Some(h) ==> t_min@ < h.0.t@ <= t_max@ && crate::vec3::v3_dot(
                h.0.normal@,
                r.dir@,
            ) <= 0,
    {
        match self.root(r, t_min, t_max) {
            None => None,
            Some(t) => {
                let p: Vec3 = r.at(t);
                let outward_normal: Vec3 = p.sub(&self.center).div(self.radius);
                let mut rec: HitRecord = HitRecord {
                    p,
                    normal: outward_normal,
                    t,
                    front_face: false,
                };
                rec.set_face_normal(r, &outward_normal);
                Some((rec, self.m.clone()))
            },
        }
    }
}

} // verus!
