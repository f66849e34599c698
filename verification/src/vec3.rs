//! Three-dimensional vectors over fixed-point scalars.
use crate::fixed::{
    clamp_raw, fx_add, fx_div, fx_mul, fx_sub, in_range, int_sqrt, isqrt, lemma_int_sqrt_bound,
    lemma_product_bound, trunc_div, Scalar, LIMIT_RAW, ONE_RAW,
};
use crate::utils::random_boundaries;
use vstd::prelude::*;

verus! {

/// The mathematical model of a vector: its three raw components.
pub struct V3 {
    pub x: int,
    pub y: int,
    pub z: int,
}

/// A vector, a point or a direction in space.
#[derive(Clone, Copy, Debug, PartialEq, Eq, Structural)]
pub struct Vec3 {
    pub x: Scalar,
    pub y: Scalar,
    pub z: Scalar,
}

impl View for Vec3 {
    type V = V3;

    open spec fn view(&self) -> V3 {
        V3 { x: self.x@, y: self.y@, z: self.z@ }
    }
}

/// Whether every component is a raw value that a scalar can hold.
pub open spec fn v3_in_range(a: V3) -> bool {
    in_range(a.x) && in_range(a.y) && in_range(a.z)
}

pub open spec fn v3_add(a: V3, b: V3) -> V3 {
    V3 { x: fx_add(a.x, b.x), y: fx_add(a.y, b.y), z: fx_add(a.z, b.z) }
}

pub open spec fn v3_sub(a: V3, b: V3) -> V3 {
    V3 { x: fx_sub(a.x, b.x), y: fx_sub(a.y, b.y), z: fx_sub(a.z, b.z) }
}

pub open spec fn v3_neg(a: V3) -> V3 {
    V3 { x: -a.x, y: -a.y, z: -a.z }
}

pub open spec fn v3_scale(a: V3, k: int) -> V3 {
    V3 { x: fx_mul(a.x, k), y: fx_mul(a.y, k), z: fx_mul(a.z, k) }
}

pub open spec fn v3_div(a: V3, k: int) -> V3 {
    V3 { x: fx_div(a.x, k), y: fx_div(a.y, k), z: fx_div(a.z, k) }
}

/// The exact sum of the products of the raw components: the dot product
/// times 65536 squared.
pub open spec fn v3_dot_exact(a: V3, b: V3) -> int {
    a.x * b.x + a.y * b.y + a.z * b.z
}

/// The dot product as a raw value: the exact sum rounded once, toward zero.
pub open spec fn v3_dot(a: V3, b: V3) -> int {
    clamp_raw(trunc_div(v3_dot_exact(a, b), ONE_RAW as int))
}

pub open spec fn v3_cross(a: V3, b: V3) -> V3 {
    V3 {
        x: fx_sub(fx_mul(a.y, b.z), fx_mul(a.z, b.y)),
        y: fx_sub(fx_mul(a.z, b.x), fx_mul(a.x, b.z)),
        z: fx_sub(fx_mul(a.x, b.y), fx_mul(a.y, b.x)),
    }
}

/// The length as a raw value: the integer square root of the exact sum of
/// squares, brought into range.
pub open spec fn v3_norm(a: V3) -> int {
    clamp_raw(int_sqrt(v3_dot_exact(a, a)))
}

/// The vector divided by its length; the zero vector stays zero.
pub open spec fn v3_unit(a: V3) -> V3 {
    if v3_norm(a) == 0 {
        V3 { x: 0, y: 0, z: 0 }
    } else {
        v3_div(a, v3_norm(a))
    }
}

/// Whether every component is smaller in size than one part in 16384.
pub open spec fn v3_near_zero(a: V3) -> bool {
    -4 < a.x < 4 && -4 < a.y < 4 && -4 < a.z < 4
}

/// The mirror image of `v` at a surface with normal `n`:
/// `v - 2 (v . n) n`.
pub open spec fn v3_reflect(v: V3, n: V3) -> V3 {
    v3_sub(v, v3_scale(n, fx_mul(2 * ONE_RAW as int, v3_dot(v, n))))
}

/// The cosine of the angle between `-uv` and `n`, at most one.
pub open spec fn v3_cos_theta(uv: V3, n: V3) -> int {
    let c = v3_dot(v3_neg(uv), n);
    if c <= ONE_RAW as int {
        c
    } else {
        ONE_RAW as int
    }
}

/// The part of the refracted direction that lies in the surface.
pub open spec fn v3_refract_perp(uv: V3, n: V3, ratio: int) -> V3 {
    v3_scale(v3_add(uv, v3_scale(n, v3_cos_theta(uv, n))), ratio)
}

/// The direction of `uv` after it passes a surface with normal `n`, where
/// `ratio` is the quotient of the two refractive indices (Snell's law).
pub open spec fn v3_refract(uv: V3, n: V3, ratio: int) -> V3 {
    let perp = v3_refract_perp(uv, n, ratio);
    let rest = fx_sub(ONE_RAW as int, v3_dot(perp, perp));
    let size = if rest < 0 {
        -rest
    } else {
        rest
    };
    let parallel = v3_scale(n, -crate::fixed::fx_sqrt(size));
    v3_add(perp, parallel)
}

/// Whether the point lies inside the sphere of radius one about the origin.
pub open spec fn inside_unit_sphere(p: V3) -> bool {
    v3_dot(p, p) < ONE_RAW as int
}

/// Whether `u` is a point inside the unit sphere brought to length one.
pub open spec fn is_unit_sample(u: V3) -> bool {
    exists|p: V3| inside_unit_sphere(p) && u == #[trigger] v3_unit(p)
}

/// Negating one argument negates the exact sum of products.
pub proof fn lemma_dot_exact_neg(a: V3, b: V3)
    ensures
        v3_dot_exact(v3_neg(a), b) == -v3_dot_exact(a, b),
        v3_dot_exact(a, v3_neg(b)) == -v3_dot_exact(a, b),
        v3_dot_exact(a, b) == v3_dot_exact(b, a),
{
    assert((-a.x) * b.x == -(a.x * b.x)) by (nonlinear_arith);
    assert((-a.y) * b.y == -(a.y * b.y)) by (nonlinear_arith);
    assert((-a.z) * b.z == -(a.z * b.z)) by (nonlinear_arith);
    assert(a.x * (-b.x) == -(a.x * b.x)) by (nonlinear_arith);
    assert(a.y * (-b.y) == -(a.y * b.y)) by (nonlinear_arith);
    assert(a.z * (-b.z) == -(a.z * b.z)) by (nonlinear_arith);
    assert(a.x * b.x == b.x * a.x) by (nonlinear_arith);
    assert(a.y * b.y == b.y * a.y) by (nonlinear_arith);
    assert(a.z * b.z == b.z * a.z) by (nonlinear_arith);
}

/// The dot product is symmetric, and negating one argument negates it.
pub proof fn lemma_dot_neg(a: V3, b: V3)
    ensures
        v3_dot(v3_neg(a), b) == -v3_dot(a, b),
        v3_dot(a, v3_neg(b)) == -v3_dot(a, b),
        v3_dot(a, b) == v3_dot(b, a),
{
    lemma_dot_exact_neg(a, b);
}

/// A vector's dot product with itself is not negative.
pub proof fn lemma_dot_self_nonnegative(a: V3)
    ensures
        v3_dot_exact(a, a) >= 0,
        v3_dot(a, a) >= 0,
{
    assert(a.x * a.x >= 0) by (nonlinear_arith);
    assert(a.y * a.y >= 0) by (nonlinear_arith);
    assert(a.z * a.z >= 0) by (nonlinear_arith);
}

/// No component of a vector is longer than the vector.
pub proof fn lemma_component_within_norm(a: V3)
    requires
        v3_in_range(a),
    ensures
        -v3_norm(a) <= a.x <= v3_norm(a),
        -v3_norm(a) <= a.y <= v3_norm(a),
        -v3_norm(a) <= a.z <= v3_norm(a),
        v3_norm(a) >= 0,
{
    let e = v3_dot_exact(a, a);
    lemma_dot_self_nonnegative(a);
    crate::fixed::lemma_int_sqrt_exists(e);
    let n = int_sqrt(e);
    assert(a.x * a.x >= 0 && a.y * a.y >= 0 && a.z * a.z >= 0) by (nonlinear_arith);
    assert(-n <= a.x <= n) by (nonlinear_arith)
        requires
            a.x * a.x <= e,
            e < (n + 1) * (n + 1),
            n >= 0,
    ;
    assert(-n <= a.y <= n) by (nonlinear_arith)
        requires
            a.y * a.y <= e,
            e < (n + 1) * (n + 1),
            n >= 0,
    ;
    assert(-n <= a.z <= n) by (nonlinear_arith)
        requires
            a.z * a.z <= e,
            e < (n + 1) * (n + 1),
            n >= 0,
    ;
}

/// The quotient of a number by one that is at least as large in size lies
/// between minus one and one.
pub proof fn lemma_quotient_within_one(a: int, n: int)
    requires
        n > 0,
        -n <= a <= n,
    ensures
        -(ONE_RAW as int) <= fx_div(a, n) <= ONE_RAW as int,
{
    let one = ONE_RAW as int;
    if a >= 0 {
        assert(a * one <= n * one) by (nonlinear_arith)
            requires
                0 <= a <= n,
                one > 0,
        ;
        vstd::arithmetic::div_mod::lemma_div_is_ordered(a * one, n * one, n);
        vstd::arithmetic::div_mod::lemma_div_multiples_vanish(one, n);
        assert(n * one == one * n) by (nonlinear_arith);
        assert(a * one >= 0) by (nonlinear_arith)
            requires
                a >= 0,
                one > 0,
        ;
        vstd::arithmetic::div_mod::lemma_div_pos_is_pos(a * one, n);
    } else {
        assert((-a) * one <= n * one) by (nonlinear_arith)
            requires
                0 <= -a <= n,
                one > 0,
        ;
        assert(-(a * one) == (-a) * one) by (nonlinear_arith);
        vstd::arithmetic::div_mod::lemma_div_is_ordered((-a) * one, n * one, n);
        vstd::arithmetic::div_mod::lemma_div_multiples_vanish(one, n);
        assert(n * one == one * n) by (nonlinear_arith);
        assert((-a) * one >= 0) by (nonlinear_arith)
            requires
                -a >= 0,
                one > 0,
        ;
        vstd::arithmetic::div_mod::lemma_div_pos_is_pos((-a) * one, n);
    }
}

/// Each component of a unit vector lies between minus one and one.
pub proof fn lemma_unit_components_bounded(a: V3)
    requires
        v3_in_range(a),
    ensures
        -(ONE_RAW as int) <= v3_unit(a).x <= ONE_RAW as int,
        -(ONE_RAW as int) <= v3_unit(a).y <= ONE_RAW as int,
        -(ONE_RAW as int) <= v3_unit(a).z <= ONE_RAW as int,
{
    lemma_component_within_norm(a);
    let n = v3_norm(a);
    if n != 0 {
        lemma_quotient_within_one(a.x, n);
        lemma_quotient_within_one(a.y, n);
        lemma_quotient_within_one(a.z, n);
    }
}

impl Vec3 {
    pub fn new(x: Scalar, y: Scalar, z: Scalar) -> (v: Vec3)
        ensures
            v.x == x,
            v.y == y,
            v.z == z,
    {
        Vec3 { x, y, z }
    }

    pub fn zero() -> (v: Vec3)
        ensures
            v@ == (V3 { x: 0, y: 0, z: 0 }),
    {
        Vec3 { x: Scalar::zero(), y: Scalar::zero(), z: Scalar::zero() }
    }

    pub fn x(&self) -> (s: Scalar)
        ensures
            s == self.x,
    {
        self.x
    }

    pub fn y(&self) -> (s: Scalar)
        ensures
            s == self.y,
    {
        self.y
    }

    pub fn z(&self) -> (s: Scalar)
        ensures
            s == self.z,
    {
        self.z
    }

    /// The three raw components; each is in range.
    pub fn raw(&self) -> (r: (i64, i64, i64))
        ensures
            r.0 as int == self@.x,
            r.1 as int == self@.y,
            r.2 as int == self@.z,
            v3_in_range(self@),
    {
        (self.x.raw(), self.y.raw(), self.z.raw())
    }

    pub fn add(&self, rhs: &Vec3) -> (v: Vec3)
        ensures
            v@ == v3_add(self@, rhs@),
    {
        Vec3 { x: self.x.add(rhs.x), y: self.y.add(rhs.y), z: self.z.add(rhs.z) }
    }

    pub fn sub(&self, rhs: &Vec3) -> (v: Vec3)
        ensures
            v@ == v3_sub(self@, rhs@),
    {
        Vec3 { x: self.x.sub(rhs.x), y: self.y.sub(rhs.y), z: self.z.sub(rhs.z) }
    }

    pub fn neg(&self) -> (v: Vec3)
        ensures
            v@ == v3_neg(self@),
    {
        Vec3 { x: self.x.neg(), y: self.y.neg(), z: self.z.neg() }
    }

    /// The vector times the scalar `k`.
    pub fn scale(&self, k: Scalar) -> (v: Vec3)
        ensures
            v@ == v3_scale(self@, k@),
    {
        Vec3 { x: self.x.mul(k), y: self.y.mul(k), z: self.z.mul(k) }
    }

    /// The vector divided by the scalar `k`.
    pub fn div(&self, k: Scalar) -> (v: Vec3)
        ensures
            v@ == v3_div(self@, k@),
    {
        Vec3 { x: self.x.div(k), y: self.y.div(k), z: self.z.div(k) }
    }

    /// The exact sum of the products of the raw components.
    pub fn dot_exact(&self, rhs: &Vec3) -> (d: i128)
        ensures
            d as int == v3_dot_exact(self@, rhs@),
            -3 * (LIMIT_RAW as int * LIMIT_RAW as int) <= d as int <= 3 * (LIMIT_RAW as int
                * LIMIT_RAW as int),
    {
        let a: (i64, i64, i64) = self.raw();
        let b: (i64, i64, i64) = rhs.raw();
        proof {
            lemma_product_bound(a.0 as int, b.0 as int, LIMIT_RAW as int, LIMIT_RAW as int);
            lemma_product_bound(a.1 as int, b.1 as int, LIMIT_RAW as int, LIMIT_RAW as int);
            lemma_product_bound(a.2 as int, b.2 as int, LIMIT_RAW as int, LIMIT_RAW as int);
            assert(LIMIT_RAW as int * LIMIT_RAW as int == 0x1000_0000_0000_0000int)
                by (nonlinear_arith);
        }
        let px: i128 = (a.0 as i128) * (b.0 as i128);
        let py: i128 = (a.1 as i128) * (b.1 as i128);
        let pz: i128 = (a.2 as i128) * (b.2 as i128);
        px + py + pz
    }

    pub fn dot(&self, rhs: &Vec3) -> (d: Scalar)
        ensures
            d@ == v3_dot(self@, rhs@),
    {
        let e: i128 = self.dot_exact(rhs);
        proof {
            assert(LIMIT_RAW as int * LIMIT_RAW as int == 0x1000_0000_0000_0000int)
                by (nonlinear_arith);
        }
        let q: i128 = e / (ONE_RAW as i128);
        let lo: i128 = -(LIMIT_RAW as i128);
        let hi: i128 = LIMIT_RAW as i128;
        let c: i128 = if q < lo {
            lo
        } else if q > hi {
            hi
        } else {
            q
        };
        Scalar::from_raw(c as i64)
    }

    pub fn cross(&self, rhs: &Vec3) -> (v: Vec3)
        ensures
            v@ == v3_cross(self@, rhs@),
    {
        Vec3 {
            x: self.y.mul(rhs.z).sub(self.z.mul(rhs.y)),
            y: self.z.mul(rhs.x).sub(self.x.mul(rhs.z)),
            z: self.x.mul(rhs.y).sub(self.y.mul(rhs.x)),
        }
    }

    /// The length of the vector.
    pub fn norm(&self) -> (n: Scalar)
        ensures
            n@ == v3_norm(self@),
            n@ >= 0,
    {
        let e: i128 = self.dot_exact(self);
        proof {
            lemma_dot_self_nonnegative(self@);
        }
        let r: u64 = isqrt(e as u128);
        proof {
            assert(LIMIT_RAW as int * LIMIT_RAW as int == 0x1000_0000_0000_0000int)
                by (nonlinear_arith);
            assert(0x1_0000_0000int * 0x1_0000_0000int == 0x1_0000_0000_0000_0000int)
                by (nonlinear_arith);
            lemma_int_sqrt_bound(e as int, r as int, 0x1_0000_0000int);
        }
        Scalar::from_raw(r as i64)
    }

    /// The vector of length one that points the same way. The zero vector
    /// has no direction and stays zero.
    pub fn unit_vector(v: &Vec3) -> (u: Vec3)
        ensures
            u@ == v3_unit(v@),
    {
        let n: Scalar = v.norm();
        if n.raw() == 0 {
            Vec3::zero()
        } else {
            v.div(n)
        }
    }

    /// Whether the vector is too short to give a direction.
    pub fn near_zero(&self) -> (b: bool)
        ensures
            b == v3_near_zero(self@),
    {
        let r: (i64, i64, i64) = self.raw();
        -4 < r.0 && r.0 < 4 && -4 < r.1 && r.1 < 4 && -4 < r.2 && r.2 < 4
    }

    /// The mirror image of `v` at a surface with normal `n`.
    pub fn reflect(v: &Vec3, n: &Vec3) -> (r: Vec3)
        ensures
            r@ == v3_reflect(v@, n@),
    {
        let two: Scalar = Scalar::from_raw(2 * ONE_RAW);
        let k: Scalar = two.mul(v.dot(n));
        v.sub(&n.scale(k))
    }

    /// The direction of `uv` after refraction at a surface with normal `n`.
    pub fn refract(uv: &Vec3, n: &Vec3, ratio: Scalar) -> (r: Vec3)
        ensures
            r@ == v3_refract(uv@, n@, ratio@),
    {
        let cos_theta: Scalar = uv.neg().dot(n).min(Scalar::one());
        let perp: Vec3 = uv.add(&n.scale(cos_theta)).scale(ratio);
        let rest: Scalar = Scalar::one().sub(perp.dot(&perp));
        let parallel: Vec3 = n.scale(rest.abs().sqrt().neg());
        perp.add(&parallel)
    }

    /// A random point inside the sphere of radius one about the origin.
    /// Points of the cube around the sphere are drawn until one lies
    /// inside; after thirty-two draws the centre is taken.
    pub fn random_in_unit_sphere() -> (p: Vec3)
        ensures
            inside_unit_sphere(p@),
    {
        let low: Scalar = Scalar::one().neg();
        let high: Scalar = Scalar::one();
        let mut attempts: u32 = 0;
        while attempts < 32
            invariant
                attempts <= 32,
                low@ == -(ONE_RAW as int),
                high@ == ONE_RAW as int,
            decreases 32 - attempts,
        {
            let p: Vec3 = Vec3 {
                x: random_boundaries(low, high),
                y: random_boundaries(low, high),
                z: random_boundaries(low, high),
            };
            if p.dot(&p).lt(Scalar::one()) {
                return p;
            }
            attempts += 1;
        }
        Vec3::zero()
    }

    /// A random direction: a random point inside the unit sphere, brought
    /// to length one.
    pub fn random_unit_vector() -> (u: Vec3)
        ensures
            is_unit_sample(u@),
    {
        let p: Vec3 = Vec3::random_in_unit_sphere();
        Vec3::unit_vector(&p)
    }
}

} // verus!
