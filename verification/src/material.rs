//! Surface materials and how they scatter light.
use crate::color::{Color, Rgb};
use crate::fixed::{
    clamp_raw, fx_add, fx_div, fx_mul, fx_sqrt, fx_sub, lemma_product_bound, trunc_div, Scalar,
    ONE_RAW,
};
use crate::hittable::{HitModel, HitRecord};
use crate::ray::Ray;
use crate::utils::random_number;
use crate::vec3::{
    inside_unit_sphere, is_unit_sample, v3_add, v3_cos_theta, v3_dot, v3_near_zero, v3_reflect,
    v3_refract, v3_scale, v3_unit, Vec3, V3,
};
use num::traits::Pow;
use vstd::arithmetic::power::pow;
use vstd::prelude::*;

verus! {

/// A matte surface.
#[derive(Clone, Copy, Debug, PartialEq, Eq, Structural)]
pub struct Lambertian {
    pub albedo: Color,
}

/// A mirror, more or less rough.
#[derive(Clone, Copy, Debug, PartialEq, Eq, Structural)]
pub struct Metal {
    pub albedo: Color,
    pub fuzz: Scalar,
}

/// A clear material such as glass.
#[derive(Clone, Copy, Debug, PartialEq, Eq, Structural)]
pub struct Dielectric {
    /// The index of refraction.
    pub ir: Scalar,
}

/// The closed set of materials.
#[derive(Clone, Copy, Debug, PartialEq, Eq, Structural)]
pub enum MaterialType {
    Lambertian(Lambertian),
    Metal(Metal),
    Dielectric(Dielectric),
}

/// The mathematical model of a scattered ray and what is left of its light.
pub struct Scattered {
    pub attenuation: Rgb,
    pub origin: V3,
    pub dir: V3,
}

/// The model of what `scatter` returned.
pub open spec fn scatter_view(res: Option<(Color, Ray)>) -> Option<Scattered> {
    match res {
        Some((attenuation, ray)) => Some(
            Scattered { attenuation: attenuation@, origin: ray.origin@, dir: ray.dir@ },
        ),
        None => None,
    }
}

/// The direction in which a matte surface sends light: the normal plus a
/// random direction, or the normal alone where the two cancel.
pub open spec fn lambertian_direction(normal: V3, unit: V3) -> V3 {
    let sum = v3_add(normal, unit);
    if v3_near_zero(sum) {
        normal
    } else {
        sum
    }
}

/// What a matte surface does with the random direction `unit`: it always
/// scatters, and keeps its albedo of the light.
pub open spec fn lambertian_scatter(m: Lambertian, rec: HitModel, unit: V3) -> Option<Scattered> {
    Some(
        Scattered {
            attenuation: m.albedo@,
            origin: rec.p,
            dir: lambertian_direction(rec.normal, unit),
        },
    )
}

/// The direction in which a metal sends light: the mirror image of the
/// incoming direction, moved by the fuzz times a point of the unit sphere.
pub open spec fn metal_direction(dir_in: V3, normal: V3, fuzz: int, offset: V3) -> V3 {
    v3_add(v3_reflect(v3_unit(dir_in), normal), v3_scale(offset, fuzz))
}

/// What a metal does with the random point `offset`: it scatters where the
/// moved mirror image leaves the surface, and absorbs the ray otherwise.
pub open spec fn metal_scatter(m: Metal, dir_in: V3, rec: HitModel, offset: V3) -> Option<
    Scattered,
> {
    let dir = metal_direction(dir_in, rec.normal, m.fuzz@, offset);
    if v3_dot(dir, rec.normal) > 0 {
        Some(Scattered { attenuation: m.albedo@, origin: rec.p, dir })
    } else {
        None
    }
}

/// The fifth power of a number.
pub open spec fn fx_pow5(x: int) -> int {
    clamp_raw(
        trunc_div(
            pow(x, 5),
            ONE_RAW as int * ONE_RAW as int * ONE_RAW as int * ONE_RAW as int,
        ),
    )
}

/// Schlick's estimate of the share of light that a clear surface reflects:
/// `r0 + (1 - r0) (1 - cosine)^5` with `r0 = ((1 - n) / (1 + n))^2`.
pub open spec fn schlick(cosine: int, ref_idx: int) -> int {
    let one = ONE_RAW as int;
    let root = fx_div(fx_sub(one, ref_idx), fx_add(one, ref_idx));
    let r0 = fx_mul(root, root);
    fx_add(r0, fx_mul(fx_sub(one, r0), fx_pow5(fx_sub(one, cosine))))
}

/// The quotient of the refractive indices that a ray meets: one over the
/// index where it enters the material, the index where it leaves.
pub open spec fn refraction_ratio(ir: int, front_face: bool) -> int {
    if front_face {
        fx_div(ONE_RAW as int, ir)
    } else {
        ir
    }
}

/// The sine of the angle whose cosine is `cos_theta`.
pub open spec fn sin_of(cos_theta: int) -> int {
    fx_sqrt(fx_sub(ONE_RAW as int, fx_mul(cos_theta, cos_theta)))
}

/// Whether the ray cannot pass the surface (total internal reflection).
pub open spec fn cannot_refract(ratio: int, cos_theta: int) -> bool {
    fx_mul(ratio, sin_of(cos_theta)) > ONE_RAW as int
}

/// Whether a clear surface reflects the ray: where it cannot refract it,
/// and else with the chance that Schlick's estimate gives.
pub open spec fn dielectric_reflects(ir: int, dir_in: V3, rec: HitModel, chance: int) -> bool {
    let cos_theta = v3_cos_theta(v3_unit(dir_in), rec.normal);
    cannot_refract(refraction_ratio(ir, rec.front_face), cos_theta) || schlick(cos_theta, ir)
        > chance
}

/// What a clear surface does with the random number `chance`: it always
/// scatters, absorbs nothing, and reflects or refracts.
pub open spec fn dielectric_scatter(m: Dielectric, dir_in: V3, rec: HitModel, chance: int) -> Option<
    Scattered,
> {
    let unit = v3_unit(dir_in);
    let dir = if dielectric_reflects(m.ir@, dir_in, rec, chance) {
        v3_reflect(unit, rec.normal)
    } else {
        v3_refract(unit, rec.normal, refraction_ratio(m.ir@, rec.front_face))
    };
    Some(
        Scattered {
            attenuation: Rgb { r: ONE_RAW as int, g: ONE_RAW as int, b: ONE_RAW as int },
            origin: rec.p,
            dir,
        },
    )
}

/// Whether `res` is something that the material may return for the ray
/// and the hit, for some outcome of its random draw.
pub open spec fn may_scatter(m: MaterialType, dir_in: V3, rec: HitModel, res: Option<Scattered>) -> bool {
    match m {
        MaterialType::Lambertian(l) => exists|unit: V3|
            is_unit_sample(unit) && res == #[trigger] lambertian_scatter(l, rec, unit),
        MaterialType::Metal(mt) => exists|offset: V3|
            inside_unit_sphere(offset) && res == #[trigger] metal_scatter(mt, dir_in, rec, offset),
        MaterialType::Dielectric(d) => exists|chance: int|
            0 <= chance < ONE_RAW && res == #[trigger] dielectric_scatter(d, dir_in, rec, chance),
    }
}

/// A matte surface scatters every ray.
pub proof fn lemma_lambertian_always_scatters(
    l: Lambertian,
    dir_in: V3,
    rec: HitModel,
    res: Option<Scattered>,
)
    requires
        may_scatter(MaterialType::Lambertian(l), dir_in, rec, res),
    ensures
        res matches Some(s) && s.attenuation == l.albedo@ && s.origin == rec.p,
{
}

/// A metal absorbs the ray exactly where the mirror image, moved by the
/// fuzz, does not leave the surface.
pub proof fn lemma_metal_absorbs_inward(m: Metal, dir_in: V3, rec: HitModel, offset: V3)
    ensures
        metal_scatter(m, dir_in, rec, offset) is None <==> v3_dot(
            metal_direction(dir_in, rec.normal, m.fuzz@, offset),
            rec.normal,
        ) <= 0,
{
}

/// A clear surface scatters every ray and absorbs none of its light.
pub proof fn lemma_dielectric_always_scatters(
    d: Dielectric,
    dir_in: V3,
    rec: HitModel,
    res: Option<Scattered>,
)
    requires
        may_scatter(MaterialType::Dielectric(d), dir_in, rec, res),
    ensures
        res matches Some(s) && s.attenuation == (Rgb {
            r: ONE_RAW as int,
            g: ONE_RAW as int,
            b: ONE_RAW as int,
        }) && s.origin == rec.p,
{
}

/// With the index of refraction one, the quotient of the indices is one on
/// both sides of the surface, and no ray is reflected totally.
pub proof fn lemma_unit_index(front_face: bool, cos_theta: int)
    ensures
        refraction_ratio(ONE_RAW as int, front_face) == ONE_RAW,
        !cannot_refract(refraction_ratio(ONE_RAW as int, front_face), cos_theta),
{
    let one = ONE_RAW as int;
    assert(one * one == 0x1_0000_0000) by (nonlinear_arith)
        requires
            one == 65536,
    ;
    let sq = fx_mul(cos_theta, cos_theta);
    assert(cos_theta * cos_theta >= 0) by (nonlinear_arith);
    let rest = fx_sub(one, sq);
    assert(rest <= one);
    let sin = sin_of(cos_theta);
    if rest > 0 {
        crate::fixed::lemma_int_sqrt_exists(rest * one);
        assert(rest * one <= one * one) by (nonlinear_arith)
            requires
                rest <= one,
                one == 65536,
        ;
        crate::fixed::lemma_int_sqrt_bound(rest * one, crate::fixed::int_sqrt(rest * one), one);
    }
    assert(sin <= one);
    assert(sin >= 0) by {
        if rest > 0 {
            crate::fixed::lemma_int_sqrt_exists(rest * one);
        }
    }
    assert(one * sin <= one * one) by (nonlinear_arith)
        requires
            0 <= sin <= one,
            one == 65536,
    ;
    assert(one * sin >= 0) by (nonlinear_arith)
        requires
            0 <= sin <= one,
            one == 65536,
    ;
    assert((one * sin) / one == sin) by (nonlinear_arith)
        requires
            one == 65536,
    ;
}

/// A material: how a surface scatters the light that hits it.
pub trait LightReflection {
    /// Whether `res` is something that `scatter` may return.
    spec fn scatter_model(&self, dir_in: V3, rec: HitModel, res: Option<Scattered>) -> bool;

    /// The scattered ray and the share of light that it keeps; none where
    /// the surface absorbs the ray.
    fn scatter(&self, r_in: &Ray, rec: &HitRecord) -> (res: Option<(Color, Ray)>)
        ensures
            self.scatter_model(r_in.dir@, rec@, scatter_view(res)),
    ;
}

impl LightReflection for Lambertian {
    open spec fn scatter_model(&self, dir_in: V3, rec: HitModel, res: Option<Scattered>) -> bool {
        may_scatter(MaterialType::Lambertian(*self), dir_in, rec, res)
    }

    fn scatter(&self, r_in: &Ray, rec: &HitRecord) -> (res: Option<(Color, Ray)>)
        ensures
            res is Some,
    {
        let unit: Vec3 = Vec3::random_unit_vector();
        self.scatter_toward(rec, &unit)
    }
}

impl LightReflection for Metal {
    open spec fn scatter_model(&self, dir_in: V3, rec: HitModel, res: Option<Scattered>) -> bool {
        may_scatter(MaterialType::Metal(*self), dir_in, rec, res)
    }

    fn scatter(&self, r_in: &Ray, rec: &HitRecord) -> (res: Option<(Color, Ray)>) {
        let offset: Vec3 = Vec3::random_in_unit_sphere();
        self.scatter_fuzzed(r_in, rec, &offset)
    }
}

impl LightReflection for Dielectric {
    open spec fn scatter_model(&self, dir_in: V3, rec: HitModel, res: Option<Scattered>) -> bool {
        may_scatter(MaterialType::Dielectric(*self), dir_in, rec, res)
    }

    fn scatter(&self, r_in: &Ray, rec: &HitRecord) -> (res: Option<(Color, Ray)>)
        ensures
            res is Some,
    {
        let chance: Scalar = random_number();
        self.scatter_by_chance(r_in, rec, chance)
    }
}

impl LightReflection for MaterialType {
    open spec fn scatter_model(&self, dir_in: V3, rec: HitModel, res: Option<Scattered>) -> bool {
        may_scatter(*self, dir_in, rec, res)
    }

    fn scatter(&self, r_in: &Ray, rec: &HitRecord) -> (res: Option<(Color, Ray)>) {
        match self {
            MaterialType::Lambertian(l) => l.scatter(r_in, rec),
            MaterialType::Metal(m) => m.scatter(r_in, rec),
            MaterialType::Dielectric(d) => d.scatter(r_in, rec),
        }
    }
}

impl Lambertian {
    pub fn new(albedo: Color) -> (m: Lambertian)
        ensures
            m.albedo == albedo,
    {
        Lambertian { albedo }
    }

    /// The scattered ray for the random direction `unit`.
    pub fn scatter_toward(&self, rec: &HitRecord, unit: &Vec3) -> (res: Option<(Color, Ray)>)
        ensures
            scatter_view(res) == lambertian_scatter(*self, rec@, unit@),
    {
        let mut scatter_direction: Vec3 = rec.normal.add(unit);
        if scatter_direction.near_zero() {
            scatter_direction = rec.normal;
        }
        Some((self.albedo, Ray::new(rec.p, scatter_direction)))
    }
}

impl Metal {
    /// A metal with the given colour; the fuzz is brought into `[0, 1]`.
    pub fn new(albedo: Color, f: Scalar) -> (m: Metal)
        ensures
            m.albedo == albedo,
            m.fuzz@ == if f@ < 0 {
                0
            } else if f@ > ONE_RAW {
                ONE_RAW as int
            } else {
                f@
            },
    {
        Metal { albedo, fuzz: crate::utils::clamp(f, Scalar::zero(), Scalar::one()) }
    }

    /// The scattered ray for the random point `offset` of the unit sphere;
    /// none where the ray would enter the surface.
    pub fn scatter_fuzzed(&self, r_in: &Ray, rec: &HitRecord, offset: &Vec3) -> (res: Option<
        (Color, Ray),
    >)
        ensures
            scatter_view(res) == metal_scatter(*self, r_in.dir@, rec@, offset@),
    {
        let reflected: Vec3 = Vec3::reflect(&Vec3::unit_vector(r_in.direction()), &rec.normal);
        let scatter_direction: Vec3 = reflected.add(&offset.scale(self.fuzz));
        if scatter_direction.dot(&rec.normal).gt(Scalar::zero()) {
            Some((self.albedo, Ray::new(rec.p, scatter_direction)))
        } else {
            None
        }
    }
}

impl Dielectric {
    pub fn new(ir: Scalar) -> (m: Dielectric)
        ensures
            m.ir == ir,
    {
        Dielectric { ir }
    }

    /// Schlick's estimate of the share of light that is reflected at the
    /// angle with the cosine `cosine`.
    pub fn reflectance(cosine: Scalar, ref_idx: Scalar) -> (r: Scalar)
        ensures
            r@ == schlick(cosine@, ref_idx@),
    {
        let one: Scalar = Scalar::one();
        let root: Scalar = one.sub(ref_idx).div(one.add(ref_idx));
        let r0: Scalar = root.mul(root);
        r0.add(one.sub(r0).mul(fifth_power(one.sub(cosine))))
    }

    /// The scattered ray for the random number `chance` of `[0, 1)`.
    pub fn scatter_by_chance(&self, r_in: &Ray, rec: &HitRecord, chance: Scalar) -> (res: Option<
        (Color, Ray),
    >)
        ensures
            scatter_view(res) == dielectric_scatter(*self, r_in.dir@, rec@, chance@),
    {
        let ratio: Scalar = if rec.front_face {
            Scalar::one().div(self.ir)
        } else {
            self.ir
        };
        let unit_direction: Vec3 = Vec3::unit_vector(r_in.direction());
        let cos_theta: Scalar = unit_direction.neg().dot(&rec.normal).min(Scalar::one());
        let sin_theta: Scalar = Scalar::one().sub(cos_theta.mul(cos_theta)).sqrt();
        let total_reflection: bool = ratio.mul(sin_theta).gt(Scalar::one());
        let scatter_direction: Vec3 = if total_reflection || Dielectric::reflectance(
            cos_theta,
            self.ir,
        ).gt(chance) {
            Vec3::reflect(&unit_direction, &rec.normal)
        } else {
            Vec3::refract(&unit_direction, &rec.normal, ratio)
        };
        Some((Color::white(), Ray::new(rec.p, scatter_direction)))
    }
}

/// `base` to the power `exp`, by `num::traits::Pow::pow`, which for these
/// two types hands on to `i128::pow`. The contract claims that the result
/// is the power, for powers that fit in 128 bits: beyond them `i128::pow`
/// panics or wraps, so they are left out.
#[verifier::external_body]
fn int_pow(base: i128, exp: u32) -> (r: i128)
    requires
        -0x7fff_ffff_ffff_ffff_ffff_ffff_ffff_ffff <= pow(base as int, exp as nat)
            <= 0x7fff_ffff_ffff_ffff_ffff_ffff_ffff_ffff,
    ensures
        r as int == pow(base as int, exp as nat),
{
    Pow::pow(base, exp)
}

/// The fifth power of a number is the product of five copies of it.
pub proof fn lemma_pow5(x: int)
    ensures
        pow(x, 5) == x * x * x * x * x,
{
    reveal_with_fuel(pow, 6);
    assert(pow(x, 5) == x * (x * (x * (x * (x * 1)))));
    assert(x * (x * (x * (x * (x * 1)))) == x * x * x * x * x) by (nonlinear_arith);
}

/// The fifth power of a number.
pub fn fifth_power(x: Scalar) -> (r: Scalar)
    ensures
        r@ == fx_pow5(x@),
{
    let raw: i64 = x.raw();
    let edge: i64 = 0x200_0000;
    proof {
        lemma_pow5(raw as int);
        lemma_pow5_bounds(raw as int);
    }
    if raw > edge {
        Scalar::max_value()
    } else if raw < -edge {
        Scalar::max_value().neg()
    } else {
        let p: i128 = int_pow(raw as i128, 5);
        Scalar::from_raw((p / 0x1_0000_0000_0000_0000) as i64)
    }
}

/// The bounds on a fifth power that saturation rests on.
pub proof fn lemma_pow5_bounds(x: int)
    ensures
        -0x200_0000 <= x <= 0x200_0000 ==> -0x2000_0000_0000_0000_0000_0000_0000_0000 <= x * x * x
            * x * x <= 0x2000_0000_0000_0000_0000_0000_0000_0000,
        x > 0x200_0000 ==> x * x * x * x * x >= 0x2000_0000_0000_0000_0000_0000_0000_0000,
        x < -0x200_0000 ==> x * x * x * x * x <= -0x2000_0000_0000_0000_0000_0000_0000_0000,
{
    let e: int = 0x200_0000;
    let e2: int = 0x4_0000_0000_0000;
    let e4: int = 0x10_0000_0000_0000_0000_0000_0000;
    let e5: int = 0x2000_0000_0000_0000_0000_0000_0000_0000;
    assert(e * e == e2) by (nonlinear_arith)
        requires
            e == 0x200_0000,
            e2 == 0x4_0000_0000_0000,
    ;
    assert(e2 * e2 == e4) by (nonlinear_arith)
        requires
            e2 == 0x4_0000_0000_0000,
            e4 == 0x10_0000_0000_0000_0000_0000_0000,
    ;
    assert(e4 * e == e5) by (nonlinear_arith)
        requires
            e4 == 0x10_0000_0000_0000_0000_0000_0000,
            e == 0x200_0000,
            e5 == 0x2000_0000_0000_0000_0000_0000_0000_0000,
    ;
    let x2 = x * x;
    let x4 = x2 * x2;
    assert(x * x * x * x * x == x4 * x) by (nonlinear_arith)
        requires
            x2 == x * x,
            x4 == x2 * x2,
    ;
    assert(x2 >= 0) by (nonlinear_arith)
        requires
            x2 == x * x,
    ;
    assert(x4 >= 0) by (nonlinear_arith)
        requires
            x4 == x2 * x2,
    ;
    if -e <= x <= e {
        lemma_product_bound(x, x, e, e);
        lemma_product_bound(x2, x2, e2, e2);
        lemma_product_bound(x4, x, e4, e);
    } else if x > e {
        assert(x2 >= e2) by (nonlinear_arith)
            requires
                x > e,
                e > 0,
                x2 == x * x,
                e2 == e * e,
        ;
        assert(x4 >= e4) by (nonlinear_arith)
            requires
                x2 >= e2,
                e2 > 0,
                x4 == x2 * x2,
                e4 == e2 * e2,
        ;
        assert(x4 * x >= e5) by (nonlinear_arith)
            requires
                x4 >= e4,
                x > e,
                e > 0,
                e4 > 0,
                e5 == e4 * e,
        ;
    } else {
        assert(x2 >= e2) by (nonlinear_arith)
            requires
                x < -e,
                e > 0,
                x2 == x * x,
                e2 == e * e,
        ;
        assert(x4 >= e4) by (nonlinear_arith)
            requires
                x2 >= e2,
                e2 > 0,
                x4 == x2 * x2,
                e4 == e2 * e2,
        ;
        assert(x4 * x <= -e5) by (nonlinear_arith)
            requires
                x4 >= e4,
                x < -e,
                e > 0,
                e4 > 0,
                e5 == e4 * e,
        ;
    }
}

impl MaterialType {
    /// The albedo of a matte or metal surface; black for a clear one.
    pub fn get_albedo(&self) -> (c: Color)
        ensures
            c@ == match *self {
                MaterialType::Lambertian(l) => l.albedo@,
                MaterialType::Metal(m) => m.albedo@,
                MaterialType::Dielectric(_) => Rgb { r: 0, g: 0, b: 0 },
            },
    {
        match self {
            MaterialType::Lambertian(l) => l.albedo,
            MaterialType::Metal(m) => m.albedo,
            _ => Color::black(),
        }
    }

    /// The fuzz of a metal; zero for the others.
    pub fn get_fuzz(&self) -> (f: Scalar)
        ensures
            f@ == match *self {
                MaterialType::Metal(m) => m.fuzz@,
                _ => 0,
            },
    {
        match self {
            MaterialType::Metal(m) => m.fuzz,
            _ => Scalar::zero(),
        }
    }

    /// The index of refraction of a clear material; zero for the others.
    pub fn get_ir(&self) -> (ir: Scalar)
        ensures
            ir@ == match *self {
                MaterialType::Dielectric(d) => d.ir@,
                _ => 0,
            },
    {
        match self {
            MaterialType::Dielectric(d) => d.ir,
            _ => Scalar::zero(),
        }
    }
}

} // verus!
