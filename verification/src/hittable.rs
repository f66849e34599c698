//! What a ray can hit, and the record of a hit.
use crate::fixed::Scalar;
use crate::material::MaterialType;
use crate::ray::Ray;
use crate::vec3::{lemma_dot_neg, v3_dot, v3_neg, Vec3, V3};
use std::rc::Rc;
use vstd::prelude::*;

verus! {

/// The mathematical model of a hit record.
pub struct HitModel {
    pub p: V3,
    pub normal: V3,
    pub t: int,
    pub front_face: bool,
}

/// Where a ray met a surface.
#[derive(Clone, Copy, Debug, PartialEq, Eq, Structural)]
pub struct HitRecord {
    /// The point of the hit.
    pub p: Vec3,
    /// The surface normal there, turned against the ray.
    pub normal: Vec3,
    /// The ray's parameter at the hit.
    pub t: Scalar,
    /// Whether the ray came from outside the surface.
    pub front_face: bool,
}

impl View for HitRecord {
    type V = HitModel;

    open spec fn view(&self) -> HitModel {
        HitModel { p: self.p@, normal: self.normal@, t: self.t@, front_face: self.front_face }
    }
}

/// A hit together with the material of the surface.
pub type SurfaceHit = (HitModel, MaterialType);

/// Whether a ray with direction `dir` meets the outward normal from outside.
pub open spec fn faces_front(dir: V3, outward_normal: V3) -> bool {
    v3_dot(dir, outward_normal) < 0
}

/// The outward normal, turned so that it points against the ray.
pub open spec fn facing_normal(dir: V3, outward_normal: V3) -> V3 {
    if faces_front(dir, outward_normal) {
        outward_normal
    } else {
        v3_neg(outward_normal)
    }
}

/// The normal that faces the ray never points along it.
pub proof fn lemma_facing_normal_opposes(dir: V3, outward_normal: V3)
    ensures
        v3_dot(facing_normal(dir, outward_normal), dir) <= 0,
        v3_dot(dir, facing_normal(dir, outward_normal)) <= 0,
{
    lemma_dot_neg(dir, outward_normal);
    lemma_dot_neg(dir, facing_normal(dir, outward_normal));
}

/// The model of what `hit` returned.
pub open spec fn hit_view(res: Option<(HitRecord, Rc<MaterialType>)>) -> Option<SurfaceHit> {
    match res {
        Some((rec, m)) => Some((rec@, *m)),
        None => None,
    }
}

impl HitRecord {
    /// Sets the front-face flag and the normal from the outward normal of
    /// the surface: the normal is turned so that it faces the ray.
    pub fn set_face_normal(&mut self, r: &Ray, outward_normal: &Vec3)
        ensures
            final(self).front_face == faces_front(r.dir@, outward_normal@),
            final(self).normal@ == facing_normal(r.dir@, outward_normal@),
            v3_dot(final(self).normal@, r.dir@) <= 0,
            final(self).p == old(self).p,
            final(self).t == old(self).t,
    {
        proof {
            lemma_facing_normal_opposes(r.dir@, outward_normal@);
        }
        self.front_face = r.direction().dot(outward_normal).lt(Scalar::zero());
        self.normal = if self.front_face {
            *outward_normal
        } else {
            outward_normal.neg()
        };
    }
}

/// A surface that a ray can hit.
pub trait Hittable {
    /// The nearest hit of the ray `origin + t * dir` with `t_min < t <= t_max`,
    /// if there is one.
    spec fn hit_model(&self, origin: V3, dir: V3, t_min: int, t_max: int) -> Option<SurfaceHit>;

    /// A hit lies within the interval that was asked for.
    proof fn lemma_hit_in_range(&self, origin: V3, dir: V3, t_min: int, t_max: int)
        ensures
            self.hit_model(origin, dir, t_min, t_max) matches Some(h) ==> t_min < h.0.t <= t_max,
    ;

    /// The normal of a hit points against the ray.
    proof fn lemma_hit_faces_ray(&self, origin: V3, dir: V3, t_min: int, t_max: int)
        ensures
            self.hit_model(origin, dir, t_min, t_max) matches Some(h) ==> v3_dot(h.0.normal, dir)
                <= 0,
    ;

    /// Lowering the upper bound keeps the hit where it still lies within
    /// the bound, and leaves none where it does not.
    proof fn lemma_hit_window(&self, origin: V3, dir: V3, t_min: int, bound: int, t_max: int)
        requires
            bound <= t_max,
        ensures
            self.hit_model(origin, dir, t_min, bound) == match self.hit_model(
                origin,
                dir,
                t_min,
                t_max,
            ) {
                Some(h) => if h.0.t <= bound {
                    Some(h)
                } else {
                    None
                },
                None => None,
            },
    ;

    /// The nearest hit of the ray with `t_min < t <= t_max`, with the
    /// material of the surface.
    fn hit(&self, r: &Ray, t_min: Scalar, t_max: Scalar) -> (res: Option<
        (HitRecord, Rc<MaterialType>),
    >)
        ensures
            hit_view(res) == self.hit_model(r.origin@, r.dir@, t_min@, t_max@),
    ;
}

} // verus!
