//! Rays: half-lines through space.
use crate::fixed::Scalar;
use crate::vec3::{v3_add, v3_scale, Vec3, V3};
use vstd::prelude::*;

verus! {

/// The line `origin + t * dir`.
#[derive(Clone, Copy, Debug, PartialEq, Eq, Structural)]
pub struct Ray {
    pub origin: Vec3,
    pub dir: Vec3,
}

/// The point of the ray at the parameter `t`.
pub open spec fn ray_at(origin: V3, dir: V3, t: int) -> V3 {
    v3_add(origin, v3_scale(dir, t))
}

impl Ray {
    pub fn new(origin: Vec3, dir: Vec3) -> (r: Ray)
        ensures
            r.origin == origin,
            r.dir == dir,
    {
        Ray { origin, dir }
    }

    pub fn origin(&self) -> (o: &Vec3)
        ensures
            *o == self.origin,
    {
        &self.origin
    }

    pub fn direction(&self) -> (d: &Vec3)
        ensures
            *d == self.dir,
    {
        &self.dir
    }

    /// The point `origin + t * dir`.
    pub fn at(&self, t: Scalar) -> (p: Vec3)
        ensures
            p@ == ray_at(self.origin@, self.dir@, t@),
    {
        self.origin.add(&self.dir.scale(t))
    }
}

} // verus!
