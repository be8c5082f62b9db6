//! Rays: an origin and an unnormalized direction.

use vstd::prelude::*;

use crate::vec3::{vadd, vfits, vscale, Vec3, Vec3g};

verus! {

#[derive(Clone, Copy, Debug)]
pub struct Ray {
    pub a: Vec3,
    pub b: Vec3,
}

/// The point reached after parameter `t` along the ray.
pub open spec fn point_at(r: Ray, t: int) -> Vec3g {
    vadd(r.a@, vscale(r.b@, t))
}

impl Ray {
    pub fn new(a: &Vec3, b: &Vec3) -> (r: Self)
        ensures
            r.a == a,
            r.b == b,
    {
        Ray { a: *a, b: *b }
    }

    pub fn origin(&self) -> (r: Vec3)
        ensures
            r == self.a,
    {
        self.a
    }

    pub fn direction(&self) -> (r: Vec3)
        ensures
            r == self.b,
    {
        self.b
    }

    pub fn point_at_parameter(&self, t: i64) -> (r: Vec3)
        requires
            vfits(vscale(self.b@, t as int)),
            vfits(point_at(*self, t as int)),
        ensures
            r@ == point_at(*self, t as int),
    {
        self.a.add(self.b.scale(t))
    }
}

} // verus!
