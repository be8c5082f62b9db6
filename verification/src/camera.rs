//! The pinhole camera: fixed field of view and 2:1 aspect ratio, mapping
//! normalized image-plane coordinates to world-space rays.

use vstd::prelude::*;

use crate::fixed::SCALE;
use crate::ray::Ray;
use crate::vec3::{is_zero, vbounded, vzero, Vec3, Vec3g};

verus! {

#[derive(Clone, Copy, Debug)]
pub struct Camera {
    pub origin: Vec3,
    pub lower_left_corner: Vec3,
    pub horizontal: Vec3,
    pub vertical: Vec3,
}

/// The one camera this renderer uses: origin at the eye, image plane
/// spanning `[-2, 2] x [-1, 1]` at depth `-1`.
pub open spec fn camera_wf(c: Camera) -> bool {
    &&& c.origin@ == vzero()
    &&& c.lower_left_corner@ == (Vec3g { x: -8192, y: -4096, z: -4096 })
    &&& c.horizontal@ == (Vec3g { x: 16384, y: 0, z: 0 })
    &&& c.vertical@ == (Vec3g { x: 0, y: 8192, z: 0 })
}

/// Direction of the ray through image-plane point `(u, v)`:
/// `lower_left_corner + u * horizontal + v * vertical - origin`, which
/// the exact spans above reduce to a rounding-free linear form.
pub open spec fn cam_dir(u: int, v: int) -> Vec3g {
    Vec3g { x: -8192 + 4 * u, y: -4096 + 2 * v, z: -4096 }
}

impl Camera {
    pub fn new() -> (c: Camera)
        ensures
            camera_wf(c),
    {
        Camera {
            origin: Vec3::zero(),
            lower_left_corner: Vec3::new(-8192, -4096, -4096),
            horizontal: Vec3::new(16384, 0, 0),
            vertical: Vec3::new(0, 8192, 0),
        }
    }

    /// The ray through normalized image-plane coordinates
    /// `(u, v) in [0, 1]^2`.
    pub fn get_ray(&self, u: i64, v: i64) -> (r: Ray)
        requires
            camera_wf(*self),
            0 <= u <= SCALE,
            0 <= v <= SCALE,
        ensures
            r.a@ == vzero(),
            r.b@ == cam_dir(u as int, v as int),
            vbounded(r.b@, 8192),
            !is_zero(r.b@),
            r.b@.z == -4096,
    {
        let uh = self.horizontal.scale(u);
        let vv = self.vertical.scale(v);
        let d = self.lower_left_corner.add(uh).add(vv).sub(self.origin);
        Ray::new(&self.origin, &d)
    }
}



} // verus!
