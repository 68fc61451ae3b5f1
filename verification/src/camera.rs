//! The camera: maps normalized image-plane coordinates `(u, v)` in
//! `[0, 1]` (both in fixed point, `v = 0` at the image bottom) to a
//! world-space ray through the viewport.

use vstd::prelude::*;
use crate::fixed::{lemma_mul_abs_bound, lemma_smul_bounded, SCALE};
use crate::ray::{Ray, RayV};
use crate::vec3::{v_add, v_in_range, v_scale, v_sub, Vec3, V3};

verus! {

/// Largest magnitude allowed for a camera vector component; four of
/// them summed still lie inside the coordinate volume.
pub const CAMERA_LIMIT: i64 = 100_000_000_000;

/// Model of a camera: ray origin and viewport geometry.
pub ghost struct CameraV {
    pub origin: V3,
    pub lower_left_corner: V3,
    pub horizontal: V3,
    pub vertical: V3,
}

pub open spec fn v_in_camera(v: V3) -> bool {
    &&& -CAMERA_LIMIT <= v.x <= CAMERA_LIMIT
    &&& -CAMERA_LIMIT <= v.y <= CAMERA_LIMIT
    &&& -CAMERA_LIMIT <= v.z <= CAMERA_LIMIT
}

pub open spec fn camera_wf(c: CameraV) -> bool {
    &&& v_in_camera(c.origin)
    &&& v_in_camera(c.lower_left_corner)
    &&& v_in_camera(c.horizontal)
    &&& v_in_camera(c.vertical)
}

/// The ray a camera casts for viewport coordinates `(u, v)`: from the
/// origin toward `lower_left_corner + u*horizontal + v*vertical`.
pub open spec fn camera_ray_spec(c: CameraV, u: int, v: int) -> RayV {
    RayV {
        origin: c.origin,
        direction: v_sub(
            v_add(v_add(c.lower_left_corner, v_scale(u, c.horizontal)), v_scale(v, c.vertical)),
            c.origin,
        ),
    }
}

pub struct Camera {
    pub origin: Vec3,
    pub lower_left_corner: Vec3,
    pub horizontal: Vec3,
    pub vertical: Vec3,
}

impl View for Camera {
    type V = CameraV;

    open spec fn view(&self) -> CameraV {
        CameraV {
            origin: self.origin@,
            lower_left_corner: self.lower_left_corner@,
            horizontal: self.horizontal@,
            vertical: self.vertical@,
        }
    }
}

impl Camera {
    pub fn new(origin: Vec3, lower_left_corner: Vec3, horizontal: Vec3, vertical: Vec3)
        -> (c: Camera)
        ensures
            c@ == (CameraV {
                origin: origin@,
                lower_left_corner: lower_left_corner@,
                horizontal: horizontal@,
                vertical: vertical@,
            }),
    {
        Camera { origin, lower_left_corner, horizontal, vertical }
    }

    /// Runtime check for `camera_wf`, for unverified callers.
    pub fn well_formed(&self) -> (ok: bool)
        ensures
            ok == camera_wf(self@),
    {
        in_camera(&self.origin) && in_camera(&self.lower_left_corner)
            && in_camera(&self.horizontal) && in_camera(&self.vertical)
    }

    /// The ray for viewport coordinates `(u, v)`, both in `[0, 1]` in
    /// fixed point. Its origin and direction stay inside the
    /// coordinate volume; the direction is left unnormalized.
    pub fn get_ray(&self, u: i64, v: i64) -> (r: Ray)
        requires
            camera_wf(self@),
            0 <= u <= SCALE,
            0 <= v <= SCALE,
        ensures
            r@ == camera_ray_spec(self@, u as int, v as int),
            v_in_range(r@.origin),
            v_in_range(r@.direction),
    {
        proof {
            let cl = CAMERA_LIMIT as int;
            let s = SCALE as int;
            lemma_mul_abs_bound(u as int, self.horizontal.x as int, s, cl);
            lemma_mul_abs_bound(u as int, self.horizontal.y as int, s, cl);
            lemma_mul_abs_bound(u as int, self.horizontal.z as int, s, cl);
            lemma_mul_abs_bound(v as int, self.vertical.x as int, s, cl);
            lemma_mul_abs_bound(v as int, self.vertical.y as int, s, cl);
            lemma_mul_abs_bound(v as int, self.vertical.z as int, s, cl);
            lemma_smul_bounded(u as int, self.horizontal.x as int, cl);
            lemma_smul_bounded(u as int, self.horizontal.y as int, cl);
            lemma_smul_bounded(u as int, self.horizontal.z as int, cl);
            lemma_smul_bounded(v as int, self.vertical.x as int, cl);
            lemma_smul_bounded(v as int, self.vertical.y as int, cl);
            lemma_smul_bounded(v as int, self.vertical.z as int, cl);
        }
        let across = self.horizontal.scaled(u);
        let up = self.vertical.scaled(v);
        let target = self.lower_left_corner.plus(&across).plus(&up);
        let direction = target.minus(&self.origin);
        Ray::new(self.origin, direction)
    }
}

/// Component check against `CAMERA_LIMIT`.
fn in_camera(v: &Vec3) -> (ok: bool)
    ensures
        ok == v_in_camera(v@),
{
    v.x >= -CAMERA_LIMIT && v.x <= CAMERA_LIMIT && v.y >= -CAMERA_LIMIT && v.y <= CAMERA_LIMIT
        && v.z >= -CAMERA_LIMIT && v.z <= CAMERA_LIMIT
}

} // verus!
