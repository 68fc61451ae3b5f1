//! Spheres and their analytic ray-intersection test.
//!
//! The intersection solves `a*t^2 + 2b*t + c = 0` in fixed point:
//! `a = d.d`, `b = oc.d`, `c = oc.oc - r^2` with `oc = origin - center`.
//! The discriminant `b^2 - a*c` is formed exactly (unscaled), its square
//! root taken with the integer square root, and a hit is reported for
//! the nearer root strictly inside `(t_min, t_max)`, else for the
//! farther one: no intersection is reported if and only if the
//! discriminant is at most zero (a tangent counts as a miss) or
//! neither root lies strictly inside the interval. The reported normal
//! is `(p - center) / radius`, clamped to twice unit length: division
//! rounding can push the quotient slightly past any fixed bound, so the
//! model clamps it and the code follows the model exactly.

use vstd::prelude::*;
use crate::fixed::{
    clip, lemma_mul_abs_bound, lemma_smul_bounded, sdiv, smul, sqrt_floor, clamp_wide,
    fix_mul, floor_div_i128, isqrt_i128, COORD_LIMIT, DOT_BOUND, SCALE,
};
use crate::ray::{ray_wf, Ray, RayV};
use crate::vec3::{v_add, v_dot, v_in_range, v_scale, v_sub, Vec3, V3};

verus! {

/// Largest normal component the tracer reports: twice unit length.
pub const NORMAL_LIMIT: i64 = 2_000_000;

/// Model of a successful intersection: the ray parameter, the hit
/// point, and the outward surface normal.
pub ghost struct HitV {
    pub t: int,
    pub p: V3,
    pub normal: V3,
}

/// Result of a successful intersection.
pub struct Hit {
    pub t: i64,
    pub p: Vec3,
    pub normal: Vec3,
}

impl View for Hit {
    type V = HitV;

    open spec fn view(&self) -> HitV {
        HitV { t: self.t as int, p: self.p@, normal: self.normal@ }
    }
}

impl Hit {
    pub fn new(t: i64, p: Vec3, normal: Vec3) -> (h: Hit)
        ensures
            h@ == (HitV { t: t as int, p: p@, normal: normal@ }),
    {
        Hit { t, p, normal }
    }
}

/// A hit option seen at the model level.
pub open spec fn opt_hit_view(o: Option<Hit>) -> Option<HitV> {
    match o {
        Option::Some(h) => Option::Some(h@),
        Option::None => Option::None,
    }
}

/// Model of a sphere.
pub ghost struct SphereV {
    pub center: V3,
    pub radius: int,
}

/// A sphere the tracer accepts: center in the coordinate volume and a
/// positive radius no larger than the volume itself.
pub open spec fn sphere_wf(s: SphereV) -> bool {
    &&& v_in_range(s.center)
    &&& 0 < s.radius <= COORD_LIMIT
}

pub struct Sphere {
    pub center: Vec3,
    pub radius: i64,
}

impl View for Sphere {
    type V = SphereV;

    open spec fn view(&self) -> SphereV {
        SphereV { center: self.center@, radius: self.radius as int }
    }
}

/// The hit record at parameter `t`: point by ray evaluation, normal
/// `(p - center) / radius` clamped to `NORMAL_LIMIT`.
pub open spec fn hit_at(s: SphereV, r: RayV, t: int) -> HitV {
    let p = v_add(r.origin, v_scale(t, r.direction));
    let n = V3 {
        x: clip(sdiv(p.x - s.center.x, s.radius), -NORMAL_LIMIT as int, NORMAL_LIMIT as int),
        y: clip(sdiv(p.y - s.center.y, s.radius), -NORMAL_LIMIT as int, NORMAL_LIMIT as int),
        z: clip(sdiv(p.z - s.center.z, s.radius), -NORMAL_LIMIT as int, NORMAL_LIMIT as int),
    };
    HitV { t, p, normal: n }
}

/// The full intersection contract: quadratic coefficients, strict
/// discriminant test (a tangent counts as a miss), nearer root first;
/// every root strictly inside the interval is reported.
pub open spec fn sphere_hit_spec(s: SphereV, r: RayV, t_min: int, t_max: int) -> Option<HitV> {
    let oc = v_sub(r.origin, s.center);
    let a = v_dot(r.direction, r.direction);
    let b = v_dot(oc, r.direction);
    let c = v_dot(oc, oc) - smul(s.radius, s.radius);
    let disc = b * b - a * c;
    if disc <= 0 {
        Option::None
    } else {
        let sq = sqrt_floor(disc);
        let t1 = sdiv(-b - sq, a);
        if t_min < t1 && t1 < t_max {
            Option::Some(hit_at(s, r, t1))
        } else {
            let t2 = sdiv(-b + sq, a);
            if t_min < t2 && t2 < t_max {
                Option::Some(hit_at(s, r, t2))
            } else {
                Option::None
            }
        }
    }
}

impl Sphere {
    pub fn new(center: Vec3, radius: i64) -> (s: Sphere)
        ensures
            s@ == (SphereV { center: center@, radius: radius as int }),
    {
        Sphere { center, radius }
    }

    /// Runtime check for `sphere_wf`, for unverified callers.
    pub fn well_formed(&self) -> (ok: bool)
        ensures
            ok == sphere_wf(self@),
    {
        let c = &self.center;
        c.x >= -COORD_LIMIT && c.x <= COORD_LIMIT && c.y >= -COORD_LIMIT && c.y <= COORD_LIMIT
            && c.z >= -COORD_LIMIT && c.z <= COORD_LIMIT && self.radius > 0
            && self.radius <= COORD_LIMIT
    }

    /// Build the hit record at an accepted parameter `t`.
    fn make_hit(&self, ray: &Ray, t: i64) -> (res: Hit)
        requires
            sphere_wf(self@),
            ray_wf(ray@),
            -COORD_LIMIT <= t <= COORD_LIMIT,
        ensures
            res@ == hit_at(self@, ray@, t as int),
    {
        let p = ray.point_at_parameter(t);
        proof {
            let m = 250_000_000_000_000_000int;
            lemma_mul_abs_bound(
                t as int, ray.direction.x as int, COORD_LIMIT as int, COORD_LIMIT as int);
            lemma_mul_abs_bound(
                t as int, ray.direction.y as int, COORD_LIMIT as int, COORD_LIMIT as int);
            lemma_mul_abs_bound(
                t as int, ray.direction.z as int, COORD_LIMIT as int, COORD_LIMIT as int);
            lemma_smul_bounded(t as int, ray.direction.x as int, m);
            lemma_smul_bounded(t as int, ray.direction.y as int, m);
            lemma_smul_bounded(t as int, ray.direction.z as int, m);
        }
        let dx = p.x - self.center.x;
        let dy = p.y - self.center.y;
        let dz = p.z - self.center.z;
        let nx = clamp_wide(
            floor_div_i128((dx as i128) * (SCALE as i128), self.radius as i128),
            -NORMAL_LIMIT,
            NORMAL_LIMIT,
        );
        let ny = clamp_wide(
            floor_div_i128((dy as i128) * (SCALE as i128), self.radius as i128),
            -NORMAL_LIMIT,
            NORMAL_LIMIT,
        );
        let nz = clamp_wide(
            floor_div_i128((dz as i128) * (SCALE as i128), self.radius as i128),
            -NORMAL_LIMIT,
            NORMAL_LIMIT,
        );
        Hit::new(t, p, Vec3 { x: nx, y: ny, z: nz })
    }

    /// Analytic intersection over the open interval `(t_min, t_max)`,
    /// exactly as `sphere_hit_spec` states it.
    pub fn hit(&self, ray: &Ray, t_min: i64, t_max: i64) -> (res: Option<Hit>)
        requires
            sphere_wf(self@),
            ray_wf(ray@),
            -COORD_LIMIT <= t_min,
            t_max <= COORD_LIMIT,
        ensures
            opt_hit_view(res) == sphere_hit_spec(self@, ray@, t_min as int, t_max as int),
    {
        let oc = ray.origin.minus(&self.center);
        let a = ray.direction.dot(&ray.direction);
        let b = oc.dot(&ray.direction);
        proof {
            lemma_mul_abs_bound(
                self.radius as int, self.radius as int, COORD_LIMIT as int, COORD_LIMIT as int);
            lemma_smul_bounded(
                self.radius as int, self.radius as int, 250_000_000_000_000_000int);
        }
        let rr = fix_mul(self.radius, self.radius);
        let c = oc.dot(&oc) - rr;
        proof {
            let bb = DOT_BOUND as int;
            let cb = bb + 250_000_000_000_000_000int;
            lemma_mul_abs_bound(b as int, b as int, bb, bb);
            lemma_mul_abs_bound(a as int, c as int, bb, cb);
        }
        let disc: i128 = (b as i128) * (b as i128) - (a as i128) * (c as i128);
        if disc <= 0 {
            return None;
        }
        let sq = isqrt_i128(disc);
        proof {
            assert((sq as int) * (sq as int) <= disc as int);
            assert((sq as int) < 5_000_000_000_000_000_000int) by (nonlinear_arith)
                requires
                    0 <= sq as int,
                    (sq as int) * (sq as int) <= disc as int,
                    (disc as int) < 25_000_000_000_000_000_000_000_000_000_000_000_000int;
        }
        let neg_b: i128 = -(b as i128);
        let num1 = (neg_b - sq) as i64;
        let t1 = floor_div_i128((num1 as i128) * (SCALE as i128), a as i128);
        proof {
            assert(t1 == sdiv(-(b as int) - sq as int, a as int));
        }
        if (t_min as i128) < t1 && t1 < (t_max as i128) {
            let t = t1 as i64;
            return Some(self.make_hit(ray, t));
        }
        let num2 = (neg_b + sq) as i64;
        let t2 = floor_div_i128((num2 as i128) * (SCALE as i128), a as i128);
        proof {
            assert(t2 == sdiv(-(b as int) + sq as int, a as int));
        }
        if (t_min as i128) < t2 && t2 < (t_max as i128) {
            let t = t2 as i64;
            return Some(self.make_hit(ray, t));
        }
        None
    }
}

} // verus!
