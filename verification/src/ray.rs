//! Rays: a parametric half-line `origin + t * direction`.

use vstd::prelude::*;
use crate::fixed::{lemma_mul_abs_bound, lemma_smul_bounded, COORD_LIMIT, WIDE_LIMIT};
use crate::vec3::{v_add, v_dot, v_in_range, v_in_wide, v_scale, Vec3, V3};

verus! {

/// Model of a ray: origin and (not necessarily unit) direction.
pub ghost struct RayV {
    pub origin: V3,
    pub direction: V3,
}

/// A ray the tracer accepts: both vectors inside the coordinate volume
/// and a direction whose fixed-point squared length is positive.
pub open spec fn ray_wf(r: RayV) -> bool {
    &&& v_in_range(r.origin)
    &&& v_in_range(r.direction)
    &&& v_dot(r.direction, r.direction) > 0
}

pub struct Ray {
    pub origin: Vec3,
    pub direction: Vec3,
}

impl View for Ray {
    type V = RayV;

    open spec fn view(&self) -> RayV {
        RayV { origin: self.origin@, direction: self.direction@ }
    }
}

impl Ray {
    pub fn new(origin: Vec3, direction: Vec3) -> (r: Ray)
        ensures
            r@ == (RayV { origin: origin@, direction: direction@ }),
    {
        Ray { origin, direction }
    }

    /// The point `origin + t * direction`.
    pub fn point_at_parameter(&self, t: i64) -> (p: Vec3)
        requires
            v_in_wide(self@.origin),
            v_in_wide(self@.direction),
            -WIDE_LIMIT <= t <= WIDE_LIMIT,
        ensures
            p@ == v_add(self@.origin, v_scale(t as int, self@.direction)),
    {
        let step = self.direction.scaled(t);
        proof {
            let w = WIDE_LIMIT as int;
            let m = 1_000_000_000_000_000_000int;
            lemma_mul_abs_bound(t as int, self.direction.x as int, w, w);
            lemma_mul_abs_bound(t as int, self.direction.y as int, w, w);
            lemma_mul_abs_bound(t as int, self.direction.z as int, w, w);
            lemma_smul_bounded(t as int, self.direction.x as int, m);
            lemma_smul_bounded(t as int, self.direction.y as int, m);
            lemma_smul_bounded(t as int, self.direction.z as int, m);
        }
        self.origin.plus(&step)
    }

    /// Runtime check for `ray_wf`, so that unverified callers can
    /// validate a ray before tracing it.
    pub fn well_formed(&self) -> (ok: bool)
        ensures
            ok == ray_wf(self@),
    {
        let o = &self.origin;
        let d = &self.direction;
        if o.x < -COORD_LIMIT || o.x > COORD_LIMIT || o.y < -COORD_LIMIT || o.y > COORD_LIMIT
            || o.z < -COORD_LIMIT || o.z > COORD_LIMIT {
            return false;
        }
        if d.x < -COORD_LIMIT || d.x > COORD_LIMIT || d.y < -COORD_LIMIT || d.y > COORD_LIMIT
            || d.z < -COORD_LIMIT || d.z > COORD_LIMIT {
            return false;
        }
        d.dot(d) > 0
    }
}

} // verus!
