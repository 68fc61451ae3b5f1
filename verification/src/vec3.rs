//! Three-component vectors over fixed-point coordinates.

use vstd::prelude::*;
use crate::fixed::{
    smul, lemma_mul_abs_bound, lemma_smul_bounded, lemma_smul_square_nonneg, COORD_LIMIT,
    DOT_BOUND, HUGE_LIMIT, SCALE, WIDE_LIMIT,
};

verus! {

/// The mathematical model of a vector: three unbounded integers, each
/// counting units of `1/SCALE`.
pub ghost struct V3 {
    pub x: int,
    pub y: int,
    pub z: int,
}

/// Component-wise sum.
pub open spec fn v_add(a: V3, b: V3) -> V3 {
    V3 { x: a.x + b.x, y: a.y + b.y, z: a.z + b.z }
}

/// Component-wise difference.
pub open spec fn v_sub(a: V3, b: V3) -> V3 {
    V3 { x: a.x - b.x, y: a.y - b.y, z: a.z - b.z }
}

/// Every component multiplied by the fixed-point factor `t`.
pub open spec fn v_scale(t: int, v: V3) -> V3 {
    V3 { x: smul(t, v.x), y: smul(t, v.y), z: smul(t, v.z) }
}

/// Fixed-point dot product.
pub open spec fn v_dot(a: V3, b: V3) -> int {
    smul(a.x, b.x) + smul(a.y, b.y) + smul(a.z, b.z)
}

/// All components within the coordinate volume the tracer supports.
pub open spec fn v_in_range(v: V3) -> bool {
    &&& -COORD_LIMIT <= v.x <= COORD_LIMIT
    &&& -COORD_LIMIT <= v.y <= COORD_LIMIT
    &&& -COORD_LIMIT <= v.z <= COORD_LIMIT
}

/// All components within the wider per-operation operand limit.
pub open spec fn v_in_wide(v: V3) -> bool {
    &&& -WIDE_LIMIT <= v.x <= WIDE_LIMIT
    &&& -WIDE_LIMIT <= v.y <= WIDE_LIMIT
    &&& -WIDE_LIMIT <= v.z <= WIDE_LIMIT
}

/// All components small enough that one more sum or difference cannot
/// overflow an `i64`.
pub open spec fn v_in_huge(v: V3) -> bool {
    &&& -HUGE_LIMIT <= v.x <= HUGE_LIMIT
    &&& -HUGE_LIMIT <= v.y <= HUGE_LIMIT
    &&& -HUGE_LIMIT <= v.z <= HUGE_LIMIT
}

/// A point or direction in space, in fixed-point coordinates.
#[derive(Clone, Copy, PartialEq, Eq, Structural, Debug)]
pub struct Vec3 {
    pub x: i64,
    pub y: i64,
    pub z: i64,
}

impl View for Vec3 {
    type V = V3;

    open spec fn view(&self) -> V3 {
        V3 { x: self.x as int, y: self.y as int, z: self.z as int }
    }
}

impl Vec3 {
    pub fn new(x: i64, y: i64, z: i64) -> (r: Vec3)
        ensures
            r@ == (V3 { x: x as int, y: y as int, z: z as int }),
    {
        Vec3 { x, y, z }
    }

    pub fn zero() -> (r: Vec3)
        ensures
            r@ == (V3 { x: 0int, y: 0int, z: 0int }),
    {
        Vec3 { x: 0, y: 0, z: 0 }
    }

    pub fn plus(&self, o: &Vec3) -> (r: Vec3)
        requires
            v_in_huge(self@),
            v_in_huge(o@),
        ensures
            r@ == v_add(self@, o@),
    {
        Vec3 { x: self.x + o.x, y: self.y + o.y, z: self.z + o.z }
    }

    pub fn minus(&self, o: &Vec3) -> (r: Vec3)
        requires
            v_in_huge(self@),
            v_in_huge(o@),
        ensures
            r@ == v_sub(self@, o@),
    {
        Vec3 { x: self.x - o.x, y: self.y - o.y, z: self.z - o.z }
    }

    /// Multiply every component by the fixed-point factor `t`.
    pub fn scaled(&self, t: i64) -> (r: Vec3)
        requires
            v_in_wide(self@),
            -WIDE_LIMIT <= t <= WIDE_LIMIT,
        ensures
            r@ == v_scale(t as int, self@),
    {
        proof {
            lemma_mul_abs_bound(t as int, self.x as int, WIDE_LIMIT as int, WIDE_LIMIT as int);
            lemma_mul_abs_bound(t as int, self.y as int, WIDE_LIMIT as int, WIDE_LIMIT as int);
            lemma_mul_abs_bound(t as int, self.z as int, WIDE_LIMIT as int, WIDE_LIMIT as int);
        }
        Vec3 {
            x: crate::fixed::fix_mul(t, self.x),
            y: crate::fixed::fix_mul(t, self.y),
            z: crate::fixed::fix_mul(t, self.z),
        }
    }

    /// Fixed-point dot product; its magnitude stays below `DOT_BOUND`,
    /// and a vector dotted with itself is never negative.
    pub fn dot(&self, o: &Vec3) -> (r: i64)
        requires
            v_in_wide(self@),
            v_in_wide(o@),
        ensures
            r == v_dot(self@, o@),
            -DOT_BOUND <= r <= DOT_BOUND,
            self@ == o@ ==> 0 <= r,
    {
        proof {
            let w = WIDE_LIMIT as int;
            let m = 1_000_000_000_000_000_000int;
            lemma_mul_abs_bound(self.x as int, o.x as int, w, w);
            lemma_mul_abs_bound(self.y as int, o.y as int, w, w);
            lemma_mul_abs_bound(self.z as int, o.z as int, w, w);
            lemma_smul_bounded(self.x as int, o.x as int, m);
            lemma_smul_bounded(self.y as int, o.y as int, m);
            lemma_smul_bounded(self.z as int, o.z as int, m);
            if self@ == o@ {
                lemma_smul_square_nonneg(self.x as int);
                lemma_smul_square_nonneg(self.y as int);
                lemma_smul_square_nonneg(self.z as int);
            }
        }
        let a = crate::fixed::fix_mul(self.x, o.x);
        let b = crate::fixed::fix_mul(self.y, o.y);
        let c = crate::fixed::fix_mul(self.z, o.z);
        a + b + c
    }
}

} // verus!
