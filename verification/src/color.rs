//! The light-transport color function.
//!
//! A ray is traced against the scene over `(0, COORD_LIMIT)`. On a
//! miss the color is a vertical gradient between white and sky blue,
//! driven by the normalized direction's `y`. On a hit the ray bounces
//! diffusely — toward `normal + random point in the unit ball` — and
//! half of the bounced color is returned. The recursion stops at an
//! explicit depth limit (returning black), so it terminates on every
//! input instead of relying on probabilistic termination. A bounce is
//! cast only from a hit point inside the coordinate volume — the
//! operand range the intersection arithmetic accepts for a ray origin
//! — and only along a non-degenerate direction; a path that leaves the
//! volume, like one that exhausts its depth, ends black.

use vstd::prelude::*;
use vstd::arithmetic::div_mod::{lemma_div_is_ordered, lemma_div_multiples_vanish, lemma_div_pos_is_pos};
use crate::fixed::{
    clip, lemma_mul_abs_bound, lemma_smul_in_unit, lemma_smul_unit_factor,
    lemma_sqrt_floor_unique, sdiv, smul, sqrt_floor, clamp_wide, fix_mul, floor_div_i128,
    isqrt_i128, COORD_LIMIT, HALF, SCALE,
};
use crate::ray::{ray_wf, Ray, RayV};
use crate::rng::{random_in_unit_sphere, RandomSource};
use crate::scene::{lemma_scene_hit_some, scene_hit_spec, scene_wf_seq, Scene};
use crate::sphere::HitV;
use crate::vec3::{v_add, v_dot, v_in_range, Vec3, V3};

verus! {

/// Green channel of the sky's blue endpoint, in fixed point.
pub const SKY_GREEN: i64 = 700_000;

/// Fixed-point length of a vector: the square root of the dot product,
/// rescaled back to fixed point.
pub open spec fn v_len(v: V3) -> int {
    sqrt_floor(v_dot(v, v) * (SCALE as int))
}

/// The normalized direction: each component divided by the length,
/// clamped into `[-1, 1]` (floor rounding can leave a quotient one
/// step past a unit component, so the model clamps).
pub open spec fn v_unit(v: V3) -> V3 {
    let len = v_len(v);
    V3 {
        x: clip(sdiv(v.x, len), -SCALE as int, SCALE as int),
        y: clip(sdiv(v.y, len), -SCALE as int, SCALE as int),
        z: clip(sdiv(v.z, len), -SCALE as int, SCALE as int),
    }
}

/// The sky gradient: blend white `(1,1,1)` toward sky blue
/// `(0.5, 0.7, 1)` by `t = (unit_y + 1) / 2`.
pub open spec fn sky_color_spec(r: RayV) -> V3 {
    let t = (v_unit(r.direction).y + SCALE) / 2;
    V3 {
        x: smul(SCALE - t, SCALE as int) + smul(t, HALF as int),
        y: smul(SCALE - t, SCALE as int) + smul(t, SKY_GREEN as int),
        z: smul(SCALE - t, SCALE as int) + smul(t, SCALE as int),
    }
}

/// All three channels lie in `[0, 1]`.
pub open spec fn color_in_unit(c: V3) -> bool {
    &&& 0 <= c.x <= SCALE
    &&& 0 <= c.y <= SCALE
    &&& 0 <= c.z <= SCALE
}

/// A point strictly inside the unit ball, as the rejection sampler
/// guarantees it.
pub open spec fn in_ball(s: V3) -> bool {
    &&& 0 <= v_dot(s, s) < SCALE
    &&& -SCALE <= s.x <= SCALE
    &&& -SCALE <= s.y <= SCALE
    &&& -SCALE <= s.z <= SCALE
}

/// Every channel halved.
pub open spec fn v_half(c: V3) -> V3 {
    V3 { x: smul(HALF as int, c.x), y: smul(HALF as int, c.y), z: smul(HALF as int, c.z) }
}

/// What the color function may return for a ray, for some sequence of
/// unit-ball draws. A miss is pinned to the sky gradient. A hit with
/// depth left is half the color of the bounced ray
/// `origin = hit point, direction = normal + sample` for some sample
/// inside the unit ball — black only if the hit point leaves the
/// coordinate volume (a ray origin must stay inside it, a machine
/// limit) or the bounce direction degenerates to squared length zero.
/// A hit with the depth budget spent is black.
pub open spec fn color_ok(objs: Seq<crate::sphere::SphereV>, r: RayV, depth: nat, c: V3) -> bool
    decreases depth,
{
    match scene_hit_spec(objs, r, 0, COORD_LIMIT as int) {
        Option::None => c == sky_color_spec(r),
        Option::Some(h) => {
            if depth == 0 {
                c == (V3 { x: 0, y: 0, z: 0 })
            } else {
                exists|s: V3, c2: V3|
                    #![trigger in_ball(s), v_half(c2)]
                    {
                        let nd = v_add(h.normal, s);
                        &&& in_ball(s)
                        &&& if v_in_range(h.p) && v_dot(nd, nd) > 0 {
                            &&& color_ok(
                                objs,
                                RayV { origin: h.p, direction: nd },
                                (depth - 1) as nat,
                                c2,
                            )
                            &&& c == v_half(c2)
                        } else {
                            c == (V3 { x: 0, y: 0, z: 0 })
                        }
                    }
            }
        },
    }
}

impl Vec3 {
    /// The normalized direction, exactly as `v_unit` states it.
    pub fn unit(&self) -> (r: Vec3)
        requires
            v_in_range(self@),
            v_dot(self@, self@) > 0,
        ensures
            r@ == v_unit(self@),
    {
        let d = self.dot(self);
        let n128 = (d as i128) * (SCALE as i128);
        let len = isqrt_i128(n128);
        proof {
            assert(n128 as int >= SCALE as int) by (nonlinear_arith)
                requires
                    n128 as int == (d as int) * (SCALE as int),
                    d as int >= 1,
                    SCALE as int == 1_000_000;
            if len == 0 {
                assert((n128 as int) < 1int * 1int);
                assert(false);
            }
        }
        let ux = clamp_wide(
            floor_div_i128((self.x as i128) * (SCALE as i128), len), -SCALE, SCALE);
        let uy = clamp_wide(
            floor_div_i128((self.y as i128) * (SCALE as i128), len), -SCALE, SCALE);
        let uz = clamp_wide(
            floor_div_i128((self.z as i128) * (SCALE as i128), len), -SCALE, SCALE);
        Vec3 { x: ux, y: uy, z: uz }
    }

    /// Every channel halved: models the 50% energy absorption of a
    /// diffuse bounce.
    pub fn half(&self) -> (r: Vec3)
        requires
            color_in_unit(self@),
        ensures
            r@ == v_half(self@),
            0 <= r@.x <= HALF,
            0 <= r@.y <= HALF,
            0 <= r@.z <= HALF,
    {
        proof {
            lemma_mul_abs_bound(HALF as int, self.x as int, HALF as int, SCALE as int);
            lemma_mul_abs_bound(HALF as int, self.y as int, HALF as int, SCALE as int);
            lemma_mul_abs_bound(HALF as int, self.z as int, HALF as int, SCALE as int);
            lemma_smul_in_unit(HALF as int, self.x as int);
            lemma_smul_in_unit(HALF as int, self.y as int);
            lemma_smul_in_unit(HALF as int, self.z as int);
        }
        Vec3 {
            x: fix_mul(HALF, self.x),
            y: fix_mul(HALF, self.y),
            z: fix_mul(HALF, self.z),
        }
    }
}

/// The sky gradient for a direction, exactly as `sky_color_spec`
/// states it, with all channels in `[0, 1]`.
pub fn sky_color(direction: &Vec3) -> (c: Vec3)
    requires
        v_in_range(direction@),
        v_dot(direction@, direction@) > 0,
    ensures
        forall|o: V3| c@ == sky_color_spec((RayV { origin: o, direction: direction@ })),
        color_in_unit(c@),
{
    let u = direction.unit();
    let t = (u.y + SCALE) / 2;
    proof {
        lemma_div_pos_is_pos(u.y as int + SCALE as int, 2);
        lemma_div_is_ordered(u.y as int + SCALE as int, 2 * (SCALE as int), 2);
        lemma_div_multiples_vanish(SCALE as int, 2);
        assert(0 <= t as int <= SCALE as int);
        lemma_smul_unit_factor(SCALE as int - t as int);
        lemma_smul_unit_factor(t as int);
        lemma_smul_in_unit(t as int, HALF as int);
        lemma_smul_in_unit(t as int, SKY_GREEN as int);
        lemma_smul_in_unit(t as int, SCALE as int);
        lemma_mul_abs_bound(
            SCALE as int - t as int, SCALE as int, SCALE as int, SCALE as int);
        lemma_mul_abs_bound(t as int, HALF as int, SCALE as int, SCALE as int);
        lemma_mul_abs_bound(t as int, SKY_GREEN as int, SCALE as int, SCALE as int);
        lemma_mul_abs_bound(t as int, SCALE as int, SCALE as int, SCALE as int);
    }
    let w = fix_mul(SCALE - t, SCALE);
    let cx = w + fix_mul(t, HALF);
    let cy = w + fix_mul(t, SKY_GREEN);
    let cz = w + fix_mul(t, SCALE);
    Vec3 { x: cx, y: cy, z: cz }
}

/// The color seen along a ray: some admissible outcome of the diffuse
/// recursion (`color_ok`). In particular a miss is exactly the sky
/// gradient, a hit is half the bounced ray's color (black only at
/// depth exhaustion or a degenerate bounce direction), and every
/// channel stays in `[0, 1]`.
pub fn color(ray: &Ray, scene: &Scene, rng: &mut RandomSource, depth: u32) -> (c: Vec3)
    requires
        scene_wf_seq(scene@),
        ray_wf(ray@),
    ensures
        color_in_unit(c@),
        color_ok(scene@, ray@, depth as nat, c@),
        scene_hit_spec(scene@, ray@, 0, COORD_LIMIT as int) == Option::None::<HitV>
            ==> c@ == sky_color_spec(ray@),
        scene_hit_spec(scene@, ray@, 0, COORD_LIMIT as int) != Option::None::<HitV>
            ==> c@.x <= HALF && c@.y <= HALF && c@.z <= HALF,
    decreases depth,
{
    let res = scene.hit(ray, 0, COORD_LIMIT);
    match res {
        None => sky_color(&ray.direction),
        Some(h) => {
            proof {
                lemma_scene_hit_some(
                    scene@, ray@, 0, COORD_LIMIT as int, scene@.len() as int, h@);
            }
            if depth == 0 {
                return Vec3::zero();
            }
            let sample = random_in_unit_sphere(rng);
            let nd = h.normal.plus(&sample);
            let ndd = nd.dot(&nd);
            let p_in_volume = h.p.x >= -COORD_LIMIT && h.p.x <= COORD_LIMIT
                && h.p.y >= -COORD_LIMIT && h.p.y <= COORD_LIMIT && h.p.z >= -COORD_LIMIT
                && h.p.z <= COORD_LIMIT;
            if p_in_volume && ndd > 0 {
                let bounce = Ray::new(h.p, nd);
                let rec = color(&bounce, scene, rng, depth - 1);
                let out = rec.half();
                proof {
                    let s_w = sample@;
                    let c2_w = rec@;
                    assert(in_ball(s_w));
                    assert(out@ == v_half(c2_w));
                    assert(color_ok(
                        scene@,
                        RayV { origin: h.p@, direction: v_add(h.normal@, s_w) },
                        (depth - 1) as nat,
                        c2_w,
                    ));
                    assert(color_ok(scene@, ray@, depth as nat, out@));
                }
                out
            } else {
                let out = Vec3::zero();
                proof {
                    let s_w = sample@;
                    let c2_w = out@;
                    assert(in_ball(s_w));
                    let half_term = v_half(c2_w);
                    assert(color_ok(scene@, ray@, depth as nat, out@));
                }
                out
            }
        },
    }
}

/// The sky gradient at the two vertical extremes: a ray pointing
/// straight up is colored exactly sky blue `(0.5, 0.7, 1)`, one
/// pointing straight down exactly white `(1, 1, 1)`, whatever its
/// origin.
pub proof fn lemma_sky_endpoints(o: V3)
    ensures
        sky_color_spec(RayV { origin: o, direction: V3 { x: 0, y: SCALE as int, z: 0 } })
            == (V3 { x: HALF as int, y: SKY_GREEN as int, z: SCALE as int }),
        sky_color_spec(RayV { origin: o, direction: V3 { x: 0, y: -SCALE as int, z: 0 } })
            == (V3 { x: SCALE as int, y: SCALE as int, z: SCALE as int }),
{
    let s = SCALE as int;
    let up = V3 { x: 0, y: s, z: 0 };
    let down = V3 { x: 0, y: -s, z: 0 };
    assert(smul(0, 0) == 0);
    assert(smul(s, s) == s) by {
        lemma_smul_unit_factor(s);
    }
    assert(smul(-s, -s) == s) by {
        assert((-s) * (-s) == s * s) by (nonlinear_arith);
        lemma_smul_unit_factor(s);
    }
    assert(v_dot(up, up) == s);
    assert(v_dot(down, down) == s);
    lemma_sqrt_floor_unique(s * s, s);
    assert(v_len(up) == s);
    assert(v_len(down) == s);
    assert(sdiv(s, s) == s) by {
        lemma_div_multiples_vanish(s, s);
        assert(s * s == s * s);
    }
    assert(sdiv(-s, s) == -s) by {
        assert((-s) * s == s * (-s)) by (nonlinear_arith);
        lemma_div_multiples_vanish(-s, s);
    }
    assert(v_unit(up).y == s);
    assert(v_unit(down).y == -s);
    assert((s + s) / 2 == s) by {
        lemma_div_multiples_vanish(s, 2);
        assert(s + s == 2 * s);
    }
    assert((-s + s) / 2 == 0);
    lemma_smul_unit_factor(0);
    lemma_smul_unit_factor(s);
    assert(smul(s, HALF as int) == HALF as int) by {
        assert(s * (HALF as int) == (HALF as int) * s) by (nonlinear_arith);
        lemma_smul_unit_factor(HALF as int);
    }
    assert(smul(s, SKY_GREEN as int) == SKY_GREEN as int) by {
        assert(s * (SKY_GREEN as int) == (SKY_GREEN as int) * s) by (nonlinear_arith);
        lemma_smul_unit_factor(SKY_GREEN as int);
    }
    assert(smul(0, HALF as int) == 0);
    assert(smul(0, SKY_GREEN as int) == 0);
    assert(smul(0, s) == 0);
}

} // verus!
