//! The scene: an ordered collection of spheres, searched for the
//! nearest intersection by shrinking the upper end of the interval to
//! the best `t` found so far, so a later sphere can never override a
//! nearer hit with a farther one.

use vstd::prelude::*;
use vstd::arithmetic::div_mod::lemma_div_is_ordered;
use vstd::arithmetic::mul::lemma_mul_inequality;
use crate::fixed::{lemma_sqrt_floor_bounds, sdiv, smul, sqrt_floor, COORD_LIMIT, SCALE};
use crate::ray::{ray_wf, Ray, RayV};
use crate::sphere::{
    opt_hit_view, sphere_hit_spec, sphere_wf, Hit, HitV, Sphere, SphereV, NORMAL_LIMIT,
};
use crate::vec3::{v_dot, v_sub};

verus! {

/// Every sphere of the collection is acceptable.
pub open spec fn scene_wf_seq(objs: Seq<SphereV>) -> bool {
    forall|i: int| 0 <= i < objs.len() ==> sphere_wf(#[trigger] objs[i])
}

/// Nearest hit among the first `n` spheres: each sphere is tested
/// against the interval narrowed to the best `t` seen so far.
pub open spec fn scene_hit_upto(
    objs: Seq<SphereV>,
    r: RayV,
    t_min: int,
    t_max: int,
    n: int,
) -> Option<HitV>
    decreases n,
{
    if n <= 0 {
        Option::None
    } else {
        let prev = scene_hit_upto(objs, r, t_min, t_max, n - 1);
        let bound = match prev {
            Option::Some(h) => h.t,
            Option::None => t_max,
        };
        match sphere_hit_spec(objs[n - 1], r, t_min, bound) {
            Option::Some(h) => Option::Some(h),
            Option::None => prev,
        }
    }
}

/// Nearest hit over the whole collection.
pub open spec fn scene_hit_spec(objs: Seq<SphereV>, r: RayV, t_min: int, t_max: int)
    -> Option<HitV> {
    scene_hit_upto(objs, r, t_min, t_max, objs.len() as int)
}

/// Whatever a sphere reports lies strictly inside the search interval,
/// with its normal within the clamp.
pub proof fn lemma_sphere_hit_some(s: SphereV, r: RayV, t_min: int, t_max: int, h: HitV)
    requires
        sphere_hit_spec(s, r, t_min, t_max) == Option::Some(h),
    ensures
        t_min < h.t < t_max,
        -NORMAL_LIMIT <= h.normal.x <= NORMAL_LIMIT,
        -NORMAL_LIMIT <= h.normal.y <= NORMAL_LIMIT,
        -NORMAL_LIMIT <= h.normal.z <= NORMAL_LIMIT,
{
}

/// The same bounds, for the aggregated search.
pub proof fn lemma_scene_hit_some(
    objs: Seq<SphereV>,
    r: RayV,
    t_min: int,
    t_max: int,
    n: int,
    h: HitV,
)
    requires
        scene_hit_upto(objs, r, t_min, t_max, n) == Option::Some(h),
    ensures
        t_min < h.t < t_max,
        -NORMAL_LIMIT <= h.normal.x <= NORMAL_LIMIT,
        -NORMAL_LIMIT <= h.normal.y <= NORMAL_LIMIT,
        -NORMAL_LIMIT <= h.normal.z <= NORMAL_LIMIT,
    decreases n,
{
    if n <= 0 {
    } else {
        let prev = scene_hit_upto(objs, r, t_min, t_max, n - 1);
        match prev {
            Option::Some(hp) => {
                lemma_scene_hit_some(objs, r, t_min, t_max, n - 1, hp);
                match sphere_hit_spec(objs[n - 1], r, t_min, hp.t) {
                    Option::Some(hc) => {
                        lemma_sphere_hit_some(objs[n - 1], r, t_min, hp.t, hc);
                    },
                    Option::None => {},
                }
            },
            Option::None => {
                match sphere_hit_spec(objs[n - 1], r, t_min, t_max) {
                    Option::Some(hc) => {
                        lemma_sphere_hit_some(objs[n - 1], r, t_min, t_max, hc);
                    },
                    Option::None => {},
                }
            },
        }
    }
}

/// The nearer of a sphere's two roots never exceeds the farther one.
proof fn lemma_roots_ordered(s: SphereV, r: RayV)
    requires
        v_dot(r.direction, r.direction) > 0,
    ensures
        ({
            let oc = v_sub(r.origin, s.center);
            let a = v_dot(r.direction, r.direction);
            let b = v_dot(oc, r.direction);
            let c = v_dot(oc, oc) - smul(s.radius, s.radius);
            let disc = b * b - a * c;
            disc > 0 ==> sdiv(-b - sqrt_floor(disc), a) <= sdiv(-b + sqrt_floor(disc), a)
        }),
{
    let oc = v_sub(r.origin, s.center);
    let a = v_dot(r.direction, r.direction);
    let b = v_dot(oc, r.direction);
    let c = v_dot(oc, oc) - smul(s.radius, s.radius);
    let disc = b * b - a * c;
    if disc > 0 {
        lemma_sqrt_floor_bounds(disc);
        let sq = sqrt_floor(disc);
        lemma_mul_inequality(-b - sq, -b + sq, SCALE as int);
        lemma_div_is_ordered((-b - sq) * (SCALE as int), (-b + sq) * (SCALE as int), a);
    }
}

/// Narrowing the interval down to a bound still above the reported `t`
/// leaves the report unchanged.
proof fn lemma_sphere_hit_narrow_keeps(
    s: SphereV,
    r: RayV,
    t_min: int,
    t_max: int,
    t_cut: int,
    h: HitV,
)
    requires
        ray_wf(r),
        sphere_hit_spec(s, r, t_min, t_max) == Option::Some(h),
        h.t < t_cut <= t_max,
    ensures
        sphere_hit_spec(s, r, t_min, t_cut) == Option::Some(h),
{
    lemma_roots_ordered(s, r);
}

/// Narrowing the interval down to (or past) the reported `t` removes
/// the report entirely.
proof fn lemma_sphere_hit_narrow_drops(
    s: SphereV,
    r: RayV,
    t_min: int,
    t_max: int,
    t_cut: int,
    h: HitV,
)
    requires
        ray_wf(r),
        sphere_hit_spec(s, r, t_min, t_max) == Option::Some(h),
        t_cut <= h.t,
        t_cut <= t_max,
    ensures
        sphere_hit_spec(s, r, t_min, t_cut) == Option::None::<HitV>,
{
    lemma_roots_ordered(s, r);
}

/// Widening the search interval keeps a sphere's report.
proof fn lemma_sphere_hit_widen(
    s: SphereV,
    r: RayV,
    t_min: int,
    bound: int,
    t_max: int,
    h: HitV,
)
    requires
        ray_wf(r),
        sphere_hit_spec(s, r, t_min, bound) == Option::Some(h),
        bound <= t_max,
    ensures
        sphere_hit_spec(s, r, t_min, t_max) == Option::Some(h),
{
    lemma_roots_ordered(s, r);
}

/// The aggregated search misses exactly when every sphere misses the
/// full interval.
proof fn lemma_scene_upto_all_miss(objs: Seq<SphereV>, r: RayV, t_min: int, t_max: int, n: int)
    requires
        0 <= n <= objs.len(),
        scene_hit_upto(objs, r, t_min, t_max, n) == Option::None::<HitV>,
    ensures
        forall|i: int| 0 <= i < n
            ==> #[trigger] sphere_hit_spec(objs[i], r, t_min, t_max) == Option::None::<HitV>,
    decreases n,
{
    if n > 0 {
        let prev = scene_hit_upto(objs, r, t_min, t_max, n - 1);
        assert(prev == Option::None::<HitV>);
        lemma_scene_upto_all_miss(objs, r, t_min, t_max, n - 1);
    }
}

/// A reported hit is some sphere's own full-interval report, and no
/// other sphere's full-interval report is nearer.
proof fn lemma_scene_upto_nearest(
    objs: Seq<SphereV>,
    r: RayV,
    t_min: int,
    t_max: int,
    n: int,
    h: HitV,
)
    requires
        ray_wf(r),
        0 <= n <= objs.len(),
        scene_hit_upto(objs, r, t_min, t_max, n) == Option::Some(h),
    ensures
        exists|i: int| 0 <= i < n
            && #[trigger] sphere_hit_spec(objs[i], r, t_min, t_max) == Option::Some(h),
        forall|i: int| 0 <= i < n ==> match #[trigger] sphere_hit_spec(
            objs[i], r, t_min, t_max,
        ) {
            Option::Some(hi) => hi.t >= h.t,
            Option::None => true,
        },
    decreases n,
{
    let prev = scene_hit_upto(objs, r, t_min, t_max, n - 1);
    match prev {
        Option::Some(hp) => {
            lemma_scene_upto_nearest(objs, r, t_min, t_max, n - 1, hp);
            match sphere_hit_spec(objs[n - 1], r, t_min, hp.t) {
                Option::Some(hc) => {
                    assert(h == hc);
                    lemma_sphere_hit_some(objs[n - 1], r, t_min, hp.t, hc);
                    lemma_sphere_hit_widen(objs[n - 1], r, t_min, hp.t, t_max, hc);
                },
                Option::None => {
                    assert(h == hp);
                    assert forall|i: int| 0 <= i < n implies match #[trigger] sphere_hit_spec(
                        objs[i], r, t_min, t_max,
                    ) {
                        Option::Some(hi) => hi.t >= h.t,
                        Option::None => true,
                    } by {
                        if i == n - 1 {
                            match sphere_hit_spec(objs[i], r, t_min, t_max) {
                                Option::Some(hi) => {
                                    if hi.t < h.t {
                                        lemma_sphere_hit_some(objs[i], r, t_min, t_max, hi);
                                        lemma_sphere_hit_narrow_keeps(
                                            objs[i], r, t_min, t_max, hp.t, hi);
                                    }
                                },
                                Option::None => {},
                            }
                        }
                    }
                },
            }
        },
        Option::None => {
            lemma_scene_upto_all_miss(objs, r, t_min, t_max, n - 1);
            assert(sphere_hit_spec(objs[n - 1], r, t_min, t_max) == Option::Some(h));
        },
    }
}

/// Order-free meaning of the nearest-hit search over the whole scene:
/// it reports a miss exactly when every sphere misses the full
/// interval, and a reported hit is some sphere's own full-interval
/// report with no other sphere reporting a strictly nearer one. Only
/// the nearest `t` is retained, whatever the listing order; listing
/// order can matter only to which of several equally near records is
/// kept.
pub proof fn lemma_scene_hit_nearest(objs: Seq<SphereV>, r: RayV, t_min: int, t_max: int)
    requires
        ray_wf(r),
    ensures
        scene_hit_spec(objs, r, t_min, t_max) == Option::None::<HitV>
            <==> (forall|i: int| 0 <= i < objs.len()
                ==> #[trigger] sphere_hit_spec(objs[i], r, t_min, t_max)
                    == Option::None::<HitV>),
        scene_hit_spec(objs, r, t_min, t_max) matches Option::Some(h)
            ==> (exists|i: int| 0 <= i < objs.len()
                    && #[trigger] sphere_hit_spec(objs[i], r, t_min, t_max)
                        == Option::Some(h))
                && (forall|i: int| 0 <= i < objs.len() ==> match #[trigger] sphere_hit_spec(
                    objs[i], r, t_min, t_max,
                ) {
                    Option::Some(hi) => hi.t >= h.t,
                    Option::None => true,
                }),
{
    let n = objs.len() as int;
    match scene_hit_spec(objs, r, t_min, t_max) {
        Option::None => {
            lemma_scene_upto_all_miss(objs, r, t_min, t_max, n);
        },
        Option::Some(h) => {
            lemma_scene_upto_nearest(objs, r, t_min, t_max, n, h);
            let i0 = choose|i: int| 0 <= i < objs.len()
                && #[trigger] sphere_hit_spec(objs[i], r, t_min, t_max) == Option::Some(h);
            assert(sphere_hit_spec(objs[i0], r, t_min, t_max) != Option::None::<HitV>);
        },
    }
}

/// Nearest-hit aggregation does not depend on the order of the spheres:
/// if one sphere reports the strictly smaller `t`, a two-sphere scene
/// reports that sphere's record whichever way the two are listed.
pub proof fn lemma_two_sphere_order_independent(
    a: SphereV,
    b: SphereV,
    r: RayV,
    t_min: int,
    t_max: int,
    ha: HitV,
    hb: HitV,
)
    requires
        ray_wf(r),
        sphere_hit_spec(a, r, t_min, t_max) == Option::Some(ha),
        sphere_hit_spec(b, r, t_min, t_max) == Option::Some(hb),
        ha.t < hb.t,
    ensures
        scene_hit_spec(seq![a, b], r, t_min, t_max) == Option::Some(ha),
        scene_hit_spec(seq![b, a], r, t_min, t_max) == Option::Some(ha),
{
    lemma_sphere_hit_some(a, r, t_min, t_max, ha);
    lemma_sphere_hit_some(b, r, t_min, t_max, hb);
    let ab = seq![a, b];
    let ba = seq![b, a];
    assert(scene_hit_upto(ab, r, t_min, t_max, 0) == Option::None::<HitV>);
    assert(scene_hit_upto(ab, r, t_min, t_max, 1) == Option::Some(ha));
    lemma_sphere_hit_narrow_drops(b, r, t_min, t_max, ha.t, hb);
    assert(scene_hit_upto(ab, r, t_min, t_max, 2) == Option::Some(ha));
    assert(scene_hit_upto(ba, r, t_min, t_max, 0) == Option::None::<HitV>);
    assert(scene_hit_upto(ba, r, t_min, t_max, 1) == Option::Some(hb));
    lemma_sphere_hit_narrow_keeps(a, r, t_min, t_max, hb.t, ha);
    assert(scene_hit_upto(ba, r, t_min, t_max, 2) == Option::Some(ha));
}

/// An ordered, owning collection of spheres.
pub struct Scene {
    pub objects: Vec<Sphere>,
}

impl View for Scene {
    type V = Seq<SphereV>;

    open spec fn view(&self) -> Seq<SphereV> {
        self.objects@.map_values(|s: Sphere| s@)
    }
}

impl Scene {
    pub fn new(objects: Vec<Sphere>) -> (s: Scene)
        ensures
            s@ == objects@.map_values(|o: Sphere| o@),
    {
        Scene { objects }
    }

    /// Runtime check for `scene_wf_seq`, for unverified callers.
    pub fn well_formed(&self) -> (ok: bool)
        ensures
            ok == scene_wf_seq(self@),
    {
        let n = self.objects.len();
        let mut i: usize = 0;
        while i < n
            invariant
                0 <= i <= n,
                n == self.objects.len(),
                self@ == self.objects@.map_values(|s: Sphere| s@),
                forall|k: int| 0 <= k < i ==> sphere_wf(#[trigger] self@[k]),
            decreases n - i,
        {
            if !self.objects[i].well_formed() {
                assert(self@[i as int] == self.objects@[i as int]@);
                return false;
            }
            assert(self@[i as int] == self.objects@[i as int]@);
            i = i + 1;
        }
        true
    }

    /// Nearest intersection across all spheres, exactly as
    /// `scene_hit_spec` states it.
    pub fn hit(&self, ray: &Ray, t_min: i64, t_max: i64) -> (res: Option<Hit>)
        requires
            scene_wf_seq(self@),
            ray_wf(ray@),
            -COORD_LIMIT <= t_min,
            t_max <= COORD_LIMIT,
        ensures
            opt_hit_view(res) == scene_hit_spec(self@, ray@, t_min as int, t_max as int),
    {
        let mut closest: Option<Hit> = None;
        let mut closest_so_far: i64 = t_max;
        let n = self.objects.len();
        let mut i: usize = 0;
        while i < n
            invariant
                0 <= i <= n,
                n == self.objects.len(),
                self@ == self.objects@.map_values(|s: Sphere| s@),
                scene_wf_seq(self@),
                ray_wf(ray@),
                -COORD_LIMIT <= t_min,
                t_max <= COORD_LIMIT,
                closest_so_far <= t_max,
                opt_hit_view(closest) == scene_hit_upto(self@, ray@, t_min as int, t_max as int, i as int),
                match closest {
                    Option::Some(h) => closest_so_far == h.t && t_min < h.t,
                    Option::None => closest_so_far == t_max,
                },
            decreases n - i,
        {
            assert(self@[i as int] == self.objects@[i as int]@);
            let res = self.objects[i].hit(ray, t_min, closest_so_far);
            match res {
                Some(h) => {
                    proof {
                        lemma_sphere_hit_some(
                            self@[i as int], ray@, t_min as int, closest_so_far as int, h@);
                    }
                    closest_so_far = h.t;
                    closest = Some(h);
                },
                None => {},
            }
            i = i + 1;
        }
        closest
    }
}

} // verus!
