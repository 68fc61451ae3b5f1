//! The per-pixel sampling driver and whole-image assembly.
//!
//! A pixel is sampled by `samples` jittered camera rays whose colors
//! are averaged and quantized to 8-bit channels; an image is the
//! pixels' byte triples, rows top to bottom, columns left to right,
//! with pixel rows addressed from the image bottom when sampling.

use vstd::prelude::*;
use vstd::arithmetic::div_mod::{lemma_div_is_ordered, lemma_div_pos_is_pos};
use crate::camera::{camera_ray_spec, camera_wf, Camera, CameraV};
use crate::color::{color, color_ok, sky_color_spec};
use crate::fixed::{clip, COORD_LIMIT, HALF, SCALE};
use crate::ray::RayV;
use crate::rng::RandomSource;
use crate::scene::{scene_hit_spec, scene_wf_seq, Scene};
use crate::sphere::{HitV, SphereV};
use crate::vec3::{v_dot, V3};

verus! {

/// Bounce budget of the recursive color evaluation.
pub const BOUNCE_LIMIT: u32 = 50;

/// Largest image extent the driver accepts, per axis.
pub const EXTENT_LIMIT: u32 = 100_000;

/// Largest per-pixel sample count the driver accepts.
pub const SAMPLE_LIMIT: u32 = 1_000_000;

/// `floor(255.99 * c)` after clamping `c` into `[0, 1]`: the 8-bit
/// channel value of a fixed-point channel.
pub open spec fn quantize_spec(c: int) -> int {
    (clip(c, 0, SCALE as int) * 25599) / (100 * (SCALE as int))
}

/// Quantize one channel to a byte, exactly as `quantize_spec` says;
/// clamping first keeps every input in the valid byte range.
pub fn quantize(c: i64) -> (b: u8)
    ensures
        b as int == quantize_spec(c as int),
{
    let cc: i64 = if c < 0 { 0 } else if c > SCALE { SCALE } else { c };
    let num: i64 = cc * 25599;
    proof {
        lemma_div_pos_is_pos(num as int, 100_000_000int);
        lemma_div_is_ordered(num as int, 25_599_000_000int, 100_000_000int);
    }
    let q = num / 100_000_000;
    q as u8
}

/// The viewport coordinate of a sample: `(index + jitter) / extent`
/// in fixed point, with `jitter` in `[0, 1]`.
pub open spec fn sample_coord_spec(index: int, jitter: int, extent: int) -> int {
    (index * (SCALE as int) + jitter) / extent
}

/// Exactly `sample_coord_spec`; the result lies in `[0, 1]`.
pub fn sample_coord(index: u32, jitter: i64, extent: u32) -> (c: i64)
    requires
        0 < extent <= EXTENT_LIMIT,
        index < extent,
        0 <= jitter <= SCALE,
    ensures
        c == sample_coord_spec(index as int, jitter as int, extent as int),
        0 <= c <= SCALE,
{
    proof {
        assert((index as int) * (SCALE as int) <= 100_000_000_000int) by (nonlinear_arith)
            requires
                0 <= index as int <= 100_000,
                SCALE as int == 1_000_000;
        assert(0 <= (index as int) * (SCALE as int)) by (nonlinear_arith)
            requires 0 <= index as int, 0 <= SCALE as int;
    }
    let num: i64 = (index as i64) * (SCALE as i64) + jitter;
    proof {
        let s = SCALE as int;
        let e = extent as int;
        assert(num as int <= e * s) by (nonlinear_arith)
            requires
                num as int == (index as int) * s + jitter,
                index as int <= e - 1,
                jitter <= s,
                0 <= s;
        lemma_div_pos_is_pos(num as int, e);
        lemma_div_is_ordered(num as int, e * s, e);
        vstd::arithmetic::div_mod::lemma_div_multiples_vanish(s, e);
    }
    num / (extent as i64)
}

/// Channel sums of a sequence of sample colors.
pub open spec fn sum_red(cs: Seq<V3>) -> int
    decreases cs.len(),
{
    if cs.len() == 0 {
        0
    } else {
        sum_red(cs.drop_last()) + cs.last().x
    }
}

pub open spec fn sum_green(cs: Seq<V3>) -> int
    decreases cs.len(),
{
    if cs.len() == 0 {
        0
    } else {
        sum_green(cs.drop_last()) + cs.last().y
    }
}

pub open spec fn sum_blue(cs: Seq<V3>) -> int
    decreases cs.len(),
{
    if cs.len() == 0 {
        0
    } else {
        sum_blue(cs.drop_last()) + cs.last().z
    }
}

/// One jittered sample of pixel `(i, j)` (`j` from the image bottom):
/// both drawn jitters lie in `[0, 1)` and the color is an admissible
/// outcome of the color function on the jittered camera ray — exactly
/// the sky gradient when that ray escapes the scene — or black for a
/// degenerate ray direction.
pub open spec fn sample_ok(
    objs: Seq<SphereV>,
    cam: CameraV,
    w: int,
    h: int,
    i: int,
    j: int,
    ju: int,
    jv: int,
    c: V3,
) -> bool {
    let r = camera_ray_spec(cam, sample_coord_spec(i, ju, w), sample_coord_spec(j, jv, h));
    &&& 0 <= ju < SCALE
    &&& 0 <= jv < SCALE
    &&& if v_dot(r.direction, r.direction) > 0 {
        color_ok(objs, r, BOUNCE_LIMIT as nat, c)
    } else {
        c == (V3 { x: 0, y: 0, z: 0 })
    }
}

/// All `n` samples of a pixel are admissible.
pub open spec fn samples_ok(
    objs: Seq<SphereV>,
    cam: CameraV,
    w: int,
    h: int,
    i: int,
    j: int,
    n: int,
    jus: Seq<int>,
    jvs: Seq<int>,
    cs: Seq<V3>,
) -> bool {
    &&& jus.len() == n
    &&& jvs.len() == n
    &&& cs.len() == n
    &&& forall|k: int| 0 <= k < n ==> sample_ok(objs, cam, w, h, i, j, jus[k], jvs[k], #[trigger] cs[k])
}

/// A pixel's byte triple is admissible: for some sequence of drawn
/// jitters and per-sample colors that the color function admits, the
/// floor-averaged channels quantize to exactly these bytes.
pub open spec fn pixel_ok(
    objs: Seq<SphereV>,
    cam: CameraV,
    w: int,
    h: int,
    i: int,
    j: int,
    n: int,
    r0: int,
    r1: int,
    r2: int,
) -> bool {
    exists|jus: Seq<int>, jvs: Seq<int>, cs: Seq<V3>|
        #![trigger samples_ok(objs, cam, w, h, i, j, n, jus, jvs, cs)]
        {
            &&& samples_ok(objs, cam, w, h, i, j, n, jus, jvs, cs)
            &&& r0 == quantize_spec(sum_red(cs) / n)
            &&& r1 == quantize_spec(sum_green(cs) / n)
            &&& r2 == quantize_spec(sum_blue(cs) / n)
        }
}

/// The byte triple of output row `jj` (from the image top), column
/// `ii`, stands at `3 * (jj * w + ii)` and is admissible for the pixel
/// sampled at image row `h - 1 - jj` from the bottom.
pub open spec fn pixel_bytes_ok(
    res: Seq<u8>,
    objs: Seq<SphereV>,
    cam: CameraV,
    w: int,
    h: int,
    n: int,
    ii: int,
    jj: int,
) -> bool {
    let base = 3 * (jj * w + ii);
    pixel_ok(
        objs, cam, w, h, ii, h - 1 - jj, n,
        res[base] as int, res[base + 1] as int, res[base + 2] as int,
    )
}

/// The ray through the center of pixel `(i, j)`, `j` counted from the
/// image bottom.
pub open spec fn center_ray_spec(cam: CameraV, w: int, h: int, i: int, j: int) -> RayV {
    camera_ray_spec(
        cam,
        sample_coord_spec(i, HALF as int, w),
        sample_coord_spec(j, HALF as int, h),
    )
}

/// What a center-sampled pixel must show when its ray escapes the
/// scene: the sky gradient. A hit pixel (or a degenerate ray) is left
/// unconstrained here, since its color depends on random bounces.
pub open spec fn centered_sky_spec(
    objs: Seq<SphereV>,
    cam: CameraV,
    w: int,
    h: int,
    i: int,
    j: int,
) -> Option<V3> {
    let r = center_ray_spec(cam, w, h, i, j);
    if v_dot(r.direction, r.direction) > 0
        && scene_hit_spec(objs, r, 0, COORD_LIMIT as int) == Option::None::<HitV> {
        Option::Some(sky_color_spec(r))
    } else {
        Option::None
    }
}

/// Byte triples of output row `jj` (from the image top) and column
/// `ii` stand at `3 * (jj * w + ii)`, and must equal the quantized sky
/// color wherever `centered_sky_spec` pins one.
pub open spec fn centered_pixel_ok(
    res: Seq<u8>,
    objs: Seq<SphereV>,
    cam: CameraV,
    w: int,
    h: int,
    ii: int,
    jj: int,
) -> bool {
    match centered_sky_spec(objs, cam, w, h, ii, h - 1 - jj) {
        Option::Some(c) => {
            let base = 3 * (jj * w + ii);
            &&& res[base] == quantize_spec(c.x)
            &&& res[base + 1] == quantize_spec(c.y)
            &&& res[base + 2] == quantize_spec(c.z)
        },
        Option::None => true,
    }
}

/// Where a pixel's center ray escapes the scene, its bytes are a
/// function of scene, camera and resolution alone: any two renders
/// that satisfy `centered_pixel_ok` there carry identical bytes for
/// it. (Pixels whose rays hit the scene depend on the random bounce
/// directions, so nothing is claimed of them here.)
pub proof fn lemma_centered_sky_pixels_agree(
    res1: Seq<u8>,
    res2: Seq<u8>,
    objs: Seq<SphereV>,
    cam: CameraV,
    w: int,
    h: int,
    ii: int,
    jj: int,
)
    requires
        0 <= ii < w,
        0 <= jj < h,
        centered_pixel_ok(res1, objs, cam, w, h, ii, jj),
        centered_pixel_ok(res2, objs, cam, w, h, ii, jj),
        centered_sky_spec(objs, cam, w, h, ii, h - 1 - jj) != Option::None::<V3>,
    ensures
        res1[3 * (jj * w + ii)] == res2[3 * (jj * w + ii)],
        res1[3 * (jj * w + ii) + 1] == res2[3 * (jj * w + ii) + 1],
        res1[3 * (jj * w + ii) + 2] == res2[3 * (jj * w + ii) + 2],
{
}

/// One center-sampled pixel, quantized. Wherever the center ray
/// escapes the scene the triple is exactly the quantized sky gradient;
/// in every case it is an admissible one-sample pixel (`pixel_ok`).
pub fn center_pixel(
    scene: &Scene,
    cam: &Camera,
    i: u32,
    j: u32,
    width: u32,
    height: u32,
    rng: &mut RandomSource,
) -> (rgb: (u8, u8, u8))
    requires
        scene_wf_seq(scene@),
        camera_wf(cam@),
        0 < width <= EXTENT_LIMIT,
        0 < height <= EXTENT_LIMIT,
        i < width,
        j < height,
    ensures
        ({
            let pinned = centered_sky_spec(
                scene@, cam@, width as int, height as int, i as int, j as int);
            pinned matches Option::Some(c) ==> rgb.0 as int == quantize_spec(c.x)
                && rgb.1 as int == quantize_spec(c.y) && rgb.2 as int == quantize_spec(c.z)
        }),
        pixel_ok(
            scene@, cam@, width as int, height as int, i as int, j as int, 1,
            rgb.0 as int, rgb.1 as int, rgb.2 as int,
        ),
{
    let u = sample_coord(i, HALF, width);
    let v = sample_coord(j, HALF, height);
    let ray = cam.get_ray(u, v);
    let ndd = ray.direction.dot(&ray.direction);
    let c = if ndd > 0 {
        color(&ray, scene, rng, BOUNCE_LIMIT)
    } else {
        crate::vec3::Vec3::zero()
    };
    let rgb = (quantize(c.x), quantize(c.y), quantize(c.z));
    proof {
        let w = width as int;
        let h = height as int;
        assert(sample_ok(
            scene@, cam@, w, h, i as int, j as int, HALF as int, HALF as int, c@,
        ));
        let jus = seq![HALF as int];
        let jvs = seq![HALF as int];
        let cs = seq![c@];
        assert(cs.len() == 1);
        assert(cs.last() == c@);
        assert(cs.drop_last() =~= Seq::<V3>::empty());
        assert(sum_red(Seq::<V3>::empty()) == 0);
        assert(sum_green(Seq::<V3>::empty()) == 0);
        assert(sum_blue(Seq::<V3>::empty()) == 0);
        assert(sum_red(cs) == c@.x);
        assert(sum_green(cs) == c@.y);
        assert(sum_blue(cs) == c@.z);
        vstd::arithmetic::div_mod::lemma_div_multiples_vanish(c@.x, 1);
        vstd::arithmetic::div_mod::lemma_div_multiples_vanish(c@.y, 1);
        vstd::arithmetic::div_mod::lemma_div_multiples_vanish(c@.z, 1);
        assert(samples_ok(scene@, cam@, w, h, i as int, j as int, 1, jus, jvs, cs));
        assert(rgb.0 as int == quantize_spec(sum_red(cs) / 1));
        assert(rgb.1 as int == quantize_spec(sum_green(cs) / 1));
        assert(rgb.2 as int == quantize_spec(sum_blue(cs) / 1));
    }
    rgb
}

/// One multi-sampled pixel: `samples` jittered rays, averaged and
/// quantized. The triple is admissible (`pixel_ok`): for the jitters
/// actually drawn, every sample's color is one the color function
/// admits — exactly the sky gradient where its ray escapes the scene —
/// and the floor-averaged channels quantize to exactly these bytes.
pub fn pixel_color(
    scene: &Scene,
    cam: &Camera,
    i: u32,
    j: u32,
    width: u32,
    height: u32,
    samples: u32,
    rng: &mut RandomSource,
) -> (rgb: (u8, u8, u8))
    requires
        scene_wf_seq(scene@),
        camera_wf(cam@),
        0 < width <= EXTENT_LIMIT,
        0 < height <= EXTENT_LIMIT,
        i < width,
        j < height,
        0 < samples <= SAMPLE_LIMIT,
    ensures
        pixel_ok(
            scene@, cam@, width as int, height as int, i as int, j as int, samples as int,
            rgb.0 as int, rgb.1 as int, rgb.2 as int,
        ),
{
    let mut sx: i64 = 0;
    let mut sy: i64 = 0;
    let mut sz: i64 = 0;
    let mut s: u32 = 0;
    let ghost mut jus: Seq<int> = Seq::empty();
    let ghost mut jvs: Seq<int> = Seq::empty();
    let ghost mut cs: Seq<V3> = Seq::empty();
    while s < samples
        invariant
            scene_wf_seq(scene@),
            camera_wf(cam@),
            0 < width <= EXTENT_LIMIT,
            0 < height <= EXTENT_LIMIT,
            i < width,
            j < height,
            0 < samples <= SAMPLE_LIMIT,
            s <= samples,
            0 <= sx as int <= (s as int) * (SCALE as int),
            0 <= sy as int <= (s as int) * (SCALE as int),
            0 <= sz as int <= (s as int) * (SCALE as int),
            jus.len() == s as int,
            jvs.len() == s as int,
            cs.len() == s as int,
            sx as int == sum_red(cs),
            sy as int == sum_green(cs),
            sz as int == sum_blue(cs),
            forall|k: int| 0 <= k < s as int
                ==> sample_ok(
                    scene@, cam@, width as int, height as int, i as int, j as int,
                    jus[k], jvs[k], #[trigger] cs[k],
                ),
        decreases samples - s,
    {
        let ju = rng.next_unit();
        let jv = rng.next_unit();
        let u = sample_coord(i, ju, width);
        let v = sample_coord(j, jv, height);
        let ray = cam.get_ray(u, v);
        let ndd = ray.direction.dot(&ray.direction);
        let c = if ndd > 0 {
            color(&ray, scene, rng, BOUNCE_LIMIT)
        } else {
            crate::vec3::Vec3::zero()
        };
        proof {
            assert((s as int) * (SCALE as int) + SCALE as int
                == ((s + 1) as int) * (SCALE as int)) by (nonlinear_arith);
            assert(((s + 1) as int) * (SCALE as int) <= (samples as int) * (SCALE as int))
                by (nonlinear_arith)
                requires s as int + 1 <= samples as int, 0 <= SCALE as int;
            assert(sample_ok(
                scene@, cam@, width as int, height as int, i as int, j as int,
                ju as int, jv as int, c@,
            ));
            let prev_jus = jus;
            let prev_jvs = jvs;
            let prev_cs = cs;
            jus = jus.push(ju as int);
            jvs = jvs.push(jv as int);
            cs = cs.push(c@);
            assert(cs.drop_last() =~= prev_cs);
            assert(sum_red(cs) == sum_red(prev_cs) + c@.x);
            assert(sum_green(cs) == sum_green(prev_cs) + c@.y);
            assert(sum_blue(cs) == sum_blue(prev_cs) + c@.z);
            assert forall|k: int| 0 <= k < s as int + 1
                implies sample_ok(
                    scene@, cam@, width as int, height as int, i as int, j as int,
                    jus[k], jvs[k], #[trigger] cs[k],
                ) by {
                if k < s as int {
                    assert(jus[k] == prev_jus[k]);
                    assert(jvs[k] == prev_jvs[k]);
                    assert(cs[k] == prev_cs[k]);
                } else {
                    assert(jus[k] == ju as int);
                    assert(jvs[k] == jv as int);
                    assert(cs[k] == c@);
                }
            }
        }
        sx = sx + c.x;
        sy = sy + c.y;
        sz = sz + c.z;
        s = s + 1;
    }
    let avg_x = sx / (samples as i64);
    let avg_y = sy / (samples as i64);
    let avg_z = sz / (samples as i64);
    let rgb = (quantize(avg_x), quantize(avg_y), quantize(avg_z));
    proof {
        let n = samples as int;
        assert(samples_ok(
            scene@, cam@, width as int, height as int, i as int, j as int, n, jus, jvs, cs,
        ));
        assert(rgb.0 as int == quantize_spec(sum_red(cs) / n));
        assert(rgb.1 as int == quantize_spec(sum_green(cs) / n));
        assert(rgb.2 as int == quantize_spec(sum_blue(cs) / n));
    }
    rgb
}

/// Render the whole image with jittered multi-sampling: byte triples,
/// rows top to bottom, pixel `(i, j)` of output row `jj` sampled at
/// image row `height - 1 - jj` from the bottom. Every pixel's triple
/// is admissible (`pixel_bytes_ok`): the quantized floor-average of
/// per-sample colors that the color function admits for the drawn
/// jitters — exactly the quantized sky gradient average wherever the
/// sampled rays escape the scene.
#[verifier::rlimit(100)]
pub fn render_image(
    scene: &Scene,
    cam: &Camera,
    width: u32,
    height: u32,
    samples: u32,
    rng: &mut RandomSource,
) -> (res: Vec<u8>)
    requires
        scene_wf_seq(scene@),
        camera_wf(cam@),
        0 < width <= EXTENT_LIMIT,
        0 < height <= EXTENT_LIMIT,
        0 < samples <= SAMPLE_LIMIT,
        3 * (width as int) * (height as int) <= usize::MAX,
    ensures
        res@.len() == 3 * (width as int) * (height as int),
        forall|ii: int, jj: int| 0 <= ii < width as int && 0 <= jj < height as int
            ==> #[trigger] pixel_bytes_ok(
                res@, scene@, cam@, width as int, height as int, samples as int, ii, jj),
{
    let mut out: Vec<u8> = Vec::new();
    let mut jj: u32 = 0;
    while jj < height
        invariant
            scene_wf_seq(scene@),
            camera_wf(cam@),
            0 < width <= EXTENT_LIMIT,
            0 < height <= EXTENT_LIMIT,
            0 < samples <= SAMPLE_LIMIT,
            3 * (width as int) * (height as int) <= usize::MAX,
            jj <= height,
            out@.len() == 3 * (jj as int) * (width as int),
            forall|i0: int, j0: int| 0 <= i0 < width as int && 0 <= j0 < jj as int
                ==> #[trigger] pixel_bytes_ok(
                    out@, scene@, cam@, width as int, height as int, samples as int, i0, j0),
        decreases height - jj,
    {
        let mut ii: u32 = 0;
        while ii < width
            invariant
                scene_wf_seq(scene@),
                camera_wf(cam@),
                0 < width <= EXTENT_LIMIT,
                0 < height <= EXTENT_LIMIT,
                0 < samples <= SAMPLE_LIMIT,
                3 * (width as int) * (height as int) <= usize::MAX,
                jj < height,
                ii <= width,
                out@.len() == 3 * (jj as int) * (width as int) + 3 * (ii as int),
                forall|i0: int, j0: int| 0 <= i0 < width as int && 0 <= j0 < jj as int
                    ==> #[trigger] pixel_bytes_ok(
                        out@, scene@, cam@, width as int, height as int, samples as int,
                        i0, j0),
                forall|i0: int| 0 <= i0 < ii as int
                    ==> #[trigger] pixel_bytes_ok(
                        out@, scene@, cam@, width as int, height as int, samples as int,
                        i0, jj as int),
            decreases width - ii,
        {
            proof {
                assert(3 * (jj as int) * (width as int) + 3 * (ii as int) + 3
                    <= 3 * (width as int) * (height as int)) by (nonlinear_arith)
                    requires
                        0 <= jj as int,
                        (jj as int) < height as int,
                        0 <= ii as int,
                        (ii as int) < width as int,
                        0 < width as int,
                        0 < height as int;
            }
            let ghost old_out = out@;
            let j = height - 1 - jj;
            let rgb = pixel_color(scene, cam, ii, j, width, height, samples, rng);
            out.push(rgb.0);
            out.push(rgb.1);
            out.push(rgb.2);
            proof {
                let w = width as int;
                let h = height as int;
                let n = samples as int;
                assert(out@.len() == old_out.len() + 3);
                assert(old_out.len() == 3 * ((jj as int) * w + ii as int)) by (nonlinear_arith)
                    requires
                        old_out.len() == 3 * (jj as int) * w + 3 * (ii as int);
                assert forall|i0: int, j0: int|
                    0 <= i0 < w && 0 <= j0 < jj as int
                        && pixel_bytes_ok(old_out, scene@, cam@, w, h, n, i0, j0)
                    implies #[trigger] pixel_bytes_ok(out@, scene@, cam@, w, h, n, i0, j0) by {
                    assert(j0 * w + i0 < (jj as int) * w + ii as int) by (nonlinear_arith)
                        requires 0 <= i0 < w, 0 <= j0, j0 + 1 <= jj as int, 0 <= ii as int;
                    assert(3 * (j0 * w + i0) + 2 < old_out.len());
                }
                assert forall|i0: int|
                    0 <= i0 < ii as int
                        && pixel_bytes_ok(old_out, scene@, cam@, w, h, n, i0, jj as int)
                    implies #[trigger] pixel_bytes_ok(out@, scene@, cam@, w, h, n, i0, jj as int)
                    by {
                    assert(3 * ((jj as int) * w + i0) + 2 < old_out.len());
                }
                assert(out@[old_out.len() as int] == rgb.0);
                assert(out@[old_out.len() as int + 1] == rgb.1);
                assert(out@[old_out.len() as int + 2] == rgb.2);
                assert((j as int) == h - 1 - jj as int);
                assert(pixel_bytes_ok(out@, scene@, cam@, w, h, n, ii as int, jj as int));
            }
            ii = ii + 1;
        }
        proof {
            assert(3 * (jj as int) * (width as int) + 3 * (width as int)
                == 3 * ((jj + 1) as int) * (width as int)) by (nonlinear_arith);
        }
        jj = jj + 1;
    }
    proof {
        assert(3 * (height as int) * (width as int) == 3 * (width as int) * (height as int))
            by (nonlinear_arith);
    }
    out
}

/// Render every pixel through its exact center with one sample: fully
/// deterministic wherever rays escape the scene, and pinned there to
/// the quantized sky gradient.
#[verifier::rlimit(100)]
pub fn render_image_centered(
    scene: &Scene,
    cam: &Camera,
    width: u32,
    height: u32,
    rng: &mut RandomSource,
) -> (res: Vec<u8>)
    requires
        scene_wf_seq(scene@),
        camera_wf(cam@),
        0 < width <= EXTENT_LIMIT,
        0 < height <= EXTENT_LIMIT,
        3 * (width as int) * (height as int) <= usize::MAX,
    ensures
        res@.len() == 3 * (width as int) * (height as int),
        forall|ii: int, jj: int| 0 <= ii < width as int && 0 <= jj < height as int
            ==> #[trigger] centered_pixel_ok(
                res@, scene@, cam@, width as int, height as int, ii, jj),
{
    let mut out: Vec<u8> = Vec::new();
    let mut jj: u32 = 0;
    while jj < height
        invariant
            scene_wf_seq(scene@),
            camera_wf(cam@),
            0 < width <= EXTENT_LIMIT,
            0 < height <= EXTENT_LIMIT,
            3 * (width as int) * (height as int) <= usize::MAX,
            jj <= height,
            out@.len() == 3 * (jj as int) * (width as int),
            forall|i0: int, j0: int| 0 <= i0 < width as int && 0 <= j0 < jj as int
                ==> #[trigger] centered_pixel_ok(
                    out@, scene@, cam@, width as int, height as int, i0, j0),
        decreases height - jj,
    {
        let mut ii: u32 = 0;
        while ii < width
            invariant
                scene_wf_seq(scene@),
                camera_wf(cam@),
                0 < width <= EXTENT_LIMIT,
                0 < height <= EXTENT_LIMIT,
                3 * (width as int) * (height as int) <= usize::MAX,
                jj < height,
                ii <= width,
                out@.len() == 3 * (jj as int) * (width as int) + 3 * (ii as int),
                forall|i0: int, j0: int| 0 <= i0 < width as int && 0 <= j0 < jj as int
                    ==> #[trigger] centered_pixel_ok(
                        out@, scene@, cam@, width as int, height as int, i0, j0),
                forall|i0: int| 0 <= i0 < ii as int
                    ==> #[trigger] centered_pixel_ok(
                        out@, scene@, cam@, width as int, height as int, i0, jj as int),
            decreases width - ii,
        {
            proof {
                assert(3 * (jj as int) * (width as int) + 3 * (ii as int) + 3
                    <= 3 * (width as int) * (height as int)) by (nonlinear_arith)
                    requires
                        0 <= jj as int,
                        (jj as int) < height as int,
                        0 <= ii as int,
                        (ii as int) < width as int,
                        0 < width as int,
                        0 < height as int;
            }
            let ghost old_out = out@;
            let j = height - 1 - jj;
            let rgb = center_pixel(scene, cam, ii, j, width, height, rng);
            out.push(rgb.0);
            out.push(rgb.1);
            out.push(rgb.2);
            proof {
                let w = width as int;
                let h = height as int;
                assert(out@.len() == old_out.len() + 3);
                assert(old_out.len() == 3 * ((jj as int) * w + ii as int)) by (nonlinear_arith)
                    requires
                        old_out.len() == 3 * (jj as int) * w + 3 * (ii as int);
                assert forall|i0: int, j0: int|
                    0 <= i0 < w && 0 <= j0 < jj as int
                        && centered_pixel_ok(old_out, scene@, cam@, w, h, i0, j0)
                    implies #[trigger] centered_pixel_ok(out@, scene@, cam@, w, h, i0, j0) by {
                    assert(j0 * w + i0 < (jj as int) * w + ii as int) by (nonlinear_arith)
                        requires 0 <= i0 < w, 0 <= j0, j0 + 1 <= jj as int, 0 <= ii as int;
                    assert(3 * (j0 * w + i0) + 2 < old_out.len());
                }
                assert forall|i0: int|
                    0 <= i0 < ii as int
                        && centered_pixel_ok(old_out, scene@, cam@, w, h, i0, jj as int)
                    implies #[trigger] centered_pixel_ok(out@, scene@, cam@, w, h, i0, jj as int)
                    by {
                    assert(3 * ((jj as int) * w + i0) + 2 < old_out.len());
                }
                assert(out@[old_out.len() as int] == rgb.0);
                assert(out@[old_out.len() as int + 1] == rgb.1);
                assert(out@[old_out.len() as int + 2] == rgb.2);
                assert((j as int) == h - 1 - jj as int);
                assert(centered_pixel_ok(out@, scene@, cam@, w, h, ii as int, jj as int));
            }
            ii = ii + 1;
        }
        proof {
            assert(3 * (jj as int) * (width as int) + 3 * (width as int)
                == 3 * ((jj + 1) as int) * (width as int)) by (nonlinear_arith);
        }
        jj = jj + 1;
    }
    proof {
        assert(3 * (height as int) * (width as int) == 3 * (width as int) * (height as int))
            by (nonlinear_arith);
    }
    out
}

} // verus!
