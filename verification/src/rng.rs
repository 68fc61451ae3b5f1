//! The random source: a seeded pseudo-random stream and the rejection
//! sampler for points inside the unit ball.
//!
//! The stream itself comes from the rand crate and is trusted only for
//! being a `u64` per draw — nothing about its values is assumed.
//! Everything computed from the draws is verified.

use vstd::prelude::*;
use vstd::arithmetic::div_mod::lemma_mod_division_less_than_divisor;
use rand::rngs::StdRng;
use rand::Rng;
use rand::SeedableRng;
use crate::fixed::SCALE;
use crate::vec3::{v_dot, Vec3};

verus! {

#[verifier::external_type_specification]
#[verifier::external_body]
pub struct ExStdRng(StdRng);

/// How many candidates the unit-ball sampler draws before it falls
/// back to the ball's center.
pub const BALL_TRIES: u32 = 64;

/// An explicitly seeded pseudo-random source, so a render can be
/// reproduced draw for draw.
pub struct RandomSource {
    inner: StdRng,
}

impl RandomSource {
    /// Relies on rand's `StdRng::seed_from_u64`: builds the generator
    /// from the seed. Nothing about the stream is assumed here.
    #[verifier::external_body]
    pub fn from_seed(seed: u64) -> RandomSource {
        RandomSource { inner: StdRng::seed_from_u64(seed) }
    }

    /// Relies on rand's `Rng::next_u64` for one draw of the
    /// stream; no property of the value is assumed.
    #[verifier::external_body]
    fn next_raw(&mut self) -> u64 {
        self.inner.next_u64()
    }

    /// One draw reduced to a fixed-point value in `[0, 1)`.
    pub fn next_unit(&mut self) -> (r: i64)
        ensures
            0 <= r < SCALE,
    {
        let raw = self.next_raw();
        proof {
            lemma_mod_division_less_than_divisor(raw as int, SCALE as int);
        }
        (raw % (SCALE as u64)) as i64
    }

    /// One draw mapped to a fixed-point coordinate in `[-1, 1)`.
    pub fn next_coordinate(&mut self) -> (r: i64)
        ensures
            -SCALE <= r < SCALE,
    {
        2 * self.next_unit() - SCALE
    }
}

/// A point strictly inside the unit ball, by rejection sampling:
/// candidates `2*(rand, rand, rand) - (1, 1, 1)` are drawn until one
/// has fixed-point squared length below one. After `BALL_TRIES`
/// rejections the center of the ball is returned, so the function
/// terminates on every stream yet still yields an interior point.
pub fn random_in_unit_sphere(rng: &mut RandomSource) -> (p: Vec3)
    ensures
        0 <= v_dot(p@, p@) < SCALE,
        -SCALE <= p@.x <= SCALE,
        -SCALE <= p@.y <= SCALE,
        -SCALE <= p@.z <= SCALE,
{
    let mut tries: u32 = 0;
    while tries < BALL_TRIES
        decreases BALL_TRIES - tries,
    {
        let x = rng.next_coordinate();
        let y = rng.next_coordinate();
        let z = rng.next_coordinate();
        let cand = Vec3::new(x, y, z);
        let sq = cand.dot(&cand);
        if sq < SCALE {
            return cand;
        }
        tries = tries + 1;
    }
    let center = Vec3::zero();
    proof {
        assert(crate::fixed::smul(0int, 0int) == 0);
    }
    center
}

} // verus!
