use vstd::prelude::*;

verus! {

use vstd::arithmetic::div_mod::lemma_mod_multiples_basic;
use crate::math::SCALE;
use crate::model::{Particle, ParticleType, Vec2, COORD_LIMIT};

/// Largest spawn region side `emit` accepts, in whole world units; keeps
/// every scaled coordinate within `COORD_LIMIT`.
pub const REGION_LIMIT: u32 = 10_000;

/// Relies on rand::thread_rng and rand::Rng::gen: draws one arbitrary `u32`
/// from the process-wide generator. Nothing is promised of the value.
#[verifier::external_body]
fn random_u32() -> u32 {
    rand::Rng::gen(&mut rand::thread_rng())
}

/// Scatters `count` particles of type `id` over the spawn region
/// `[0, width) × [0, height)`, each position drawn independently at
/// whole-unit resolution (so every stored coordinate is a multiple of
/// `SCALE`), with velocity and acceleration exactly zero.
///
/// The draws come from the process-wide random generator; the contract
/// promises the region, the rest state and the tag of every particle, never
/// a particular scatter.
pub fn emit(count: usize, width: u32, height: u32, id: ParticleType) -> (r: Vec<Particle>)
    requires
        0 < width <= REGION_LIMIT,
        0 < height <= REGION_LIMIT,
    ensures
        r@.len() == count,
        forall|i: int|
            0 <= i < count ==> {
                let q = #[trigger] r@[i];
                &&& q.id == id
                &&& q.v == Vec2::spec_zero()
                &&& q.a == Vec2::spec_zero()
                &&& 0 <= q.p.x < width * SCALE
                &&& 0 <= q.p.y < height * SCALE
                &&& q.p.x % (SCALE as i64) == 0
                &&& q.p.y % (SCALE as i64) == 0
                &&& q.p.in_bounds(COORD_LIMIT as int)
            },
{
    let mut out: Vec<Particle> = Vec::new();
    let mut i: usize = 0;
    while i < count
        invariant
            0 < width <= REGION_LIMIT,
            0 < height <= REGION_LIMIT,
            i <= count,
            out@.len() == i,
            forall|k: int|
                0 <= k < i ==> {
                    let q = #[trigger] out@[k];
                    &&& q.id == id
                    &&& q.v == Vec2::spec_zero()
                    &&& q.a == Vec2::spec_zero()
                    &&& 0 <= q.p.x < width * SCALE
                    &&& 0 <= q.p.y < height * SCALE
                    &&& q.p.x % (SCALE as i64) == 0
                    &&& q.p.y % (SCALE as i64) == 0
                    &&& q.p.in_bounds(COORD_LIMIT as int)
                },
        decreases count - i,
    {
        let rx = random_u32() % width;
        let ry = random_u32() % height;
        let x: i64 = (rx as i64) * SCALE;
        let y: i64 = (ry as i64) * SCALE;
        proof {
            lemma_mod_multiples_basic(rx as int, SCALE as int);
            lemma_mod_multiples_basic(ry as int, SCALE as int);
        }
        out.push(Particle { p: Vec2 { x, y }, v: Vec2::zero(), a: Vec2::zero(), id });
        i = i + 1;
    }
    out
}

} // verus!
