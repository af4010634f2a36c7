use vstd::prelude::*;

verus! {

use crate::math::{sqrt_floor, isqrt};

/// Number of particle types; the force table holds this many rows and columns.
pub const TYPE_COUNT: usize = 2;

/// Largest coordinate magnitude (scaled) that the integrator accepts; keeps
/// every squared distance inside an `i64`.
pub const COORD_LIMIT: i64 = 10_000_000;

/// Largest velocity magnitude per axis (scaled) that the integrator accepts.
pub const VEL_LIMIT: i64 = 1_000_000_000_000;

/// Largest tick size (scaled seconds) that the integrator accepts.
pub const DT_LIMIT: i64 = 100;

/// Largest population the integrator accepts in one call.
pub const POP_LIMIT: usize = 1000;

/// Upper bound on any separation the integrator can see, given `COORD_LIMIT`.
pub const DIST_LIMIT: i64 = 30_000_000;

/// A two-dimensional vector of scaled (milli-unit) coordinates.
#[derive(Clone, Copy, Debug, PartialEq, Eq, Structural)]
pub struct Vec2 {
    pub x: i64,
    pub y: i64,
}

impl Vec2 {
    /// The zero vector.
    pub open spec fn spec_zero() -> Vec2 {
        Vec2 { x: 0, y: 0 }
    }

    pub fn zero() -> (r: Vec2)
        ensures
            r == Vec2::spec_zero(),
    {
        Vec2 { x: 0, y: 0 }
    }

    /// Both components lie within `lim` of the origin.
    pub open spec fn in_bounds(self, lim: int) -> bool {
        &&& -lim <= self.x <= lim
        &&& -lim <= self.y <= lim
    }
}

/// Closed set of particle kinds; purely an index into the force and color
/// tables.
#[derive(Clone, Copy, Debug, PartialEq, Eq, Structural)]
pub enum ParticleType {
    Red,
    Blue,
}

impl ParticleType {
    /// Dense index of the type, always below `TYPE_COUNT`.
    pub open spec fn spec_index(self) -> int {
        match self {
            ParticleType::Red => 0,
            ParticleType::Blue => 1,
        }
    }

    pub fn index(self) -> (r: usize)
        ensures
            r == self.spec_index(),
            r < TYPE_COUNT,
    {
        match self {
            ParticleType::Red => 0,
            ParticleType::Blue => 1,
        }
    }
}

/// One particle: position, velocity, the acceleration computed on the last
/// tick (transient scratch, rewritten by every tick), and its type tag.
#[derive(Clone, Copy, Debug, PartialEq, Eq, Structural)]
pub struct Particle {
    pub p: Vec2,
    pub v: Vec2,
    pub a: Vec2,
    pub id: ParticleType,
}

/// Squared straight-line separation of two positions, in scaled units.
pub open spec fn dist2(p: Vec2, q: Vec2) -> int {
    (p.x - q.x) * (p.x - q.x) + (p.y - q.y) * (p.y - q.y)
}

/// Straight-line separation of two positions, rounded down to a whole
/// scaled unit.
pub open spec fn sep(p: Vec2, q: Vec2) -> int {
    sqrt_floor(dist2(p, q))
}

/// Separation of two in-bounds positions; zero exactly when they coincide.
pub fn distance(p: Vec2, q: Vec2) -> (r: i64)
    requires
        p.in_bounds(COORD_LIMIT as int),
        q.in_bounds(COORD_LIMIT as int),
    ensures
        r == sep(p, q),
        0 <= r <= DIST_LIMIT,
        r == 0 <==> p.x == q.x && p.y == q.y,
{
    let dx: i64 = p.x - q.x;
    let dy: i64 = p.y - q.y;
    proof {
        assert(0 <= dx * dx <= 400_000_000_000_000int) by (nonlinear_arith)
            requires
                -20_000_000 <= dx <= 20_000_000,
        ;
        assert(0 <= dy * dy <= 400_000_000_000_000int) by (nonlinear_arith)
            requires
                -20_000_000 <= dy <= 20_000_000,
        ;
    }
    let d2: u64 = (dx * dx + dy * dy) as u64;
    let r: u64 = isqrt(d2);
    proof {
        assert(r <= 28_284_272) by (nonlinear_arith)
            requires
                0 <= r,
                r * r <= 800_000_000_000_000int,
        ;
        if dx == 0 && dy == 0 {
            assert(dx * dx == 0 && dy * dy == 0) by (nonlinear_arith)
                requires
                    dx == 0,
                    dy == 0,
            ;
        }
        if d2 > 0 {
            assert(r >= 1) by (nonlinear_arith)
                requires
                    (d2 as int) < (r + 1) * (r + 1),
                    d2 >= 1,
                    r >= 0,
            ;
        }
        if dx != 0 {
            assert(dx * dx >= 1) by (nonlinear_arith)
                requires
                    dx != 0,
            ;
        }
        if dy != 0 {
            assert(dy * dy >= 1) by (nonlinear_arith)
                requires
                    dy != 0,
            ;
        }
    }
    r as i64
}

} // verus!
