use vstd::prelude::*;

verus! {

use vstd::arithmetic::div_mod::{lemma_div_multiples_vanish, lemma_div_of0};
use vstd::arithmetic::mul::lemma_mul_inequality;
use crate::force::{
    force,
    lemma_force_bound,
    lemma_near_field,
    spec_force,
    ForceModel,
    ForceTable,
    FORCE_BOUND,
    PARAM_LIMIT,
};
use crate::math::{
    lemma_sqrt_floor,
    lemma_sqrt_floor_unique,
    lemma_tdiv_magnitude,
    lemma_tdiv_sign,
    mul_div,
    tdiv,
    SCALE,
};
use crate::model::{
    dist2,
    distance,
    sep,
    Particle,
    ParticleType,
    Vec2,
    COORD_LIMIT,
    DIST_LIMIT,
    DT_LIMIT,
    POP_LIMIT,
    VEL_LIMIT,
};

/// Bound on the magnitude of any net acceleration component `step` computes.
pub const ACCEL_BOUND: i64 = 40_000_000_000_000_000;

/// Scaled acceleration that the particle at `p` receives from one at `q`:
/// the scalar force times the unit vector from `p` toward `q`, each
/// component's quotient rounded toward zero. Coincident particles give no
/// direction and contribute nothing.
pub open spec fn pair_accel(m: ForceModel, param: int, p: Vec2, q: Vec2) -> (int, int) {
    let d = sep(p, q);
    if d == 0 {
        (0, 0)
    } else {
        let f = spec_force(m, param, d);
        (tdiv(f * (q.x - p.x), d), tdiv(f * (q.y - p.y), d))
    }
}

/// Net acceleration of particle `i` summed over the first `k` particles,
/// itself excluded.
pub open spec fn net_accel_upto(
    m: ForceModel,
    t: ForceTable,
    pop: Seq<Particle>,
    i: int,
    k: int,
) -> (int, int)
    decreases k,
{
    if k <= 0 {
        (0, 0)
    } else {
        let rest = net_accel_upto(m, t, pop, i, k - 1);
        if k - 1 == i {
            rest
        } else {
            let c = pair_accel(m, t.spec_param(pop[i].id, pop[k - 1].id), pop[i].p, pop[k - 1].p);
            (rest.0 + c.0, rest.1 + c.1)
        }
    }
}

/// Net acceleration of particle `i` over the whole population, itself
/// excluded by construction.
pub open spec fn net_accel(m: ForceModel, t: ForceTable, pop: Seq<Particle>, i: int) -> (int, int) {
    net_accel_upto(m, t, pop, i, pop.len() as int)
}

/// A population `step` accepts: within the size cap, every position and
/// velocity within the integrator's bounds.
pub open spec fn pop_wf(pop: Seq<Particle>) -> bool {
    &&& pop.len() <= POP_LIMIT
    &&& forall|i: int|
        0 <= i < pop.len() ==> (#[trigger] pop[i]).p.in_bounds(COORD_LIMIT as int)
            && pop[i].v.in_bounds(VEL_LIMIT as int)
}

/// The state of particle `i` after one tick of size `dt`: acceleration set
/// to the net force (unit mass), velocity advanced by it, position advanced
/// by the new velocity.
pub open spec fn spec_step_particle(
    m: ForceModel,
    t: ForceTable,
    pop: Seq<Particle>,
    dt: int,
    i: int,
) -> Particle {
    let before = pop[i];
    let na = net_accel(m, t, pop, i);
    let vx = before.v.x + tdiv(na.0 * dt, SCALE as int);
    let vy = before.v.y + tdiv(na.1 * dt, SCALE as int);
    let px = before.p.x + tdiv(vx * dt, SCALE as int);
    let py = before.p.y + tdiv(vy * dt, SCALE as int);
    Particle {
        p: Vec2 { x: px as i64, y: py as i64 },
        v: Vec2 { x: vx as i64, y: vy as i64 },
        a: Vec2 { x: na.0 as i64, y: na.1 as i64 },
        id: before.id,
    }
}

/// Each pairwise term stays within `FORCE_BOUND` per component.
pub proof fn lemma_pair_accel_bound(m: ForceModel, param: int, p: Vec2, q: Vec2)
    requires
        m.wf(),
        -PARAM_LIMIT <= param <= PARAM_LIMIT,
        p.in_bounds(COORD_LIMIT as int),
        q.in_bounds(COORD_LIMIT as int),
    ensures
        -FORCE_BOUND <= pair_accel(m, param, p, q).0 <= FORCE_BOUND,
        -FORCE_BOUND <= pair_accel(m, param, p, q).1 <= FORCE_BOUND,
{
    let ex = p.x - q.x;
    let ey = p.y - q.y;
    let dx = q.x - p.x;
    let dy = q.y - p.y;
    assert(0 <= ex * ex <= 400_000_000_000_000 && 0 <= ey * ey <= 400_000_000_000_000)
        by (nonlinear_arith)
        requires
            -20_000_000 <= ex <= 20_000_000,
            -20_000_000 <= ey <= 20_000_000,
    ;
    lemma_sqrt_floor(dist2(p, q));
    let d = sep(p, q);
    if d != 0 {
        assert(d <= DIST_LIMIT) by (nonlinear_arith)
            requires
                0 <= d,
                d * d <= 800_000_000_000_000int,
        ;
        lemma_force_bound(m, param, d);
        let f = spec_force(m, param, d);
        assert(-d <= dx <= d) by (nonlinear_arith)
            requires
                ex * ex < (d + 1) * (d + 1),
                dx == -ex,
                0 <= d,
        ;
        assert(-d <= dy <= d) by (nonlinear_arith)
            requires
                ey * ey < (d + 1) * (d + 1),
                dy == -ey,
                0 <= d,
        ;
        assert(-(FORCE_BOUND * d) <= f * dx <= FORCE_BOUND * d) by (nonlinear_arith)
            requires
                -FORCE_BOUND as int <= f <= FORCE_BOUND as int,
                -d <= dx <= d,
                0 < d,
        ;
        assert(-(FORCE_BOUND * d) <= f * dy <= FORCE_BOUND * d) by (nonlinear_arith)
            requires
                -FORCE_BOUND as int <= f <= FORCE_BOUND as int,
                -d <= dy <= d,
                0 < d,
        ;
        lemma_tdiv_magnitude(f * dx, d, FORCE_BOUND as int);
        lemma_tdiv_magnitude(f * dy, d, FORCE_BOUND as int);
    }
}

/// The summed net acceleration over the first `k` particles stays within
/// `k * FORCE_BOUND` per component.
pub proof fn lemma_net_accel_bound(m: ForceModel, t: ForceTable, pop: Seq<Particle>, i: int, k: int)
    requires
        m.wf(),
        t.wf(),
        pop_wf(pop),
        0 <= i < pop.len(),
        0 <= k <= pop.len(),
    ensures
        -(k * FORCE_BOUND) <= net_accel_upto(m, t, pop, i, k).0 <= k * FORCE_BOUND,
        -(k * FORCE_BOUND) <= net_accel_upto(m, t, pop, i, k).1 <= k * FORCE_BOUND,
    decreases k,
{
    if k <= 0 {
    } else {
        lemma_net_accel_bound(m, t, pop, i, k - 1);
        assert(k * FORCE_BOUND == (k - 1) * FORCE_BOUND + FORCE_BOUND) by (nonlinear_arith);
        if k - 1 != i {
            lemma_pair_accel_bound(m, t.spec_param(pop[i].id, pop[k - 1].id), pop[i].p, pop[k - 1].p);
        }
    }
}

/// Advances the whole population by one tick of size `dt`. Every particle's
/// acceleration is rewritten with the net force over all other particles,
/// computed from the state at entry; its velocity advances by that
/// acceleration and its position by the new velocity. Length and type tags
/// never change, and a zero tick leaves every position and velocity exactly
/// as it was.
pub fn step(pop: &mut Vec<Particle>, table: &ForceTable, model: &ForceModel, dt: i64)
    requires
        table.wf(),
        model.wf(),
        pop_wf(old(pop)@),
        0 <= dt <= DT_LIMIT,
    ensures
        final(pop)@.len() == old(pop)@.len(),
        forall|i: int|
            0 <= i < final(pop)@.len() ==> #[trigger] final(pop)@[i] == spec_step_particle(
                *model,
                *table,
                old(pop)@,
                dt as int,
                i,
            ),
        dt == 0 ==> forall|i: int|
            0 <= i < final(pop)@.len() ==> (#[trigger] final(pop)@[i]).p == old(pop)@[i].p
                && final(pop)@[i].v == old(pop)@[i].v && final(pop)@[i].id == old(pop)@[i].id,
{
    let ghost pop0 = pop@;
    let n = pop.len();
    let mut accels: Vec<Vec2> = Vec::new();
    let mut i: usize = 0;
    while i < n
        invariant
            pop@ == pop0,
            n == pop0.len(),
            table.wf(),
            model.wf(),
            pop_wf(pop0),
            i <= n,
            accels@.len() == i,
            forall|k: int|
                0 <= k < i ==> (#[trigger] accels@[k]).x == net_accel(*model, *table, pop0, k).0
                    && accels@[k].y == net_accel(*model, *table, pop0, k).1,
        decreases n - i,
    {
        let mut ax: i64 = 0;
        let mut ay: i64 = 0;
        let mut j: usize = 0;
        while j < n
            invariant
                pop@ == pop0,
                n == pop0.len(),
                table.wf(),
                model.wf(),
                pop_wf(pop0),
                i < n,
                j <= n,
                ax == net_accel_upto(*model, *table, pop0, i as int, j as int).0,
                ay == net_accel_upto(*model, *table, pop0, i as int, j as int).1,
                -((j as int) * FORCE_BOUND) <= ax <= (j as int) * FORCE_BOUND,
                -((j as int) * FORCE_BOUND) <= ay <= (j as int) * FORCE_BOUND,
            decreases n - j,
        {
            proof {
                assert(((j + 1) as int) * FORCE_BOUND == (j as int) * FORCE_BOUND + FORCE_BOUND)
                    by (nonlinear_arith);
            }
            if j != i {
                let pi = pop[i];
                let pj = pop[j];
                let d = distance(pi.p, pj.p);
                if d > 0 {
                    let f = force(table, model, pi.id, pj.id, d);
                    let dx = pj.p.x - pi.p.x;
                    let dy = pj.p.y - pi.p.y;
                    proof {
                        let ex = pi.p.x - pj.p.x;
                        let ey = pi.p.y - pj.p.y;
                        assert(0 <= ey * ey) by (nonlinear_arith);
                        assert(0 <= ex * ex) by (nonlinear_arith);
                        lemma_sqrt_floor(dist2(pi.p, pj.p));
                        assert(-d <= dx <= d) by (nonlinear_arith)
                            requires
                                ex * ex < (d + 1) * (d + 1),
                                dx == -ex,
                                0 <= d,
                        ;
                        assert(-d <= dy <= d) by (nonlinear_arith)
                            requires
                                ey * ey < (d + 1) * (d + 1),
                                dy == -ey,
                                0 <= d,
                        ;
                        assert(-(FORCE_BOUND * d) <= f * dx <= FORCE_BOUND * d)
                            by (nonlinear_arith)
                            requires
                                -FORCE_BOUND as int <= f as int <= FORCE_BOUND as int,
                                -(d as int) <= dx as int <= d as int,
                                0 < d,
                        ;
                        assert(-(FORCE_BOUND * d) <= f * dy <= FORCE_BOUND * d)
                            by (nonlinear_arith)
                            requires
                                -FORCE_BOUND as int <= f as int <= FORCE_BOUND as int,
                                -(d as int) <= dy as int <= d as int,
                                0 < d,
                        ;
                        lemma_tdiv_magnitude(f * dx, d as int, FORCE_BOUND as int);
                        lemma_tdiv_magnitude(f * dy, d as int, FORCE_BOUND as int);
                    }
                    let cx = mul_div(f, dx, d as u64);
                    let cy = mul_div(f, dy, d as u64);
                    ax = ax + cx;
                    ay = ay + cy;
                }
            }
            j = j + 1;
        }
        accels.push(Vec2 { x: ax, y: ay });
        i = i + 1;
    }
    let mut k: usize = 0;
    while k < n
        invariant
            n == pop0.len(),
            pop@.len() == n,
            table.wf(),
            model.wf(),
            pop_wf(pop0),
            0 <= dt <= DT_LIMIT,
            accels@.len() == n,
            forall|q: int|
                0 <= q < n ==> (#[trigger] accels@[q]).x == net_accel(*model, *table, pop0, q).0
                    && accels@[q].y == net_accel(*model, *table, pop0, q).1,
            k <= n,
            forall|q: int| k <= q < n ==> #[trigger] pop@[q] == pop0[q],
            forall|q: int|
                0 <= q < k ==> #[trigger] pop@[q] == spec_step_particle(
                    *model,
                    *table,
                    pop0,
                    dt as int,
                    q,
                ),
        decreases n - k,
    {
        let a = accels[k];
        let before = pop[k];
        proof {
            lemma_net_accel_bound(*model, *table, pop0, k as int, n as int);
            lemma_mul_inequality(n as int, POP_LIMIT as int, FORCE_BOUND as int);
            assert(-(ACCEL_BOUND as int) <= a.x <= ACCEL_BOUND as int);
            assert(-(ACCEL_BOUND as int) <= a.y <= ACCEL_BOUND as int);
            assert(-(4_000_000_000_000_000int * 1000) <= a.x * dt <= 4_000_000_000_000_000int
                * 1000) by (nonlinear_arith)
                requires
                    -(ACCEL_BOUND as int) <= a.x as int <= ACCEL_BOUND as int,
                    0 <= dt as int <= 100,
            ;
            assert(-(4_000_000_000_000_000int * 1000) <= a.y * dt <= 4_000_000_000_000_000int
                * 1000) by (nonlinear_arith)
                requires
                    -(ACCEL_BOUND as int) <= a.y as int <= ACCEL_BOUND as int,
                    0 <= dt as int <= 100,
            ;
            lemma_tdiv_magnitude(a.x * dt, SCALE as int, 4_000_000_000_000_000int);
            lemma_tdiv_magnitude(a.y * dt, SCALE as int, 4_000_000_000_000_000int);
        }
        let dvx = mul_div(a.x, dt, SCALE as u64);
        let dvy = mul_div(a.y, dt, SCALE as u64);
        let vx = before.v.x + dvx;
        let vy = before.v.y + dvy;
        proof {
            assert(-(400_100_000_000_000int * 1000) <= vx * dt <= 400_100_000_000_000int * 1000)
                by (nonlinear_arith)
                requires
                    -4_001_000_000_000_000int <= vx as int <= 4_001_000_000_000_000int,
                    0 <= dt as int <= 100,
            ;
            assert(-(400_100_000_000_000int * 1000) <= vy * dt <= 400_100_000_000_000int * 1000)
                by (nonlinear_arith)
                requires
                    -4_001_000_000_000_000int <= vy as int <= 4_001_000_000_000_000int,
                    0 <= dt as int <= 100,
            ;
            lemma_tdiv_magnitude(vx * dt, SCALE as int, 400_100_000_000_000int);
            lemma_tdiv_magnitude(vy * dt, SCALE as int, 400_100_000_000_000int);
        }
        let dpx = mul_div(vx, dt, SCALE as u64);
        let dpy = mul_div(vy, dt, SCALE as u64);
        let px = before.p.x + dpx;
        let py = before.p.y + dpy;
        pop[k] = Particle { p: Vec2 { x: px, y: py }, v: Vec2 { x: vx, y: vy }, a, id: before.id };
        k = k + 1;
    }
}

/// With an all-zero force table, particles at rest and pairwise separated by
/// more than the clamp radius feel no net force, so a tick of any size moves
/// none of them; since the state recurs, this holds tick after tick.
pub proof fn lemma_zero_table_rest(
    m: ForceModel,
    t: ForceTable,
    pop: Seq<Particle>,
    dt: int,
    i: int,
)
    requires
        m.wf(),
        t.wf(),
        pop_wf(pop),
        forall|a: ParticleType, b: ParticleType| #[trigger] t.spec_param(a, b) == 0,
        forall|k: int| 0 <= k < pop.len() ==> (#[trigger] pop[k]).v == Vec2::spec_zero(),
        forall|k: int, l: int|
            0 <= k < pop.len() && 0 <= l < pop.len() && k != l ==> sep(
                (#[trigger] pop[k]).p,
                (#[trigger] pop[l]).p,
            ) > m.min_distance,
        0 <= i < pop.len(),
    ensures
        net_accel(m, t, pop, i) == (0int, 0int),
        spec_step_particle(m, t, pop, dt, i).p == pop[i].p,
        spec_step_particle(m, t, pop, dt, i).v == pop[i].v,
{
    lemma_net_accel_zero_upto(m, t, pop, i, pop.len() as int);
    let na = net_accel(m, t, pop, i);
    assert(na.0 * dt == 0) by (nonlinear_arith)
        requires
            na.0 == 0,
    ;
    assert(na.1 * dt == 0) by (nonlinear_arith)
        requires
            na.1 == 0,
    ;
    lemma_div_of0(SCALE as int);
    let vx = pop[i].v.x + tdiv(na.0 * dt, SCALE as int);
    assert(vx == 0);
    assert(vx * dt == 0) by (nonlinear_arith)
        requires
            vx == 0,
    ;
    let vy = pop[i].v.y + tdiv(na.1 * dt, SCALE as int);
    assert(vy * dt == 0) by (nonlinear_arith)
        requires
            vy == 0,
    ;
}

/// The crowded half of the inert-table law, in the form it holds in this
/// integer model: a pair sharing a horizontal line, within the near-field
/// clamp of each other, at rest or already moving apart, never moves closer
/// over a tick; its velocities keep pointing apart and it stays on its line,
/// so applying ticks one after the other separates the pair monotonically.
pub proof fn lemma_clamped_pair_separates(m: ForceModel, t: ForceTable, pop: Seq<Particle>, dt: int)
    requires
        m.wf(),
        t.wf(),
        pop_wf(pop),
        pop.len() == 2,
        pop[0].p.y == pop[1].p.y,
        pop[0].p.x < pop[1].p.x,
        pop[0].v.y == 0,
        pop[1].v.y == 0,
        pop[0].v.x <= 0,
        pop[1].v.x >= 0,
        sep(pop[0].p, pop[1].p) <= m.min_distance,
        0 <= dt <= DT_LIMIT,
    ensures
        spec_step_particle(m, t, pop, dt, 1).p.x - spec_step_particle(m, t, pop, dt, 0).p.x >= pop[1].p.x
            - pop[0].p.x,
        spec_step_particle(m, t, pop, dt, 0).v.x <= 0,
        spec_step_particle(m, t, pop, dt, 1).v.x >= 0,
        spec_step_particle(m, t, pop, dt, 0).v.y == 0,
        spec_step_particle(m, t, pop, dt, 1).v.y == 0,
        spec_step_particle(m, t, pop, dt, 0).p.y == pop[0].p.y,
        spec_step_particle(m, t, pop, dt, 1).p.y == pop[1].p.y,
{
    let s = pop[1].p.x - pop[0].p.x;
    let ex = pop[0].p.x - pop[1].p.x;
    let ey = pop[0].p.y - pop[1].p.y;
    assert(ex * ex == s * s && ey * ey == 0) by (nonlinear_arith)
        requires
            ex == -s,
            ey == 0,
    ;
    assert(0 <= s * s && s * s < (s + 1) * (s + 1)) by (nonlinear_arith)
        requires
            s >= 1,
    ;
    assert(dist2(pop[0].p, pop[1].p) == s * s);
    assert(dist2(pop[1].p, pop[0].p) == s * s) by {
        let gy = pop[1].p.y - pop[0].p.y;
        assert(gy * gy == 0) by (nonlinear_arith)
            requires
                gy == 0,
        ;
    }
    lemma_sqrt_floor_unique(s * s, s);
    let d = sep(pop[0].p, pop[1].p);
    assert(d == s);
    assert(sep(pop[1].p, pop[0].p) == s);

    let p01 = t.spec_param(pop[0].id, pop[1].id);
    let p10 = t.spec_param(pop[1].id, pop[0].id);
    lemma_near_field(m, p01, d, d);
    let f = spec_force(m, p01, d);
    assert(spec_force(m, p10, d) == f);
    lemma_force_bound(m, p01, d);
    assert(f <= 0);

    // the one pairwise term is the whole net acceleration of either particle
    let c0 = pair_accel(m, p01, pop[0].p, pop[1].p);
    let c1 = pair_accel(m, p10, pop[1].p, pop[0].p);
    assert(net_accel_upto(m, t, pop, 0, 0) == (0int, 0int));
    assert(net_accel_upto(m, t, pop, 1, 0) == (0int, 0int));
    assert(net_accel_upto(m, t, pop, 0, 1) == (0int, 0int));
    assert(net_accel_upto(m, t, pop, 0, 2).0 == c0.0 && net_accel_upto(m, t, pop, 0, 2).1 == c0.1);
    assert(net_accel_upto(m, t, pop, 1, 1).0 == c1.0 && net_accel_upto(m, t, pop, 1, 1).1 == c1.1);
    assert(net_accel_upto(m, t, pop, 1, 2) == net_accel_upto(m, t, pop, 1, 1));
    let na0 = net_accel(m, t, pop, 0);
    let na1 = net_accel(m, t, pop, 1);

    // along the line the term is exactly the force; across it, nothing
    lemma_div_of0(s);
    lemma_div_of0(SCALE as int);
    if f == 0 {
        assert(f * s == 0 && f * (-s) == 0) by (nonlinear_arith)
            requires
                f == 0,
        ;
    } else {
        assert(f * s < 0 && -(f * s) == s * (-f) && f * (-s) == s * (-f)) by (nonlinear_arith)
            requires
                f < 0,
                s >= 1,
        ;
        lemma_div_multiples_vanish(-f, s);
    }
    assert(tdiv(f * s, s) == f);
    assert(tdiv(f * (-s), s) == -f);
    let dy01 = pop[1].p.y - pop[0].p.y;
    assert(f * dy01 == 0 && f * ey == 0) by (nonlinear_arith)
        requires
            dy01 == 0,
            ey == 0,
    ;
    assert(na0.0 == f && na0.1 == 0);
    assert(na1.0 == -f && na1.1 == 0);

    // velocities keep pointing apart, and stay on the line
    assert(f * dt <= 0 && (-f) * dt == -(f * dt)) by (nonlinear_arith)
        requires
            f <= 0,
            dt >= 0,
    ;
    assert(-(4_000_000_000_000int * 1000) <= f * dt <= 4_000_000_000_000int * 1000)
        by (nonlinear_arith)
        requires
            -(FORCE_BOUND as int) <= f <= FORCE_BOUND as int,
            0 <= dt <= 100,
    ;
    lemma_tdiv_sign(f * dt, SCALE as int);
    lemma_tdiv_magnitude(f * dt, SCALE as int, 4_000_000_000_000int);
    lemma_tdiv_magnitude(-(f * dt), SCALE as int, 4_000_000_000_000int);
    let dv0 = tdiv(f * dt, SCALE as int);
    let dv1 = tdiv((-f) * dt, SCALE as int);
    assert(dv1 == -dv0);
    assert(dv0 <= 0 && dv1 >= 0);
    let w0 = pop[0].v.x + dv0;
    let w1 = pop[1].v.x + dv1;
    assert(w0 <= 0 && w1 >= 0);

    // so do the position changes
    assert(w0 * dt <= 0 && w1 * dt >= 0) by (nonlinear_arith)
        requires
            w0 <= 0,
            w1 >= 0,
            dt >= 0,
    ;
    assert(-(500_000_000_000int * 1000) <= w0 * dt <= 500_000_000_000int * 1000
        && -(500_000_000_000int * 1000) <= w1 * dt <= 500_000_000_000int * 1000)
        by (nonlinear_arith)
        requires
            -5_000_000_000_000int <= w0 <= 5_000_000_000_000int,
            -5_000_000_000_000int <= w1 <= 5_000_000_000_000int,
            0 <= dt <= 100,
    ;
    lemma_tdiv_sign(w0 * dt, SCALE as int);
    lemma_tdiv_sign(w1 * dt, SCALE as int);
    lemma_tdiv_magnitude(w0 * dt, SCALE as int, 500_000_000_000int);
    lemma_tdiv_magnitude(w1 * dt, SCALE as int, 500_000_000_000int);

    // across the line nothing ever moves
    assert(na0.1 * dt == 0 && na1.1 * dt == 0) by (nonlinear_arith)
        requires
            na0.1 == 0,
            na1.1 == 0,
    ;
    let wy0 = pop[0].v.y + tdiv(na0.1 * dt, SCALE as int);
    let wy1 = pop[1].v.y + tdiv(na1.1 * dt, SCALE as int);
    assert(wy0 == 0 && wy1 == 0);
    assert(wy0 * dt == 0 && wy1 * dt == 0) by (nonlinear_arith)
        requires
            wy0 == 0,
            wy1 == 0,
    ;
}

/// Induction behind `lemma_zero_table_rest`: every prefix sums to zero,
/// because beyond the clamp radius a zero parameter gives a zero force.
proof fn lemma_net_accel_zero_upto(m: ForceModel, t: ForceTable, pop: Seq<Particle>, i: int, k: int)
    requires
        m.wf(),
        t.wf(),
        pop_wf(pop),
        forall|a: ParticleType, b: ParticleType| #[trigger] t.spec_param(a, b) == 0,
        forall|l: int, r: int|
            0 <= l < pop.len() && 0 <= r < pop.len() && l != r ==> sep(
                (#[trigger] pop[l]).p,
                (#[trigger] pop[r]).p,
            ) > m.min_distance,
        0 <= i < pop.len(),
        0 <= k <= pop.len(),
    ensures
        net_accel_upto(m, t, pop, i, k) == (0int, 0int),
    decreases k,
{
    if k > 0 {
        lemma_net_accel_zero_upto(m, t, pop, i, k - 1);
        if k - 1 != i {
            let d = sep(pop[i].p, pop[k - 1].p);
            assert(d > m.min_distance);
            let az = vstd::math::abs(0) as int;
            let mx = m.max_force as int;
            assert(az * mx == 0) by (nonlinear_arith)
                requires
                    az == 0,
            ;
            lemma_div_of0(SCALE as int);
            let pf = (vstd::math::abs(0) * m.max_force) as int / (SCALE as int);
            assert(pf == 0);
            let dd = vstd::math::abs(d - m.peak_distance) as int;
            assert(dd * pf == 0) by (nonlinear_arith)
                requires
                    pf == 0,
            ;
            lemma_div_of0((m.peak_distance - m.min_distance) as int);
            let fz = spec_force(m, 0, d);
            assert(fz == 0);
            let dx = pop[k - 1].p.x - pop[i].p.x;
            let dy = pop[k - 1].p.y - pop[i].p.y;
            assert(fz * dx == 0) by (nonlinear_arith)
                requires
                    fz == 0,
            ;
            assert(fz * dy == 0) by (nonlinear_arith)
                requires
                    fz == 0,
            ;
            lemma_div_of0(d);
            assert(pair_accel(m, t.spec_param(pop[i].id, pop[k - 1].id), pop[i].p, pop[k - 1].p)
                == (0int, 0int));
        }
    }
}

} // verus!
