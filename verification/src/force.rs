use vstd::prelude::*;

verus! {

use vstd::math::abs;
use vstd::arithmetic::div_mod::{
    lemma_div_is_ordered,
    lemma_div_is_ordered_by_denominator,
    lemma_div_multiples_vanish,
    lemma_div_of0,
    lemma_div_plus_one,
    lemma_div_pos_is_pos,
};
use vstd::arithmetic::mul::{lemma_mul_inequality, lemma_mul_is_commutative, lemma_mul_upper_bound};
use crate::math::SCALE;
use crate::model::{DIST_LIMIT, ParticleType, TYPE_COUNT};

/// Default near-field clamp radius (scaled): 5 world units.
pub const MIN_DISTANCE: i64 = 5_000;

/// Default distance of peak attraction or repulsion (scaled): 20 world units.
pub const PEAK_DISTANCE: i64 = 20_000;

/// Default force scale factor (scaled): 100 force units.
pub const MAX_FORCE: i64 = 100_000;

/// Largest force parameter magnitude a table may hold (scaled): 1000.
pub const PARAM_LIMIT: i64 = 1_000_000;

/// Largest force scale factor a model may hold (scaled): 1000.
pub const MAX_FORCE_LIMIT: i64 = 1_000_000;

/// Largest peak distance a model may hold (scaled): 10000 world units.
pub const PEAK_LIMIT: i64 = 10_000_000;

/// Bound on any force value the model can produce for in-range inputs.
pub const FORCE_BOUND: i64 = 40_000_000_000_000;

/// Rejected configuration, detected when a model or a table is built.
#[derive(Clone, Copy, Debug, PartialEq, Eq, Structural)]
pub enum ConfigError {
    /// The distances do not satisfy `0 < min_distance`, or the peak is not at
    /// least one whole unit beyond the clamp radius, or it exceeds `PEAK_LIMIT`.
    InvalidDistances,
    /// The force scale factor is not in `1 ..= MAX_FORCE_LIMIT`.
    InvalidMaxForce,
    /// The table does not hold exactly `TYPE_COUNT * TYPE_COUNT` parameters.
    WrongTableSize,
    /// Some parameter magnitude exceeds `PARAM_LIMIT`.
    ParamOutOfRange,
}

/// The three tunable constants of the force law.
#[derive(Clone, Copy, Debug, PartialEq, Eq, Structural)]
pub struct ForceModel {
    pub min_distance: i64,
    pub peak_distance: i64,
    pub max_force: i64,
}

/// Distances a model accepts: a positive clamp radius, and a peak at least
/// one whole unit beyond it (which keeps the tent's slope denominator away
/// from zero and the force within `FORCE_BOUND`) and within `PEAK_LIMIT`.
pub open spec fn valid_distances(min_distance: int, peak_distance: int) -> bool {
    &&& 0 < min_distance
    &&& min_distance + SCALE <= peak_distance
    &&& peak_distance <= PEAK_LIMIT
}

/// Force scale factors a model accepts.
pub open spec fn valid_max_force(max_force: int) -> bool {
    0 < max_force <= MAX_FORCE_LIMIT
}

impl ForceModel {
    /// A well-formed model: validated distances and scale factor.
    pub open spec fn wf(self) -> bool {
        &&& valid_distances(self.min_distance as int, self.peak_distance as int)
        &&& valid_max_force(self.max_force as int)
    }

    /// Builds a model, rejecting degenerate constants (a peak at or below the
    /// clamp radius would put zero in the tent's slope denominator).
    pub fn new(min_distance: i64, peak_distance: i64, max_force: i64) -> (r: Result<
        ForceModel,
        ConfigError,
    >)
        ensures
            match r {
                Ok(m) => valid_distances(min_distance as int, peak_distance as int)
                    && valid_max_force(max_force as int) && m == (ForceModel {
                    min_distance,
                    peak_distance,
                    max_force,
                }),
                Err(ConfigError::InvalidDistances) => !valid_distances(
                    min_distance as int,
                    peak_distance as int,
                ),
                Err(ConfigError::InvalidMaxForce) => valid_distances(
                    min_distance as int,
                    peak_distance as int,
                ) && !valid_max_force(max_force as int),
                Err(_) => false,
            },
    {
        if min_distance <= 0 || peak_distance > PEAK_LIMIT || min_distance >= peak_distance
            || peak_distance - min_distance < SCALE {
            Err(ConfigError::InvalidDistances)
        } else if max_force <= 0 || max_force > MAX_FORCE_LIMIT {
            Err(ConfigError::InvalidMaxForce)
        } else {
            Ok(ForceModel { min_distance, peak_distance, max_force })
        }
    }

    /// The default model: clamp at 5, peak at 20, scale factor 100.
    pub fn standard() -> (r: ForceModel)
        ensures
            r == (ForceModel {
                min_distance: MIN_DISTANCE,
                peak_distance: PEAK_DISTANCE,
                max_force: MAX_FORCE,
            }),
            r.wf(),
    {
        ForceModel {
            min_distance: MIN_DISTANCE,
            peak_distance: PEAK_DISTANCE,
            max_force: MAX_FORCE,
        }
    }
}

/// The piecewise force law over scaled integers, quotients rounded down.
///
/// At or below the clamp radius the force is the near-field repulsion ramp,
/// independent of the parameter. Beyond it the force is a tent peaking at
/// `peak_distance` with value `param * max_force / SCALE`, falling linearly
/// to zero at the clamp radius and continuing past the peak into negative
/// values; a negative parameter mirrors the tent about zero.
pub open spec fn spec_force(m: ForceModel, param: int, d: int) -> int {
    if d <= m.min_distance {
        d * m.max_force / (m.min_distance as int) - m.max_force
    } else {
        let pf = (abs(param) * m.max_force) as int / (SCALE as int);
        let decay = (abs(d - m.peak_distance) * pf) as int / (m.peak_distance - m.min_distance);
        if param >= 0 {
            pf - decay
        } else {
            decay - pf
        }
    }
}

/// Every force value for in-range inputs stays within `FORCE_BOUND`.
pub proof fn lemma_force_bound(m: ForceModel, param: int, d: int)
    requires
        m.wf(),
        -PARAM_LIMIT <= param <= PARAM_LIMIT,
        0 <= d <= DIST_LIMIT,
    ensures
        -FORCE_BOUND <= spec_force(m, param, d) <= FORCE_BOUND,
{
    if d <= m.min_distance {
        let num = d * (m.max_force as int);
        assert(0 <= d * (m.max_force as int) <= (m.min_distance as int) * (m.max_force as int))
            by (nonlinear_arith)
            requires
                0 <= d <= m.min_distance as int,
                0 < m.max_force as int,
        ;
        lemma_div_pos_is_pos(num, m.min_distance as int);
        lemma_div_is_ordered(num, (m.min_distance as int) * (m.max_force as int), m.min_distance as int);
        lemma_mul_is_commutative(m.min_distance as int, m.max_force as int);
        lemma_div_multiples_vanish(m.max_force as int, m.min_distance as int);
    } else {
        let pf = (abs(param) * m.max_force) as int / (SCALE as int);
        lemma_mul_upper_bound(abs(param) as int, PARAM_LIMIT as int, m.max_force as int, MAX_FORCE_LIMIT as int);
        lemma_div_pos_is_pos((abs(param) * m.max_force) as int, SCALE as int);
        lemma_div_is_ordered(
            (abs(param) * m.max_force) as int,
            1_000_000_000_000,
            SCALE as int,
        );
        assert(0 <= pf <= 1_000_000_000);
        let dd = abs(d - m.peak_distance) as int;
        assert(dd <= 40_000_000);
        lemma_mul_upper_bound(dd, 40_000_000, pf, 1_000_000_000);
        let decay = (dd * pf) as int / (m.peak_distance - m.min_distance);
        assert(0 <= dd * pf) by (nonlinear_arith)
            requires
                0 <= dd,
                0 <= pf,
        ;
        lemma_div_pos_is_pos(dd * pf, m.peak_distance - m.min_distance);
        lemma_div_is_ordered_by_denominator(dd * pf, SCALE as int, m.peak_distance - m.min_distance);
        lemma_div_is_ordered(dd * pf, 40_000_000_000_000_000, SCALE as int);
        assert(0 <= decay <= FORCE_BOUND);
    }
}

impl ForceModel {
    /// Scalar force magnitude for a looked-up parameter at separation `d`.
    pub fn magnitude(&self, param: i64, d: i64) -> (r: i64)
        requires
            self.wf(),
            -PARAM_LIMIT <= param <= PARAM_LIMIT,
            0 <= d <= DIST_LIMIT,
        ensures
            r == spec_force(*self, param as int, d as int),
            -FORCE_BOUND <= r <= FORCE_BOUND,
    {
        proof {
            lemma_force_bound(*self, param as int, d as int);
        }
        if d <= self.min_distance {
            proof {
                assert(0 <= (d as int) * (self.max_force as int) <= (self.min_distance as int) * (
                self.max_force as int)) by (nonlinear_arith)
                    requires
                        0 <= d as int <= self.min_distance as int,
                        0 < self.max_force as int,
                ;
                lemma_mul_upper_bound(
                    self.min_distance as int,
                    PEAK_LIMIT as int,
                    self.max_force as int,
                    MAX_FORCE_LIMIT as int,
                );
            }
            let num: i64 = d * self.max_force;
            let q: u64 = (num as u64) / (self.min_distance as u64);
            proof {
                lemma_div_pos_is_pos(num as int, self.min_distance as int);
                lemma_div_is_ordered(
                    num as int,
                    (self.min_distance as int) * (self.max_force as int),
                    self.min_distance as int,
                );
                lemma_mul_is_commutative(self.min_distance as int, self.max_force as int);
                lemma_div_multiples_vanish(self.max_force as int, self.min_distance as int);
            }
            (q as i64) - self.max_force
        } else {
            let pabs: i64 = if param >= 0 {
                param
            } else {
                -param
            };
            proof {
                lemma_mul_upper_bound(pabs as int, PARAM_LIMIT as int, self.max_force as int, MAX_FORCE_LIMIT as int);
                assert(0 <= (pabs as int) * (self.max_force as int)) by (nonlinear_arith)
                    requires
                        0 <= pabs,
                        0 < self.max_force,
                ;
            }
            let pf: u64 = ((pabs as u64) * (self.max_force as u64)) / (SCALE as u64);
            proof {
                lemma_div_pos_is_pos((pabs as int) * (self.max_force as int), SCALE as int);
                lemma_div_is_ordered(
                    (pabs as int) * (self.max_force as int),
                    1_000_000_000_000,
                    SCALE as int,
                );
            }
            let dd: i64 = if d >= self.peak_distance {
                d - self.peak_distance
            } else {
                self.peak_distance - d
            };
            proof {
                lemma_mul_upper_bound(dd as int, 40_000_000, pf as int, 1_000_000_000);
                assert(0 <= (dd as int) * (pf as int)) by (nonlinear_arith)
                    requires
                        0 <= dd,
                        0 <= pf,
                ;
            }
            let gap: i64 = self.peak_distance - self.min_distance;
            let decay: u64 = ((dd as u64) * pf) / (gap as u64);
            proof {
                lemma_div_pos_is_pos((dd as int) * (pf as int), gap as int);
                lemma_div_is_ordered_by_denominator((dd as int) * (pf as int), SCALE as int, gap as int);
                lemma_div_is_ordered((dd as int) * (pf as int), 40_000_000_000_000_000, SCALE as int);
            }
            let mag: i64 = (pf as i64) - (decay as i64);
            if param >= 0 {
                mag
            } else {
                -mag
            }
        }
    }
}

/// The per-pair force parameters: a dense row-major square table indexed by
/// the ordered pair of type indices, so cross-type asymmetry is preserved.
#[derive(Debug)]
pub struct ForceTable {
    pub params: Vec<i64>,
}

impl ForceTable {
    /// A well-formed table: one bounded parameter for every ordered type pair.
    pub open spec fn wf(self) -> bool {
        &&& self.params@.len() == TYPE_COUNT * TYPE_COUNT
        &&& forall|i: int|
            0 <= i < self.params@.len() ==> -PARAM_LIMIT <= #[trigger] self.params@[i] <= PARAM_LIMIT
    }

    /// The parameter for the ordered pair `(a, b)`: row `a`, column `b`.
    pub open spec fn spec_param(self, a: ParticleType, b: ParticleType) -> int {
        self.params@[a.spec_index() * TYPE_COUNT + b.spec_index()] as int
    }

    /// Builds a table, rejecting a missing or extra entry and any parameter
    /// beyond `PARAM_LIMIT`.
    pub fn new(params: Vec<i64>) -> (r: Result<ForceTable, ConfigError>)
        ensures
            match r {
                Ok(t) => t.wf() && t.params@ == params@,
                Err(ConfigError::WrongTableSize) => params@.len() != TYPE_COUNT * TYPE_COUNT,
                Err(ConfigError::ParamOutOfRange) => params@.len() == TYPE_COUNT * TYPE_COUNT
                    && exists|i: int|
                    0 <= i < params@.len() && !(-PARAM_LIMIT <= #[trigger] params@[i]
                        <= PARAM_LIMIT),
                Err(_) => false,
            },
    {
        if params.len() != TYPE_COUNT * TYPE_COUNT {
            return Err(ConfigError::WrongTableSize);
        }
        let mut i: usize = 0;
        while i < params.len()
            invariant
                i <= params@.len(),
                params@.len() == TYPE_COUNT * TYPE_COUNT,
                forall|j: int| 0 <= j < i ==> -PARAM_LIMIT <= #[trigger] params@[j] <= PARAM_LIMIT,
            decreases params@.len() - i,
        {
            if params[i] < -PARAM_LIMIT || params[i] > PARAM_LIMIT {
                proof {
                    assert(exists|j: int|
                        0 <= j < params@.len() && !(-PARAM_LIMIT <= #[trigger] params@[j]
                            <= PARAM_LIMIT)) by {
                        assert(!(-PARAM_LIMIT <= params@[i as int] <= PARAM_LIMIT));
                    }
                }
                return Err(ConfigError::ParamOutOfRange);
            }
            i = i + 1;
        }
        Ok(ForceTable { params })
    }

    /// Looks the parameter up by row `a` and column `b`.
    pub fn param(&self, a: ParticleType, b: ParticleType) -> (r: i64)
        requires
            self.wf(),
        ensures
            r == self.spec_param(a, b),
            -PARAM_LIMIT <= r <= PARAM_LIMIT,
    {
        let row = a.index();
        let col = b.index();
        self.params[row * TYPE_COUNT + col]
    }
}

/// Near-field clamp law: at or below the clamp radius the force never
/// exceeds zero, is exactly `-max_force` at contact, reaches exactly zero at
/// the clamp radius, never decreases as separation grows, and grows strictly
/// whenever the scale factor is at least the clamp radius. The parameter
/// plays no part below the clamp.
pub proof fn lemma_near_field(m: ForceModel, param: int, d1: int, d2: int)
    requires
        m.wf(),
        0 <= d1 <= d2 <= m.min_distance,
    ensures
        spec_force(m, param, d1) <= spec_force(m, param, d2),
        spec_force(m, param, d2) <= 0,
        d1 == 0 ==> spec_force(m, param, d1) == -m.max_force,
        d2 == m.min_distance ==> spec_force(m, param, d2) == 0,
        m.max_force >= m.min_distance && d1 < d2 ==> spec_force(m, param, d1) < spec_force(
            m,
            param,
            d2,
        ),
{
    let min = m.min_distance as int;
    let max = m.max_force as int;
    lemma_mul_inequality(d1, d2, max);
    lemma_div_is_ordered(d1 * max, d2 * max, min);
    lemma_mul_inequality(d2, min, max);
    lemma_div_is_ordered(d2 * max, min * max, min);
    lemma_mul_is_commutative(min, max);
    lemma_div_multiples_vanish(max, min);
    if d1 == 0 {
        lemma_div_of0(min);
    }
    if m.max_force >= m.min_distance && d1 < d2 {
        lemma_mul_inequality(d1 + 1, d2, max);
        assert((d1 + 1) * max == d1 * max + max) by (nonlinear_arith);
        lemma_div_is_ordered(min + d1 * max, d2 * max, min);
        lemma_div_plus_one(d1 * max, min);
    }
}

/// Rising side of the tent: between the clamp radius and the peak the force
/// of a non-negative parameter never decreases, and at the peak it is exactly
/// `param * max_force / SCALE` — the parameter times the scale factor, in
/// scaled units.
pub proof fn lemma_rise(m: ForceModel, param: int, d1: int, d2: int)
    requires
        m.wf(),
        0 <= param,
        m.min_distance < d1 <= d2 <= m.peak_distance,
    ensures
        spec_force(m, param, d1) <= spec_force(m, param, d2),
        spec_force(m, param, m.peak_distance as int) == param * m.max_force / (SCALE as int),
{
    let max = m.max_force as int;
    let peak = m.peak_distance as int;
    let gap = peak - m.min_distance;
    assert(0 <= param * max) by (nonlinear_arith)
        requires
            0 <= param,
            0 < max,
    ;
    let pf = param * max / (SCALE as int);
    lemma_div_pos_is_pos(param * max, SCALE as int);
    lemma_mul_inequality(peak - d2, peak - d1, pf);
    lemma_div_is_ordered((peak - d2) * pf, (peak - d1) * pf, gap);
    assert(0 * pf == 0) by (nonlinear_arith);
    lemma_div_of0(gap);
}

/// Falling side of the tent: beyond the peak the force of a non-negative
/// parameter never increases.
pub proof fn lemma_fall(m: ForceModel, param: int, d1: int, d2: int)
    requires
        m.wf(),
        0 <= param,
        m.peak_distance <= d1 <= d2,
    ensures
        spec_force(m, param, d1) >= spec_force(m, param, d2),
{
    let max = m.max_force as int;
    let peak = m.peak_distance as int;
    let gap = peak - m.min_distance;
    assert(0 <= param * max) by (nonlinear_arith)
        requires
            0 <= param,
            0 < max,
    ;
    let pf = param * max / (SCALE as int);
    lemma_div_pos_is_pos(param * max, SCALE as int);
    lemma_mul_inequality(d1 - peak, d2 - peak, pf);
    lemma_div_is_ordered((d1 - peak) * pf, (d2 - peak) * pf, gap);
}

/// The tent is symmetric about the peak: one step beyond it loses exactly
/// what one step short of it loses, so the falling slope's magnitude equals
/// the rising slope's, whatever the parameter's sign.
pub proof fn lemma_tent_symmetry(m: ForceModel, param: int, t: int)
    requires
        m.wf(),
        0 <= t,
        m.min_distance < m.peak_distance - t,
    ensures
        spec_force(m, param, m.peak_distance - t) == spec_force(m, param, m.peak_distance + t),
{
    assert(abs((m.peak_distance - t) - m.peak_distance) == abs((m.peak_distance + t)
        - m.peak_distance));
}

/// Scalar force that a particle of type `a` feels from one of type `b` at
/// separation `d`: the looked-up parameter fed through the piecewise law.
pub fn force(table: &ForceTable, model: &ForceModel, a: ParticleType, b: ParticleType, d: i64) -> (r:
    i64)
    requires
        table.wf(),
        model.wf(),
        0 <= d <= DIST_LIMIT,
    ensures
        r == spec_force(*model, table.spec_param(a, b), d as int),
        -FORCE_BOUND <= r <= FORCE_BOUND,
{
    let p = table.param(a, b);
    model.magnitude(p, d)
}

} // verus!

