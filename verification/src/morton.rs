//! Three-parameter critical-power model of the rider: peak sustainable power
//! at a given reserve, time to exhaustion at a given power, and the update of
//! the finite anaerobic reserve after riding at a given power for a given
//! duration. Above critical power the reserve depletes linearly; at or below
//! it the reserve recovers exponentially toward capacity.
use vstd::prelude::*;
use crate::fixedpoint::{
    div_ceil, div_floor, div_trunc, lemma_div_ceil_ge_one, lemma_div_ceil_le,
    lemma_div_ceil_nonpos, lemma_div_ceil_ordered, lemma_div_le, lemma_div_nonneg_bound,
    spec_div_ceil, spec_div_trunc, spec_iabs, SCALE,
};
use crate::kinematics::POWER_ABS_LIMIT;

verus! {

/// Largest admitted magnitude of a reserve argument.
pub const RESERVE_ABS_LIMIT: i128 = 1_000_000_000_000_000_000_000_000_000;

/// Largest admitted anaerobic work capacity: one million joules.
pub const CAPACITY_MAX: i128 = 1_000_000_000_000;

/// Largest admitted duration argument.
pub const DURATION_MAX: i128 = 100_000_000_000_000_000;

/// `e^-1` in micro-units.
pub const INV_E_MICRO: i128 = 367_879;

/// Exponents at or below `-EXP_CUTOFF` whole units decay to zero outright.
pub const EXP_CUTOFF: i128 = 64;

/// The three-parameter critical-power rider model.
pub struct RiderModel {
    pub critical_power: i128,
    pub anaerobic_work_capacity: i128,
    pub max_power: i128,
}

impl RiderModel {
    /// Construction-time invariant: powers ordered and within range, a
    /// positive finite capacity.
    pub open spec fn valid(self) -> bool {
        &&& 0 <= self.critical_power <= self.max_power <= POWER_ABS_LIMIT
        &&& 0 < self.anaerobic_work_capacity <= CAPACITY_MAX
    }
}

/// A stock rider: 300 W critical power, 20 kJ anaerobic capacity, 1 kW
/// maximum power.
pub fn default_rider_model() -> (r: RiderModel)
    ensures
        r.critical_power == 300_000_000,
        r.anaerobic_work_capacity == 20_000_000_000,
        r.max_power == 1_000_000_000,
        r.valid(),
{
    RiderModel {
        critical_power: 300_000_000,
        anaerobic_work_capacity: 20_000_000_000,
        max_power: 1_000_000_000,
    }
}

/// Truncated alternating series for `e^-f` on one whole unit, clamped to
/// stay nonnegative.
pub open spec fn spec_exp_series(f: int) -> int {
    let p2 = f * f;
    let p3 = p2 * f;
    let p4 = p3 * f;
    let p5 = p4 * f;
    let raw = (SCALE as int) - f + p2 / 2_000_000 - p3 / 6_000_000_000_000
        + p4 / 24_000_000_000_000_000_000 - p5 / 120_000_000_000_000_000_000_000_000;
    if raw < 0 {
        0
    } else {
        raw
    }
}

/// `k` repeated multiplications by `e^-1`.
pub open spec fn spec_decay(s: int, k: nat) -> int
    decreases k,
{
    if k == 0 {
        s
    } else {
        spec_decay((s * (INV_E_MICRO as int)) / (SCALE as int), (k - 1) as nat)
    }
}

/// `e^x` for a nonpositive fixed-point exponent `x`: series on the
/// fractional part, then one `e^-1` factor per whole unit.
pub open spec fn spec_exp_neg(x: int) -> int {
    let y = -x;
    let k = y / (SCALE as int);
    let f = y % (SCALE as int);
    if k >= EXP_CUTOFF {
        0
    } else {
        spec_decay(spec_exp_series(f), k as nat)
    }
}

pub proof fn lemma_exp_series_bounds(f: int)
    requires
        0 <= f < SCALE,
    ensures
        0 <= spec_exp_series(f) <= SCALE,
        f == 0 ==> spec_exp_series(f) == SCALE,
        f >= 1 ==> spec_exp_series(f) < SCALE,
{
    let p2 = f * f;
    let p4 = p2 * f * f;
    let t2 = p2 / 2_000_000;
    let t4 = p4 / 24_000_000_000_000_000_000;
    let t3 = (p2 * f) / 6_000_000_000_000;
    let t5 = (p4 * f) / 120_000_000_000_000_000_000_000_000;
    assert(0 <= p2 <= 1_000_000_000_000int) by (nonlinear_arith)
        requires 0 <= f < 1_000_000int, p2 == f * f;
    assert(0 <= p2 * f <= 1_000_000_000_000_000_000int) by (nonlinear_arith)
        requires 0 <= f < 1_000_000int, 0 <= p2 <= 1_000_000_000_000int;
    assert(0 <= p4 <= 1_000_000_000_000_000_000_000_000int) by (nonlinear_arith)
        requires
            0 <= f < 1_000_000int,
            0 <= p2 * f <= 1_000_000_000_000_000_000int,
            p4 == p2 * f * f,
    ;
    assert(0 <= p4 * f <= 1_000_000_000_000_000_000_000_000_000_000int) by (nonlinear_arith)
        requires 0 <= f < 1_000_000int, 0 <= p4 <= 1_000_000_000_000_000_000_000_000int;
    lemma_div_nonneg_bound(p2, 2_000_000);
    lemma_div_nonneg_bound(p2 * f, 6_000_000_000_000);
    lemma_div_nonneg_bound(p4, 24_000_000_000_000_000_000);
    lemma_div_nonneg_bound(p4 * f, 120_000_000_000_000_000_000_000_000);
    vstd::arithmetic::div_mod::lemma_fundamental_div_mod(p2, 2_000_000);
    vstd::arithmetic::div_mod::lemma_fundamental_div_mod(p4, 24_000_000_000_000_000_000);
    // Twice the quadratic term and 24 times the quartic term each stay under
    // `f` itself, so the positive terms can never push the series above one.
    assert(2_000_000 * t2 <= p2) by {
        vstd::arithmetic::div_mod::lemma_mod_pos_bound(p2, 2_000_000);
    }
    assert(24_000_000_000_000_000_000 * t4 <= p4) by {
        vstd::arithmetic::div_mod::lemma_mod_pos_bound(p4, 24_000_000_000_000_000_000);
    }
    assert(t2 + t4 <= f && (f >= 1 ==> t2 + t4 < f)) by (nonlinear_arith)
        requires
            2_000_000 * t2 <= p2,
            24_000_000_000_000_000_000 * t4 <= p4,
            p2 == f * f,
            p4 == p2 * f * f,
            0 <= f < 1_000_000int,
            t2 >= 0,
            t4 >= 0,
    ;
    if f == 0 {
        assert(p2 == 0) by (nonlinear_arith) requires p2 == f * f, f == 0;
        assert(spec_exp_series(0) == SCALE) by {
            vstd::arithmetic::div_mod::lemma_basic_div(0, 2_000_000);
            vstd::arithmetic::div_mod::lemma_basic_div(0, 6_000_000_000_000);
            vstd::arithmetic::div_mod::lemma_basic_div(0, 24_000_000_000_000_000_000);
            vstd::arithmetic::div_mod::lemma_basic_div(0, 120_000_000_000_000_000_000_000_000);
        }
    }
}

pub proof fn lemma_decay_bounds(s: int, k: nat)
    requires
        0 <= s <= SCALE,
    ensures
        0 <= spec_decay(s, k) <= s,
        k >= 1 ==> spec_decay(s, k) <= INV_E_MICRO,
    decreases k,
{
    if k >= 1 {
        let s1 = (s * (INV_E_MICRO as int)) / (SCALE as int);
        assert(0 <= s * (INV_E_MICRO as int) <= (SCALE as int) * (INV_E_MICRO as int))
            by (nonlinear_arith)
            requires 0 <= s <= SCALE;
        lemma_div_nonneg_bound(s * (INV_E_MICRO as int), SCALE as int);
        lemma_div_le(s * (INV_E_MICRO as int), SCALE as int, INV_E_MICRO as int);
        assert(s * (INV_E_MICRO as int) <= (SCALE as int) * s) by (nonlinear_arith)
            requires 0 <= s;
        lemma_div_le(s * (INV_E_MICRO as int), SCALE as int, s);
        lemma_decay_bounds(s1, (k - 1) as nat);
    }
}

pub proof fn lemma_exp_neg_bounds(x: int)
    requires
        x <= 0,
    ensures
        0 <= spec_exp_neg(x) <= SCALE,
        x == 0 ==> spec_exp_neg(x) == SCALE,
        x <= -1 ==> spec_exp_neg(x) < SCALE,
{
    let y = -x;
    let k = y / (SCALE as int);
    let f = y % (SCALE as int);
    vstd::arithmetic::div_mod::lemma_fundamental_div_mod(y, SCALE as int);
    vstd::arithmetic::div_mod::lemma_mod_pos_bound(y, SCALE as int);
    lemma_div_nonneg_bound(y, SCALE as int);
    lemma_exp_series_bounds(f);
    if k < EXP_CUTOFF {
        lemma_decay_bounds(spec_exp_series(f), k as nat);
    }
    if x <= -1 {
        if k == 0 {
            assert(f == y);
            assert(f >= 1);
        }
    }
    if x == 0 {
        assert(y == 0);
        assert(k == 0 && f == 0) by {
            vstd::arithmetic::div_mod::lemma_basic_div(0, SCALE as int);
        }
    }
}

/// `e^x` for a nonpositive exponent, in micro-units.
pub fn exp_neg(x: i128) -> (e: i128)
    requires
        -1_000_000_000_000_000_000_000_000_000_000i128 <= x <= 0,
    ensures
        e == spec_exp_neg(x as int),
        0 <= e <= SCALE,
        x == 0 ==> e == SCALE,
        x <= -1 ==> e < SCALE,
{
    proof {
        lemma_exp_neg_bounds(x as int);
    }
    let y: i128 = -x;
    let k: i128 = y / SCALE;
    let f: i128 = y % SCALE;
    proof {
        vstd::arithmetic::div_mod::lemma_fundamental_div_mod(y as int, SCALE as int);
        vstd::arithmetic::div_mod::lemma_mod_pos_bound(y as int, SCALE as int);
        lemma_div_nonneg_bound(y as int, SCALE as int);
        lemma_exp_series_bounds(f as int);
    }
    if k >= EXP_CUTOFF {
        return 0;
    }
    proof {
        assert(0 <= (f as int) * (f as int) <= 1_000_000_000_000int) by (nonlinear_arith)
            requires 0 <= f < 1_000_000int;
    }
    let p2: i128 = f * f;
    proof {
        assert(0 <= (p2 as int) * (f as int) <= 1_000_000_000_000_000_000int) by (nonlinear_arith)
            requires 0 <= f < 1_000_000int, 0 <= p2 <= 1_000_000_000_000i128;
    }
    let p3: i128 = p2 * f;
    proof {
        assert(0 <= (p3 as int) * (f as int) <= 1_000_000_000_000_000_000_000_000int)
            by (nonlinear_arith)
            requires 0 <= f < 1_000_000int, 0 <= p3 <= 1_000_000_000_000_000_000i128;
    }
    let p4: i128 = p3 * f;
    proof {
        assert(0 <= (p4 as int) * (f as int) <= 1_000_000_000_000_000_000_000_000_000_000int)
            by (nonlinear_arith)
            requires 0 <= f < 1_000_000int, 0 <= p4 <= 1_000_000_000_000_000_000_000_000i128;
    }
    let p5: i128 = p4 * f;
    proof {
        lemma_div_nonneg_bound(p2 as int, 2_000_000);
        lemma_div_nonneg_bound(p3 as int, 6_000_000_000_000);
        lemma_div_nonneg_bound(p4 as int, 24_000_000_000_000_000_000);
        lemma_div_nonneg_bound(p5 as int, 120_000_000_000_000_000_000_000_000);
    }
    let raw: i128 = SCALE - f + p2 / 2_000_000 - p3 / 6_000_000_000_000
        + p4 / 24_000_000_000_000_000_000 - p5 / 120_000_000_000_000_000_000_000_000;
    let s0: i128 = if raw < 0 {
        0
    } else {
        raw
    };
    assert(s0 == spec_exp_series(f as int));
    proof {
        lemma_decay_bounds(s0 as int, k as nat);
    }
    let mut s: i128 = s0;
    let mut i: i128 = 0;
    while i < k
        invariant
            0 <= i <= k,
            0 <= s <= SCALE,
            0 <= s0 <= SCALE,
            0 <= k < EXP_CUTOFF,
            spec_decay(s0 as int, k as nat) == spec_decay(s as int, (k - i) as nat),
        decreases k - i,
    {
        proof {
            assert(0 <= (s as int) * (INV_E_MICRO as int)
                <= (SCALE as int) * (INV_E_MICRO as int)) by (nonlinear_arith)
                requires 0 <= s <= SCALE;
            lemma_div_nonneg_bound((s as int) * (INV_E_MICRO as int), SCALE as int);
            lemma_div_le((s as int) * (INV_E_MICRO as int), SCALE as int, INV_E_MICRO as int);
        }
        s = (s * INV_E_MICRO) / SCALE;
        i = i + 1;
    }
    s
}

/// Peak sustainable power at a given reserve: linear interpolation from
/// critical power at an empty reserve to maximum power at a full one.
pub open spec fn spec_max_power(rider: RiderModel, reserve: int) -> int {
    rider.critical_power + spec_div_trunc(
        (rider.max_power - rider.critical_power) * reserve,
        rider.anaerobic_work_capacity as int,
    )
}

/// The peak power the rider can put out at the given anaerobic reserve.
pub fn max_power(rider_model: &RiderModel, current_anaerobic_reserve: i128) -> (p: i128)
    requires
        rider_model.valid(),
        -RESERVE_ABS_LIMIT <= current_anaerobic_reserve <= RESERVE_ABS_LIMIT,
    ensures
        p == spec_max_power(*rider_model, current_anaerobic_reserve as int),
{
    proof {
        assert(spec_iabs(
            ((rider_model.max_power - rider_model.critical_power) as int)
                * (current_anaerobic_reserve as int),
        ) <= 10_000_000_000_000_000_000_000_000_000_000_000_000int) by (nonlinear_arith)
            requires
                0 <= rider_model.max_power - rider_model.critical_power <= POWER_ABS_LIMIT,
                -RESERVE_ABS_LIMIT <= current_anaerobic_reserve <= RESERVE_ABS_LIMIT,
        ;
    }
    let shifted: i128 = div_trunc(
        (rider_model.max_power - rider_model.critical_power) * current_anaerobic_reserve,
        rider_model.anaerobic_work_capacity,
    );
    rider_model.critical_power + shifted
}

/// Time to exhaustion at a given power and reserve; `None` means the power is
/// sustainable indefinitely. Above critical power the closed-form
/// critical-power equation applies: the reserve over the surplus power, plus
/// the fixed negative curvature offset `capacity / (critical - max)`.
pub open spec fn spec_time_to_exhaustion(rider: RiderModel, power: int, reserve: int) -> Option<
    int,
> {
    if power <= rider.critical_power {
        None
    } else {
        Some(
            spec_div_trunc(reserve * (SCALE as int), power - rider.critical_power)
                - spec_div_trunc(
                (rider.anaerobic_work_capacity as int) * (SCALE as int),
                rider.max_power - rider.critical_power,
            ),
        )
    }
}

/// How long the rider can hold `input_power` before the reserve runs out;
/// `None` when the power is at or below critical power.
pub fn time_to_exhaustion(
    rider_model: &RiderModel,
    input_power: i128,
    current_anaerobic_reserve: i128,
) -> (t: Option<i128>)
    requires
        rider_model.valid(),
        rider_model.critical_power < rider_model.max_power,
        -POWER_ABS_LIMIT <= input_power <= POWER_ABS_LIMIT,
        -RESERVE_ABS_LIMIT <= current_anaerobic_reserve <= RESERVE_ABS_LIMIT,
    ensures
        match t {
            Some(v) => spec_time_to_exhaustion(
                *rider_model,
                input_power as int,
                current_anaerobic_reserve as int,
            ) == Some(v as int),
            None => spec_time_to_exhaustion(
                *rider_model,
                input_power as int,
                current_anaerobic_reserve as int,
            ) is None,
        },
        t is None <==> input_power <= rider_model.critical_power,
{
    if input_power <= rider_model.critical_power {
        return None;
    }
    let delta_p: i128 = input_power - rider_model.critical_power;
    proof {
        assert(spec_iabs((current_anaerobic_reserve as int) * (SCALE as int))
            <= 1_000_000_000_000_000_000_000_000_000_000_000int) by (nonlinear_arith)
            requires -RESERVE_ABS_LIMIT <= current_anaerobic_reserve <= RESERVE_ABS_LIMIT;
    }
    let lead: i128 = div_trunc(current_anaerobic_reserve * SCALE, delta_p);
    let offset: i128 = div_trunc(
        rider_model.anaerobic_work_capacity * SCALE,
        rider_model.max_power - rider_model.critical_power,
    );
    Some(lead - offset)
}

/// Reserve after riding at `power` for `duration`: linear depletion above
/// critical power, exponential recovery toward capacity at or below it.
pub open spec fn spec_update_reserve(
    rider: RiderModel,
    power: int,
    duration: int,
    reserve: int,
) -> int {
    let delta_p = power - rider.critical_power;
    if delta_p > 0 {
        reserve - spec_div_trunc(delta_p * duration, SCALE as int)
    } else {
        let exponent = (delta_p * duration) / (rider.anaerobic_work_capacity as int);
        let e = spec_exp_neg(exponent);
        reserve + spec_div_ceil(
            ((rider.anaerobic_work_capacity as int) - reserve) * ((SCALE as int) - e),
            SCALE as int,
        )
    }
}

/// The new anaerobic reserve after riding at `input_power` for `duration`.
pub fn update_anaerobic_reserve(
    rider_model: &RiderModel,
    input_power: i128,
    duration: i128,
    current_anaerobic_reserve: i128,
) -> (r: i128)
    requires
        rider_model.valid(),
        -POWER_ABS_LIMIT <= input_power <= POWER_ABS_LIMIT,
        0 <= duration <= DURATION_MAX,
        -RESERVE_ABS_LIMIT <= current_anaerobic_reserve <= RESERVE_ABS_LIMIT,
    ensures
        r == spec_update_reserve(
            *rider_model,
            input_power as int,
            duration as int,
            current_anaerobic_reserve as int,
        ),
        spec_iabs(r as int) <= spec_iabs(current_anaerobic_reserve as int) + CAPACITY_MAX
            + 2_000_000_000_000_000_000_000,
{
    let delta_p: i128 = input_power - rider_model.critical_power;
    proof {
        assert(spec_iabs((delta_p as int) * (duration as int))
            <= 2_000_000_000_000_000_000_000_000_000int) by (nonlinear_arith)
            requires
                spec_iabs(delta_p as int) <= 2 * POWER_ABS_LIMIT,
                0 <= duration <= DURATION_MAX,
        ;
    }
    if delta_p > 0 {
        let spent: i128 = div_trunc(delta_p * duration, SCALE);
        proof {
            lemma_div_le((delta_p * duration) as int, SCALE as int, 2_000_000_000_000_000_000_000);
        }
        current_anaerobic_reserve - spent
    } else {
        proof {
            assert((delta_p as int) * (duration as int) <= 0) by (nonlinear_arith)
                requires delta_p <= 0, duration >= 0;
        }
        let exponent: i128 = div_floor(delta_p * duration, rider_model.anaerobic_work_capacity);
        assert(exponent <= 0) by {
            vstd::arithmetic::div_mod::lemma_div_is_ordered(
                (delta_p * duration) as int,
                0,
                rider_model.anaerobic_work_capacity as int,
            );
            vstd::arithmetic::div_mod::lemma_basic_div(0, rider_model.anaerobic_work_capacity as int);
        }
        let e: i128 = exp_neg(exponent);
        let gap: i128 = rider_model.anaerobic_work_capacity - current_anaerobic_reserve;
        proof {
            assert(spec_iabs((gap as int) * ((SCALE - e) as int))
                <= 2_000_000_000_000_000_000_000_000_000_000_000int) by (nonlinear_arith)
                requires
                    spec_iabs(gap as int) <= RESERVE_ABS_LIMIT + CAPACITY_MAX,
                    0 <= SCALE - e <= SCALE,
        ;
        }
        let recovered: i128 = div_ceil(gap * (SCALE - e), SCALE);
        proof {
            lemma_gap_recovery_bounded(gap as int, e as int);
        }
        current_anaerobic_reserve + recovered
    }
}

/// The recovery increment never overshoots the gap to capacity, on either
/// side of it.
proof fn lemma_gap_recovery_bounded(gap: int, e: int)
    requires
        0 <= e <= SCALE,
    ensures
        gap >= 0 ==> 0 <= spec_div_ceil(gap * ((SCALE as int) - e), SCALE as int) <= gap,
        gap <= 0 ==> gap <= spec_div_ceil(gap * ((SCALE as int) - e), SCALE as int) <= 0,
{
    let q = (SCALE as int) - e;
    if gap >= 0 {
        assert(0 <= gap * q <= (SCALE as int) * gap) by (nonlinear_arith)
            requires 0 <= q <= SCALE, 0 <= gap;
        lemma_div_ceil_le(gap * q, SCALE as int, gap);
    } else {
        assert((SCALE as int) * gap <= gap * q <= 0) by (nonlinear_arith)
            requires 0 <= q <= SCALE, gap <= 0;
        lemma_div_ceil_nonpos(gap * q, SCALE as int);
        lemma_div_ceil_ordered((SCALE as int) * gap, gap * q, SCALE as int);
        assert((SCALE as int) * gap == gap * (SCALE as int)) by (nonlinear_arith);
        vstd::arithmetic::div_mod::lemma_div_by_multiple(-gap, SCALE as int);
        assert((-gap) * (SCALE as int) == -(gap * (SCALE as int))) by (nonlinear_arith);
    }
}

/// At or below critical power the rider never exhausts, and the reserve
/// moves toward capacity without ever crossing it: it is non-decreasing
/// below capacity (strictly increasing for a positive duration strictly
/// below critical power), non-increasing above capacity, and exactly held
/// at critical power.
pub proof fn lemma_recovery_toward_capacity(
    rider: RiderModel,
    power: int,
    duration: int,
    reserve: int,
)
    requires
        rider.valid(),
        power <= rider.critical_power,
        -POWER_ABS_LIMIT <= power,
        0 <= duration <= DURATION_MAX,
        -RESERVE_ABS_LIMIT <= reserve <= RESERVE_ABS_LIMIT,
    ensures
        spec_time_to_exhaustion(rider, power, reserve) is None,
        reserve <= rider.anaerobic_work_capacity ==> reserve <= spec_update_reserve(
            rider,
            power,
            duration,
            reserve,
        ) <= rider.anaerobic_work_capacity,
        reserve >= rider.anaerobic_work_capacity ==> rider.anaerobic_work_capacity
            <= spec_update_reserve(rider, power, duration, reserve) <= reserve,
        power == rider.critical_power ==> spec_update_reserve(rider, power, duration, reserve)
            == reserve,
        (power < rider.critical_power && duration >= 1 && reserve
            < rider.anaerobic_work_capacity) ==> spec_update_reserve(rider, power, duration, reserve)
            > reserve,
{
    let cap = rider.anaerobic_work_capacity as int;
    let delta_p = power - rider.critical_power;
    let exponent = (delta_p * duration) / cap;
    let e = spec_exp_neg(exponent);
    let gap = cap - reserve;
    assert(delta_p * duration <= 0) by (nonlinear_arith)
        requires delta_p <= 0, duration >= 0;
    vstd::arithmetic::div_mod::lemma_div_is_ordered(delta_p * duration, 0, cap);
    vstd::arithmetic::div_mod::lemma_basic_div(0, cap);
    lemma_exp_neg_bounds(exponent);
    lemma_gap_recovery_bounded(gap, e);
    if power == rider.critical_power {
        assert(delta_p * duration == 0) by (nonlinear_arith)
            requires delta_p == 0;
        assert(exponent == 0) by {
            vstd::arithmetic::div_mod::lemma_basic_div(0, cap);
        }
        assert((SCALE as int) - e == 0);
        assert(gap * 0 == 0) by (nonlinear_arith);
        lemma_div_ceil_nonpos(0, SCALE as int);
    }
    if power < rider.critical_power && duration >= 1 && reserve < cap {
        assert(delta_p * duration <= -1) by (nonlinear_arith)
            requires delta_p <= -1, duration >= 1;
        vstd::arithmetic::div_mod::lemma_div_is_ordered(delta_p * duration, -1, cap);
        assert((-1) / cap == -1) by {
            vstd::arithmetic::div_mod::lemma_fundamental_div_mod_converse(-1, cap, -1, cap - 1);
        }
        assert(exponent <= -1);
        assert(e < SCALE);
        assert(gap * ((SCALE as int) - e) >= 1) by (nonlinear_arith)
            requires gap >= 1, (SCALE as int) - e >= 1;
        lemma_div_ceil_ge_one(gap * ((SCALE as int) - e), SCALE as int);
    }
}

/// Above critical power the reserve depletes exactly linearly: the update is
/// the old reserve minus the surplus power times the duration.
pub proof fn lemma_linear_depletion(rider: RiderModel, power: int, duration: int, reserve: int)
    requires
        rider.valid(),
        power > rider.critical_power,
    ensures
        spec_update_reserve(rider, power, duration, reserve) == reserve - spec_div_trunc(
            (power - rider.critical_power) * duration,
            SCALE as int,
        ),
{
}

} // verus!
