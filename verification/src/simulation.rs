//! The segment integrator and the route pacing driver. The integrator walks
//! one road segment with adaptive position steps sized to bound the
//! per-step change of kinetic energy; the driver walks the whole route,
//! re-pacing upcoming segments down to critical power when the anaerobic
//! reserve would otherwise run out mid-segment.
use vstd::prelude::*;
use crate::fixedpoint::{
    div_trunc, iabs, imax, lemma_div_ge, lemma_div_le, lemma_div_nonneg_bound,
    lemma_div_trunc_bound, spec_div_trunc, spec_iabs, spec_imax, SCALE, SCALE_SQ,
};
use crate::kinematics::{
    air_density, get_total_force, kinetic_energy, lemma_ke_of_velocity, lemma_velocity_le_of_ke,
    spec_air_density, spec_kinetic_energy, spec_total_force, spec_velocity, velocity,
    AERO_COEF_LIMIT, ALTITUDE_ABS_LIMIT, MASS_MAX, MASS_MIN, POWER_ABS_LIMIT, ROLLING_LIMIT,
    SLOPE_ABS_LIMIT, TEMP_MAX, TEMP_MIN, WIND_ABS_LIMIT,
};
use crate::morton::{
    spec_time_to_exhaustion, spec_update_reserve, time_to_exhaustion, update_anaerobic_reserve,
    RiderModel, CAPACITY_MAX,
};

verus! {

/// Velocity floor that keeps the force computation's division by velocity
/// away from zero: 0.1 m/s.
pub const MIN_VELOCITY: i128 = 100_000;

/// Bound on the kinetic-energy change per integration step: 2 J.
pub const KINETIC_ENERGY_TOL: i128 = 2_000_000;

/// `KINETIC_ENERGY_TOL * SCALE`, the step-size numerator.
pub const STEP_NUMERATOR: i128 = 2_000_000_000_000;

/// Additive force epsilon in the step-size rule: 0.001 N.
pub const FORCE_EPS: i128 = 1_000;

/// Iteration cap per segment; reaching it is a non-convergence error.
pub const MAX_STEPS: i128 = 1_000_000;

/// Largest admitted segment length: 1000 km.
pub const LENGTH_MAX: i128 = 1_000_000_000_000;

/// Largest admitted roughness multiplier: 10.
pub const ROUGHNESS_MAX: i128 = 10_000_000;

/// Largest admitted baseline rolling-resistance coefficient: 1.
pub const CRR_MAX: i128 = 1_000_000;

/// Largest admitted drag-area coefficient: 10 m^2.
pub const CDA_MAX: i128 = 10_000_000;

/// Kinetic-energy cap on the entry velocity of one segment.
pub const KE_ENTRY_LIMIT: i128 = 1_000_000_000_000_000_000;

/// Every successful segment integration reports a time below this.
pub const SEGMENT_TIME_LIMIT: i128 = 30_000_000_000_000_000;

/// How much kinetic energy one segment can add beyond its entry energy.
pub const KE_SEGMENT_GROWTH: i128 = 2_100_000_000_000;

/// A road segment: one route leg of constant slope, wind, roughness and
/// temperature.
#[derive(Clone, Copy, Debug)]
pub struct RoadSegment {
    pub length: i128,
    pub altitude: i128,
    pub slope: i128,
    pub temperature: i128,
    pub relative_wind_speed: i128,
    pub roughness: i128,
}

impl RoadSegment {
    /// Construction-time invariant: a positive length and all fields within
    /// the fixed-point working ranges.
    pub open spec fn valid(self) -> bool {
        &&& 0 < self.length <= LENGTH_MAX
        &&& -ALTITUDE_ABS_LIMIT <= self.altitude <= ALTITUDE_ABS_LIMIT
        &&& -SLOPE_ABS_LIMIT <= self.slope <= SLOPE_ABS_LIMIT
        &&& TEMP_MIN <= self.temperature <= TEMP_MAX
        &&& -WIND_ABS_LIMIT <= self.relative_wind_speed <= WIND_ABS_LIMIT
        &&& 0 <= self.roughness <= ROUGHNESS_MAX
    }
}

/// The resistance configuration of rider plus machine.
#[derive(Clone, Copy, Debug)]
pub struct BicycleResistanceModel {
    pub total_mass: i128,
    pub cda_surface: i128,
    pub rolling_resistance: i128,
    pub drivetrain_efficiency: i128,
}

impl BicycleResistanceModel {
    /// Construction-time invariant: positive mass, coefficients within the
    /// fixed-point working ranges, efficiency a fraction in (0, 1].
    pub open spec fn valid(self) -> bool {
        &&& MASS_MIN <= self.total_mass <= MASS_MAX
        &&& 0 <= self.cda_surface <= CDA_MAX
        &&& 0 <= self.rolling_resistance <= CRR_MAX
        &&& 0 < self.drivetrain_efficiency <= SCALE
    }
}

/// A stock setup: 80 kg, CdA 0.3, rolling resistance 0.004, drivetrain
/// efficiency 0.98.
pub fn default_resistance_model() -> (r: BicycleResistanceModel)
    ensures
        r.total_mass == 80_000_000,
        r.cda_surface == 300_000,
        r.rolling_resistance == 4_000,
        r.drivetrain_efficiency == 980_000,
        r.valid(),
{
    BicycleResistanceModel {
        total_mass: 80_000_000,
        cda_surface: 300_000,
        rolling_resistance: 4_000,
        drivetrain_efficiency: 980_000,
    }
}

/// The one failure of the core: the adaptive integrator did not reach the
/// segment end within its iteration cap.
#[derive(Clone, Copy, Debug, PartialEq, Eq, Structural)]
pub enum SimError {
    NonConvergence,
}

/// The per-segment inputs of the integration loop, after derivation from the
/// segment and the resistance model.
pub ghost struct IntegrationParams {
    pub power: int,
    pub rolling: int,
    pub aero: int,
    pub wind: int,
    pub slope: int,
    pub mass: int,
    pub length: int,
}

pub open spec fn params_ok(p: IntegrationParams) -> bool {
    &&& spec_iabs(p.power) <= POWER_ABS_LIMIT
    &&& 0 <= p.rolling <= ROLLING_LIMIT
    &&& spec_iabs(p.aero) <= AERO_COEF_LIMIT
    &&& spec_iabs(p.wind) <= WIND_ABS_LIMIT
    &&& spec_iabs(p.slope) <= SLOPE_ABS_LIMIT
    &&& MASS_MIN <= p.mass <= MASS_MAX
    &&& 0 < p.length <= LENGTH_MAX
}

/// Aerodynamic coefficient of a segment: relative wind speed times drag
/// area times the air density at the segment's temperature.
pub open spec fn spec_aero_coef(seg: RoadSegment, res: BicycleResistanceModel) -> int {
    spec_div_trunc(
        (seg.relative_wind_speed as int) * (res.cda_surface as int) * spec_air_density(
            seg.temperature as int,
            seg.temperature as int,
        ),
        SCALE_SQ as int,
    )
}

/// Power at the wheel: input power scaled by drivetrain efficiency.
pub open spec fn spec_effective_power(power: int, res: BicycleResistanceModel) -> int {
    spec_div_trunc(power * (res.drivetrain_efficiency as int), SCALE as int)
}

/// Combined rolling-resistance coefficient: surface roughness times the
/// baseline coefficient.
pub open spec fn spec_combined_rolling(seg: RoadSegment, res: BicycleResistanceModel) -> int {
    ((seg.roughness as int) * (res.rolling_resistance as int)) / (SCALE as int)
}

/// One adaptive integration pass, as a mathematical recursion over the
/// remaining step budget. `None` is exhaustion of the budget. A finished
/// pass reports the accumulated time together with the velocity at entry of
/// the final, boundary-clipped step, which is the exit velocity the next
/// segment starts from.
pub open spec fn spec_integrate(
    p: IntegrationParams,
    time: int,
    pos: int,
    v: int,
    fuel: nat,
) -> Option<(int, int)>
    decreases fuel,
{
    if fuel == 0 {
        None
    } else {
        let ke = spec_kinetic_energy(v, p.mass);
        let force = spec_total_force(ke, p.power, p.rolling, p.aero, p.wind, p.slope, p.mass);
        let step0 = (STEP_NUMERATOR as int) / ((FORCE_EPS as int) + spec_iabs(force));
        let step = if pos + step0 > p.length {
            p.length - pos
        } else {
            step0
        };
        let new_ke = ke + spec_div_trunc(force * step, SCALE as int);
        let nv0 = spec_velocity(new_ke, p.mass);
        let nv = if nv0 < MIN_VELOCITY {
            MIN_VELOCITY as int
        } else {
            nv0
        };
        let dt = (step * 2_000_000) / (v + nv);
        if pos + step >= p.length {
            Some((time + dt, v))
        } else {
            spec_integrate(p, time + dt, pos + step, nv, (fuel - 1) as nat)
        }
    }
}

/// The integration parameters a segment and a resistance model derive to.
pub open spec fn spec_params_of(
    power: int,
    seg: RoadSegment,
    res: BicycleResistanceModel,
) -> IntegrationParams {
    IntegrationParams {
        power: spec_effective_power(power, res),
        rolling: spec_combined_rolling(seg, res),
        aero: spec_aero_coef(seg, res),
        wind: seg.relative_wind_speed as int,
        slope: seg.slope as int,
        mass: res.total_mass as int,
        length: seg.length as int,
    }
}

/// What integrating one segment returns: the full adaptive pass from a
/// floored entry velocity, position zero and time zero.
pub open spec fn spec_integrate_segment(
    v0: int,
    power: int,
    seg: RoadSegment,
    res: BicycleResistanceModel,
) -> Option<(int, int)> {
    let vs = if v0 < MIN_VELOCITY {
        MIN_VELOCITY as int
    } else {
        v0
    };
    spec_integrate(spec_params_of(power, seg, res), 0, 0, vs, MAX_STEPS as nat)
}

/// Kinetic energy at the velocity floor is negligible.
proof fn lemma_ke_at_floor(m: int)
    requires
        MASS_MIN <= m <= MASS_MAX,
    ensures
        0 <= spec_kinetic_energy(MIN_VELOCITY as int, m) <= 5_000_000,
{
    assert(m * (MIN_VELOCITY as int) * (MIN_VELOCITY as int) == m * 10_000_000_000)
        by (nonlinear_arith);
    lemma_div_nonneg_bound(m * 10_000_000_000, 2 * (SCALE_SQ as int));
    lemma_div_le(m * 10_000_000_000, 2 * (SCALE_SQ as int), 5_000_000);
}

/// Given a starting velocity and a constant target power, adaptively steps
/// one road segment and returns the elapsed time and the exit velocity, or
/// the non-convergence error when the step budget runs out first.
pub fn compute_time_and_final_velocity(
    initial_velocity: i128,
    input_power: i128,
    road_segment: &RoadSegment,
    resistance_model: &BicycleResistanceModel,
) -> (r: Result<(i128, i128), SimError>)
    requires
        road_segment.valid(),
        resistance_model.valid(),
        -POWER_ABS_LIMIT <= input_power <= POWER_ABS_LIMIT,
        0 <= initial_velocity,
        spec_kinetic_energy(initial_velocity as int, resistance_model.total_mass as int)
            <= KE_ENTRY_LIMIT,
    ensures
        match r {
            Ok(tv) => {
                &&& spec_integrate_segment(
                    initial_velocity as int,
                    input_power as int,
                    *road_segment,
                    *resistance_model,
                ) == Some((tv.0 as int, tv.1 as int))
                &&& 0 <= tv.0 <= SEGMENT_TIME_LIMIT
                &&& MIN_VELOCITY <= tv.1
                &&& spec_kinetic_energy(tv.1 as int, resistance_model.total_mass as int)
                    <= spec_imax(
                    spec_kinetic_energy(
                        initial_velocity as int,
                        resistance_model.total_mass as int,
                    ),
                    5_000_000,
                ) + KE_SEGMENT_GROWTH
            },
            Err(e) => {
                &&& e == SimError::NonConvergence
                &&& spec_integrate_segment(
                    initial_velocity as int,
                    input_power as int,
                    *road_segment,
                    *resistance_model,
                ) is None
            },
        },
{
    let m: i128 = resistance_model.total_mass;
    let density: i128 = air_density(road_segment.temperature, road_segment.temperature);
    proof {
        assert(spec_iabs(
            ((road_segment.relative_wind_speed * resistance_model.cda_surface) as int)
                * (density as int),
        ) <= 2_000_000_000_000_000_000_000_000int) by (nonlinear_arith)
            requires
                -WIND_ABS_LIMIT <= road_segment.relative_wind_speed <= WIND_ABS_LIMIT,
                0 <= resistance_model.cda_surface <= CDA_MAX,
                0 <= density <= 2_000_000_000i128,
        ;
        assert(spec_iabs(
            (road_segment.relative_wind_speed as int) * (resistance_model.cda_surface as int),
        ) <= 1_000_000_000_000_000int) by (nonlinear_arith)
            requires
                -WIND_ABS_LIMIT <= road_segment.relative_wind_speed <= WIND_ABS_LIMIT,
                0 <= resistance_model.cda_surface <= CDA_MAX,
        ;
    }
    let air_resistance_coef: i128 = div_trunc(
        road_segment.relative_wind_speed * resistance_model.cda_surface * density,
        SCALE_SQ,
    );
    proof {
        lemma_div_trunc_bound(
            ((road_segment.relative_wind_speed * resistance_model.cda_surface * density) as int),
            SCALE_SQ as int,
            AERO_COEF_LIMIT as int,
        );
        assert(spec_iabs((input_power * resistance_model.drivetrain_efficiency) as int)
            <= 10_000_000_000_000_000int) by (nonlinear_arith)
            requires
                -POWER_ABS_LIMIT <= input_power <= POWER_ABS_LIMIT,
                0 < resistance_model.drivetrain_efficiency <= SCALE,
        ;
    }
    let powered: i128 = div_trunc(input_power * resistance_model.drivetrain_efficiency, SCALE);
    proof {
        lemma_div_trunc_bound(
            (input_power * resistance_model.drivetrain_efficiency) as int,
            SCALE as int,
            POWER_ABS_LIMIT as int,
        );
        assert(0 <= (road_segment.roughness as int) * (resistance_model.rolling_resistance as int)
            <= 10_000_000_000_000int) by (nonlinear_arith)
            requires
                0 <= road_segment.roughness <= ROUGHNESS_MAX,
                0 <= resistance_model.rolling_resistance <= CRR_MAX,
        ;
        lemma_div_nonneg_bound(
            (road_segment.roughness as int) * (resistance_model.rolling_resistance as int),
            SCALE as int,
        );
        lemma_div_le(
            (road_segment.roughness as int) * (resistance_model.rolling_resistance as int),
            SCALE as int,
            ROLLING_LIMIT as int,
        );
    }
    let rolling: i128 = (road_segment.roughness * resistance_model.rolling_resistance) / SCALE;
    let ghost params = spec_params_of(input_power as int, *road_segment, *resistance_model);
    let mut current_velocity: i128 = imax(initial_velocity, MIN_VELOCITY);
    let ghost v_start = current_velocity as int;
    proof {
        lemma_ke_at_floor(m as int);
        if initial_velocity < MIN_VELOCITY {
            assert(v_start == MIN_VELOCITY);
        }
    }
    let ghost ke_cap = spec_imax(
        spec_kinetic_energy(initial_velocity as int, m as int),
        5_000_000,
    );
    assert(spec_kinetic_energy(v_start, m as int) <= ke_cap);
    let mut time: i128 = 0;
    let mut position: i128 = 0;
    let mut steps: i128 = 0;
    loop
        invariant
            road_segment.valid(),
            resistance_model.valid(),
            m == resistance_model.total_mass,
            params == spec_params_of(input_power as int, *road_segment, *resistance_model),
            params_ok(params),
            powered as int == params.power,
            rolling as int == params.rolling,
            air_resistance_coef as int == params.aero,
            0 <= position < road_segment.length,
            0 <= steps <= MAX_STEPS,
            0 <= time,
            time <= steps * 20_000_000_000,
            MIN_VELOCITY <= current_velocity,
            spec_kinetic_energy(current_velocity as int, m as int)
                <= ke_cap + steps * KINETIC_ENERGY_TOL,
            5_000_000 <= ke_cap <= KE_ENTRY_LIMIT,
            ke_cap == spec_imax(
                spec_kinetic_energy(initial_velocity as int, m as int),
                5_000_000,
            ),
            spec_integrate(params, 0, 0, v_start, MAX_STEPS as nat) == spec_integrate(
                params,
                time as int,
                position as int,
                current_velocity as int,
                (MAX_STEPS - steps) as nat,
            ),
            spec_integrate_segment(
                initial_velocity as int,
                input_power as int,
                *road_segment,
                *resistance_model,
            ) == spec_integrate(params, 0, 0, v_start, MAX_STEPS as nat),
        decreases MAX_STEPS - steps,
    {
        if steps == MAX_STEPS {
            return Err(SimError::NonConvergence);
        }
        proof {
            lemma_velocity_le_of_ke(
                current_velocity as int,
                m as int,
                ke_cap + steps * KINETIC_ENERGY_TOL,
            );
        }
        let ke: i128 = kinetic_energy(current_velocity, m);
        proof {
            assert((m as int) * (current_velocity as int) * (current_velocity as int)
                >= 10_000_000_000_000_000int) by (nonlinear_arith)
                requires m >= MASS_MIN, current_velocity >= MIN_VELOCITY;
            lemma_div_ge(
                (m as int) * (current_velocity as int) * (current_velocity as int),
                2 * (SCALE_SQ as int),
                5_000,
            );
            assert(ke >= 5_000);
        }
        let force: i128 = get_total_force(
            ke,
            powered,
            rolling,
            air_resistance_coef,
            road_segment.relative_wind_speed,
            road_segment.slope,
            m,
        );
        let force_abs: i128 = iabs(force);
        let step0: i128 = STEP_NUMERATOR / (FORCE_EPS + force_abs);
        proof {
            lemma_div_nonneg_bound(STEP_NUMERATOR as int, (FORCE_EPS + force_abs) as int);
            lemma_div_le(STEP_NUMERATOR as int, (FORCE_EPS + force_abs) as int, 2_000_000_000);
        }
        let step: i128 = if position + step0 > road_segment.length {
            road_segment.length - position
        } else {
            step0
        };
        assert(0 <= step <= step0);
        proof {
            vstd::arithmetic::div_mod::lemma_fundamental_div_mod(
                STEP_NUMERATOR as int,
                (FORCE_EPS + force_abs) as int,
            );
            vstd::arithmetic::div_mod::lemma_mod_pos_bound(
                STEP_NUMERATOR as int,
                (FORCE_EPS + force_abs) as int,
            );
            assert(spec_iabs((force as int) * (step as int)) <= STEP_NUMERATOR as int)
                by (nonlinear_arith)
                requires
                    (STEP_NUMERATOR as int) == ((FORCE_EPS + force_abs) as int) * (step0 as int)
                        + (STEP_NUMERATOR as int) % ((FORCE_EPS + force_abs) as int),
                    0 <= (STEP_NUMERATOR as int) % ((FORCE_EPS + force_abs) as int),
                    force_abs == spec_iabs(force as int),
                    force_abs >= 0,
                    0 <= step <= step0,
            ;
        }
        let delta_ke: i128 = div_trunc(force * step, SCALE);
        proof {
            lemma_div_trunc_bound((force * step) as int, SCALE as int, KINETIC_ENERGY_TOL as int);
        }
        let new_ke: i128 = ke + delta_ke;
        let nv0: i128 = velocity(new_ke, m);
        let new_velocity: i128 = imax(MIN_VELOCITY, nv0);
        proof {
            lemma_ke_of_velocity(new_ke as int, m as int);
            lemma_ke_at_floor(m as int);
            assert(spec_iabs(new_ke as int) <= (ke as int) + KINETIC_ENERGY_TOL);
            if nv0 < MIN_VELOCITY {
                assert(new_velocity == MIN_VELOCITY);
                assert(spec_kinetic_energy(new_velocity as int, m as int) <= 5_000_000);
            } else {
                assert(new_velocity == nv0);
                assert(spec_kinetic_energy(new_velocity as int, m as int)
                    <= spec_iabs(new_ke as int));
            }
            assert(spec_kinetic_energy(new_velocity as int, m as int)
                <= ke_cap + (steps + 1) * KINETIC_ENERGY_TOL);
        }
        let denom: i128 = new_velocity + current_velocity;
        let dt: i128 = (step * 2_000_000) / denom;
        proof {
            lemma_div_nonneg_bound((step * 2_000_000) as int, denom as int);
            assert((step * 2_000_000) as int <= (denom as int) * (10 * (step as int)))
                by (nonlinear_arith)
                requires denom >= 200_000, step >= 0;
            lemma_div_le((step * 2_000_000) as int, denom as int, 10 * (step as int));
        }
        if position + step >= road_segment.length {
            proof {
                assert(dt <= 10_000_000_000_000);
                assert(time + dt <= SEGMENT_TIME_LIMIT);
                assert(spec_integrate(
                    params,
                    time as int,
                    position as int,
                    current_velocity as int,
                    (MAX_STEPS - steps) as nat,
                ) == Some(((time + dt) as int, current_velocity as int)));
            }
            return Ok((time + dt, current_velocity));
        }
        proof {
            assert(dt <= 20_000_000_000);
            assert(spec_integrate(
                params,
                time as int,
                position as int,
                current_velocity as int,
                (MAX_STEPS - steps) as nat,
            ) == spec_integrate(
                params,
                (time + dt) as int,
                (position + step) as int,
                new_velocity as int,
                (MAX_STEPS - steps - 1) as nat,
            ));
        }
        time = time + dt;
        position = position + step;
        current_velocity = new_velocity;
        steps = steps + 1;
    }
}

/// Largest admitted number of route segments.
pub const MAX_SEGMENTS: usize = 100_000;

/// Kinetic-energy cap on the initial velocity of a whole route, leaving the
/// per-segment growth room below `KE_ENTRY_LIMIT`.
pub const KE_ROUTE_START_LIMIT: i128 = 500_000_000_000_000_000;

/// Magnitude cap on the initial anaerobic reserve of a route.
pub const RESERVE_START_LIMIT: i128 = 1_000_000_000_000;

/// The full simulation trace of a route run, as a mathematical value: the
/// (possibly re-paced) per-segment powers, the per-segment durations and
/// reserves recorded so far, and the running totals.
pub ghost struct RouteTrace {
    pub powers: Seq<i128>,
    pub durations: Seq<i128>,
    pub reserves: Seq<i128>,
    pub total_time: i128,
    pub velocity: i128,
    pub reserve: i128,
}

/// Re-pacing: from position `i` on, clamp each power down to critical power,
/// stopping at the first position whose power already lies below it.
pub open spec fn spec_repace(powers: Seq<i128>, i: int, cp: i128) -> Seq<i128>
    decreases powers.len() - i,
{
    if i < 0 || i >= powers.len() {
        powers
    } else if powers[i] < cp {
        powers
    } else {
        spec_repace(powers.update(i, cp), i + 1, cp)
    }
}

/// One bookkeeping step of the driver: record the segment's duration and
/// resulting reserve, and carry the exit velocity and reserve forward.
pub open spec fn spec_advance(
    st: RouteTrace,
    powers: Seq<i128>,
    t: int,
    nv: int,
    rider: RiderModel,
    i: int,
) -> RouteTrace {
    let nr = spec_update_reserve(rider, powers[i] as int, t, st.reserve as int);
    RouteTrace {
        powers: powers,
        durations: st.durations.push(t as i128),
        reserves: st.reserves.push(nr as i128),
        total_time: (st.total_time + t) as i128,
        velocity: nv as i128,
        reserve: nr as i128,
    }
}

/// The pacing driver as a fold over the segments, from position `i`:
/// integrate at the desired power, re-pace and re-integrate when exhaustion
/// would come before the segment ends, then update the reserve and advance.
/// `None` is a non-convergent integration.
pub open spec fn spec_drive(
    segs: Seq<RoadSegment>,
    res: BicycleResistanceModel,
    rider: RiderModel,
    st: RouteTrace,
    i: int,
) -> Option<RouteTrace>
    decreases segs.len() - i,
{
    if i < 0 || i >= segs.len() {
        Some(st)
    } else {
        let p = st.powers[i];
        match spec_integrate_segment(st.velocity as int, p as int, segs[i], res) {
            None => None,
            Some(tv) => {
                let tau = spec_time_to_exhaustion(rider, p as int, st.reserve as int);
                let exhausted = match tau {
                    Some(tt) => tt < tv.0,
                    None => false,
                };
                if exhausted {
                    let np = spec_repace(st.powers, i, rider.critical_power);
                    match spec_integrate_segment(st.velocity as int, np[i] as int, segs[i], res) {
                        None => None,
                        Some(tv2) => spec_drive(
                            segs,
                            res,
                            rider,
                            spec_advance(st, np, tv2.0, tv2.1, rider, i),
                            i + 1,
                        ),
                    }
                } else {
                    spec_drive(
                        segs,
                        res,
                        rider,
                        spec_advance(st, st.powers, tv.0, tv.1, rider, i),
                        i + 1,
                    )
                }
            },
        }
    }
}

/// What a whole route run returns, from the given initial conditions.
pub open spec fn spec_run_route(
    segs: Seq<RoadSegment>,
    powers: Seq<i128>,
    res: BicycleResistanceModel,
    rider: RiderModel,
    v0: i128,
    r0: i128,
) -> Option<RouteTrace> {
    spec_drive(
        segs,
        res,
        rider,
        RouteTrace {
            powers: powers,
            durations: Seq::empty(),
            reserves: Seq::empty(),
            total_time: 0,
            velocity: v0,
            reserve: r0,
        },
        0,
    )
}

/// The result record of one route run.
pub struct RouteResult {
    pub power: Vec<i128>,
    pub duration: Vec<i128>,
    pub reserve: Vec<i128>,
    pub total_time: i128,
}

/// Walks all segments in order, carrying velocity and reserve forward.
/// Each segment is first integrated at its desired power; if the time to
/// exhaustion at that power comes strictly before the segment ends, the
/// desired powers from this segment on are clamped down to critical power
/// (stopping at the first power already below it) and the segment is
/// re-integrated. Returns the per-segment actual powers, durations and
/// reserves, and the total time.
pub fn compute_all_times(
    initial_velocity: i128,
    initial_anaerobic_reserve: i128,
    input_power_vec: &Vec<i128>,
    road_segment_vec: &Vec<RoadSegment>,
    resistance_model: &BicycleResistanceModel,
    rider_model: &RiderModel,
) -> (r: Result<RouteResult, SimError>)
    requires
        input_power_vec.len() == road_segment_vec.len(),
        road_segment_vec.len() <= MAX_SEGMENTS,
        forall|k: int|
            0 <= k < road_segment_vec.len() ==> (#[trigger] road_segment_vec[k]).valid(),
        forall|k: int|
            0 <= k < input_power_vec.len() ==> -POWER_ABS_LIMIT <= #[trigger] input_power_vec[k]
                <= POWER_ABS_LIMIT,
        resistance_model.valid(),
        rider_model.valid(),
        rider_model.critical_power < rider_model.max_power,
        0 <= initial_velocity,
        spec_kinetic_energy(initial_velocity as int, resistance_model.total_mass as int)
            <= KE_ROUTE_START_LIMIT,
        -RESERVE_START_LIMIT <= initial_anaerobic_reserve <= RESERVE_START_LIMIT,
    ensures
        match r {
            Ok(out) => spec_run_route(
                road_segment_vec@,
                input_power_vec@,
                *resistance_model,
                *rider_model,
                initial_velocity,
                initial_anaerobic_reserve,
            ) matches Some(tr) && out.power@ == tr.powers && out.duration@ == tr.durations
                && out.reserve@ == tr.reserves && out.total_time == tr.total_time
                && out.power.len() == road_segment_vec.len() && out.duration.len()
                == road_segment_vec.len() && out.reserve.len() == road_segment_vec.len(),
            Err(e) => e == SimError::NonConvergence && spec_run_route(
                road_segment_vec@,
                input_power_vec@,
                *resistance_model,
                *rider_model,
                initial_velocity,
                initial_anaerobic_reserve,
            ) is None,
        },
{
    let n: usize = input_power_vec.len();
    let mut out_power: Vec<i128> = Vec::new();
    let mut idx: usize = 0;
    while idx < n
        invariant
            0 <= idx <= n,
            n == input_power_vec.len(),
            out_power.len() == idx,
            forall|k: int| 0 <= k < idx ==> out_power@[k] == input_power_vec@[k],
        decreases n - idx,
    {
        let p: i128 = input_power_vec[idx];
        out_power.push(p);
        idx = idx + 1;
    }
    proof {
        assert(out_power@ =~= input_power_vec@);
    }
    let mut durations: Vec<i128> = Vec::new();
    let mut reserves: Vec<i128> = Vec::new();
    let mut velocity_now: i128 = initial_velocity;
    let mut reserve_now: i128 = initial_anaerobic_reserve;
    let mut total: i128 = 0;
    let mut i: usize = 0;
    let ghost init_trace = RouteTrace {
        powers: input_power_vec@,
        durations: Seq::empty(),
        reserves: Seq::empty(),
        total_time: 0,
        velocity: initial_velocity,
        reserve: initial_anaerobic_reserve,
    };
    while i < n
        invariant
            n == input_power_vec.len(),
            n == road_segment_vec.len(),
            n <= MAX_SEGMENTS,
            0 <= i <= n,
            out_power.len() == n,
            durations.len() == i,
            reserves.len() == i,
            resistance_model.valid(),
            rider_model.valid(),
            rider_model.critical_power < rider_model.max_power,
            forall|k: int|
                0 <= k < road_segment_vec.len() ==> (#[trigger] road_segment_vec[k]).valid(),
            forall|k: int|
                0 <= k < n ==> -POWER_ABS_LIMIT <= #[trigger] out_power@[k] <= POWER_ABS_LIMIT,
            0 <= velocity_now,
            spec_kinetic_energy(velocity_now as int, resistance_model.total_mass as int)
                <= KE_ROUTE_START_LIMIT + (i as int) * 3_000_000_000_000,
            spec_iabs(reserve_now as int) <= RESERVE_START_LIMIT + (i as int)
                * 3_000_000_000_000_000_000_000,
            0 <= total,
            total <= (i as int) * SEGMENT_TIME_LIMIT,
            init_trace == (RouteTrace {
                powers: input_power_vec@,
                durations: Seq::<i128>::empty(),
                reserves: Seq::<i128>::empty(),
                total_time: 0i128,
                velocity: initial_velocity,
                reserve: initial_anaerobic_reserve,
            }),
            spec_drive(road_segment_vec@, *resistance_model, *rider_model, init_trace, 0)
                == spec_drive(
                road_segment_vec@,
                *resistance_model,
                *rider_model,
                (RouteTrace {
                    powers: out_power@,
                    durations: durations@,
                    reserves: reserves@,
                    total_time: total,
                    velocity: velocity_now,
                    reserve: reserve_now,
                }),
                i as int,
            ),
        decreases n - i,
    {
        let ghost cur_trace = RouteTrace {
            powers: out_power@,
            durations: durations@,
            reserves: reserves@,
            total_time: total,
            velocity: velocity_now,
            reserve: reserve_now,
        };
        let p: i128 = out_power[i];
        let segment: RoadSegment = road_segment_vec[i];
        let first = compute_time_and_final_velocity(
            velocity_now,
            p,
            &segment,
            resistance_model,
        );
        let (mut seg_time, mut seg_velocity): (i128, i128) = match first {
            Ok(tv) => tv,
            Err(e) => {
                proof {
                    assert(spec_drive(
                        road_segment_vec@,
                        *resistance_model,
                        *rider_model,
                        cur_trace,
                        i as int,
                    ) is None);
                }
                return Err(e);
            },
        };
        let tau: Option<i128> = time_to_exhaustion(rider_model, p, reserve_now);
        let repace: bool = match tau {
            Some(tt) => tt < seg_time,
            None => false,
        };
        if repace {
            let ghost before = out_power@;
            let mut j: usize = i;
            while j < n && out_power[j] >= rider_model.critical_power
                invariant
                    i <= j <= n,
                    n == out_power.len(),
                    rider_model.valid(),
                    forall|k: int|
                        0 <= k < n ==> -POWER_ABS_LIMIT <= #[trigger] out_power@[k]
                            <= POWER_ABS_LIMIT,
                    spec_repace(before, i as int, rider_model.critical_power) == spec_repace(
                        out_power@,
                        j as int,
                        rider_model.critical_power,
                    ),
                decreases n - j,
            {
                out_power[j] = rider_model.critical_power;
                j = j + 1;
            }
            proof {
                assert(spec_repace(out_power@, j as int, rider_model.critical_power)
                    == out_power@);
                assert(out_power@ == spec_repace(before, i as int, rider_model.critical_power));
            }
            let clamped: i128 = out_power[i];
            let second = compute_time_and_final_velocity(
                velocity_now,
                clamped,
                &segment,
                resistance_model,
            );
            match second {
                Ok(tv) => {
                    seg_time = tv.0;
                    seg_velocity = tv.1;
                },
                Err(e) => {
                    proof {
                        assert(spec_drive(
                            road_segment_vec@,
                            *resistance_model,
                            *rider_model,
                            cur_trace,
                            i as int,
                        ) is None);
                    }
                    return Err(e);
                },
            }
        }
        let actual: i128 = out_power[i];
        let new_reserve: i128 = update_anaerobic_reserve(
            rider_model,
            actual,
            seg_time,
            reserve_now,
        );
        durations.push(seg_time);
        reserves.push(new_reserve);
        total = total + seg_time;
        velocity_now = seg_velocity;
        reserve_now = new_reserve;
        proof {
            assert(spec_drive(
                road_segment_vec@,
                *resistance_model,
                *rider_model,
                cur_trace,
                i as int,
            ) == spec_drive(
                road_segment_vec@,
                *resistance_model,
                *rider_model,
                (RouteTrace {
                    powers: out_power@,
                    durations: durations@,
                    reserves: reserves@,
                    total_time: total,
                    velocity: velocity_now,
                    reserve: reserve_now,
                }),
                i as int + 1,
            ));
        }
        i = i + 1;
    }
    Ok(
        RouteResult {
            power: out_power,
            duration: durations,
            reserve: reserves,
            total_time: total,
        },
    )
}

/// Along a run at the given powers, every segment integrates within its step
/// budget and no desired power ever brings exhaustion before the segment
/// ends.
pub open spec fn spec_no_repace_from(
    segs: Seq<RoadSegment>,
    powers: Seq<i128>,
    res: BicycleResistanceModel,
    rider: RiderModel,
    v: i128,
    r: i128,
    i: int,
) -> bool
    decreases segs.len() - i,
{
    if i < 0 || i >= segs.len() {
        true
    } else {
        match spec_integrate_segment(v as int, powers[i] as int, segs[i], res) {
            None => false,
            Some(tv) => {
                let tau = spec_time_to_exhaustion(rider, powers[i] as int, r as int);
                let exhausted = match tau {
                    Some(tt) => tt < tv.0,
                    None => false,
                };
                &&& !exhausted
                &&& spec_no_repace_from(
                    segs,
                    powers,
                    res,
                    rider,
                    tv.1 as i128,
                    spec_update_reserve(rider, powers[i] as int, tv.0, r as int) as i128,
                    i + 1,
                )
            },
        }
    }
}

proof fn lemma_drive_no_repace(
    segs: Seq<RoadSegment>,
    res: BicycleResistanceModel,
    rider: RiderModel,
    st: RouteTrace,
    i: int,
)
    requires
        spec_no_repace_from(segs, st.powers, res, rider, st.velocity, st.reserve, i),
    ensures
        spec_drive(segs, res, rider, st, i) matches Some(tr) && tr.powers == st.powers,
    decreases segs.len() - i,
{
    if 0 <= i < segs.len() {
        let p = st.powers[i];
        match spec_integrate_segment(st.velocity as int, p as int, segs[i], res) {
            None => {
            },
            Some(tv) => {
                let next = spec_advance(st, st.powers, tv.0, tv.1, rider, i);
                lemma_drive_no_repace(segs, res, rider, next, i + 1);
            },
        }
    }
}

/// Pacing is idempotent: when no segment's desired power would bring
/// exhaustion before the segment ends, the driver leaves every desired
/// power exactly as it was given.
pub proof fn lemma_pacing_idempotent(
    segs: Seq<RoadSegment>,
    powers: Seq<i128>,
    res: BicycleResistanceModel,
    rider: RiderModel,
    v0: i128,
    r0: i128,
)
    requires
        spec_no_repace_from(segs, powers, res, rider, v0, r0, 0),
    ensures
        spec_run_route(segs, powers, res, rider, v0, r0) matches Some(tr) && tr.powers
            == powers,
{
    let st = RouteTrace {
        powers: powers,
        durations: Seq::empty(),
        reserves: Seq::empty(),
        total_time: 0,
        velocity: v0,
        reserve: r0,
    };
    lemma_drive_no_repace(segs, res, rider, st, 0);
}

} // verus!
