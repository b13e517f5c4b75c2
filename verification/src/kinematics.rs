//! Stateless physical-law primitives: air density from altitude and
//! temperature, conversions between velocity and kinetic energy, drag force,
//! and the net propulsive force on the rider. All values are micro-unit
//! fixed-point `i128` (see `fixedpoint`).
use vstd::prelude::*;
use crate::fixedpoint::{
    div_trunc, iabs, isqrt, lemma_div_ge_one, lemma_div_le, lemma_isqrt_exists, spec_div_trunc,
    spec_iabs, spec_isqrt, SCALE, SCALE_SQ,
};

verus! {

/// Gravitational acceleration, 9.81 m/s^2 in micro-units.
pub const GRAVITY: i128 = 9_810_000;

/// Smallest admitted total mass: 1 kg.
pub const MASS_MIN: i128 = 1_000_000;

/// Largest admitted total mass: 1000 kg.
pub const MASS_MAX: i128 = 1_000_000_000;

/// Largest admitted magnitude of a kinetic energy argument.
pub const KE_ABS_LIMIT: i128 = 2_000_000_000_000_000_000;

/// Largest admitted magnitude of a velocity argument.
pub const VEL_ABS_LIMIT: i128 = 2_000_000_000_000;

/// Largest admitted magnitude of a wind velocity: 100 m/s.
pub const WIND_ABS_LIMIT: i128 = 100_000_000;

/// Largest admitted combined rolling-resistance coefficient: 10.
pub const ROLLING_LIMIT: i128 = 10_000_000;

/// Largest admitted magnitude of the aerodynamic coefficient.
pub const AERO_COEF_LIMIT: i128 = 2_000_000_000_000;

/// Largest admitted magnitude of a power: 10 kW.
pub const POWER_ABS_LIMIT: i128 = 10_000_000_000;

/// Largest admitted magnitude of a slope: a grade of 10.
pub const SLOPE_ABS_LIMIT: i128 = 10_000_000;

/// Largest admitted altitude magnitude: 100 km.
pub const ALTITUDE_ABS_LIMIT: i128 = 100_000_000_000;

/// Coldest admitted ambient temperature: -100 C.
pub const TEMP_MIN: i128 = -100_000_000;

/// Hottest admitted ambient temperature: 1000 C.
pub const TEMP_MAX: i128 = 1_000_000_000;

/// Every air density this module returns lies below this.
pub const DENSITY_LIMIT: i128 = 2_000_000_000;

/// Every net force this module returns lies below this in magnitude.
pub const FORCE_ABS_LIMIT: i128 = 10_000_000_000_000_000_000_000_000;

/// The gravitational acceleration constant in micro-meters per second squared.
pub fn gravity_acceleration() -> (g: i128)
    ensures
        g == GRAVITY,
{
    GRAVITY
}

/// Barometric pressure-ratio approximation: the model's
/// `(1 - 0.0065 * altitude / 288.15) ^ 5.255` is computed as the fifth power
/// times the fourth root (exponent 5.25), the base clamped at zero.
pub open spec fn spec_pressure_ratio(altitude: int) -> int {
    let base0 = SCALE - spec_div_trunc(altitude * 6_500, 288_150_000);
    let base = if base0 < 0 {
        0
    } else {
        base0
    };
    let b2 = (base * base) / (SCALE as int);
    let b4 = (b2 * b2) / (SCALE as int);
    let b5 = (b4 * base) / (SCALE as int);
    let q2 = spec_isqrt(base * SCALE);
    let q4 = spec_isqrt(q2 * SCALE);
    (b5 * q4) / (SCALE as int)
}

/// Air density in micro-kg/m^3: sea-level pressure scaled by the barometric
/// ratio, divided by the gas constant of air and the absolute temperature.
pub open spec fn spec_air_density(altitude: int, temperature: int) -> int {
    let pressure = 101_325 * spec_pressure_ratio(altitude);
    let kelvin = temperature + 273_000_000;
    (pressure * SCALE) / (287 * kelvin)
}

/// Calculates the air density given the altitude and temperature.
pub fn air_density(altitude: i128, temperature: i128) -> (d: i128)
    requires
        -ALTITUDE_ABS_LIMIT <= altitude <= ALTITUDE_ABS_LIMIT,
        TEMP_MIN <= temperature <= TEMP_MAX,
    ensures
        d == spec_air_density(altitude as int, temperature as int),
        0 <= d <= DENSITY_LIMIT,
{
    proof {
        assert(spec_iabs((altitude * 6_500) as int) <= 650_000_000_000_000int)
            by (nonlinear_arith)
            requires -ALTITUDE_ABS_LIMIT <= altitude <= ALTITUDE_ABS_LIMIT;
    }
    let shift: i128 = div_trunc(altitude * 6_500, 288_150_000);
    proof {
        lemma_div_le(spec_iabs(shift as int), 288_150_000, 3_000_000);
        assert(spec_iabs(shift as int) <= 2_256_000) by {
            lemma_div_le(spec_iabs((altitude * 6_500) as int), 288_150_000, 2_256_000);
        }
    }
    let base0: i128 = SCALE - shift;
    let base: i128 = if base0 < 0 {
        0
    } else {
        base0
    };
    assert(0 <= base <= 3_300_000);
    proof {
        assert((base as int) * (base as int) <= 10_890_000_000_000int) by (nonlinear_arith)
            requires 0 <= base <= 3_300_000;
    }
    let b2: i128 = (base * base) / SCALE;
    proof {
        lemma_div_le((base as int) * (base as int), SCALE as int, 10_890_000);
        assert((b2 as int) * (b2 as int) <= 118_592_100_000_000int) by (nonlinear_arith)
            requires 0 <= b2 <= 10_890_000;
    }
    let b4: i128 = (b2 * b2) / SCALE;
    proof {
        lemma_div_le((b2 as int) * (b2 as int), SCALE as int, 118_592_100);
        assert((b4 as int) * (base as int) <= 391_353_930_000_000int) by (nonlinear_arith)
            requires 0 <= b4 <= 118_592_100, 0 <= base <= 3_300_000;
    }
    let b5: i128 = (b4 * base) / SCALE;
    proof {
        lemma_div_le((b4 as int) * (base as int), SCALE as int, 391_353_930);
    }
    let q2: i128 = isqrt(base * SCALE);
    proof {
        assert(q2 <= 1_900_000) by (nonlinear_arith)
            requires
                (q2 as int) * (q2 as int) <= (base as int) * (SCALE as int),
                0 <= base <= 3_300_000,
                0 <= q2,
        ;
    }
    let q4: i128 = isqrt(q2 * SCALE);
    proof {
        assert(q4 <= 1_400_000) by (nonlinear_arith)
            requires
                (q4 as int) * (q4 as int) <= (q2 as int) * (SCALE as int),
                0 <= q2 <= 1_900_000,
                0 <= q4,
        ;
        assert((b5 as int) * (q4 as int) <= 547_895_502_000_000int) by (nonlinear_arith)
            requires 0 <= b5 <= 391_353_930, 0 <= q4 <= 1_400_000;
    }
    let ratio: i128 = (b5 * q4) / SCALE;
    proof {
        lemma_div_le((b5 as int) * (q4 as int), SCALE as int, 547_895_502);
    }
    let pressure: i128 = 101_325 * ratio;
    let kelvin: i128 = temperature + 273_000_000;
    assert(173_000_000 <= kelvin <= 1_273_000_000);
    assert(0 <= pressure <= 56_000_000_000_000);
    let d: i128 = (pressure * SCALE) / (287 * kelvin);
    proof {
        assert((pressure as int) * (SCALE as int)
            <= (287 * (kelvin as int)) * (2_000_000_000 as int)) by (nonlinear_arith)
            requires
                0 <= pressure <= 56_000_000_000_000int,
                173_000_000 <= kelvin,
        ;
        lemma_div_le((pressure as int) * (SCALE as int), 287 * (kelvin as int), 2_000_000_000);
    }
    d
}

/// Kinetic energy `0.5 * m * v^2` in micro-joules.
pub open spec fn spec_kinetic_energy(velocity: int, total_mass: int) -> int {
    (total_mass * velocity * velocity) / (2 * SCALE_SQ)
}

/// Calculates the kinetic energy given the velocity and total mass.
pub fn kinetic_energy(velocity: i128, total_mass: i128) -> (ke: i128)
    requires
        -VEL_ABS_LIMIT <= velocity <= VEL_ABS_LIMIT,
        MASS_MIN <= total_mass <= MASS_MAX,
    ensures
        ke == spec_kinetic_energy(velocity as int, total_mass as int),
        0 <= ke <= 2_000_000_000_000_000_000_000,
{
    proof {
        assert(spec_iabs((total_mass as int) * (velocity as int)) <= 2_000_000_000_000_000_000_000int)
            by (nonlinear_arith)
            requires
                -VEL_ABS_LIMIT <= velocity <= VEL_ABS_LIMIT,
                MASS_MIN <= total_mass <= MASS_MAX,
        ;
        assert(0 <= (total_mass as int) * (velocity as int) * (velocity as int)
            <= 4_000_000_000_000_000_000_000_000_000_000_000int) by (nonlinear_arith)
            requires
                -VEL_ABS_LIMIT <= velocity <= VEL_ABS_LIMIT,
                MASS_MIN <= total_mass <= MASS_MAX,
        ;
        lemma_div_le(
            (total_mass as int) * (velocity as int) * (velocity as int),
            2 * (SCALE_SQ as int),
            2_000_000_000_000_000_000_000,
        );
    }
    (total_mass * velocity * velocity) / (2 * SCALE_SQ)
}

/// Velocity from kinetic energy: `sqrt(2 * |ke| / m)`, the absolute value
/// keeping a negative energy out of the square root.
pub open spec fn spec_velocity(kinetic_energy: int, total_mass: int) -> int {
    spec_isqrt((2 * spec_iabs(kinetic_energy) * SCALE_SQ) / total_mass)
}

/// Calculates the velocity given the kinetic energy and total mass.
pub fn velocity(kinetic_energy: i128, total_mass: i128) -> (v: i128)
    requires
        -KE_ABS_LIMIT <= kinetic_energy <= KE_ABS_LIMIT,
        MASS_MIN <= total_mass <= MASS_MAX,
    ensures
        v == spec_velocity(kinetic_energy as int, total_mass as int),
        0 <= v <= VEL_ABS_LIMIT,
        kinetic_energy != 0 ==> 1 <= v,
{
    let ke_abs: i128 = iabs(kinetic_energy);
    let num: i128 = 2 * ke_abs * SCALE_SQ;
    proof {
        assert(0 <= 2 * (ke_abs as int) * (SCALE_SQ as int)
            <= 4_000_000_000_000_000_000_000_000_000_000int) by (nonlinear_arith)
            requires 0 <= ke_abs <= KE_ABS_LIMIT;
    }
    let scaled: i128 = num / total_mass;
    proof {
        assert((num as int) <= (total_mass as int) * 4_000_000_000_000_000_000_000_000int)
            by (nonlinear_arith)
            requires
                0 <= num <= 4_000_000_000_000_000_000_000_000_000_000int,
                total_mass >= MASS_MIN,
        ;
        lemma_div_le(num as int, total_mass as int, 4_000_000_000_000_000_000_000_000int);
    }
    let v: i128 = isqrt(scaled);
    proof {
        assert(v <= VEL_ABS_LIMIT) by (nonlinear_arith)
            requires
                (v as int) * (v as int) <= scaled as int,
                scaled <= 4_000_000_000_000_000_000_000_000int,
                0 <= v,
        ;
        if kinetic_energy != 0 {
            assert(num >= 2_000_000_000_000);
            lemma_div_ge_one(num as int, total_mass as int);
            assert(scaled >= 1);
            assert(v >= 1) by (nonlinear_arith)
                requires (scaled as int) < ((v as int) + 1) * ((v as int) + 1), scaled >= 1, v >= 0;
        }
    }
    v
}

/// Velocity never exceeds what the mass floor allows for a given energy cap.
pub proof fn lemma_velocity_le_of_ke(v: int, m: int, cap: int)
    requires
        0 <= v,
        MASS_MIN <= m,
        0 <= cap <= 1_050_000_000_000_000_000,
        spec_kinetic_energy(v, m) <= cap,
    ensures
        v <= 1_500_000_000_000,
{
    let x = m * v * v;
    let d = 2 * (SCALE_SQ as int);
    vstd::arithmetic::div_mod::lemma_fundamental_div_mod(x, d);
    vstd::arithmetic::div_mod::lemma_mod_pos_bound(x, d);
    assert(v <= 1_500_000_000_000) by (nonlinear_arith)
        requires
            x == m * v * v,
            x == d * (x / d) + x % d,
            0 <= x % d < d,
            x / d <= cap,
            cap <= 1_050_000_000_000_000_000,
            d == 2_000_000_000_000int,
            m >= 1_000_000,
            0 <= v,
    ;
}

/// Recomputing the kinetic energy of a derived velocity never grows it.
pub proof fn lemma_ke_of_velocity(ke: int, m: int)
    requires
        MASS_MIN <= m <= MASS_MAX,
        -KE_ABS_LIMIT <= ke <= KE_ABS_LIMIT,
    ensures
        0 <= spec_velocity(ke, m),
        spec_kinetic_energy(spec_velocity(ke, m), m) <= spec_iabs(ke),
{
    let num = 2 * spec_iabs(ke) * (SCALE_SQ as int);
    let scaled = num / m;
    crate::fixedpoint::lemma_div_nonneg_bound(num, m);
    lemma_isqrt_exists(scaled);
    let v = spec_isqrt(scaled);
    assert(v * v <= scaled);
    vstd::arithmetic::div_mod::lemma_fundamental_div_mod(num, m);
    vstd::arithmetic::div_mod::lemma_mod_pos_bound(num, m);
    assert(m * (v * v) <= num) by (nonlinear_arith)
        requires
            v * v <= scaled,
            num == m * scaled + num % m,
            0 <= num % m,
            m >= 1,
            0 <= v,
    ;
    assert(m * v * v == m * (v * v)) by (nonlinear_arith);
    assert(num == spec_iabs(ke) * (2 * (SCALE_SQ as int))) by (nonlinear_arith)
        requires num == 2 * spec_iabs(ke) * (SCALE_SQ as int);
    vstd::arithmetic::div_mod::lemma_div_is_ordered(m * v * v, num, 2 * (SCALE_SQ as int));
    vstd::arithmetic::div_mod::lemma_div_by_multiple(spec_iabs(ke), 2 * (SCALE_SQ as int));
}

/// Signed quadratic drag plus constant rolling resistance:
/// `ac * |v + w| * (v + w) + crr * g * m`.
pub open spec fn spec_drag_force(
    velocity: int,
    wind_velocity: int,
    rolling_resistance: int,
    air_resistance_coef: int,
    total_mass: int,
) -> int {
    let rel = velocity + wind_velocity;
    spec_div_trunc(air_resistance_coef * spec_iabs(rel) * rel, SCALE_SQ as int)
        + (rolling_resistance * (GRAVITY as int) * total_mass) / (SCALE_SQ as int)
}

/// Calculates the drag force given the velocity, wind velocity, rolling
/// resistance, and air resistance coefficient.
pub fn get_drag_force(
    velocity: i128,
    wind_velocity: i128,
    rolling_resistance: i128,
    air_resistance_coef: i128,
    total_mass: i128,
) -> (f: i128)
    requires
        -VEL_ABS_LIMIT <= velocity <= VEL_ABS_LIMIT,
        -WIND_ABS_LIMIT <= wind_velocity <= WIND_ABS_LIMIT,
        0 <= rolling_resistance <= ROLLING_LIMIT,
        -AERO_COEF_LIMIT <= air_resistance_coef <= AERO_COEF_LIMIT,
        MASS_MIN <= total_mass <= MASS_MAX,
    ensures
        f == spec_drag_force(
            velocity as int,
            wind_velocity as int,
            rolling_resistance as int,
            air_resistance_coef as int,
            total_mass as int,
        ),
        spec_iabs(f as int) <= 9_000_000_000_000_000_000_000_000,
{
    let rel: i128 = velocity + wind_velocity;
    let rel_abs: i128 = iabs(rel);
    proof {
        assert(spec_iabs(
            ((air_resistance_coef * rel_abs) as int) * (rel as int),
        ) <= 8_900_000_000_000_000_000_000_000_000_000_000_000int) by (nonlinear_arith)
            requires
                -AERO_COEF_LIMIT <= air_resistance_coef <= AERO_COEF_LIMIT,
                0 <= rel_abs <= 2_100_000_000_000,
                rel_abs == spec_iabs(rel as int),
                -2_100_000_000_000 <= rel <= 2_100_000_000_000,
        ;
        assert(spec_iabs((air_resistance_coef as int) * (rel_abs as int))
            <= 4_200_000_000_000_000_000_000_000int) by (nonlinear_arith)
            requires
                -AERO_COEF_LIMIT <= air_resistance_coef <= AERO_COEF_LIMIT,
                0 <= rel_abs <= 2_100_000_000_000,
        ;
    }
    let aero: i128 = div_trunc(air_resistance_coef * rel_abs * rel, SCALE_SQ);
    proof {
        lemma_div_le(
            spec_iabs((air_resistance_coef * rel_abs * rel) as int),
            SCALE_SQ as int,
            8_900_000_000_000_000_000_000_000,
        );
        assert(spec_iabs((aero * 1) as int) <= 8_900_000_000_000_000_000_000_000int);
        assert(0 <= (rolling_resistance as int) * (GRAVITY as int) * (total_mass as int)
            <= 98_100_000_000_000_000_000_000int) by (nonlinear_arith)
            requires
                0 <= rolling_resistance <= ROLLING_LIMIT,
                MASS_MIN <= total_mass <= MASS_MAX,
        ;
        lemma_div_le(
            (rolling_resistance as int) * (GRAVITY as int) * (total_mass as int),
            SCALE_SQ as int,
            98_100_000_000,
        );
    }
    let rolling: i128 = (rolling_resistance * GRAVITY * total_mass) / SCALE_SQ;
    aero + rolling
}

pub open spec fn spec_signum(x: int) -> int {
    if x > 0 {
        1
    } else if x < 0 {
        -1
    } else {
        0
    }
}

/// Net propulsive force: propulsion `p / v` minus sign-corrected drag minus
/// the gravity component along the slope.
pub open spec fn spec_total_force(
    kinetic_energy: int,
    input_power: int,
    rolling_resistance: int,
    air_resistance_coef: int,
    wind_velocity: int,
    slope: int,
    total_mass: int,
) -> int {
    let v = spec_velocity(kinetic_energy, total_mass);
    let drag = spec_signum(kinetic_energy) * spec_drag_force(
        v,
        wind_velocity,
        rolling_resistance,
        air_resistance_coef,
        total_mass,
    );
    let gravity_force = spec_div_trunc((GRAVITY as int) * slope * total_mass, SCALE_SQ as int);
    spec_div_trunc(input_power * (SCALE as int), v) - drag - gravity_force
}

/// Calculates the total force acting on the rider. The sign of the kinetic
/// energy carries the direction of travel, so drag is applied with
/// `signum(kinetic_energy)`; a zero energy is excluded, as the propulsion
/// term divides by the derived velocity.
pub fn get_total_force(
    kinetic_energy: i128,
    input_power: i128,
    rolling_resistance: i128,
    air_resistance_coef: i128,
    wind_velocity: i128,
    slope: i128,
    total_mass: i128,
) -> (f: i128)
    requires
        -KE_ABS_LIMIT <= kinetic_energy <= KE_ABS_LIMIT,
        kinetic_energy != 0,
        -POWER_ABS_LIMIT <= input_power <= POWER_ABS_LIMIT,
        0 <= rolling_resistance <= ROLLING_LIMIT,
        -AERO_COEF_LIMIT <= air_resistance_coef <= AERO_COEF_LIMIT,
        -WIND_ABS_LIMIT <= wind_velocity <= WIND_ABS_LIMIT,
        -SLOPE_ABS_LIMIT <= slope <= SLOPE_ABS_LIMIT,
        MASS_MIN <= total_mass <= MASS_MAX,
    ensures
        f == spec_total_force(
            kinetic_energy as int,
            input_power as int,
            rolling_resistance as int,
            air_resistance_coef as int,
            wind_velocity as int,
            slope as int,
            total_mass as int,
        ),
        spec_iabs(f as int) <= FORCE_ABS_LIMIT,
{
    let v: i128 = velocity(kinetic_energy, total_mass);
    let drag_part: i128 = get_drag_force(
        v,
        wind_velocity,
        rolling_resistance,
        air_resistance_coef,
        total_mass,
    );
    let drag_force: i128 = if kinetic_energy > 0 {
        drag_part
    } else {
        -drag_part
    };
    proof {
        assert(drag_force == spec_signum(kinetic_energy as int) * spec_drag_force(
            v as int,
            wind_velocity as int,
            rolling_resistance as int,
            air_resistance_coef as int,
            total_mass as int,
        )) by (nonlinear_arith)
            requires
                kinetic_energy != 0,
                drag_force == (if kinetic_energy > 0 { drag_part as int } else { -(drag_part as int) }),
                drag_part == spec_drag_force(
                    v as int,
                    wind_velocity as int,
                    rolling_resistance as int,
                    air_resistance_coef as int,
                    total_mass as int,
                ),
        ;
        assert(spec_iabs(((GRAVITY * slope) as int) * (total_mass as int))
            <= 98_100_000_000_000_000_000_000int) by (nonlinear_arith)
            requires
                -SLOPE_ABS_LIMIT <= slope <= SLOPE_ABS_LIMIT,
                MASS_MIN <= total_mass <= MASS_MAX,
        ;
    }
    let gravity_force: i128 = div_trunc(GRAVITY * slope * total_mass, SCALE_SQ);
    proof {
        lemma_div_le(
            spec_iabs((GRAVITY * slope * total_mass) as int),
            SCALE_SQ as int,
            98_100_000_000,
        );
        assert(spec_iabs((input_power * SCALE) as int) <= 10_000_000_000_000_000int)
            by (nonlinear_arith)
            requires -POWER_ABS_LIMIT <= input_power <= POWER_ABS_LIMIT;
    }
    let propulsion: i128 = div_trunc(input_power * SCALE, v);
    propulsion - drag_force - gravity_force
}

} // verus!
