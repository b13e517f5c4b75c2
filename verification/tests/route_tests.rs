use rusty_bike::morton::{default_rider_model, RiderModel};
use rusty_bike::simulation::{
    compute_all_times, compute_time_and_final_velocity, default_resistance_model,
    BicycleResistanceModel, RoadSegment, SimError,
};

fn flat_segment(length_m: i128) -> RoadSegment {
    RoadSegment {
        length: length_m * 1_000_000,
        altitude: 0,
        slope: 0,
        temperature: 20_000_000,
        relative_wind_speed: 0,
        roughness: 1_000_000,
    }
}

fn climb_segment(length_m: i128, slope_micro: i128) -> RoadSegment {
    RoadSegment {
        length: length_m * 1_000_000,
        altitude: 0,
        slope: slope_micro,
        temperature: 20_000_000,
        relative_wind_speed: 0,
        roughness: 1_000_000,
    }
}

fn lossless_model() -> BicycleResistanceModel {
    BicycleResistanceModel {
        total_mass: 80_000_000,
        cda_surface: 300_000,
        rolling_resistance: 4_000,
        drivetrain_efficiency: 1_000_000,
    }
}

#[test]
fn flat_kilometer_at_300_watts_lands_between_physical_bounds() {
    // Flat 1000 m, no wind (so no aerodynamic term), rolling resistance
    // 0.004, 80 kg, 300 W from rest. The terminal velocity is
    // 300 / (0.004 * 9.81 * 80) = 95.56 m/s, so the duration must exceed
    // 1000 / 95.56 = 10.46 s, plus an acceleration transient.
    let seg = flat_segment(1_000);
    let res = lossless_model();
    let (t, v_exit) = compute_time_and_final_velocity(0, 300_000_000, &seg, &res).unwrap();
    assert!(t > 10_460_000, "t {t}");
    assert!(t < 100_000_000, "t {t}");
    assert!(v_exit > 10_000_000, "v_exit {v_exit}");
}

#[test]
fn duration_is_monotonic_in_segment_length() {
    let res = lossless_model();
    let (t1, _) = compute_time_and_final_velocity(
        5_000_000,
        300_000_000,
        &flat_segment(1_000),
        &res,
    )
        .unwrap();
    let (t2, _) = compute_time_and_final_velocity(
        5_000_000,
        300_000_000,
        &flat_segment(2_000),
        &res,
    )
        .unwrap();
    assert!(t2 >= t1, "t1 {t1} t2 {t2}");
}

#[test]
fn splitting_a_segment_in_half_gives_nearly_the_same_time() {
    let res = lossless_model();
    let (t_whole, _) = compute_time_and_final_velocity(
        5_000_000,
        300_000_000,
        &flat_segment(1_000),
        &res,
    )
        .unwrap();
    let (t_a, v_mid) = compute_time_and_final_velocity(
        5_000_000,
        300_000_000,
        &flat_segment(500),
        &res,
    )
        .unwrap();
    let (t_b, _) = compute_time_and_final_velocity(v_mid, 300_000_000, &flat_segment(500), &res)
        .unwrap();
    let diff = (t_whole - (t_a + t_b)).abs();
    assert!(diff < 500_000, "t_whole {t_whole} halves {}", t_a + t_b);
}

#[test]
fn integration_against_a_gale_does_not_converge() {
    // A 100 m/s headwind on a 10 m^2 drag area pins the step size at zero:
    // the step budget runs out and the distinct non-convergence error comes.
    let seg = RoadSegment {
        length: 1_000_000_000,
        altitude: 0,
        slope: 0,
        temperature: 20_000_000,
        relative_wind_speed: 100_000_000,
        roughness: 1_000_000,
    };
    let res = BicycleResistanceModel {
        total_mass: 80_000_000,
        cda_surface: 10_000_000,
        rolling_resistance: 4_000,
        drivetrain_efficiency: 1_000_000,
    };
    let r = compute_time_and_final_velocity(100_000, 0, &seg, &res);
    assert_eq!(r, Err(SimError::NonConvergence));
}

#[test]
fn pacing_leaves_sustainable_powers_untouched() {
    // Both desired powers sit below critical power, so exhaustion never
    // comes and the actual powers equal the desired powers exactly.
    let rider = default_rider_model();
    let res = default_resistance_model();
    let segments = vec![flat_segment(500), flat_segment(500)];
    let powers: Vec<i128> = vec![200_000_000, 250_000_000];
    let out = compute_all_times(1_000_000, 20_000_000_000, &powers, &segments, &res, &rider)
        .unwrap();
    assert_eq!(out.power, powers);
    assert_eq!(out.duration.len(), 2);
    assert_eq!(out.reserve.len(), 2);
    assert_eq!(out.total_time, out.duration[0] + out.duration[1]);
}

#[test]
fn exhaustion_mid_segment_repaces_to_critical_power() {
    // Segment 1 climbs at 8% at a desired 400 W: exhaustion after about
    // 21 s, long before the climb ends, so the driver clamps this segment
    // and the following still-supracritical one down to 300 W, and the
    // clamped run takes longer than the infeasible unclamped pass would.
    let rider = default_rider_model();
    let res = lossless_model();
    let segments = vec![climb_segment(1_000, 80_000), climb_segment(500, 80_000)];
    let powers: Vec<i128> = vec![400_000_000, 350_000_000];
    let out = compute_all_times(1_000_000, 5_000_000_000, &powers, &segments, &res, &rider)
        .unwrap();
    assert_eq!(out.power[0], 300_000_000);
    assert_eq!(out.power[1], 300_000_000);

    let (t0, v1) = compute_time_and_final_velocity(1_000_000, 400_000_000, &segments[0], &res)
        .unwrap();
    let (t1, _) = compute_time_and_final_velocity(v1, 350_000_000, &segments[1], &res).unwrap();
    assert!(out.total_time > t0 + t1, "clamped {} unclamped {}", out.total_time, t0 + t1);
}

#[test]
fn repace_stops_at_the_first_recovery_segment() {
    // Desired powers 400, 200, 350: the clamp triggered on segment 1 stops
    // at segment 2, whose 200 W already recovers, and segment 3 keeps its
    // desired power since the recovered reserve outlasts the short flat.
    let rider = default_rider_model();
    let res = lossless_model();
    let segments = vec![
        climb_segment(1_000, 80_000),
        flat_segment(100),
        flat_segment(100),
    ];
    let powers: Vec<i128> = vec![400_000_000, 200_000_000, 350_000_000];
    let out = compute_all_times(1_000_000, 5_000_000_000, &powers, &segments, &res, &rider)
        .unwrap();
    assert_eq!(out.power[0], 300_000_000);
    assert_eq!(out.power[1], 200_000_000);
    assert_eq!(out.power[2], 350_000_000);
}

#[test]
fn reserve_trace_follows_the_critical_power_boundary() {
    // One segment ridden above critical power depletes; the next, below it,
    // recovers.
    let rider = RiderModel {
        critical_power: 300_000_000,
        anaerobic_work_capacity: 20_000_000_000,
        max_power: 1_000_000_000,
    };
    let res = lossless_model();
    let segments = vec![flat_segment(500), flat_segment(500)];
    let powers: Vec<i128> = vec![320_000_000, 200_000_000];
    let out = compute_all_times(1_000_000, 20_000_000_000, &powers, &segments, &res, &rider)
        .unwrap();
    assert!(out.reserve[0] < 20_000_000_000, "reserve[0] {}", out.reserve[0]);
    assert!(out.reserve[1] > out.reserve[0], "reserve {:?}", out.reserve);
    // Depletion over the first segment is exactly linear in its duration.
    assert_eq!(
        out.reserve[0],
        20_000_000_000 - 20_000_000 * out.duration[0] / 1_000_000
    );
}
