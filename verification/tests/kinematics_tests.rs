use rusty_bike::kinematics::{
    air_density, get_drag_force, get_total_force, gravity_acceleration, kinetic_energy, velocity,
};

#[test]
fn gravity_constant_in_micro_units() {
    assert_eq!(gravity_acceleration(), 9_810_000);
}

#[test]
fn kinetic_energy_of_ten_meters_per_second_seventy_kilograms() {
    // 0.5 * 70 * 10^2 = 3500 J
    assert_eq!(kinetic_energy(10_000_000, 70_000_000), 3_500_000_000);
}

#[test]
fn velocity_inverts_kinetic_energy() {
    // sqrt(2 * 3500 / 70) = 10 m/s
    assert_eq!(velocity(3_500_000_000, 70_000_000), 10_000_000);
}

#[test]
fn velocity_uses_magnitude_of_negative_energy() {
    assert_eq!(velocity(-3_500_000_000, 70_000_000), 10_000_000);
}

#[test]
fn air_density_at_sea_level_is_plausible() {
    // 101325 / (287 * 288.15) is about 1.225 kg/m^3; at 15 C the model uses
    // 288 K, so the value sits near 1.2259.
    let d = air_density(0, 15_000_000);
    assert!(d > 1_200_000, "density {d}");
    assert!(d < 1_260_000, "density {d}");
}

#[test]
fn air_density_falls_with_altitude() {
    let low = air_density(0, 15_000_000);
    let high = air_density(2_000_000_000, 15_000_000);
    assert!(high < low, "low {low} high {high}");
}

#[test]
fn drag_force_quadratic_plus_rolling() {
    // 0.3 * (10 + 2)^2 + 0.005 * 9.81 * 70 = 43.2 + 3.4335 = 46.6335 N
    let f = get_drag_force(10_000_000, 2_000_000, 5_000, 300_000, 70_000_000);
    assert_eq!(f, 46_633_500);
}

#[test]
fn drag_force_preserves_sign_of_relative_motion() {
    // Relative velocity -12 m/s: the quadratic term turns negative while the
    // rolling term stays, giving 3.4335 - 43.2 = -39.7665 N.
    let f = get_drag_force(-10_000_000, -2_000_000, 5_000, 300_000, 70_000_000);
    assert_eq!(f, -39_766_500);
}

#[test]
fn total_force_combines_propulsion_drag_and_gravity() {
    // 250/10 - 46.6335 - 9.81 * 0.05 * 70 = 25 - 46.6335 - 34.335 = -55.9685 N
    let f = get_total_force(
        3_500_000_000,
        250_000_000,
        5_000,
        300_000,
        2_000_000,
        50_000,
        70_000_000,
    );
    assert_eq!(f, -55_968_500);
}

#[test]
fn total_force_flat_no_wind_has_no_aero_term() {
    // With a zero aero coefficient only propulsion and rolling remain:
    // 300/10 - 0.004 * 9.81 * 80 = 30 - 3.13920 = 26.8608 N
    let ke = kinetic_energy(10_000_000, 80_000_000);
    let f = get_total_force(ke, 300_000_000, 4_000, 0, 0, 0, 80_000_000);
    assert_eq!(f, 26_860_800);
}
