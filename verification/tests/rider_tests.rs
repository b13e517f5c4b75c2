use rusty_bike::morton::{
    default_rider_model, max_power, time_to_exhaustion, update_anaerobic_reserve, RiderModel,
};

#[test]
fn default_rider_matches_stock_values() {
    let r = default_rider_model();
    assert_eq!(r.critical_power, 300_000_000);
    assert_eq!(r.anaerobic_work_capacity, 20_000_000_000);
    assert_eq!(r.max_power, 1_000_000_000);
}

#[test]
fn peak_power_interpolates_linearly() {
    let r = default_rider_model();
    // Full reserve: the maximum power; empty reserve: critical power;
    // half reserve: the midpoint 650 W.
    assert_eq!(max_power(&r, 20_000_000_000), 1_000_000_000);
    assert_eq!(max_power(&r, 0), 300_000_000);
    assert_eq!(max_power(&r, 10_000_000_000), 650_000_000);
}

#[test]
fn time_to_exhaustion_at_350_watts_full_reserve() {
    // 20000/50 + 20000/(300-1000) = 400 - 28.571428... seconds
    let r = default_rider_model();
    let t = time_to_exhaustion(&r, 350_000_000, 20_000_000_000);
    assert_eq!(t, Some(371_428_572));
}

#[test]
fn time_to_exhaustion_unbounded_at_or_below_critical_power() {
    let r = default_rider_model();
    assert_eq!(time_to_exhaustion(&r, 300_000_000, 20_000_000_000), None);
    assert_eq!(time_to_exhaustion(&r, 150_000_000, 5_000_000_000), None);
    assert_eq!(time_to_exhaustion(&r, 0, 20_000_000_000), None);
}

#[test]
fn depletion_above_critical_power_is_exactly_linear() {
    // 400 W for 10 s: 20000 - 100 * 10 = 19000 J
    let r = default_rider_model();
    let after = update_anaerobic_reserve(&r, 400_000_000, 10_000_000, 20_000_000_000);
    assert_eq!(after, 19_000_000_000);
}

#[test]
fn depletion_can_push_the_reserve_negative() {
    // The model never clamps: 5000 - 500 * 20 = -5000 J
    let r = default_rider_model();
    let after = update_anaerobic_reserve(&r, 800_000_000, 20_000_000, 5_000_000_000);
    assert_eq!(after, -5_000_000_000);
}

#[test]
fn recovery_below_critical_power_increases_toward_capacity() {
    let r = default_rider_model();
    let after = update_anaerobic_reserve(&r, 200_000_000, 10_000_000, 10_000_000_000);
    assert!(after > 10_000_000_000, "after {after}");
    assert!(after <= 20_000_000_000, "after {after}");
}

#[test]
fn recovery_never_exceeds_capacity_even_after_long_rest() {
    let r = default_rider_model();
    // One full hour of complete rest from a nearly full reserve.
    let after = update_anaerobic_reserve(&r, 0, 3_600_000_000, 19_999_000_000);
    assert!(after > 19_999_000_000, "after {after}");
    assert!(after <= 20_000_000_000, "after {after}");
}

#[test]
fn reserve_is_held_exactly_at_critical_power() {
    let r = default_rider_model();
    let after = update_anaerobic_reserve(&r, 300_000_000, 500_000_000, 12_345_678_000);
    assert_eq!(after, 12_345_678_000);
}

#[test]
fn recovery_magnitude_matches_exponential_closed_form() {
    // 100 W for 60 s from an empty reserve: the closed form gives
    // 20000 * (1 - e^(-200*60/20000)) = 20000 * (1 - e^-0.6) = 9024.1 J.
    let r = default_rider_model();
    let after = update_anaerobic_reserve(&r, 100_000_000, 60_000_000, 0);
    assert!(after > 8_900_000_000, "after {after}");
    assert!(after < 9_150_000_000, "after {after}");
}

#[test]
fn reserve_above_capacity_relaxes_back_toward_it() {
    // The model never clamps, so a reserve above capacity is admitted and
    // recovery moves it down toward capacity, never past it.
    let r = default_rider_model();
    let after = update_anaerobic_reserve(&r, 100_000_000, 30_000_000, 25_000_000_000);
    assert!(after < 25_000_000_000, "after {after}");
    assert!(after >= 20_000_000_000, "after {after}");
}

#[test]
fn zero_duration_changes_nothing() {
    let r = default_rider_model();
    assert_eq!(
        update_anaerobic_reserve(&r, 400_000_000, 0, 7_000_000_000),
        7_000_000_000
    );
    assert_eq!(
        update_anaerobic_reserve(&r, 100_000_000, 0, 7_000_000_000),
        7_000_000_000
    );
}

#[test]
fn custom_rider_exhaustion_is_consistent() {
    let r = RiderModel {
        critical_power: 250_000_000,
        anaerobic_work_capacity: 15_000_000_000,
        max_power: 900_000_000,
    };
    // 15000/100 + 15000/(250-900) = 150 - 23.0769... seconds
    let t = time_to_exhaustion(&r, 350_000_000, 15_000_000_000);
    assert_eq!(t, Some(150_000_000 - 23_076_923));
}
