use advent::fuel::{calculate_fuel, total_fuel};

#[test]
fn test_calculate_fuel_zero() {
    assert_eq!(calculate_fuel(0), 0);
}

#[test]
fn test_calculate_fuel_negative() {
    assert_eq!(calculate_fuel(-123), 0);
}

#[test]
fn test_calculate_fuel_example_from_docs() {
    assert_eq!(calculate_fuel(100756), 50346);
}

#[test]
fn fuel_for_small_masses() {
    assert_eq!(calculate_fuel(8), 0);
    assert_eq!(calculate_fuel(9), 1);
    assert_eq!(calculate_fuel(14), 2);
    assert_eq!(calculate_fuel(1969), 966);
}

#[test]
fn fuel_for_largest_mass() {
    let f = calculate_fuel(i32::MAX);
    assert!(f > 0);
    assert!(f < i32::MAX / 2);
}

#[test]
fn total_fuel_sums_and_detects_overflow() {
    assert_eq!(total_fuel(&[]), Some(0));
    assert_eq!(total_fuel(&[14, 1969, 100756]), Some(2 + 966 + 50346));
    assert_eq!(total_fuel(&[i32::MAX, i32::MAX, i32::MAX]), None);
}
