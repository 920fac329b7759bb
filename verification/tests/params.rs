use featrs::params::{multiplier_ok, quantiles_ok, smoothing_ok, unit_threshold_ok};

fn b(x: f64) -> u64 {
    x.to_bits()
}

#[test]
fn smoothing_strength_must_be_finite_and_not_negative() {
    assert!(smoothing_ok(b(0.0)) && smoothing_ok(b(-0.0)) && smoothing_ok(b(1.5)));
    assert!(!smoothing_ok(b(-1e-300)) && !smoothing_ok(b(f64::INFINITY)) && !smoothing_ok(b(f64::NAN)));
}

#[test]
fn multiplier_must_be_finite_and_positive() {
    assert!(multiplier_ok(b(1.5)) && multiplier_ok(f64::from_bits(1).to_bits()));
    assert!(!multiplier_ok(b(0.0)) && !multiplier_ok(b(-0.0)) && !multiplier_ok(b(-2.0)));
    assert!(!multiplier_ok(b(f64::INFINITY)) && !multiplier_ok(b(f64::NAN)));
}

#[test]
fn threshold_must_lie_in_the_unit_interval() {
    assert!(unit_threshold_ok(b(0.0)) && unit_threshold_ok(b(-0.0)) && unit_threshold_ok(b(1.0)) && unit_threshold_ok(b(0.5)));
    assert!(!unit_threshold_ok(b(1.0000000000000002)) && !unit_threshold_ok(b(-0.1)) && !unit_threshold_ok(b(f64::NAN)));
}

#[test]
fn quantile_pairs_must_be_ordered_within_the_unit_interval() {
    assert!(quantiles_ok(b(0.0), b(1.0)) && quantiles_ok(b(0.05), b(0.95)));
    assert!(!quantiles_ok(b(0.5), b(0.5)) && !quantiles_ok(b(0.9), b(0.1)));
    assert!(!quantiles_ok(b(-0.1), b(0.5)) && !quantiles_ok(b(0.1), b(1.5)) && !quantiles_ok(b(f64::NAN), b(0.5)));
}
