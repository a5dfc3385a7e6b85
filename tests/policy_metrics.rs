use fandango::metrics::measure_locality;
use fandango::policy::{decide, PrecisionLevel, PrecisionPlan};

#[test]
fn low_load_dominates_high_entropy() {
    assert_eq!(decide(900, 900, 100), PrecisionLevel::Int4);
}

#[test]
fn high_load_dominates_high_entropy() {
    assert_eq!(decide(900, 900, 800), PrecisionLevel::Int8);
}

#[test]
fn medium_load_follows_content() {
    assert_eq!(decide(900, 900, 500), PrecisionLevel::Float16);
    assert_eq!(decide(500, 100, 500), PrecisionLevel::Float16);
    assert_eq!(decide(500, 500, 500), PrecisionLevel::Int8);
    assert_eq!(decide(800, 200, 500), PrecisionLevel::Int8);
}

#[test]
fn load_boundaries() {
    assert_eq!(decide(0, 0, 299), PrecisionLevel::Int4);
    assert_eq!(decide(0, 0, 300), PrecisionLevel::Float16);
    assert_eq!(decide(0, 500, 699), PrecisionLevel::Int8);
    assert_eq!(decide(999, 0, 700), PrecisionLevel::Int8);
}

#[test]
fn plan_uses_rule_table() {
    let plan = PrecisionPlan::new("Test Plan", "A test precision plan");
    assert_eq!(plan.name, "Test Plan");
    assert_eq!(plan.description, "A test precision plan");
    assert_eq!(plan.compute_plan(900, 900, 100), PrecisionLevel::Int4);
    assert_eq!(plan.compute_plan(500, 500, 500), PrecisionLevel::Int8);
}

#[test]
fn test_measure_locality() {
    let data = vec![1000, 2000, 3000, 4000, 5000];
    let locality = measure_locality(&data);
    assert!(locality > 0);
}

#[test]
fn locality_exact_values() {
    // mean 3, mean absolute deviation 1.2: 0.4
    assert_eq!(measure_locality(&vec![1000, 2000, 3000, 4000, 5000]), 400);
    // mean 0.3 is below 1, so the deviation 0.12 is not scaled
    assert_eq!(measure_locality(&vec![100, 200, 300, 400, 500]), 120);
    // around a negative mean
    assert_eq!(measure_locality(&vec![-4000, -2000]), 333);
}

#[test]
fn locality_degenerate_batches() {
    assert_eq!(measure_locality(&vec![]), 0);
    assert_eq!(measure_locality(&vec![0, 0, 0]), 0);
    assert_eq!(measure_locality(&vec![700, 700, 700]), 0);
}
