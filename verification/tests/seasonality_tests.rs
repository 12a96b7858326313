use financial_history_builder::engine::Densifier;
use financial_history_builder::seasonality::{normalize_weights, rotate_weights_for_fiscal_year, validate_custom_weights, WeightsProblem};

#[test]
fn test_rotate_weights() {
    let weights = vec![1.0, 2.0, 3.0, 4.0, 5.0, 6.0, 7.0, 8.0, 9.0, 10.0, 11.0, 12.0];
    let rotated = rotate_weights_for_fiscal_year(&weights, 6);
    assert_eq!(rotated[0], 7.0);
    assert_eq!(rotated[6], 1.0);
    assert_eq!(rotated[11], 6.0);
}

#[test]
fn test_rotate_weights_no_rotation() {
    let weights = vec![1.0, 2.0, 3.0, 4.0, 5.0, 6.0, 7.0, 8.0, 9.0, 10.0, 11.0, 12.0];
    let rotated = rotate_weights_for_fiscal_year(&weights, 12);
    assert_eq!(rotated, weights);
}

#[test]
fn rotate_then_align_gives_back_calendar_weights() {
    let weights: Vec<u32> = (1..=12).collect();
    for fye in 1..=12u32 {
        let fy = rotate_weights_for_fiscal_year(&weights, fye);
        let calendar = Densifier::new(fye).align_weights_to_calendar(&fy, 0);
        assert_eq!(calendar, weights, "fiscal year ending in month {}", fye);
    }
}

#[test]
fn align_places_fiscal_weights_on_calendar_months() {
    let fy: Vec<u32> = vec![10, 20, 30];
    let calendar = Densifier::new(9).align_weights_to_calendar(&fy, 0);
    assert_eq!(calendar, vec![0, 0, 0, 0, 0, 0, 0, 0, 0, 10, 20, 30]);
}

fn check_custom(weights: Vec<f64>) -> Result<(), WeightsProblem<f64>> {
    validate_custom_weights(
        &weights,
        &|a: f64, b: f64| a + b,
        0.0,
        &|w: f64| w < 0.0,
        &|sum: f64| (sum - 1.0).abs() > 0.01,
    )
}

#[test]
fn test_custom_valid() {
    let custom = vec![0.1, 0.1, 0.1, 0.1, 0.1, 0.1, 0.05, 0.05, 0.05, 0.05, 0.05, 0.15];
    assert!(check_custom(custom).is_ok());
}

#[test]
fn test_custom_invalid_length() {
    let custom = vec![0.5, 0.5];
    let result = check_custom(custom);
    assert!(result.is_err());
    assert!(matches!(result, Err(WeightsProblem::Count(2))));
}

#[test]
fn test_custom_invalid_sum() {
    let custom = vec![0.1; 12];
    let result = check_custom(custom);
    assert!(result.is_err());
    match result {
        Err(WeightsProblem::Sum(s)) => assert!((s - 1.2).abs() < 1e-9),
        _ => panic!("expected a sum problem"),
    }
}

#[test]
fn negative_weight_is_reported_before_the_sum() {
    let mut custom = vec![0.1; 12];
    custom[3] = -0.1;
    assert!(matches!(check_custom(custom), Err(WeightsProblem::Negative)));
}

#[test]
fn normalize_scales_to_one_and_keeps_zero_weights() {
    let norm = |w: Vec<i64>| {
        normalize_weights(&w, &|a: i64, b: i64| a + b, 0, &|s: i64| s == 0, &|a: i64, s: i64| a * 100 / s)
    };
    assert_eq!(norm(vec![1, 1, 2]), vec![25, 25, 50]);
    assert_eq!(norm(vec![0, 0]), vec![0, 0]);
}
