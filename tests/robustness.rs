use whittaker_eilers::{check_length, first_gap_fault, Gap, SmootherShape, WhittakerError};

const EPSILON: f64 = 1e-6;

fn gaps_of(x: &[f64]) -> Vec<Gap> {
    x.windows(2)
        .map(|pair| {
            if pair[0] >= pair[1] {
                Gap::NotIncreasing
            } else if (pair[0] - pair[1]).abs() < EPSILON {
                Gap::TooClose
            } else {
                Gap::Increasing
            }
        })
        .collect()
}

fn shape_for(
    order: usize,
    data_length: usize,
    x: Option<&Vec<f64>>,
    weights: Option<&Vec<f64>>,
) -> Result<SmootherShape, WhittakerError> {
    let gaps = x.map(|v| gaps_of(v)).unwrap_or_default();
    SmootherShape::new(order, data_length, x.map(|v| v.len()), &gaps, weights.map(|w| w.len()))
}

#[test]
fn short_data() {
    let shape = shape_for(2, 2, None, None).unwrap();
    assert!(shape.check_series(vec![0.1, 0.2].len()).is_ok());
}

#[test]
fn mismatched_data_length() {
    let shape = shape_for(2, 3, None, None).unwrap();
    assert_eq!(
        shape.check_series(vec![0.1, 0.2].len()),
        Err(WhittakerError::LengthMismatch(3, 2))
    );
    assert_eq!(
        shape_for(2, 3, Some(&vec![1.0, 2.0]), None),
        Err(WhittakerError::LengthMismatch(3, 2))
    );
    assert_eq!(
        shape_for(2, 3, None, Some(&vec![1.0, 2.0])),
        Err(WhittakerError::LengthMismatch(3, 2))
    );
    assert!(shape_for(2, 3, Some(&vec![1.0, 2.0]), Some(&vec![1.0, 2.0])).is_err());
}

#[test]
fn data_too_short() {
    assert_eq!(shape_for(2, 1, None, None), Err(WhittakerError::DataTooShort(1, 2)));
}

#[test]
fn x_not_monotonically_increasing() {
    let test_vec = vec![1.0, 2.0, 2.0, 4.0, 5.0, 6.0, 7.0, 8.0, 9.0, 10.0];
    assert_eq!(
        shape_for(1, 10, Some(&test_vec), None),
        Err(WhittakerError::NotMonotonicallyIncreasing(1))
    );
}

#[test]
fn x_sampled_too_closely() {
    let test_vec = vec![1.0, 2.0, 2.0 + 1e-8, 4.0, 5.0, 6.0, 7.0, 8.0, 9.0, 10.0];
    assert_eq!(
        shape_for(1, test_vec.len(), Some(&test_vec), None),
        Err(WhittakerError::SampleRateError(1))
    );
}

#[test]
fn monotonic_fault_reported_before_later_close_gap() {
    let x = vec![1.0, 0.5, 0.5 + 1e-9, 3.0];
    assert_eq!(first_gap_fault(&gaps_of(&x)), Err(WhittakerError::NotMonotonicallyIncreasing(0)));
    let y = vec![1.0, 1.0 + 1e-9, 0.5, 3.0];
    assert_eq!(first_gap_fault(&gaps_of(&y)), Err(WhittakerError::SampleRateError(0)));
}

#[test]
fn readme_positions_are_valid() {
    let x_input = vec![1.1, 1.9, 3.1, 3.91, 5.0, 6.02, 7.01, 7.7, 9.0, 10.0];
    let mut weights = vec![1.0; x_input.len()];
    weights[5] = 0.0;
    let shape = shape_for(2, x_input.len(), Some(&x_input), Some(&weights)).unwrap();
    assert_eq!(shape.get_order(), 2);
    assert_eq!(shape.get_data_length(), 10);
}

#[test]
fn too_short_reported_before_length_mismatch() {
    assert_eq!(
        shape_for(5, 3, Some(&vec![1.0]), Some(&vec![1.0])),
        Err(WhittakerError::DataTooShort(3, 5))
    );
}

#[test]
fn position_fault_reported_before_weight_length() {
    assert_eq!(
        shape_for(1, 3, Some(&vec![1.0, 1.0, 2.0]), Some(&vec![1.0])),
        Err(WhittakerError::NotMonotonicallyIncreasing(0))
    );
}

#[test]
fn empty_positions_accepted() {
    assert!(shape_for(0, 0, Some(&vec![]), None).is_ok());
    assert_eq!(first_gap_fault(&vec![]), Ok(()));
}

#[test]
fn order_update_checked_against_length() {
    let shape = shape_for(2, 4, None, None).unwrap();
    assert_eq!(shape.with_order(5), Err(WhittakerError::DataTooShort(4, 5)));
    let raised = shape.with_order(4).unwrap();
    assert_eq!(raised.get_order(), 4);
    assert_eq!(raised.get_data_length(), 4);
    assert_eq!(shape.get_order(), 2);
}

#[test]
fn length_check() {
    assert_eq!(check_length(4, 4), Ok(()));
    assert_eq!(check_length(4, 5), Err(WhittakerError::LengthMismatch(4, 5)));
}

#[test]
fn solver_error_clones_equal() {
    let e = WhittakerError::SolverError(sprs::errors::LinalgError::NonSquareMatrix);
    assert_eq!(e.clone(), e);
    assert_ne!(e, WhittakerError::MatrixNotInvertible);
}
