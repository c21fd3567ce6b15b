use whittaker_eilers::{
    bits_is_nan, bits_lt, check_reduced_order, every_fifth_element, lambda_half_decades, optimal_index, reduced_grid,
    uses_exact_hat, REDUCED_GRID_SIZE,
};

fn bits(v: &[f64]) -> Vec<u64> {
    v.iter().map(|x| x.to_bits()).collect()
}

#[test]
fn optimal_is_first_minimum() {
    assert_eq!(optimal_index(&bits(&[3.0, 1.0, 2.0, 1.0])), 1);
    assert_eq!(optimal_index(&bits(&[2.1757, 2.1454, 2.0975, 2.0590, 2.0582, 2.0985])), 4);
}

#[test]
fn optimal_skips_nan() {
    assert_eq!(optimal_index(&bits(&[f64::NAN, 2.0, f64::NAN])), 1);
    assert_eq!(optimal_index(&bits(&[f64::INFINITY, f64::MAX, 7.0])), 2);
    assert_eq!(optimal_index(&bits(&[f64::NAN, f64::INFINITY])), 1);
    assert_eq!(optimal_index(&bits(&[f64::NAN, f64::NAN])), 0);
    assert_eq!(optimal_index(&vec![]), 0);
}

#[test]
fn optimal_takes_least_even_when_not_finite() {
    assert_eq!(optimal_index(&bits(&[f64::INFINITY, f64::MAX])), 1);
    assert_eq!(optimal_index(&bits(&[f64::INFINITY, f64::NAN, f64::INFINITY])), 0);
    assert_eq!(optimal_index(&bits(&[f64::MAX, f64::INFINITY, f64::MAX])), 0);
}

#[test]
fn optimal_treats_zeros_as_equal() {
    assert_eq!(optimal_index(&bits(&[1.0, -0.0, 0.0])), 1);
    assert_eq!(optimal_index(&bits(&[1.0, 0.0, -0.0])), 1);
    assert_eq!(optimal_index(&bits(&[1.0, -3.0, 0.0])), 1);
}

#[test]
fn optimal_error_is_minimum_of_all() {
    let errors = [4.0, 0.25, 9.5, 0.125, 3.0, 0.125, 8.0];
    let i = optimal_index(&bits(&errors));
    assert_eq!(i, 3);
    assert!(errors.iter().all(|e| *e >= errors[i]));
}

#[test]
fn encoding_comparison_matches_floats() {
    let values = [
        -f64::INFINITY, -2.5, -1.0, -0.0, 0.0, 1e-300, 0.5, 1.0, 2.5, f64::MAX, f64::INFINITY,
        f64::NAN,
    ];
    for a in values {
        assert_eq!(bits_is_nan(a.to_bits()), a.is_nan());
    }
    for a in values {
        for b in values {
            assert_eq!(bits_lt(a.to_bits(), b.to_bits()), a < b, "{} < {}", a, b);
        }
    }
}

#[test]
fn lambda_grid_spans_half_decades() {
    let grid = lambda_half_decades();
    assert_eq!(grid.len(), 27);
    assert_eq!(grid[0], -10);
    assert_eq!(grid[26], 16);
    assert_eq!(10_f64.powf(grid[0] as f64 / 2.0), 1e-5);
    assert_eq!(10_f64.powf(grid[26] as f64 / 2.0), 1e8);
}

#[test]
fn every_fifth_keeps_first_of_each_five() {
    let data: Vec<f64> = (0..12).map(|i| i as f64).collect();
    assert_eq!(every_fifth_element(&data), vec![0.0, 5.0, 10.0]);
    assert_eq!(every_fifth_element(&data[..10]), vec![0.0, 5.0]);
    assert_eq!(every_fifth_element::<f64>(&[]), Vec::<f64>::new());
    assert_eq!(every_fifth_element(&[7u8]), vec![7u8]);
}

#[test]
fn exact_hat_up_to_reduced_size() {
    assert!(uses_exact_hat(REDUCED_GRID_SIZE));
    assert!(uses_exact_hat(3));
    assert!(!uses_exact_hat(REDUCED_GRID_SIZE + 1));
}

#[test]
fn reduced_grid_maps_nearest_samples() {
    let g = reduced_grid(1024);
    assert_eq!(g.down().len(), 100);
    assert_eq!(g.down()[0], 0);
    assert_eq!(g.down()[1], 10);
    assert_eq!(g.down()[2], 21);
    assert_eq!(g.down()[99], 1023);
    assert_eq!(g.up().len(), 1024);
    assert_eq!(g.up()[0], 0);
    assert_eq!(g.up()[5], 0);
    assert_eq!(g.up()[6], 1);
    assert_eq!(g.up()[1023], 99);
    assert_eq!(g.mid(), 511);
    assert_eq!(g.reduced_mid(), 49);
    for (x, &i) in g.down().iter().enumerate() {
        let exact = x as f64 * (1023.0 / 99.0);
        assert_eq!(i, exact.round() as usize);
    }
}

#[test]
fn reduced_grid_rounds_halves_up() {
    let g = reduced_grid(203);
    assert_eq!(g.up()[101], 50);
    assert_eq!(g.up()[202], 99);
    assert_eq!(g.mid(), 100);
    let smallest = reduced_grid(101);
    assert_eq!(smallest.down()[49], 49);
    assert_eq!(smallest.down()[50], 51);
    assert_eq!(smallest.down()[99], 100);
    assert_eq!(smallest.up()[100], 99);
}

#[test]
fn reduced_grid_round_trip_returns_grid_sample() {
    for n in [101, 102, 199, 203, 1024, 5000] {
        let g = reduced_grid(n);
        for x in 0..REDUCED_GRID_SIZE {
            assert_eq!(g.up()[g.down()[x]], x, "n = {}, x = {}", n, x);
        }
    }
}

#[test]
fn reduced_grid_samples_series_at_grid() {
    let g = reduced_grid(1024);
    assert_eq!(g.series_len(), 1024);
    let x: Vec<f64> = (0..1024).map(|i| i as f64 * 0.5).collect();
    let sampled = g.sample(&x);
    assert_eq!(sampled.len(), REDUCED_GRID_SIZE);
    assert_eq!(sampled[0], 0.0);
    assert_eq!(sampled[1], 5.0);
    assert_eq!(sampled[99], 511.5);
    for k in 0..REDUCED_GRID_SIZE {
        assert_eq!(sampled[k], x[g.down()[k]]);
    }
}

#[test]
fn reduced_grid_order_limit() {
    assert_eq!(check_reduced_order(2), Ok(()));
    assert_eq!(check_reduced_order(REDUCED_GRID_SIZE), Ok(()));
    assert_eq!(
        check_reduced_order(REDUCED_GRID_SIZE + 1),
        Err(whittaker_eilers::WhittakerError::DataTooShort(100, 101))
    );
}
