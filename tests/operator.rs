use whittaker_eilers::{
    difference_coefficients, uniform_difference, uniform_penalty, uniform_penalty_csr,
    MAX_EXACT_ORDER,
};

#[test]
fn coefficients_of_low_orders() {
    assert_eq!(difference_coefficients(0), vec![1]);
    assert_eq!(difference_coefficients(1), vec![-1, 1]);
    assert_eq!(difference_coefficients(2), vec![1, -2, 1]);
    assert_eq!(difference_coefficients(3), vec![-1, 3, -3, 1]);
    assert_eq!(difference_coefficients(4), vec![1, -4, 6, -4, 1]);
}

#[test]
fn coefficients_of_largest_exact_order() {
    let c = difference_coefficients(MAX_EXACT_ORDER);
    assert_eq!(c.len(), MAX_EXACT_ORDER + 1);
    assert_eq!(c[0], -1);
    assert_eq!(c[MAX_EXACT_ORDER], 1);
    assert_eq!(c[1], 29);
    assert_eq!(c[14], -77558760);
    assert_eq!(c[15], 77558760);
    assert_eq!(c.iter().map(|v| v.abs()).sum::<i64>(), 1i64 << 29);
}

#[test]
fn second_order_operator_on_four_samples() {
    let t = uniform_difference(4, 2);
    assert_eq!(t.rows, vec![0, 0, 0, 1, 1, 1]);
    assert_eq!(t.cols, vec![0, 1, 2, 1, 2, 3]);
    assert_eq!(t.values, vec![1, -2, 1, 1, -2, 1]);
}

#[test]
fn operator_of_order_zero_is_identity() {
    let t = uniform_difference(3, 0);
    assert_eq!(t.rows, vec![0, 1, 2]);
    assert_eq!(t.cols, vec![0, 1, 2]);
    assert_eq!(t.values, vec![1, 1, 1]);
}

#[test]
fn operator_with_order_equal_to_length() {
    let t = uniform_difference(2, 2);
    assert!(t.rows.is_empty() && t.cols.is_empty() && t.values.is_empty());
    let u = uniform_difference(3, 2);
    assert_eq!(u.values, vec![1, -2, 1]);
}

fn dense_penalty(n: usize, order: usize) -> Vec<Vec<i64>> {
    let t = uniform_difference(n, order);
    let mut d = vec![vec![0i64; n]; n - order];
    for k in 0..t.rows.len() {
        d[t.rows[k]][t.cols[k]] = t.values[k];
    }
    let mut p = vec![vec![0i64; n]; n];
    for i in 0..n {
        for j in 0..n {
            p[i][j] = (0..n - order).map(|k| d[k][i] * d[k][j]).sum();
        }
    }
    p
}

#[test]
fn second_order_penalty_on_four_samples() {
    let p = uniform_penalty(4, 2);
    assert_eq!(p[0], vec![(0, 1), (1, -2), (2, 1)]);
    assert_eq!(p[1], vec![(0, -2), (1, 5), (2, -4), (3, 1)]);
    assert_eq!(p[2], vec![(0, 1), (1, -4), (2, 5), (3, -2)]);
    assert_eq!(p[3], vec![(1, 1), (2, -2), (3, 1)]);
}

#[test]
fn penalty_matches_dense_product_and_is_symmetric() {
    for (n, order) in [(10, 3), (7, 1), (12, 4), (5, 5), (30, 6)] {
        let dense = dense_penalty(n, order);
        let band = uniform_penalty(n, order);
        let mut seen = vec![vec![false; n]; n];
        for i in 0..n {
            for &(j, v) in &band[i] {
                assert_eq!(v, dense[i][j], "n = {}, order = {}, ({}, {})", n, order, i, j);
                seen[i][j] = true;
            }
        }
        for i in 0..n {
            for j in 0..n {
                assert_eq!(dense[i][j], dense[j][i]);
                if !seen[i][j] {
                    assert_eq!(dense[i][j], 0);
                    assert!(i.abs_diff(j) > order);
                }
            }
        }
    }
}

#[test]
fn penalty_of_order_zero_is_identity() {
    let p = uniform_penalty(3, 0);
    assert_eq!(p, vec![vec![(0, 1)], vec![(1, 1)], vec![(2, 1)]]);
}

#[test]
fn penalty_without_rows_is_zero() {
    let p = uniform_penalty(2, 2);
    assert_eq!(p, vec![vec![(0, 0), (1, 0)], vec![(0, 0), (1, 0)]]);
}

#[test]
fn penalty_of_largest_exact_order() {
    let n = MAX_EXACT_ORDER + 1;
    let p = uniform_penalty(n, MAX_EXACT_ORDER);
    let c = difference_coefficients(MAX_EXACT_ORDER);
    assert_eq!(p[0][0], (0, 1));
    assert_eq!(p[n / 2][n / 2].1, c[n / 2] * c[n / 2]);
}

#[test]
fn penalty_in_compressed_rows() {
    let csr = uniform_penalty_csr(4, 2);
    assert_eq!(csr.indptr, vec![0, 3, 7, 11, 14]);
    assert_eq!(csr.indices, vec![0, 1, 2, 0, 1, 2, 3, 0, 1, 2, 3, 1, 2, 3]);
    assert_eq!(csr.data, vec![1, -2, 1, -2, 5, -4, 1, 1, -4, 5, -2, 1, -2, 1]);
}

#[test]
fn compressed_rows_match_band_rows() {
    for (n, order) in [(10, 3), (1, 0), (6, 6), (25, 2)] {
        let rows = uniform_penalty(n, order);
        let csr = uniform_penalty_csr(n, order);
        assert_eq!(csr.indptr.len(), n + 1);
        for i in 0..n {
            let stored: Vec<(usize, i64)> = (csr.indptr[i]..csr.indptr[i + 1])
                .map(|t| (csr.indices[t], csr.data[t]))
                .collect();
            assert_eq!(stored, rows[i]);
        }
    }
}
