//! Exact, integer-valued core of a Whittaker-Eilers smoother: input validation,
//! the smoother's shape invariant, the uniform difference operator, the index
//! grids of the approximate cross-validation, and the selection of the optimal
//! smoothing strength.

pub mod difference;
pub mod errors;
pub mod grid;
pub mod optimise;
pub mod penalty;
pub mod validation;

pub use difference::{difference_coefficients, uniform_difference, Triplets, MAX_EXACT_ORDER};
pub use errors::WhittakerError;
pub use grid::{check_reduced_order, reduced_grid, uses_exact_hat, ReducedGrid, REDUCED_GRID_SIZE};
pub use optimise::{
    bits_is_nan, bits_lt, every_fifth_element, lambda_half_decades, optimal_index, FIRST_HALF_DECADE,
    LAST_HALF_DECADE,
};
pub use penalty::{uniform_penalty, uniform_penalty_csr, CompressedRows};
pub use validation::{check_length, first_gap_fault, Gap, SmootherShape};
