use vstd::prelude::*;

verus! {

/// The error that sprs reports when a sparse factorization cannot be built.
#[verifier::external_type_specification]
#[verifier::external_body]
pub struct ExLinalgError(sprs::errors::LinalgError);

/// Relies on the `Clone` that sprs derives for `LinalgError`: the copy equals the original.
pub assume_specification[ <sprs::errors::LinalgError as Clone>::clone ](
    e: &sprs::errors::LinalgError,
) -> (r: sprs::errors::LinalgError)
    ensures
        r == *e,
;

/// Common errors that occur within the Whittaker-Eilers smoother.
#[derive(PartialEq, Eq, Debug, Clone)]
pub enum WhittakerError {
    /// Two inputs (x, y or weights) do not have the same length: the expected length, then the one given.
    LengthMismatch(usize, usize),
    /// The data is shorter than the order of the smoother: the length, then the order.
    DataTooShort(usize, usize),
    /// The sparse LDLᵗ factorization of the penalized system failed.
    SolverError(sprs::errors::LinalgError),
    /// Two adjacent positions lie closer together than the smallest gap allowed: the offending index.
    SampleRateError(usize),
    /// The positions are not strictly increasing: the offending index.
    NotMonotonicallyIncreasing(usize),
    /// The dense system behind the hat matrix could not be inverted.
    MatrixNotInvertible,
}

} // verus!
