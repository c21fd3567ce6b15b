use vstd::prelude::*;

use crate::errors::WhittakerError;

verus! {

/// How two adjacent sample positions `x[i]`, `x[i + 1]` relate.
#[derive(PartialEq, Eq, Structural, Debug, Clone, Copy)]
pub enum Gap {
    /// `x[i] < x[i + 1]`, at least the smallest allowed gap apart.
    Increasing,
    /// `x[i] < x[i + 1]`, but closer together than the smallest allowed gap.
    TooClose,
    /// `x[i] >= x[i + 1]`.
    NotIncreasing,
}

/// The fault found by scanning the gaps from index `i` on: the first gap that is
/// not `Increasing` decides it, and a sequence of increasing gaps has none.
pub open spec fn gap_fault_from(gaps: Seq<Gap>, i: int) -> Option<WhittakerError>
    decreases gaps.len() - i,
{
    if i < 0 || i >= gaps.len() {
        None
    } else {
        match gaps[i] {
            Gap::Increasing => gap_fault_from(gaps, i + 1),
            Gap::TooClose => Some(WhittakerError::SampleRateError(i as usize)),
            Gap::NotIncreasing => Some(WhittakerError::NotMonotonicallyIncreasing(i as usize)),
        }
    }
}

/// The fault of a whole position sequence, described by its gaps.
pub open spec fn gap_fault(gaps: Seq<Gap>) -> Option<WhittakerError> {
    gap_fault_from(gaps, 0)
}

/// Every gap is a proper increase.
pub open spec fn all_increasing(gaps: Seq<Gap>) -> bool {
    forall|i: int| 0 <= i < gaps.len() ==> gaps[i] == Gap::Increasing
}

/// The gaps describe a position sequence of length `len`.
pub open spec fn gaps_fit(len: nat, gaps: Seq<Gap>) -> bool {
    if len == 0 {
        gaps.len() == 0
    } else {
        gaps.len() + 1 == len
    }
}

/// The verdict on the parameters of a new smoother, before any matrix is built: the
/// checks run in this order, and the first that fails decides the error.
pub open spec fn construction_outcome(
    data_length: nat,
    order: nat,
    positions_len: Option<nat>,
    gaps: Seq<Gap>,
    weights_len: Option<nat>,
) -> Result<(), WhittakerError> {
    if data_length < order {
        Err(WhittakerError::DataTooShort(data_length as usize, order as usize))
    } else if positions_len is Some && positions_len->0 != data_length {
        Err(WhittakerError::LengthMismatch(data_length as usize, positions_len->0 as usize))
    } else if positions_len is Some && gap_fault(gaps) is Some {
        Err(gap_fault(gaps)->0)
    } else if weights_len is Some && weights_len->0 != data_length {
        Err(WhittakerError::LengthMismatch(data_length as usize, weights_len->0 as usize))
    } else {
        Ok(())
    }
}

/// An optional length, as a mathematical integer.
pub open spec fn opt_nat(n: Option<usize>) -> Option<nat> {
    match n {
        Some(v) => Some(v as nat),
        None => None,
    }
}

proof fn lemma_gap_fault_skip(gaps: Seq<Gap>, i: int)
    requires
        0 <= i < gaps.len(),
        gaps[i] == Gap::Increasing,
    ensures
        gap_fault_from(gaps, i) == gap_fault_from(gaps, i + 1),
{
}

/// No fault is found exactly when every gap is an increase.
pub proof fn lemma_gap_fault_none(gaps: Seq<Gap>, i: int)
    requires
        0 <= i <= gaps.len(),
    ensures
        (gap_fault_from(gaps, i) is None) <==> (forall|j: int|
            i <= j < gaps.len() ==> gaps[j] == Gap::Increasing),
    decreases gaps.len() - i,
{
    if i < gaps.len() {
        lemma_gap_fault_none(gaps, i + 1);
    }
}

/// The first gap that is not a proper increase, turned into the error it stands for.
pub fn first_gap_fault(gaps: &Vec<Gap>) -> (r: Result<(), WhittakerError>)
    ensures
        r is Ok <==> all_increasing(gaps@),
        r is Ok <==> gap_fault(gaps@) is None,
        r is Err ==> r->Err_0 == gap_fault(gaps@)->0,
        match r {
            Err(WhittakerError::NotMonotonicallyIncreasing(i)) => i < gaps@.len()
                && gaps@[i as int] == Gap::NotIncreasing
                && forall|j: int| 0 <= j < i ==> gaps@[j] == Gap::Increasing,
            Err(WhittakerError::SampleRateError(i)) => i < gaps@.len() && gaps@[i as int]
                == Gap::TooClose && forall|j: int| 0 <= j < i ==> gaps@[j] == Gap::Increasing,
            Err(_) => false,
            Ok(()) => true,
        },
{
    proof {
        lemma_gap_fault_none(gaps@, 0);
    }
    let mut i: usize = 0;
    while i < gaps.len()
        invariant
            0 <= i <= gaps@.len(),
            forall|j: int| 0 <= j < i ==> gaps@[j] == Gap::Increasing,
            gap_fault(gaps@) == gap_fault_from(gaps@, i as int),
        decreases gaps@.len() - i,
    {
        match gaps[i] {
            Gap::Increasing => {
                proof {
                    lemma_gap_fault_skip(gaps@, i as int);
                }
            },
            Gap::TooClose => {
                return Err(WhittakerError::SampleRateError(i));
            },
            Gap::NotIncreasing => {
                return Err(WhittakerError::NotMonotonicallyIncreasing(i));
            },
        }
        i = i + 1;
    }
    proof {
        lemma_gap_fault_none(gaps@, i as int);
    }
    Ok(())
}

/// Checks that an input of length `actual` matches the `expected` length.
pub fn check_length(expected: usize, actual: usize) -> (r: Result<(), WhittakerError>)
    ensures
        r is Ok <==> expected == actual,
        r is Err ==> r->Err_0 == WhittakerError::LengthMismatch(expected, actual),
{
    if expected != actual {
        Err(WhittakerError::LengthMismatch(expected, actual))
    } else {
        Ok(())
    }
}

/// The integer shape of a smoother: its penalty order and the length of the data it
/// smooths. The data is never shorter than the order.
#[derive(PartialEq, Eq, Structural, Debug, Clone, Copy)]
pub struct SmootherShape {
    order: usize,
    data_length: usize,
}

impl View for SmootherShape {
    /// The order, then the data length.
    type V = (nat, nat);

    closed spec fn view(&self) -> (nat, nat) {
        (self.order as nat, self.data_length as nat)
    }
}

impl SmootherShape {
    #[verifier::type_invariant]
    spec fn inv(&self) -> bool {
        self.order <= self.data_length
    }

    /// Validates the parameters of a new smoother, in the order that decides which error
    /// is reported: the data length against the order, the length of the positions,
    /// their spacing (`gaps`, one for each adjacent pair), then the length of the
    /// weights.
    pub fn new(
        order: usize,
        data_length: usize,
        positions_len: Option<usize>,
        gaps: &Vec<Gap>,
        weights_len: Option<usize>,
    ) -> (r: Result<SmootherShape, WhittakerError>)
        requires
            positions_len is Some ==> gaps_fit(positions_len->0 as nat, gaps@),
        ensures
            r is Ok <==> construction_outcome(
                data_length as nat,
                order as nat,
                opt_nat(positions_len),
                gaps@,
                opt_nat(weights_len),
            ) is Ok,
            r is Err ==> r->Err_0 == construction_outcome(
                data_length as nat,
                order as nat,
                opt_nat(positions_len),
                gaps@,
                opt_nat(weights_len),
            )->Err_0,
            r is Ok ==> r->Ok_0@ == (order as nat, data_length as nat),
    {
        if data_length < order {
            return Err(WhittakerError::DataTooShort(data_length, order));
        }
        match positions_len {
            Some(n) => {
                check_length(data_length, n)?;
                first_gap_fault(gaps)?;
            },
            None => {},
        }
        match weights_len {
            Some(n) => {
                check_length(data_length, n)?;
            },
            None => {},
        }
        Ok(SmootherShape { order, data_length })
    }

    /// The penalty order, which never exceeds the data length.
    pub fn get_order(&self) -> (r: usize)
        ensures
            r == self@.0,
            r <= self@.1,
    {
        proof {
            use_type_invariant(self);
        }
        self.order
    }

    /// The length of the data.
    pub fn get_data_length(&self) -> (r: usize)
        ensures
            r == self@.1,
    {
        self.data_length
    }

    /// Checks that a series (data or weights) has the smoother's length.
    pub fn check_series(&self, len: usize) -> (r: Result<(), WhittakerError>)
        ensures
            r is Ok <==> len == self@.1,
            r is Err ==> r->Err_0 == WhittakerError::LengthMismatch(self@.1 as usize, len),
    {
        check_length(self.data_length, len)
    }

    /// The shape with another penalty order, or `DataTooShort` when the data is shorter
    /// than that order. The shape itself is left as it is, so a caller can commit the new
    /// one only once the rebuilt system has been factorized.
    pub fn with_order(&self, order: usize) -> (r: Result<SmootherShape, WhittakerError>)
        ensures
            r is Ok <==> order <= self@.1,
            r is Ok ==> r->Ok_0@ == (order as nat, self@.1),
            r is Err ==> r->Err_0 == WhittakerError::DataTooShort(self@.1 as usize, order),
    {
        if self.data_length < order {
            Err(WhittakerError::DataTooShort(self.data_length, order))
        } else {
            Ok(SmootherShape { order, data_length: self.data_length })
        }
    }
}

} // verus!
