//! What one arm of a trial has observed so far, and how its counts change
//! once the remaining patients have been seen.
use vstd::prelude::*;

verus! {

/// Counts of one arm: `y` successes among the `n` patients observed so far,
/// out of `total` patients planned.
#[derive(Clone, Copy, Debug, PartialEq, Eq, Structural)]
pub struct ObservedData {
    pub y: u64,
    pub n: u64,
    pub total: u64,
}

/// Why a set of counts is not a valid observation.
#[derive(Clone, Copy, Debug, PartialEq, Eq, Structural)]
pub enum DataError {
    /// More successes than observed patients.
    SuccessesExceedObserved,
    /// More observed patients than planned.
    ObservedExceedsPlanned,
}

impl ObservedData {
    /// The invariant `y <= n <= total`.
    pub open spec fn wf(&self) -> bool {
        self.y <= self.n <= self.total
    }

    /// Patients still to be enrolled.
    pub open spec fn remaining_spec(&self) -> int {
        self.total - self.n
    }

    /// Checks the counts and builds the observation.
    pub fn new(y: u64, n: u64, total: u64) -> (r: Result<ObservedData, DataError>)
        ensures
            y <= n <= total <==> r is Ok,
            r matches Ok(d) ==> d == (ObservedData { y, n, total }) && d.wf(),
            r == Err::<ObservedData, DataError>(DataError::SuccessesExceedObserved) <==> y > n,
            r == Err::<ObservedData, DataError>(DataError::ObservedExceedsPlanned) <==> y <= n
                && n > total,
    {
        if y > n {
            Err(DataError::SuccessesExceedObserved)
        } else if n > total {
            Err(DataError::ObservedExceedsPlanned)
        } else {
            Ok(ObservedData { y, n, total })
        }
    }

    /// Failures observed so far: `n - y`.
    pub fn failures(&self) -> (r: u64)
        requires
            self.wf(),
        ensures
            r == self.n - self.y,
    {
        self.n - self.y
    }

    /// Patients still to be enrolled: `total - n`.
    pub fn remaining(&self) -> (r: u64)
        requires
            self.wf(),
        ensures
            r == self.remaining_spec(),
    {
        self.total - self.n
    }

    /// The counts at the end of the trial, had `x` of the remaining patients
    /// succeeded: `x` more successes, and every planned patient observed.
    pub fn completed_with(&self, x: u64) -> (r: ObservedData)
        requires
            self.wf(),
            x <= self.remaining_spec(),
        ensures
            r == (ObservedData { y: (self.y + x) as u64, n: self.total, total: self.total }),
            r.wf(),
            r.remaining_spec() == 0,
    {
        ObservedData { y: self.y + x, n: self.total, total: self.total }
    }
}

} // verus!
