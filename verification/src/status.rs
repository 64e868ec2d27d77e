//! The three outcomes of a step.

use vstd::prelude::*;

verus! {

/// How a behavior stands after a step.
#[derive(Clone, Copy, Debug, PartialEq, Eq, Structural)]
pub enum Status {
    /// The behavior needs further steps.
    Running,
    /// The behavior has come to its end and succeeded.
    Success,
    /// The behavior has come to its end and failed.
    Failure,
}

impl Status {
    /// The status with `Success` and `Failure` exchanged.
    pub open spec fn inverted(self) -> Status {
        match self {
            Status::Running => Status::Running,
            Status::Success => Status::Failure,
            Status::Failure => Status::Success,
        }
    }

    /// Exchanges `Success` and `Failure` and leaves `Running` as it is.
    pub fn invert(self) -> (status: Status)
        ensures
            status == self.inverted(),
    {
        match self {
            Status::Running => Status::Running,
            Status::Success => Status::Failure,
            Status::Failure => Status::Success,
        }
    }
}

} // verus!
