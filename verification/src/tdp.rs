//! The common TDP backend surface: hardware-profile limits and the
//! backend-selection policy of the aggregator.

use vstd::prelude::*;
use vstd::string::StringExecFns;

use crate::error::TDPError;
use crate::hardware::Hardware;

verus! {

/// Access to the host's hardware profile.  The profile limits come only
/// from here, never from a vendor backend.
pub trait HardwareAccess {
    /// The profile the backend was built with.
    spec fn spec_hardware(&self) -> Option<Hardware>;

    fn hardware(&self) -> (r: Option<&Hardware>)
        ensures
            match r {
                Some(h) => self.spec_hardware() == Some(*h),
                None => self.spec_hardware() is None,
            },
    ;

    /// The lowest TDP the host supports, in milliwatts.
    fn min_tdp(&self) -> (r: Result<u64, TDPError>)
        ensures
            match self.spec_hardware() {
                Some(h) => r matches Ok(v) && v == h.min_tdp_mw,
                None => r matches Err(TDPError::FailedOperation(_)),
            },
    {
        match self.hardware() {
            Some(h) => Ok(h.min_tdp()),
            None => Err(
                TDPError::FailedOperation(
                    String::from_str("No Hardware interface available to read min TDP."),
                ),
            ),
        }
    }

    /// The highest TDP the host supports, in milliwatts.
    fn max_tdp(&self) -> (r: Result<u64, TDPError>)
        ensures
            match self.spec_hardware() {
                Some(h) => r matches Ok(v) && v == h.max_tdp_mw,
                None => r matches Err(TDPError::FailedOperation(_)),
            },
    {
        match self.hardware() {
            Some(h) => Ok(h.max_tdp()),
            None => Err(
                TDPError::FailedOperation(
                    String::from_str("No Hardware interface available to read max TDP."),
                ),
            ),
        }
    }

    /// The highest boost the host supports, in milliwatts.
    fn max_boost(&self) -> (r: Result<u64, TDPError>)
        ensures
            match self.spec_hardware() {
                Some(h) => r matches Ok(v) && v == h.max_boost_mw,
                None => r matches Err(TDPError::FailedOperation(_)),
            },
    {
        match self.hardware() {
            Some(h) => Ok(h.max_boost()),
            None => Err(
                TDPError::FailedOperation(
                    String::from_str("No Hardware interface available to read max boost."),
                ),
            ),
        }
    }
}

/// What the aggregator does with one backend's outcome.
pub enum AggregateDecision<T> {
    /// Stop and return this result.
    Done(Result<T, TDPError>),
    /// Fall through to the next backend.
    TryNext,
}

/// The aggregator's backend-selection rule: the first success wins, a
/// rejected client value is surfaced at once and never retried on
/// another backend, any other failure falls through while a backend
/// remains, and when none does the operation fails.
pub fn aggregate_step<T>(outcome: Result<T, TDPError>, remaining: bool) -> (r: AggregateDecision<
    T,
>)
    ensures
        match outcome {
            Ok(v) => r matches AggregateDecision::Done(Ok(w)) && w == v,
            Err(TDPError::InvalidArgument(m)) => r matches AggregateDecision::Done(
                Err(TDPError::InvalidArgument(m2)),
            ) && m2 == m,
            Err(_) => if remaining {
                r is TryNext
            } else {
                r matches AggregateDecision::Done(Err(TDPError::FailedOperation(_)))
            },
        },
{
    match outcome {
        Ok(v) => AggregateDecision::Done(Ok(v)),
        Err(TDPError::InvalidArgument(m)) => AggregateDecision::Done(
            Err(TDPError::InvalidArgument(m)),
        ),
        Err(_) => {
            if remaining {
                AggregateDecision::TryNext
            } else {
                AggregateDecision::Done(
                    Err(
                        TDPError::FailedOperation(
                            String::from_str("No TDP Interface available for this operation."),
                        ),
                    ),
                )
            }
        },
    }
}

} // verus!
