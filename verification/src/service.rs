//! The two operations of the service, from a decoded request to the reply.
//!
//! Decoding a payload and encoding a reply are the transport's business. The
//! service is handed what decoding gave: the shift, or the reason why the
//! payload could not be decoded.

use crate::greedy::{assign_shift, assigns};
use crate::model::{ShiftInput, ShiftOutput};
use crate::rebalance::{rebalance_shift, rebalances};
use vstd::prelude::*;

verus! {

/// Why an operation failed.
#[derive(Debug)]
pub enum ServiceError {
    /// The request was not a shift; the text says what decoding objected to.
    InvalidArgument(String),
}

/// The shift planner as a service.
#[derive(Debug, Default)]
pub struct ShiftPlannerService;

/// The reply to a request that could not be decoded carries the reason and
/// no result.
pub open spec fn rejects(reason: Seq<char>, response: Result<ShiftOutput, ServiceError>) -> bool {
    response matches Err(ServiceError::InvalidArgument(text)) && text@ == reason
}

impl ShiftPlannerService {
    /// Replaces the absent worker of the requested shift. A request that
    /// could not be decoded is answered with an invalid-argument error; any
    /// shift is answered with a result, which may name nobody.
    pub fn rebalance_shift(&self, request: Result<ShiftInput, String>) -> (response: Result<
        ShiftOutput,
        ServiceError,
    >)
        ensures
            match request {
                Ok(input) => response matches Ok(out) && rebalances(input@, out@),
                Err(reason) => rejects(reason@, response),
            },
    {
        match request {
            Ok(input) => Ok(rebalance_shift(input)),
            Err(reason) => Err(ServiceError::InvalidArgument(reason)),
        }
    }

    /// Staffs the requested shift. A request that could not be decoded is
    /// answered with an invalid-argument error; any shift is answered with
    /// a result, which may name nobody.
    pub fn assign_shift(&self, request: Result<ShiftInput, String>) -> (response: Result<
        ShiftOutput,
        ServiceError,
    >)
        ensures
            match request {
                Ok(shift) => response matches Ok(out) && assigns(shift@, out@),
                Err(reason) => rejects(reason@, response),
            },
    {
        match request {
            Ok(shift) => Ok(assign_shift(shift)),
            Err(reason) => Err(ServiceError::InvalidArgument(reason)),
        }
    }
}

} // verus!
