//! Error taxonomy of the engine, and the application-level error type
//! that the surrounding service layers wrap it in.

use vstd::prelude::*;

verus! {

/// The typed errors that the engine's operations return.
///
/// The first four are user-visible and recoverable (reduce the quantity,
/// correct the request, or re-fetch the cart).  `InsufficientHold` is a
/// fatal consistency failure: it is surfaced for operator reconciliation
/// and never silently retried.  `TransientStoreError` stands for a
/// transaction/transport failure of a backing store whose transactions
/// can fail; the in-memory store of this crate never raises it, and no
/// operation of this crate returns it.
#[derive(Clone, Copy, Debug, PartialEq, Eq, Structural)]
pub enum EngineError {
    /// The requested hold would push `held + sold` past `total`, or
    /// release more units than are held.
    CapacityExceeded,
    /// No pricing tier covers the requested point in time.
    NoActiveTier,
    /// A discount code was supplied but matches no currently active tier.
    InvalidDiscountCode,
    /// The operation is not valid for the cart's current state.
    InvalidState,
    /// A ledger commit or release found fewer held units than expected.
    InsufficientHold,
    /// A transaction of the backing store failed; safe to retry the call.
    TransientStoreError,
    /// The named ticket type, cart or record does not exist.
    NotFound,
}

impl EngineError {
    /// The stable numeric code under which the controller layer reports
    /// this error; `NotFound` keeps the store's traditional `2000`
    /// ("no results") code.
    pub fn code(&self) -> (c: u32)
        ensures
            c == self.spec_code(),
    {
        match self {
            EngineError::CapacityExceeded => 7200,
            EngineError::NoActiveTier => 7210,
            EngineError::InvalidDiscountCode => 7220,
            EngineError::InvalidState => 7230,
            EngineError::InsufficientHold => 7240,
            EngineError::TransientStoreError => 5000,
            EngineError::NotFound => 2000,
        }
    }

    /// The numeric code of each variant.
    pub open spec fn spec_code(self) -> u32 {
        match self {
            EngineError::CapacityExceeded => 7200,
            EngineError::NoActiveTier => 7210,
            EngineError::InvalidDiscountCode => 7220,
            EngineError::InvalidState => 7230,
            EngineError::InsufficientHold => 7240,
            EngineError::TransientStoreError => 5000,
            EngineError::NotFound => 2000,
        }
    }
}

/// How severe an application-level error is, and how the controller
/// layer should map it onto a response.
#[derive(Clone, Copy, Debug, PartialEq, Eq, Structural)]
pub enum ApplicationErrorType {
    Unprocessable,
    Internal,
    BadRequest,
    ServerConfigError,
}

/// An error of the application layer around the engine: a reason for a
/// human reader, and a type that picks the response class.
#[derive(Debug)]
pub struct ApplicationError {
    pub reason: String,
    pub error_type: ApplicationErrorType,
}

impl ApplicationError {
    /// An internal error with the given reason.
    pub fn new(reason: String) -> (e: ApplicationError)
        ensures
            e.reason == reason,
            e.error_type == ApplicationErrorType::Internal,
    {
        ApplicationError { reason, error_type: ApplicationErrorType::Internal }
    }

    /// An error of the given type with the given reason.
    pub fn new_with_type(error_type: ApplicationErrorType, reason: String) -> (e: ApplicationError)
        ensures
            e.reason == reason,
            e.error_type == error_type,
    {
        ApplicationError { reason, error_type }
    }

    /// An `Unprocessable` error with the given reason.
    pub fn unprocessable(reason: &str) -> (e: ApplicationError)
        ensures
            e.reason@ == reason@,
            e.error_type == ApplicationErrorType::Unprocessable,
    {
        ApplicationError::new_with_type(ApplicationErrorType::Unprocessable, reason.to_owned())
    }

    /// The reason, for display; stands in for a `Display` rendering.
    pub fn message(&self) -> (m: String)
        ensures
            m == self.reason,
    {
        self.reason.clone()
    }
}

} // verus!
