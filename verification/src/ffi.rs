//! Status codes of the C interface to the sampling engine, and the code each
//! engine outcome is reported as.
use vstd::prelude::*;

use crate::engine::{EngineError, EngineSnapshot, SampleRequest, REQUEST_MASK};

verus! {

/// The call succeeded (for a sample: the counters did not advance).
pub const STATUS_OK: i32 = 0;

/// A sample was written.
pub const STATUS_SAMPLE_READY: i32 = 1;

/// A null pointer or unknown request bits were passed.
pub const STATUS_ERROR_INVALID_ARGUMENT: i32 = -1;

/// The engine failed.
pub const STATUS_ERROR_ENGINE: i32 = -2;

/// The engine panicked.
pub const STATUS_ERROR_PANIC: i32 = -3;

/// The request for `request_flags`, or the status refusing them when they
/// hold an unknown bit.
pub fn request_for(request_flags: u32) -> (request: Result<SampleRequest, i32>)
    ensures
        match request {
            Ok(r) => request_flags & !REQUEST_MASK == 0 && r.spec_bits() == request_flags,
            Err(status) => request_flags & !REQUEST_MASK != 0 && status == STATUS_ERROR_INVALID_ARGUMENT,
        },
{
    match SampleRequest::from_bits(request_flags) {
        Some(request) => Ok(request),
        None => Err(STATUS_ERROR_INVALID_ARGUMENT),
    }
}

/// The status a sample outcome is reported as: ready, not advanced, or an
/// engine failure.
pub fn sample_status(outcome: &Result<Option<EngineSnapshot>, EngineError>) -> (status: i32)
    ensures
        status == match outcome {
            Ok(Some(_)) => STATUS_SAMPLE_READY,
            Ok(None) => STATUS_OK,
            Err(_) => STATUS_ERROR_ENGINE,
        },
{
    match outcome {
        Ok(Some(_)) => STATUS_SAMPLE_READY,
        Ok(None) => STATUS_OK,
        Err(_) => STATUS_ERROR_ENGINE,
    }
}

/// The status an engine creation or baseline reset is reported as.
pub fn engine_status<T>(outcome: &Result<T, EngineError>) -> (status: i32)
    ensures
        status == match outcome {
            Ok(_) => STATUS_OK,
            Err(_) => STATUS_ERROR_ENGINE,
        },
{
    match outcome {
        Ok(_) => STATUS_OK,
        Err(_) => STATUS_ERROR_ENGINE,
    }
}

} // verus!
