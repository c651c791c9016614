//! The error classifier: maps remote status codes into tolerable and fatal.
//!
//! The sequence validator is expected to prove well-formedness of a sequence
//! before it runs, so any unexpected failure at execution time is presumed to
//! be a genuine defect. The split is deliberately binary: a small set of
//! expected domain rejections is tolerated and logged, everything else is
//! fatal and ends the fuzz case as a discovered bug. Cancellation and
//! deadline-exceeded are fatal too — the harness performs no retries.

use vstd::prelude::*;

verus! {

/// The status code of a failed remote call, as the transport reports it.
#[derive(Clone, Copy, Debug, PartialEq, Eq, Structural)]
pub enum RpcCode {
    Cancelled,
    Unknown,
    InvalidArgument,
    DeadlineExceeded,
    NotFound,
    AlreadyExists,
    PermissionDenied,
    ResourceExhausted,
    FailedPrecondition,
    Aborted,
    OutOfRange,
    Unimplemented,
    Internal,
    Unavailable,
    DataLoss,
    Unauthenticated,
}

/// The two buckets of the classifier.
#[derive(Clone, Copy, Debug, PartialEq, Eq, Structural)]
pub enum Severity {
    /// An expected domain rejection: logged, and the run continues with the
    /// model advanced as if the call had succeeded.
    Tolerable,
    /// A defect signal: the fuzz case fails loudly so the fuzzing engine
    /// records and minimizes it.
    Fatal,
}

/// The classification policy over error codes: only an invalid-argument
/// rejection is tolerated; every other error code signals a bug. (A
/// successful call carries no error code and is never classified.)
pub open spec fn s_classify(code: RpcCode) -> Severity {
    match code {
        RpcCode::InvalidArgument => Severity::Tolerable,
        _ => Severity::Fatal,
    }
}

/// Whether the outcome of one remote call lets the run continue: success
/// does, and so does a tolerable error code.
pub open spec fn s_outcome_fatal(outcome: Option<RpcCode>) -> bool {
    match outcome {
        None => false,
        Some(code) => s_classify(code) == Severity::Fatal,
    }
}

/// Classifies one error code.
pub fn classify(code: RpcCode) -> (r: Severity)
    ensures
        r == s_classify(code),
{
    match code {
        RpcCode::InvalidArgument => Severity::Tolerable,
        _ => Severity::Fatal,
    }
}

/// Checks the outcome of one remote call: `true` means the run must abort as
/// a discovered defect, `false` that execution continues (the call succeeded
/// or failed in a tolerated way).
pub fn check_outcome(outcome: Option<RpcCode>) -> (r: bool)
    ensures
        r == s_outcome_fatal(outcome),
{
    match outcome {
        None => false,
        Some(code) => match classify(code) {
            Severity::Fatal => true,
            Severity::Tolerable => false,
        },
    }
}

} // verus!
