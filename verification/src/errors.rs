//! The error taxonomy of the extraction loop.

use vstd::prelude::*;

verus! {

/// Every failure the core distinguishes.
///
/// - `SourceNotFound`: the store cannot be located or opened. Fatal; checked
///   once before the loop starts and never retried.
/// - `SourceQueryError`: a query-engine-level failure. Retryable; the cycle
///   aborts, the watermark is left unchanged, and the loop backs off.
/// - `MalformedRecordError`: a required field is absent from a source row.
///   Recoverable per record: the row is skipped (documented as dropped) and
///   the rest of the batch is processed.
/// - `EmitError`: the sink rejected a normalized record. Recoverable; it does
///   not block watermark advancement (delivery is at-least-once).
#[derive(Clone, Copy, Debug, PartialEq, Eq, Structural)]
pub enum TailError {
    SourceNotFound,
    SourceQueryError,
    MalformedRecordError,
    EmitError,
}

impl TailError {
    /// A short human-readable name for the failure, for log lines.
    pub fn describe(&self) -> (s: &'static str)
        ensures
            (*self == TailError::SourceNotFound) ==> s@ == "source not found"@,
            (*self == TailError::SourceQueryError) ==> s@ == "source query failed"@,
            (*self == TailError::MalformedRecordError) ==> s@ == "malformed record"@,
            (*self == TailError::EmitError) ==> s@ == "emit failed"@,
    {
        match self {
            TailError::SourceNotFound => "source not found",
            TailError::SourceQueryError => "source query failed",
            TailError::MalformedRecordError => "malformed record",
            TailError::EmitError => "emit failed",
        }
    }
}

/// The one-time precondition of the loop: the source must be reachable.
/// The caller reports whether the store could be located; a missing source is
/// the fatal `SourceNotFound`, anything else is no error at all.
pub fn check_source_available(source_exists: bool) -> (r: Result<(), TailError>)
    ensures
        r is Ok <==> source_exists,
        r is Err ==> r->Err_0 == TailError::SourceNotFound,
{
    if source_exists {
        Ok(())
    } else {
        Err(TailError::SourceNotFound)
    }
}

} // verus!
