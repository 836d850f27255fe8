//! Error taxonomy of the pipeline.
//!
//! Everything detected before a job row is created is returned synchronously
//! to the caller; anything that fails after job creation is only ever recorded
//! against that job as a terminal `Error` status plus an error record.

use vstd::prelude::*;

verus! {

/// Storage-level failure: a constraint violation or a missing row, surfaced
/// by the job store to its caller.
#[derive(Clone, Copy, Debug, PartialEq, Eq, Structural)]
pub enum DbError {
    /// A pending job already owns the datasource view (unique-pending
    /// constraint).
    PendingJobExists,
    /// The referenced datasource view row does not exist.
    ViewNotFound,
    /// The datasource view is still referenced by a pending job and may not
    /// be deleted.
    ViewInUse,
    /// Another user row already carries the requested email.
    UniqueEmail,
}

/// Synchronous pipeline failure, reported to the caller before any job row
/// is created.
#[derive(Clone, Copy, Debug, PartialEq, Eq, Structural)]
pub enum PipelineError {
    /// Malformed identifier, missing resource metadata, or a conflict-policy
    /// rejection.
    Validation,
    /// An existing pending job already owns the resource.
    Conflict,
    /// The referenced resource does not exist.
    NotFound,
    /// A cache hit whose payload does not have the expected shape; the entry
    /// has been evicted.
    CorruptCache,
    /// The relational store refused a pre-flight operation.
    Storage,
}

impl PipelineError {
    /// Stable description of the error, for the HTTP layer to render.
    pub fn message(&self) -> (r: &'static str)
        ensures
            r@ == self.message_spec(),
    {
        match self {
            PipelineError::Validation => "validation error",
            PipelineError::Conflict => "a pending job already exists for this resource",
            PipelineError::NotFound => "resource not found",
            PipelineError::CorruptCache => "cached payload had an unexpected shape",
            PipelineError::Storage => "storage error",
        }
    }

    pub open spec fn message_spec(&self) -> Seq<char> {
        match self {
            PipelineError::Validation => "validation error"@,
            PipelineError::Conflict => "a pending job already exists for this resource"@,
            PipelineError::NotFound => "resource not found"@,
            PipelineError::CorruptCache => "cached payload had an unexpected shape"@,
            PipelineError::Storage => "storage error"@,
        }
    }
}

} // verus!
