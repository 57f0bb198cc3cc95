//! Error kinds reported at the host/engine boundary, and the outcome of
//! draining one pending job.
use vstd::prelude::*;

verus! {

/// An error reported by an operation on the runtime or on a module.
#[derive(Debug)]
pub enum Error {
    /// An allocation failed: the engine (or a custom allocator) refused
    /// memory, an export-table write failed, or a name was exported that
    /// was never declared (the engine does not distinguish the two).
    Allocation,
    /// A script-level exception translated to a host error; carries the
    /// message bytes.
    Exception(Vec<u8>),
    /// A supplied name or source is not representable in the engine's
    /// required string encoding (it holds an embedded terminator byte).
    Encoding,
    /// A captured abnormal host-side termination, re-raised after control
    /// crossed back out of an engine callback; carries its payload.
    Recovered(u64),
}

/// The mathematical model of an [`Error`].
pub enum ErrorView {
    Allocation,
    Exception(Seq<u8>),
    Encoding,
    Recovered(u64),
}

impl View for Error {
    type V = ErrorView;

    open spec fn view(&self) -> ErrorView {
        match self {
            Error::Allocation => ErrorView::Allocation,
            Error::Exception(m) => ErrorView::Exception(m@),
            Error::Encoding => ErrorView::Encoding,
            Error::Recovered(p) => ErrorView::Recovered(*p),
        }
    }
}

/// What one call of `execute_pending_job` did.
#[derive(Debug, PartialEq, Eq, Structural, Clone, Copy)]
pub enum JobOutcome {
    /// The queue was empty; nothing ran.
    NoJobRan,
    /// Exactly one queued job ran to completion.
    JobRan,
    /// Exactly one queued job ran and failed; carries the execution
    /// context the failure happened in.
    JobFailed(usize),
}

} // verus!
