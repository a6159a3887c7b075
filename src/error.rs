//! The pipeline's error taxonomy.
use vstd::prelude::*;

verus! {

/// What can go wrong while ingesting.
#[derive(Clone, Copy, Debug, PartialEq, Eq, Structural)]
pub enum IngestError {
    /// Settings that cannot work; fatal before any worker starts.
    ConfigurationError,
    /// The store session was lost; transient.
    ConnectionError,
    /// The store rejected a batch; transient until the retry budget is spent.
    WriteError,
    /// A batch was given up after the retry budget was spent.
    DroppedBatchError,
    /// An update would have regressed newer state and was discarded.
    OrderingViolationError,
}

impl IngestError {
    /// Whether a worker retries the failed batch against a fresh session.
    pub open spec fn is_transient(self) -> bool {
        self == IngestError::ConnectionError || self == IngestError::WriteError
    }

    pub fn transient(&self) -> (r: bool)
        ensures
            r == self.is_transient(),
    {
        match self {
            IngestError::ConnectionError => true,
            IngestError::WriteError => true,
            _ => false,
        }
    }
}

} // verus!
