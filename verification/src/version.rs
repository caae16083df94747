//! Stream versions and the conflict raised by optimistic concurrency checks.

use vstd::prelude::*;

verus! {

/// Position of an event inside its stream.
///
/// The first event of a stream has version 1 and each later event the next
/// integer; version 0 stands for a stream that holds no event.
#[derive(Clone, Copy, Debug, PartialEq, Eq, Structural, PartialOrd, Ord, Hash, Default)]
pub struct Version(pub u64);

/// The version that a writer expected a stream to be at is not the version
/// that the stream is at.
#[derive(Clone, Copy, Debug, PartialEq, Eq, Structural)]
pub struct ConflictError {
    /// Version that the writer claimed to have last seen.
    pub expected: Version,
    /// Version that the stream is at.
    pub actual: Version,
}

} // verus!
