//! Persisted events, and the policies for reading a stream and for
//! appending to it.

use vstd::prelude::*;
use crate::version::{ConflictError, Version};

verus! {

/// An event as recorded in a stream: the domain event together with the
/// stream it belongs to and the version it was given there.
#[derive(Debug, PartialEq, Eq)]
pub struct Persisted<Id, Evt> {
    /// Identifier of the stream that holds the event.
    pub stream_id: Id,
    /// Position of the event in its stream.
    pub version: Version,
    /// The domain event.
    pub inner: Evt,
}

/// Which events of a stream a read returns.
#[derive(Clone, Copy, Debug, PartialEq, Eq, Structural)]
pub enum VersionSelect {
    /// Every event of the stream.
    All,
    /// The events at the given version and after it.
    From(Version),
}

/// What a writer claims about the stream it appends to.
#[derive(Clone, Copy, Debug, PartialEq, Eq, Structural)]
pub enum StreamVersionExpected {
    /// No claim: the append goes through whatever the stream holds.
    Any,
    /// The last event of the stream has exactly this version.
    Exact(Version),
}

/// `copy` is what duplicating `record` may give: the same version, and an
/// identifier and an event that are clones of the record's.
pub open spec fn duplicate_of<Id: Clone, Evt: Clone>(
    record: Persisted<Id, Evt>,
    copy: Persisted<Id, Evt>,
) -> bool {
    &&& copy.version == record.version
    &&& cloned(record.stream_id, copy.stream_id)
    &&& cloned(record.inner, copy.inner)
}

impl<Id: Clone, Evt: Clone> Clone for Persisted<Id, Evt> {
    fn clone(&self) -> (copy: Self)
        ensures
            duplicate_of(*self, copy),
    {
        Persisted {
            stream_id: self.stream_id.clone(),
            version: self.version,
            inner: self.inner.clone(),
        }
    }
}

impl VersionSelect {
    /// Whether an event at `version` is among those selected.
    pub open spec fn admits(self, version: Version) -> bool {
        match self {
            VersionSelect::All => true,
            VersionSelect::From(first) => version.0 >= first.0,
        }
    }

    /// Tells whether an event at `version` is among those selected.
    pub fn selects(&self, version: Version) -> (selected: bool)
        ensures
            selected == self.admits(version),
    {
        match self {
            VersionSelect::All => true,
            VersionSelect::From(first) => version.0 >= first.0,
        }
    }
}

impl StreamVersionExpected {
    /// Whether the claim is true of a stream whose last event has version
    /// `current` (0 for a stream without events).
    pub open spec fn holds_at(self, current: nat) -> bool {
        match self {
            StreamVersionExpected::Any => true,
            StreamVersionExpected::Exact(expected) => expected.0 == current,
        }
    }

    /// Holds the claim against the version that a stream is at, and names
    /// both versions where they differ.
    pub fn check(&self, current: Version) -> (outcome: Result<(), ConflictError>)
        ensures
            outcome is Ok <==> self.holds_at(current.0 as nat),
            outcome matches Err(conflict) ==> *self == StreamVersionExpected::Exact(
                conflict.expected,
            ) && conflict.actual == current,
    {
        match self {
            StreamVersionExpected::Any => Ok(()),
            StreamVersionExpected::Exact(expected) => {
                if expected.0 == current.0 {
                    Ok(())
                } else {
                    Err(ConflictError { expected: *expected, actual: current })
                }
            },
        }
    }
}

} // verus!
