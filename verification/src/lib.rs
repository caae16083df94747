//! Event sourcing primitives: append-only streams of versioned events with
//! optimistic concurrency control, and the folding of an event history into
//! the state of an aggregate.
//!
//! - [`version`]: the position of an event in its stream, and the conflict
//!   between a claimed and an actual version.
//! - [`event`]: events as a stream records them, and the policies for
//!   reading a stream and for appending to it.
//! - [`history`]: the sequences of records that make up a stream: how
//!   events get their versions and how a selection is read back.
//! - [`store`]: the store that keeps its streams in memory.
//! - [`aggregate`]: aggregates, and the fold that rebuilds their state.
//!
//! The contracts speak of sequences and maps: the view of a store is the
//! map from the key of a stream to its records, and what an append or a read
//! does is stated over that map.

pub mod aggregate;
pub mod event;
pub mod history;
pub mod store;
pub mod version;
