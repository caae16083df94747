//! An event store that keeps every stream in memory.

use std::fmt::Display;
use vstd::prelude::*;
use vstd::hash_map::StringHashMap;
use vstd::string::to_string_from_display_ensures;
use crate::event::{duplicate_of, Persisted, StreamVersionExpected, VersionSelect};
use crate::history::{
    contiguous, duplicates_of, select_events, selected, selection_is_suffix, skipped,
    stamp_events, stamped,
};
use crate::version::{ConflictError, Version};

verus! {

/// `key` is a text that displaying `id` may give.
///
/// Nothing is known of how an identifier is displayed but what its type
/// says, so nothing here takes two displays of one identifier to agree.
pub open spec fn renders_as<Id: Display>(id: &Id, key: Seq<char>) -> bool {
    exists|text: String| text@ == key && #[trigger] to_string_from_display_ensures::<Id>(id, text)
}

/// Displaying `id` gives one text and no other, so that the identifier
/// always stands for the same stream.
pub open spec fn displays_one_text<Id: Display>(id: &Id) -> bool {
    forall|first: Seq<char>, second: Seq<char>|
        #[trigger] renders_as(id, first) && #[trigger] renders_as(id, second) ==> first
            == second
}

/// The streams of a store: each lies in a slot of its own, and `slots` says
/// under which key.
struct InMemoryEventStoreBackend<Id, Evt> {
    /// Where the stream of each key lies in `streams`.
    slots: StringHashMap<usize>,
    /// The streams, in the order in which they were created.
    streams: Vec<Vec<Persisted<Id, Evt>>>,
}

impl<Id, Evt> InMemoryEventStoreBackend<Id, Evt> {
    /// Every key leads to a slot of its own, and the events of each stream
    /// carry the versions 1, 2, 3 and so on.
    spec fn well_formed(self) -> bool {
        &&& forall|key: Seq<char>| #[trigger]
            self.slots@.contains_key(key) ==> self.slots@[key] < self.streams@.len()
        &&& forall|first: Seq<char>, second: Seq<char>|
            self.slots@.contains_key(first) && self.slots@.contains_key(second)
                && #[trigger] self.slots@[first] == #[trigger] self.slots@[second] ==> first
                == second
        &&& forall|slot: int, position: int|
            0 <= slot < self.streams@.len() && 0 <= position < self.streams@[slot]@.len()
                ==> (#[trigger] self.streams@[slot]@[position]).version.0 == position + 1
    }

    spec fn history(self, key: Seq<char>) -> Seq<Persisted<Id, Evt>> {
        if self.slots@.contains_key(key) {
            self.streams@[self.slots@[key] as int]@
        } else {
            Seq::empty()
        }
    }

    fn new() -> (backend: Self)
        ensures
            backend.well_formed(),
            forall|key: Seq<char>| backend.history(key) == Seq::<Persisted<Id, Evt>>::empty(),
    {
        InMemoryEventStoreBackend { slots: StringHashMap::new(), streams: Vec::new() }
    }

    /// Records `records` behind what the stream under `key` holds, in a new
    /// stream where the key has none.
    fn extend(&mut self, key: String, records: &mut Vec<Persisted<Id, Evt>>)
        requires
            old(self).well_formed(),
            forall|i: int|
                0 <= i < old(records)@.len() ==> (#[trigger] old(records)@[i]).version.0
                    == old(self).history(key@).len() + i + 1,
        ensures
            final(self).well_formed(),
            final(self).history(key@) == old(self).history(key@) + old(records)@,
            forall|other: Seq<char>|
                other != key@ ==> #[trigger] final(self).history(other) == old(self).history(
                    other,
                ),
    {
        let slot = match self.slots.get(key.as_str()) {
            Some(slot) => *slot,
            None => {
                let slot = self.streams.len();
                self.streams.push(Vec::new());
                self.slots.insert(key, slot);
                slot
            },
        };
        self.streams[slot].append(records);
    }

    /// Version of the last event of the stream under `key`, 0 where it has
    /// none.
    fn last_version(&self, key: &str) -> (version: Version)
        requires
            self.well_formed(),
        ensures
            version.0 == self.history(key@).len(),
    {
        match self.slots.get(key) {
            Some(slot) => {
                let stream = &self.streams[*slot];
                let held = stream.len();
                if held == 0 {
                    Version(0)
                } else {
                    stream[held - 1].version
                }
            },
            None => Version(0),
        }
    }

    /// Copies of the events of the stream under `key` that `select` admits.
    fn select(&self, key: &str, select: VersionSelect) -> (events: Vec<
        Persisted<Id, Evt>,
    >) where Id: Clone, Evt: Clone
        requires
            self.well_formed(),
        ensures
            duplicates_of(selected(self.history(key@), select), events@),
    {
        match self.slots.get(key) {
            Some(slot) => select_events(&self.streams[*slot], select),
            None => {
                proof {
                    reveal(Seq::filter);
                }
                Vec::new()
            },
        }
    }
}

/// Event store that holds its streams in memory, each under the textual
/// form of its identifier.
///
/// Its view is the map from the key of each stream that holds events to
/// these events, oldest first. Streams come into being with the first event
/// appended to them, only ever grow, and are never removed.
///
/// The store is the sole owner of its streams, and an append needs it
/// exclusively: checking the claimed version, giving out the new versions
/// and recording the events are one step that no other append can come
/// between. Callers that read and write from several places put the store
/// behind a lock of their own.
pub struct InMemoryEventStore<Id, Evt> {
    backend: InMemoryEventStoreBackend<Id, Evt>,
}

impl<Id, Evt> View for InMemoryEventStore<Id, Evt> {
    type V = Map<Seq<char>, Seq<Persisted<Id, Evt>>>;

    /// The streams that hold events, each under its key and with its oldest
    /// event first.
    closed spec fn view(&self) -> Self::V {
        Map::new(
            |key: Seq<char>| self.backend.history(key).len() > 0,
            |key: Seq<char>| self.backend.history(key),
        )
    }
}

impl<Id, Evt> InMemoryEventStore<Id, Evt> {
    #[verifier::type_invariant]
    spec fn well_formed(self) -> bool {
        self.backend.well_formed()
    }

    /// The events recorded under `key`, oldest first; none for a key that
    /// was never written to.
    pub open spec fn history(self, key: Seq<char>) -> Seq<Persisted<Id, Evt>> {
        if self@.contains_key(key) {
            self@[key]
        } else {
            Seq::empty()
        }
    }

    /// Version of the last event recorded under `key`, 0 where there is
    /// none.
    pub open spec fn last_version(self, key: Seq<char>) -> nat {
        if self.history(key).len() == 0 {
            0
        } else {
            self.history(key).last().version.0 as nat
        }
    }

    /// Whether `count` more events can be recorded under `key` with
    /// versions that fit a `u64`.
    pub open spec fn has_room(self, key: Seq<char>, count: nat) -> bool {
        self.last_version(key) + count <= u64::MAX
    }

    /// Whether an append of `count` events under `key` can be answered: it
    /// is refused for its claim, or the events have room.
    pub open spec fn can_answer(
        self,
        key: Seq<char>,
        version_check: StreamVersionExpected,
        count: nat,
    ) -> bool {
        version_check.holds_at(self.last_version(key)) ==> self.has_room(key, count)
    }

    /// What reading the stream under `key` gives: duplicates of the events
    /// recorded there that `select` admits, oldest first.
    pub open spec fn read(
        self,
        key: Seq<char>,
        select: VersionSelect,
        events: Seq<Persisted<Id, Evt>>,
    ) -> bool where Id: Clone, Evt: Clone {
        duplicates_of(selected(self.history(key), select), events)
    }

    /// What appending `events` for `id` to the stream under `key` makes of
    /// the store `self`, and what it returns.
    ///
    /// Where `version_check` holds of the stream, the append goes through:
    /// `events` are recorded behind what the stream held, at the versions
    /// that follow its last one; the stream is in the view from then on if
    /// it holds any event; no other stream changes; and the result is the
    /// version of the stream's last event. Where `version_check` does not
    /// hold, the store stays exactly as it was and the result names the
    /// version that was claimed and the one that the stream is at.
    pub open spec fn appended(
        self,
        after: Self,
        key: Seq<char>,
        id: Id,
        version_check: StreamVersionExpected,
        events: Seq<Evt>,
        result: Result<Version, ConflictError>,
    ) -> bool where Id: Clone {
        let current = self.last_version(key);
        let held = self.history(key).len() as int;
        match result {
            Ok(version) => {
                &&& version_check.holds_at(current)
                &&& version.0 == current + events.len()
                &&& after.history(key).len() == held + events.len()
                &&& after.history(key).take(held) == self.history(key)
                &&& stamped(id, current, events, after.history(key).skip(held))
                &&& after@.contains_key(key) == (self@.contains_key(key) || events.len() > 0)
                &&& after@.remove(key) == self@.remove(key)
            },
            Err(conflict) => {
                &&& version_check == StreamVersionExpected::Exact(conflict.expected)
                &&& conflict.expected.0 != current
                &&& conflict.actual.0 == current
                &&& after == self
            },
        }
    }

    /// What holds of every store that a function of this type hands out or
    /// has worked on: each stream in its view holds an event, and the events
    /// of a stream carry the versions 1, 2, 3 and so on without a gap.
    pub open spec fn valid(self) -> bool {
        forall|key: Seq<char>| #[trigger]
            self@.contains_key(key) ==> self@[key].len() > 0 && contiguous(self@[key])
    }

    /// An empty store.
    pub fn new() -> (store: Self)
        ensures
            store@ == Map::<Seq<char>, Seq<Persisted<Id, Evt>>>::empty(),
            store.valid(),
    {
        InMemoryEventStore { backend: InMemoryEventStoreBackend::new() }
    }

    /// Version of the last event recorded under `key`, 0 where there is none.
    pub fn version_by_key(&self, key: &str) -> (version: Version)
        ensures
            version.0 == self.last_version(key@),
            self.valid(),
    {
        proof {
            use_type_invariant(self);
        }
        self.backend.last_version(key)
    }

    /// Reads the stream under `key`: copies of its events that `select`
    /// admits, oldest first. A key that was never written to has no events.
    pub fn stream_by_key(&self, key: &str, select: VersionSelect) -> (events: Vec<
        Persisted<Id, Evt>,
    >) where Id: Clone, Evt: Clone
        ensures
            self.read(key@, select, events@),
            self.valid(),
    {
        proof {
            use_type_invariant(self);
        }
        self.backend.select(key, select)
    }

    /// Appends `events` for `id` to the stream under `key`, provided that
    /// `version_check` holds of the stream; else changes nothing and reports
    /// the conflict.
    ///
    /// An append that goes through needs room: the versions of the new
    /// events have to fit a `u64`.
    pub fn append_by_key(
        &mut self,
        key: String,
        id: Id,
        version_check: StreamVersionExpected,
        events: Vec<Evt>,
    ) -> (result: Result<Version, ConflictError>) where Id: Clone
        requires
            old(self).can_answer(key@, version_check, events@.len()),
        ensures
            old(self).appended(*final(self), key@, id, version_check, events@, result),
            final(self).valid(),
    {
        proof {
            use_type_invariant(&*self);
        }
        let current = self.backend.last_version(key.as_str());
        match version_check.check(current) {
            Err(conflict) => Err(conflict),
            Ok(()) => {
                let added = events.len();
                let mut records = stamp_events(id, current, events);
                let mut backend = InMemoryEventStoreBackend::new();
                std::mem::swap(&mut backend, &mut self.backend);
                backend.extend(key, &mut records);
                self.backend = backend;
                proof {
                    let before = old(self).history(key@);
                    assert(self.history(key@).take(before.len() as int) =~= before);
                    assert(self@.remove(key@) =~= old(self)@.remove(key@));
                }
                Ok(Version(current.0 + added as u64))
            },
        }
    }

    /// Reads the stream of `id`, which is the one under the text that `id`
    /// is displayed as: copies of its events that `select` admits, oldest
    /// first. Reading never fails, and an identifier that was never written
    /// to has no events.
    pub fn stream(&self, id: &Id, select: VersionSelect) -> (events: Vec<
        Persisted<Id, Evt>,
    >) where Id: Clone + Display, Evt: Clone
        ensures
            exists|key: Seq<char>| #[trigger]
                renders_as(id, key) && self.read(key, select, events@),
            self.valid(),
    {
        let key = id.to_string();
        assert(renders_as(id, key@));
        self.stream_by_key(key.as_str(), select)
    }

    /// Appends `events` to the stream of `id`, which is the one under the
    /// text that `id` is displayed as, provided that `version_check` holds
    /// of the stream; else changes nothing and reports the conflict.
    ///
    /// The store alone gives the events their versions: those that follow
    /// the version of the stream's last event. On success the result is the
    /// version of the last event of the stream.
    ///
    /// An append that goes through needs room: the versions of the new
    /// events have to fit a `u64`. [`InMemoryEventStore::try_append`] asks
    /// for nothing and tells where there is no room.
    pub fn append(
        &mut self,
        id: Id,
        version_check: StreamVersionExpected,
        events: Vec<Evt>,
    ) -> (result: Result<Version, ConflictError>) where Id: Clone + Display
        requires
            forall|key: Seq<char>| #[trigger]
                renders_as(&id, key) ==> old(self).can_answer(key, version_check, events@.len()),
        ensures
            exists|key: Seq<char>| #[trigger]
                renders_as(&id, key) && old(self).appended(
                    *final(self),
                    key,
                    id,
                    version_check,
                    events@,
                    result,
                ),
            final(self).valid(),
    {
        let key = id.to_string();
        assert(renders_as(&id, key@));
        self.append_by_key(key, id, version_check, events)
    }

    /// Appends as [`InMemoryEventStore::append`] does, but for an append
    /// that would go through with versions that do not fit a `u64`: then it
    /// changes nothing and gives `None`.
    pub fn try_append(
        &mut self,
        id: Id,
        version_check: StreamVersionExpected,
        events: Vec<Evt>,
    ) -> (outcome: Option<Result<Version, ConflictError>>) where Id: Clone + Display
        ensures
            exists|key: Seq<char>| #[trigger]
                renders_as(&id, key) && match outcome {
                    Some(result) => old(self).can_answer(key, version_check, events@.len())
                        && old(self).appended(
                        *final(self),
                        key,
                        id,
                        version_check,
                        events@,
                        result,
                    ),
                    None => !old(self).can_answer(key, version_check, events@.len())
                        && *final(self) == *old(self),
                },
            final(self).valid(),
    {
        let key = id.to_string();
        assert(renders_as(&id, key@));
        let current = self.version_by_key(key.as_str());
        if version_check.check(current).is_ok() && events.len() as u64 > u64::MAX - current.0 {
            None
        } else {
            Some(self.append_by_key(key, id, version_check, events))
        }
    }
}

/// What holds of the stores before and after an append and of what is read
/// from them.
impl<Id, Evt> InMemoryEventStore<Id, Evt> {
    /// In a valid store the version of the last event of a stream is the
    /// number of events that the stream holds.
    pub proof fn last_version_counts_events(self, key: Seq<char>)
        requires
            self.valid(),
        ensures
            self.last_version(key) == self.history(key).len(),
    {
    }

    /// An append keeps a store valid, the versions of every stream free of
    /// gaps, and the version that it returns is the number of events that
    /// its stream then holds.
    pub proof fn append_keeps_versions_contiguous(
        self,
        after: Self,
        key: Seq<char>,
        id: Id,
        version_check: StreamVersionExpected,
        events: Seq<Evt>,
        result: Result<Version, ConflictError>,
    ) where Id: Clone
        requires
            self.valid(),
            self.appended(after, key, id, version_check, events, result),
        ensures
            after.valid(),
            result matches Ok(version) ==> version.0 == after.history(key).len(),
    {
        if result is Ok {
            let held = self.history(key).len() as int;
            let grown = after.history(key);
            assert(contiguous(grown)) by {
                assert forall|position: int| 0 <= position < grown.len() implies (
                #[trigger] grown[position]).version.0 == position + 1 by {
                    if position < held {
                        assert(grown.take(held)[position] == grown[position]);
                    } else {
                        assert(grown.skip(held)[position - held] == grown[position]);
                    }
                }
            }
            assert forall|other: Seq<char>| #[trigger] after@.contains_key(other) implies {
                &&& after@[other].len() > 0
                &&& contiguous(after@[other])
            } by {
                if other != key {
                    assert(after@.remove(key).contains_key(other));
                    assert(self@.remove(key)[other] == self@[other]);
                }
            }
        }
    }

    /// The first event ever recorded in a stream has version 1, and the
    /// append that records it returns the number of events that it recorded.
    pub proof fn first_event_has_version_one(
        self,
        after: Self,
        key: Seq<char>,
        id: Id,
        version_check: StreamVersionExpected,
        events: Seq<Evt>,
        version: Version,
    ) where Id: Clone
        requires
            !self@.contains_key(key),
            events.len() > 0,
            self.appended(after, key, id, version_check, events, Ok(version)),
        ensures
            after.history(key).first().version.0 == 1,
            version.0 == events.len(),
    {
        assert(after.history(key).skip(0)[0] == after.history(key)[0]);
    }

    /// Of two appends to one stream that follow each other and succeed, the
    /// second returns the version of the first advanced by the number of
    /// events that it recorded: a greater one whenever it recorded any.
    pub proof fn successive_appends_advance(
        self,
        between: Self,
        after: Self,
        key: Seq<char>,
        first_id: Id,
        first_check: StreamVersionExpected,
        first_events: Seq<Evt>,
        first_version: Version,
        second_id: Id,
        second_check: StreamVersionExpected,
        second_events: Seq<Evt>,
        second_version: Version,
    ) where Id: Clone
        requires
            self.appended(between, key, first_id, first_check, first_events, Ok(first_version)),
            between.appended(
                after,
                key,
                second_id,
                second_check,
                second_events,
                Ok(second_version),
            ),
        ensures
            second_version.0 == first_version.0 + second_events.len(),
            second_events.len() > 0 ==> second_version.0 > first_version.0,
    {
        if first_events.len() > 0 {
            let held = self.history(key).len() as int;
            let grown = between.history(key);
            assert(grown.skip(held)[first_events.len() - 1] == grown.last());
        }
    }

    /// An append whose claim about the version of its stream is wrong
    /// leaves the store exactly as it was, and its error names the version
    /// that was claimed and the one that the stream is at.
    pub proof fn conflict_changes_nothing(
        self,
        after: Self,
        key: Seq<char>,
        id: Id,
        claimed: Version,
        events: Seq<Evt>,
        result: Result<Version, ConflictError>,
    ) where Id: Clone
        requires
            claimed.0 != self.last_version(key),
            self.appended(after, key, id, StreamVersionExpected::Exact(claimed), events, result),
        ensures
            after == self,
            result matches Err(conflict) && conflict.expected == claimed && conflict.actual.0
                == self.last_version(key),
    {
    }

    /// Reading a whole stream right after an append to it gives what the
    /// stream held before, followed by the events of the append in their
    /// order, each at the version that follows its predecessor's. Read
    /// after the first append to a stream, that is these events at the
    /// versions 1, 2, 3 and so on.
    pub proof fn read_after_append(
        self,
        after: Self,
        key: Seq<char>,
        id: Id,
        version_check: StreamVersionExpected,
        events: Seq<Evt>,
        version: Version,
        found: Seq<Persisted<Id, Evt>>,
    ) where Id: Clone, Evt: Clone
        requires
            self.valid(),
            self.appended(after, key, id, version_check, events, Ok(version)),
            after.read(key, VersionSelect::All, found),
        ensures
            found.len() == self.history(key).len() + events.len(),
            forall|i: int|
                0 <= i < self.history(key).len() ==> duplicate_of(
                    self.history(key)[i],
                    #[trigger] found[i],
                ),
            forall|position: int|
                self.history(key).len() <= position < found.len() ==> {
                    let read = #[trigger] found[position];
                    &&& read.version.0 == position + 1
                    &&& cloned(events[position - self.history(key).len()], read.inner)
                    &&& exists|stored: Id| cloned(id, stored) && cloned(stored, read.stream_id)
                },
    {
        self.append_keeps_versions_contiguous(after, key, id, version_check, events, Ok(version));
        let held = self.history(key).len() as int;
        let grown = after.history(key);
        selection_is_suffix(grown, VersionSelect::All);
        assert forall|position: int| held <= position < found.len() implies {
            let read = #[trigger] found[position];
            &&& read.version.0 == position + 1
            &&& cloned(events[position - held], read.inner)
            &&& exists|stored: Id| cloned(id, stored) && cloned(stored, read.stream_id)
        } by {
            let stored = grown.skip(held)[position - held];
            assert(cloned(id, stored.stream_id) && cloned(
                stored.stream_id,
                found[position].stream_id,
            ));
        }
    }

    /// A reader sees its own writes: for an identifier that is always
    /// displayed alike, reading its whole stream right after an append to it
    /// gives what [`InMemoryEventStore::read_after_append`] says of the
    /// stream under the text that the identifier is displayed as.
    pub proof fn read_own_writes(
        self,
        after: Self,
        id: Id,
        version_check: StreamVersionExpected,
        events: Seq<Evt>,
        version: Version,
        found: Seq<Persisted<Id, Evt>>,
    ) where Id: Clone + Display, Evt: Clone
        requires
            displays_one_text(&id),
            self.valid(),
            exists|key: Seq<char>| #[trigger]
                renders_as(&id, key) && self.appended(
                    after,
                    key,
                    id,
                    version_check,
                    events,
                    Ok(version),
                ),
            exists|key: Seq<char>| #[trigger]
                renders_as(&id, key) && after.read(key, VersionSelect::All, found),
        ensures
            exists|key: Seq<char>| #[trigger]
                renders_as(&id, key) && {
                    let held = self.history(key).len();
                    &&& found.len() == held + events.len()
                    &&& forall|position: int|
                        held <= position < found.len() ==> {
                            &&& (#[trigger] found[position]).version.0 == position + 1
                            &&& cloned(events[position - held], found[position].inner)
                        }
                },
    {
        let written = choose|key: Seq<char>| #[trigger]
            renders_as(&id, key) && self.appended(
                after,
                key,
                id,
                version_check,
                events,
                Ok(version),
            );
        self.read_after_append(after, written, id, version_check, events, version, found);
    }

    /// Reading a stream from a version on gives the events at that version
    /// and after it, which are those behind the first `skipped` ones; read
    /// from a version behind that of the last event, it gives nothing.
    pub proof fn read_gives_suffix(
        self,
        key: Seq<char>,
        select: VersionSelect,
        found: Seq<Persisted<Id, Evt>>,
    ) where Id: Clone, Evt: Clone
        requires
            self.valid(),
            self.read(key, select, found),
        ensures
            duplicates_of(
                self.history(key).skip(skipped(self.history(key).len(), select) as int),
                found,
            ),
            forall|i: int| 0 <= i < found.len() ==> select.admits((#[trigger] found[i]).version),
            select matches VersionSelect::From(first) && first.0 > self.history(key).len()
                ==> found.len() == 0,
    {
        selection_is_suffix(self.history(key), select);
    }

    /// Reading a stream that the store does not know gives no event.
    pub proof fn unknown_stream_is_empty(
        self,
        key: Seq<char>,
        select: VersionSelect,
        found: Seq<Persisted<Id, Evt>>,
    ) where Id: Clone, Evt: Clone
        requires
            !self@.contains_key(key),
            self.read(key, select, found),
        ensures
            found.len() == 0,
    {
        reveal(Seq::filter);
    }
}

impl<Id, Evt> Default for InMemoryEventStore<Id, Evt> {
    fn default() -> (store: Self)
        ensures
            store@ == Map::<Seq<char>, Seq<Persisted<Id, Evt>>>::empty(),
            store.valid(),
    {
        InMemoryEventStore::new()
    }
}

} // verus!
