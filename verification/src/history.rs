//! Histories: the sequences of persisted events that make up a stream, how
//! events enter one and how they are read back.

use vstd::prelude::*;
use crate::event::{duplicate_of, Persisted, VersionSelect};
use crate::version::Version;

verus! {

/// The events of `history` carry the versions 1, 2, 3 and so on, in that
/// order: what holds of the events of one stream.
pub open spec fn contiguous<Id, Evt>(history: Seq<Persisted<Id, Evt>>) -> bool {
    forall|position: int|
        0 <= position < history.len() ==> (#[trigger] history[position]).version.0 == position
            + 1
}

/// `records` are `events` as a stream whose last version is `after` records
/// them for `id`: one record for each event, in the same order, with the
/// versions that follow `after` and an identifier cloned from `id`.
pub open spec fn stamped<Id: Clone, Evt>(
    id: Id,
    after: nat,
    events: Seq<Evt>,
    records: Seq<Persisted<Id, Evt>>,
) -> bool {
    &&& records.len() == events.len()
    &&& forall|i: int|
        0 <= i < events.len() ==> {
            &&& (#[trigger] records[i]).version.0 == after + i + 1
            &&& records[i].inner == events[i]
            &&& cloned(id, records[i].stream_id)
        }
}

/// Turns `events` into the records that continue, for `id`, a stream whose
/// last version is `after`. The versions of the records have to fit a `u64`.
pub fn stamp_events<Id: Clone, Evt>(id: Id, after: Version, events: Vec<Evt>) -> (records: Vec<
    Persisted<Id, Evt>,
>)
    requires
        after.0 + events@.len() <= u64::MAX,
    ensures
        stamped(id, after.0 as nat, events@, records@),
{
    let ghost all = events@;
    let mut records: Vec<Persisted<Id, Evt>> = Vec::new();
    let mut last: u64 = after.0;
    for event in it: events
        invariant
            all == events@,
            it.seq() == all,
            after.0 + all.len() <= u64::MAX,
            last == after.0 + it.index(),
            stamped(id, after.0 as nat, all.take(it.index() as int), records@),
    {
        last = last + 1;
        records.push(Persisted { stream_id: id.clone(), version: Version(last), inner: event });
    }
    records
}

/// The events of `history` that `select` admits, in the order of `history`.
pub open spec fn selected<Id, Evt>(
    history: Seq<Persisted<Id, Evt>>,
    select: VersionSelect,
) -> Seq<Persisted<Id, Evt>> {
    history.filter(|event: Persisted<Id, Evt>| select.admits(event.version))
}

/// `copies` holds one duplicate of each element of `records`, in the same
/// order, and nothing else.
pub open spec fn duplicates_of<Id: Clone, Evt: Clone>(
    records: Seq<Persisted<Id, Evt>>,
    copies: Seq<Persisted<Id, Evt>>,
) -> bool {
    &&& copies.len() == records.len()
    &&& forall|i: int|
        0 <= i < records.len() ==> duplicate_of(records[i], #[trigger] copies[i])
}

/// Copies out of `history` the events that `select` admits, keeping their
/// order.
pub fn select_events<Id: Clone, Evt: Clone>(
    history: &Vec<Persisted<Id, Evt>>,
    select: VersionSelect,
) -> (events: Vec<Persisted<Id, Evt>>)
    ensures
        duplicates_of(selected(history@, select), events@),
{
    let mut events: Vec<Persisted<Id, Evt>> = Vec::new();
    let mut position: usize = 0;
    proof {
        reveal(Seq::filter);
    }
    while position < history.len()
        invariant
            position <= history.len(),
            duplicates_of(selected(history@.take(position as int), select), events@),
        decreases history.len() - position,
    {
        let event = &history[position];
        proof {
            reveal(Seq::filter);
            let seen = history@.take(position + 1);
            assert(seen.drop_last() =~= history@.take(position as int));
        }
        if select.selects(event.version) {
            events.push(event.clone());
        }
        position += 1;
    }
    proof {
        assert(history@.take(position as int) =~= history@);
    }
    events
}

/// How many events at the start of a stream of `held` events `select`
/// leaves out.
pub open spec fn skipped(held: nat, select: VersionSelect) -> nat {
    match select {
        VersionSelect::All => 0,
        VersionSelect::From(first) => if first.0 <= 1 {
            0
        } else if first.0 - 1 >= held {
            held
        } else {
            (first.0 - 1) as nat
        },
    }
}

/// Selecting from the history of one stream cuts its start off: what is
/// selected is the history without its first `skipped` events. So a
/// selection of all events is the whole history, and a selection from a
/// version behind the last one is empty.
pub proof fn selection_is_suffix<Id, Evt>(history: Seq<Persisted<Id, Evt>>, select: VersionSelect)
    requires
        contiguous(history),
    ensures
        selected(history, select) == history.skip(skipped(history.len(), select) as int),
    decreases history.len(),
{
    reveal(Seq::filter);
    if history.len() > 0 {
        selection_is_suffix(history.drop_last(), select);
    }
}

/// The domain events that `records` hold, in the order of `records`.
pub open spec fn events_of<Id, Evt>(records: Seq<Persisted<Id, Evt>>) -> Seq<Evt> {
    records.map_values(|record: Persisted<Id, Evt>| record.inner)
}

/// Takes the domain events out of `records`, keeping their order and
/// dropping identifiers and versions.
pub fn into_events<Id, Evt>(records: Vec<Persisted<Id, Evt>>) -> (events: Vec<Evt>)
    ensures
        events@ == events_of(records@),
{
    let ghost all = records@;
    let mut events: Vec<Evt> = Vec::new();
    for record in it: records
        invariant
            all == records@,
            it.seq() == all,
            events@ == events_of(all.take(it.index() as int)),
    {
        events.push(record.inner);
    }
    events
}

} // verus!
