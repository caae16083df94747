//! Aggregates: domain entities whose state is the fold of their event history.

use vstd::prelude::*;
use crate::event::Persisted;
use crate::history::{events_of, into_events};

verus! {

/// A domain entity whose state evolves one event at a time.
///
/// Applying an event is meant to be pure: no effect but its result, and the
/// same result for the same state and event. What an implementation
/// promises of its `apply` it writes as the `ensures` of that function;
/// [`deterministic`] says when that promise leaves one outcome only.
pub trait Aggregate {
    /// State of the aggregate.
    type State;

    /// Domain events that describe the changes of the state.
    type Event;

    /// Why an event cannot be applied to a state.
    type Error;

    /// Applies the change described by `event` to `state`: gives the next
    /// state, or the reason why the event is not acceptable in that state.
    fn apply(state: Self::State, event: Self::Event) -> Result<Self::State, Self::Error>;
}

/// `outcome` is something that [`Aggregate::apply`] may return for `state`
/// and `event`.
pub open spec fn applies<A: Aggregate>(
    state: A::State,
    event: A::Event,
    outcome: Result<A::State, A::Error>,
) -> bool {
    call_ensures(A::apply, (state, event), outcome)
}

/// `result` is something that applying `events` in order may lead to from
/// `state`: the state after the last event where every event is accepted, the
/// error of the first event that is refused otherwise.
pub open spec fn folds_to<A: Aggregate>(
    state: A::State,
    events: Seq<A::Event>,
    result: Result<A::State, A::Error>,
) -> bool
    decreases events.len(),
{
    if events.len() == 0 {
        result == Ok::<A::State, A::Error>(state)
    } else {
        exists|outcome: Result<A::State, A::Error>|
            #[trigger] applies::<A>(state, events.first(), outcome) && match outcome {
                Ok(next) => folds_to::<A>(next, events.drop_first(), result),
                Err(error) => result == Err::<A::State, A::Error>(error),
            }
    }
}

/// Rebuilds the state of an aggregate from `events`, applied in the order
/// given on top of `state`. Stops at the first event that is refused and
/// hands its error back unchanged.
///
/// The result is one that the outcomes of `apply` lead to, event after
/// event: it is pinned down as far as `apply` pins down its own.
pub fn fold<A: Aggregate>(state: A::State, events: Vec<A::Event>) -> (result: Result<
    A::State,
    A::Error,
>)
    ensures
        folds_to::<A>(state, events@, result),
{
    let ghost start = state;
    let ghost all = events@;
    let mut current = state;
    assert(all.skip(0) =~= all);
    for event in it: events
        invariant
            start == state,
            all == events@,
            it.seq() == all,
            forall|result: Result<A::State, A::Error>|
                folds_to::<A>(current, all.skip(it.index() as int), result) ==> folds_to::<A>(
                    start,
                    all,
                    result,
                ),
    {
        let ghost before = current;
        let ghost rest = all.skip(it.index() as int);
        assert(rest.drop_first() =~= all.skip(it.index() + 1));
        let outcome = A::apply(current, event);
        assert(applies::<A>(before, rest.first(), outcome));
        match outcome {
            Ok(next) => {
                current = next;
            },
            Err(error) => {
                return Err(error);
            },
        }
    }
    Ok(current)
}

/// Rebuilds the state of an aggregate from `records` as read from a stream:
/// folds the events that they hold, in the order given, on top of `state`.
/// The identifiers and versions of the records play no part.
pub fn fold_records<A: Aggregate, Id>(
    state: A::State,
    records: Vec<Persisted<Id, A::Event>>,
) -> (result: Result<A::State, A::Error>)
    ensures
        folds_to::<A>(state, events_of(records@), result),
{
    fold::<A>(state, into_events(records))
}

/// Whether [`Aggregate::apply`] of `A` is a function of its arguments: the
/// same state and event never give two different outcomes.
pub open spec fn deterministic<A: Aggregate>() -> bool {
    forall|
        state: A::State,
        event: A::Event,
        first: Result<A::State, A::Error>,
        second: Result<A::State, A::Error>,
    |
        #[trigger] applies::<A>(state, event, first) && #[trigger] applies::<A>(
            state,
            event,
            second,
        ) ==> first == second
}

/// Folding is repeatable: where applying an event is deterministic, two
/// folds of the same events from the same state end alike, in the same state
/// or with the same error.
pub proof fn fold_is_deterministic<A: Aggregate>(
    state: A::State,
    events: Seq<A::Event>,
    first: Result<A::State, A::Error>,
    second: Result<A::State, A::Error>,
)
    requires
        deterministic::<A>(),
        folds_to::<A>(state, events, first),
        folds_to::<A>(state, events, second),
    ensures
        first == second,
    decreases events.len(),
{
    if events.len() > 0 {
        let one = choose|outcome: Result<A::State, A::Error>|
            #[trigger] applies::<A>(state, events.first(), outcome) && match outcome {
                Ok(next) => folds_to::<A>(next, events.drop_first(), first),
                Err(error) => first == Err::<A::State, A::Error>(error),
            };
        let other = choose|outcome: Result<A::State, A::Error>|
            #[trigger] applies::<A>(state, events.first(), outcome) && match outcome {
                Ok(next) => folds_to::<A>(next, events.drop_first(), second),
                Err(error) => second == Err::<A::State, A::Error>(error),
            };
        assert(one == other);
        if let Ok(next) = one {
            fold_is_deterministic::<A>(next, events.drop_first(), first, second);
        }
    }
}

/// Folding may be done in batches: a fold of `head` that ends in a state,
/// followed by a fold of `tail` from that state, is a fold of `head` and
/// `tail` in one go; and a fold of `head` that ends with an error is a fold
/// of the whole with that error, whatever `tail` holds.
pub proof fn fold_in_batches<A: Aggregate>(
    state: A::State,
    head: Seq<A::Event>,
    tail: Seq<A::Event>,
    halfway: Result<A::State, A::Error>,
    result: Result<A::State, A::Error>,
)
    requires
        folds_to::<A>(state, head, halfway),
        match halfway {
            Ok(reached) => folds_to::<A>(reached, tail, result),
            Err(error) => result == Err::<A::State, A::Error>(error),
        },
    ensures
        folds_to::<A>(state, head + tail, result),
    decreases head.len(),
{
    if head.len() == 0 {
        assert(head + tail =~= tail);
    } else {
        let whole = head + tail;
        let outcome = choose|outcome: Result<A::State, A::Error>|
            #[trigger] applies::<A>(state, head.first(), outcome) && match outcome {
                Ok(next) => folds_to::<A>(next, head.drop_first(), halfway),
                Err(error) => halfway == Err::<A::State, A::Error>(error),
            };
        assert(whole.drop_first() =~= head.drop_first() + tail);
        if let Ok(next) = outcome {
            fold_in_batches::<A>(next, head.drop_first(), tail, halfway, result);
        }
        assert(applies::<A>(state, whole.first(), outcome));
    }
}

/// A fold can be cut at any point: a fold of `head` and `tail` in one go
/// passes through an outcome of folding `head` alone, from which it goes on
/// as [`fold_in_batches`] describes.
pub proof fn fold_passes_halfway<A: Aggregate>(
    state: A::State,
    head: Seq<A::Event>,
    tail: Seq<A::Event>,
    result: Result<A::State, A::Error>,
) -> (halfway: Result<A::State, A::Error>)
    requires
        folds_to::<A>(state, head + tail, result),
    ensures
        folds_to::<A>(state, head, halfway),
        match halfway {
            Ok(reached) => folds_to::<A>(reached, tail, result),
            Err(error) => result == Err::<A::State, A::Error>(error),
        },
    decreases head.len(),
{
    if head.len() == 0 {
        assert(head + tail =~= tail);
        Ok(state)
    } else {
        let whole = head + tail;
        let outcome = choose|outcome: Result<A::State, A::Error>|
            #[trigger] applies::<A>(state, whole.first(), outcome) && match outcome {
                Ok(next) => folds_to::<A>(next, whole.drop_first(), result),
                Err(error) => result == Err::<A::State, A::Error>(error),
            };
        assert(whole.drop_first() =~= head.drop_first() + tail);
        match outcome {
            Ok(next) => {
                let halfway = fold_passes_halfway::<A>(next, head.drop_first(), tail, result);
                assert(applies::<A>(state, head.first(), outcome));
                halfway
            },
            Err(error) => {
                assert(applies::<A>(state, head.first(), outcome));
                Err(error)
            },
        }
    }
}

} // verus!
