use eventually::aggregate::{fold, fold_records, Aggregate};
use eventually::event::{Persisted, StreamVersionExpected, VersionSelect};
use eventually::store::InMemoryEventStore;
use eventually::version::Version;

#[derive(Debug, Clone, PartialEq, Eq)]
enum AccountEvent {
    Opened,
    Deposited(u32),
    Withdrawn(u32),
}

#[derive(Debug, PartialEq, Eq)]
enum AccountError {
    AlreadyOpen,
    NotOpen,
    InsufficientFunds { balance: u32, asked: u32 },
}

struct Account;

impl Aggregate for Account {
    type State = Option<u32>;
    type Event = AccountEvent;
    type Error = AccountError;

    fn apply(state: Option<u32>, event: AccountEvent) -> Result<Option<u32>, AccountError> {
        match (state, event) {
            (None, AccountEvent::Opened) => Ok(Some(0)),
            (Some(_), AccountEvent::Opened) => Err(AccountError::AlreadyOpen),
            (None, _) => Err(AccountError::NotOpen),
            (Some(balance), AccountEvent::Deposited(amount)) => Ok(Some(balance + amount)),
            (Some(balance), AccountEvent::Withdrawn(asked)) => {
                if asked <= balance {
                    Ok(Some(balance - asked))
                } else {
                    Err(AccountError::InsufficientFunds { balance, asked })
                }
            }
        }
    }
}

struct Trace;

impl Aggregate for Trace {
    type State = Vec<u8>;
    type Event = u8;
    type Error = Vec<u8>;

    fn apply(mut state: Vec<u8>, event: u8) -> Result<Vec<u8>, Vec<u8>> {
        state.push(event);
        if event == 0 {
            Err(state)
        } else {
            Ok(state)
        }
    }
}

#[test]
fn fold_of_no_events_is_the_initial_state() {
    assert_eq!(fold::<Account>(None, vec![]), Ok(None));
    assert_eq!(fold::<Account>(Some(12), vec![]), Ok(Some(12)));
}

#[test]
fn fold_applies_events_in_order() {
    let events = vec![
        AccountEvent::Opened,
        AccountEvent::Deposited(100),
        AccountEvent::Withdrawn(30),
        AccountEvent::Deposited(5),
    ];
    assert_eq!(fold::<Account>(None, events), Ok(Some(75)));
    assert_eq!(fold::<Trace>(vec![9], vec![1, 2, 3]), Ok(vec![9, 1, 2, 3]));
}

#[test]
fn fold_stops_at_first_error() {
    let events = vec![
        AccountEvent::Opened,
        AccountEvent::Deposited(10),
        AccountEvent::Withdrawn(11),
        AccountEvent::Opened,
    ];
    assert_eq!(
        fold::<Account>(None, events),
        Err(AccountError::InsufficientFunds { balance: 10, asked: 11 })
    );
}

#[test]
fn fold_applies_nothing_behind_the_first_error() {
    assert_eq!(fold::<Trace>(vec![], vec![4, 5, 0, 6, 0, 7]), Err(vec![4, 5, 0]));
}

#[test]
fn fold_hands_the_error_of_apply_back_unchanged() {
    assert_eq!(fold::<Account>(None, vec![AccountEvent::Deposited(1)]), Err(AccountError::NotOpen));
    assert_eq!(
        fold::<Account>(Some(3), vec![AccountEvent::Opened]),
        Err(AccountError::AlreadyOpen)
    );
}

#[test]
fn folding_twice_gives_the_same_state() {
    let events = vec![AccountEvent::Opened, AccountEvent::Deposited(7), AccountEvent::Withdrawn(2)];
    let first = fold::<Account>(None, events.clone());
    let second = fold::<Account>(None, events);
    assert_eq!(first, Ok(Some(5)));
    assert_eq!(first, second);
}

#[test]
fn folding_in_batches_gives_the_state_of_one_fold() {
    let events = vec![
        AccountEvent::Opened,
        AccountEvent::Deposited(50),
        AccountEvent::Withdrawn(20),
        AccountEvent::Deposited(1),
    ];
    let whole = fold::<Account>(None, events.clone());
    for cut in 0..=events.len() {
        let head = events[..cut].to_vec();
        let tail = events[cut..].to_vec();
        let halfway = fold::<Account>(None, head).expect("every event is acceptable");
        assert_eq!(fold::<Account>(halfway, tail), whole);
    }
}

#[test]
fn state_is_rebuilt_from_a_stream() {
    let mut store = InMemoryEventStore::<&'static str, AccountEvent>::new();
    let id = "account:1";
    store
        .append(
            id,
            StreamVersionExpected::Exact(Version(0)),
            vec![AccountEvent::Opened, AccountEvent::Deposited(40)],
        )
        .expect("the stream is new");
    store
        .append(id, StreamVersionExpected::Any, vec![AccountEvent::Withdrawn(15)])
        .expect("no claim");

    let history = store.stream(&id, VersionSelect::All);
    assert_eq!(fold_records::<Account, _>(None, history), Ok(Some(25)));

    let snapshot = Some(40);
    let tail = store.stream(&id, VersionSelect::From(Version(3)));
    assert_eq!(fold_records::<Account, _>(snapshot, tail), Ok(Some(25)));
}

#[test]
fn fold_of_records_looks_at_their_events_only() {
    let records = vec![
        Persisted { stream_id: "b", version: Version(9), inner: AccountEvent::Opened },
        Persisted { stream_id: "a", version: Version(2), inner: AccountEvent::Deposited(8) },
        Persisted { stream_id: "c", version: Version(2), inner: AccountEvent::Withdrawn(9) },
    ];
    assert_eq!(
        fold_records::<Account, _>(None, records),
        Err(AccountError::InsufficientFunds { balance: 8, asked: 9 })
    );
    assert_eq!(fold_records::<Account, &str>(Some(1), vec![]), Ok(Some(1)));
}
