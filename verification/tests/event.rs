use eventually::event::{Persisted, StreamVersionExpected, VersionSelect};
use eventually::history::{into_events, select_events, stamp_events};
use eventually::version::{ConflictError, Version};

fn history() -> Vec<Persisted<u8, char>> {
    vec![
        Persisted { stream_id: 9, version: Version(1), inner: 'a' },
        Persisted { stream_id: 9, version: Version(2), inner: 'b' },
        Persisted { stream_id: 9, version: Version(3), inner: 'c' },
    ]
}

#[test]
fn select_all_admits_every_version() {
    assert!(VersionSelect::All.selects(Version(0)));
    assert!(VersionSelect::All.selects(Version(1)));
    assert!(VersionSelect::All.selects(Version(u64::MAX)));
}

#[test]
fn select_from_admits_the_version_and_later_ones() {
    let select = VersionSelect::From(Version(5));
    assert!(!select.selects(Version(0)));
    assert!(!select.selects(Version(4)));
    assert!(select.selects(Version(5)));
    assert!(select.selects(Version(6)));
    assert!(select.selects(Version(u64::MAX)));
}

#[test]
fn claim_of_any_version_always_holds() {
    assert_eq!(StreamVersionExpected::Any.check(Version(0)), Ok(()));
    assert_eq!(StreamVersionExpected::Any.check(Version(17)), Ok(()));
}

#[test]
fn claim_of_exact_version_holds_of_that_version_only() {
    let claim = StreamVersionExpected::Exact(Version(4));
    assert_eq!(claim.check(Version(4)), Ok(()));
    assert_eq!(
        claim.check(Version(3)),
        Err(ConflictError { expected: Version(4), actual: Version(3) })
    );
    assert_eq!(
        claim.check(Version(0)),
        Err(ConflictError { expected: Version(4), actual: Version(0) })
    );
    assert_eq!(
        StreamVersionExpected::Exact(Version(0)).check(Version(5)),
        Err(ConflictError { expected: Version(0), actual: Version(5) })
    );
}

#[test]
fn conflicts_compare_by_their_versions() {
    let conflict = ConflictError { expected: Version(3), actual: Version(0) };
    assert_eq!(conflict, ConflictError { expected: Version(3), actual: Version(0) });
    assert_ne!(conflict, ConflictError { expected: Version(0), actual: Version(3) });
    assert_ne!(conflict, ConflictError { expected: Version(3), actual: Version(1) });
}

#[test]
fn versions_are_ordered_as_their_numbers() {
    assert!(Version(0) < Version(1));
    assert!(Version(2) >= Version(2));
    assert_eq!(Version::default(), Version(0));
}

#[test]
fn stamping_continues_behind_the_given_version() {
    let records = stamp_events("id", Version(4), vec!['x', 'y', 'z']);
    assert_eq!(
        records,
        vec![
            Persisted { stream_id: "id", version: Version(5), inner: 'x' },
            Persisted { stream_id: "id", version: Version(6), inner: 'y' },
            Persisted { stream_id: "id", version: Version(7), inner: 'z' },
        ]
    );
}

#[test]
fn stamping_starts_a_stream_at_version_one() {
    let records = stamp_events(3u8, Version(0), vec!["first"]);
    assert_eq!(records, vec![Persisted { stream_id: 3u8, version: Version(1), inner: "first" }]);
}

#[test]
fn stamping_nothing_gives_nothing() {
    let records = stamp_events(3u8, Version(8), Vec::<char>::new());
    assert!(records.is_empty());
}

#[test]
fn stamping_reaches_the_largest_version() {
    let records = stamp_events(0u8, Version(u64::MAX - 2), vec![1, 2]);
    assert_eq!(records[0].version, Version(u64::MAX - 1));
    assert_eq!(records[1].version, Version(u64::MAX));
}

#[test]
fn selecting_all_copies_the_history() {
    assert_eq!(select_events(&history(), VersionSelect::All), history());
}

#[test]
fn selecting_from_a_version_drops_the_earlier_events() {
    assert_eq!(select_events(&history(), VersionSelect::From(Version(0))), history());
    assert_eq!(select_events(&history(), VersionSelect::From(Version(1))), history());
    assert_eq!(
        select_events(&history(), VersionSelect::From(Version(3))),
        vec![Persisted { stream_id: 9, version: Version(3), inner: 'c' }]
    );
    assert!(select_events(&history(), VersionSelect::From(Version(4))).is_empty());
}

#[test]
fn selecting_from_nothing_gives_nothing() {
    let empty: Vec<Persisted<u8, char>> = Vec::new();
    assert!(select_events(&empty, VersionSelect::All).is_empty());
    assert!(select_events(&empty, VersionSelect::From(Version(1))).is_empty());
}

#[test]
fn a_cloned_record_equals_the_record() {
    let record = Persisted { stream_id: String::from("s"), version: Version(2), inner: vec![1, 2] };
    let copy = record.clone();
    assert_eq!(copy, record);
}

#[test]
fn taking_the_events_out_keeps_their_order() {
    assert_eq!(into_events(history()), vec!['a', 'b', 'c']);
    assert!(into_events(Vec::<Persisted<u8, char>>::new()).is_empty());
}
