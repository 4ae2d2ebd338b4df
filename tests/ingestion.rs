use midgard_vault::engine::{resolve_checkpoint, resolve_checkpoint_now, SeriesStore, LOOKBACK_SECONDS};
use midgard_vault::ingest::{advance, step, PumpAction, PumpEvent, PumpState};
use midgard_vault::schema::Schema;
use midgard_vault::store::{Record, Sample};

#[test]
fn checkpoint_defaults_to_lookback_when_empty() {
    let store = SeriesStore::new(Schema::swaps());
    assert_eq!(store.last_checkpoint(), None);
    assert_eq!(store.resolve_checkpoint(100_000_000), 100_000_000 - LOOKBACK_SECONDS);
    assert_eq!(LOOKBACK_SECONDS, 6 * 30 * 24 * 3600);
    assert_eq!(resolve_checkpoint(None, i64::MIN), i64::MIN);
}

#[test]
fn checkpoint_is_latest_end_and_stable() {
    let mut store = SeriesStore::new(Schema::rune_pool());
    for (s, e) in [(0i64, 7200i64), (7200, 20_000), (3600, 10_000)] {
        let rec = Record {
            start_time: s,
            end_time: e,
            samples: vec![Sample { start_time: s, end_time: e, values: vec![1, 1] }],
        };
        store.insert_batch(rec).unwrap();
    }
    assert_eq!(store.last_checkpoint(), Some(20_000));
    let a = store.resolve_checkpoint(5_000_000);
    let b = store.resolve_checkpoint(5_000_000);
    let c = store.resolve_checkpoint(9_000_000);
    assert_eq!(a, 20_000);
    assert_eq!(a, b);
    assert_eq!(a, c);
}

#[test]
fn checkpoint_with_clock() {
    assert_eq!(resolve_checkpoint_now(Some(42)), 42);
    let fresh = resolve_checkpoint_now(None);
    assert!(fresh > 1_600_000_000 - LOOKBACK_SECONDS);
}

#[test]
fn pump_runs_one_full_cycle() {
    let until = 10_000;
    let (s, a) = step(PumpState::Idle, PumpEvent::Start { checkpoint: 100 }, until);
    assert_eq!(s, PumpState::Fetching { cursor: 100 });
    assert_eq!(a, PumpAction::Fetch { from: 100 });
    let (s, a) = step(s, PumpEvent::Fetched, until);
    assert_eq!((s, a), (PumpState::Parsing { cursor: 100 }, PumpAction::Parse));
    let (s, a) = step(s, PumpEvent::Parsed { marker: Some(3700) }, until);
    assert_eq!((s, a), (PumpState::Storing { cursor: 100, marker: Some(3700) }, PumpAction::Store));
    let (s, a) = step(s, PumpEvent::Stored, until);
    assert_eq!((s, a), (PumpState::Fetching { cursor: 3700 }, PumpAction::Fetch { from: 3700 }));
}

#[test]
fn stale_marker_ends_the_cycle() {
    let until = 10_000;
    let mut s = PumpState::Fetching { cursor: 500 };
    let mut fetches = 0;
    loop {
        let (next, action) = match s {
            PumpState::Fetching { .. } => {
                fetches += 1;
                step(s, PumpEvent::Fetched, until)
            }
            PumpState::Parsing { .. } => step(s, PumpEvent::Parsed { marker: Some(500) }, until),
            PumpState::Storing { .. } => step(s, PumpEvent::Stored, until),
            _ => break,
        };
        let _ = action;
        s = next;
        assert!(fetches < 3);
    }
    assert_eq!(s, PumpState::Done);
    assert_eq!(fetches, 1);
    assert_eq!(advance(500, Some(400), until), PumpState::Done);
    assert_eq!(advance(500, None, until), PumpState::Done);
    assert_eq!(advance(500, Some(10_000), until), PumpState::Done);
    assert_eq!(advance(500, Some(9_999), until), PumpState::Fetching { cursor: 9_999 });
}

#[test]
fn failures_end_the_cycle_as_failed() {
    let until = 10_000;
    assert_eq!(step(PumpState::Fetching { cursor: 1 }, PumpEvent::FetchFailed, until).0, PumpState::Failed);
    assert_eq!(step(PumpState::Parsing { cursor: 1 }, PumpEvent::ParseFailed, until).0, PumpState::Failed);
    let storing = PumpState::Storing { cursor: 1, marker: Some(50) };
    assert_eq!(step(storing, PumpEvent::StoreFailed, until), (PumpState::Failed, PumpAction::Stop));
    assert_eq!(step(PumpState::Parsing { cursor: 1 }, PumpEvent::Stored, until).0, PumpState::Failed);
    assert_eq!(step(PumpState::Done, PumpEvent::Fetched, until).0, PumpState::Done);
    assert_eq!(step(PumpState::Idle, PumpEvent::Start { checkpoint: until }, until).0, PumpState::Done);
}
