use axum_rate_limiter::surrealdb::{admits, tracked_entries, UpsertOutcome};

#[test]
fn upsert_outcome_decides() {
    assert!(admits(UpsertOutcome::Record { tries: 1 }));
    assert!(admits(UpsertOutcome::Record { tries: 3 }));
    assert!(!admits(UpsertOutcome::Record { tries: 4 }));
    assert!(!admits(UpsertOutcome::Unreadable));
}

#[test]
fn record_count_becomes_len() {
    assert_eq!(tracked_entries(Some(3)), 3);
    assert_eq!(tracked_entries(None), 0);
    assert_eq!(tracked_entries(Some(-1)), usize::MAX);
}
