use bvchat::counter::{TimeoutCounter, NANOS_PER_SEC};

const S: u128 = NANOS_PER_SEC;

#[test]
fn burst_within_window_trips() {
    let mut c = TimeoutCounter::new(3, 120, 30);
    c.mark_at(0);
    assert!(!c.triggered_at(0));
    c.mark_at(S);
    c.mark_at(2 * S);
    assert!(c.triggered_at(3 * S));
    // Stays tripped for the penalty, whatever is marked.
    c.mark_at(50 * S);
    assert!(c.triggered_at(100 * S));
    assert!(c.triggered_at(123 * S));
    // The penalty counts from the trip: more than 120 s after 3 s.
    assert!(!c.triggered_at(123 * S + 1));
    // Attempts were forgotten.
    assert!(!c.triggered_at(124 * S));
}

#[test]
fn window_is_strict() {
    let mut c = TimeoutCounter::new(2, 10, 5);
    c.mark_at(0);
    c.mark_at(0);
    assert!(!c.triggered_at(5 * S));
    assert!(c.triggered_at(5 * S - 1));
}

#[test]
fn only_most_recent_attempts_count() {
    let mut c = TimeoutCounter::new(2, 10, 5);
    c.mark_at(0);
    c.mark_at(10 * S);
    assert!(!c.triggered_at(11 * S));
    c.mark_at(12 * S);
    // The oldest remembered attempt is now at 10 s.
    assert!(c.triggered_at(14 * S));
}

#[test]
fn zero_capacity_trips_once_anything_is_marked() {
    let mut c = TimeoutCounter::new(0, 10, 5);
    assert!(!c.triggered_at(0));
    // With nothing to forget, every mark is kept.
    c.mark_at(0);
    c.mark_at(0);
    assert!(c.triggered_at(1));
}

#[test]
fn clock_driven_counter() {
    let mut c = TimeoutCounter::new(2, 20, 5);
    assert!(!c.triggered());
    c.mark();
    assert!(!c.triggered());
    c.mark();
    assert!(c.triggered());
    assert!(c.triggered());
}

#[test]
fn counting_restarts_after_penalty() {
    let mut c = TimeoutCounter::new(3, 10, 30);
    c.mark_at(0);
    c.mark_at(0);
    c.mark_at(0);
    assert!(c.triggered_at(S));
    // Penalty over (more than 10 s after 1 s): the old attempts are gone.
    assert!(!c.triggered_at(12 * S));
    c.mark_at(12 * S);
    c.mark_at(12 * S);
    assert!(!c.triggered_at(13 * S));
    c.mark_at(13 * S);
    assert!(c.triggered_at(13 * S));
}
