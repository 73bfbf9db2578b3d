use perlica_logic::factory::tick::{
    completion_tick, current_tick, elapsed_between, elapsed_since, is_complete, is_complete_at,
};

#[test]
fn current_tick_is_unix_seconds() {
    assert!(current_tick() > 1_700_000_000);
}

#[test]
fn elapsed_since_saturates_on_future_start() {
    let future = current_tick().saturating_add(1_000);
    assert_eq!(elapsed_since(future), 0);
}

#[test]
fn is_complete_matches_formula() {
    let now = current_tick();
    assert!(!is_complete(now.saturating_add(1_000), 100, 24_000));
    assert!(is_complete(now.saturating_sub(240), 100, 24_000));
    assert!(is_complete(now.saturating_sub(241), 100, 24_000));
}

#[test]
fn completion_tick_uses_ceil() {
    assert_eq!(completion_tick(0, 100, 24_001), 241);
    assert_eq!(completion_tick(0, 100, 24_000), 240);
    assert_eq!(completion_tick(0, 0, 100), 100);
}

#[test]
fn completion_tick_saturates() {
    assert_eq!(completion_tick(u64::MAX - 1, 1, 10), u64::MAX);
}

#[test]
fn elapsed_between_exact_values() {
    assert_eq!(elapsed_between(1_000, 400), 600);
    assert_eq!(elapsed_between(400, 1_000), 0);
}

#[test]
fn is_complete_at_agrees_with_completion_tick() {
    let start = 1_000;
    let due = completion_tick(start, 100, 24_001);
    assert_eq!(due, 1_241);
    assert!(!is_complete_at(due - 1, start, 100, 24_001));
    assert!(is_complete_at(due, start, 100, 24_001));
    assert!(is_complete_at(5, 0, u64::MAX, u64::MAX));
}
