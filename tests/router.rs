use contime::router::{admits_event, conservative_delta_bytes, usage_after, worker_index, worker_memory_budget};
use contime::{ContimeError, RouterError};

#[test]
fn router_error_converts_into_contime_error() {
    let e: ContimeError = RouterError::Timeout.into();
    assert_eq!(e, ContimeError::RouterError(RouterError::Timeout));
    assert_eq!(ContimeError::from(RouterError::Timeout), ContimeError::RouterError(RouterError::Timeout));
}

#[test]
fn worker_index_is_hash_modulo_worker_count() {
    assert_eq!(worker_index(10, 3), 1);
    assert_eq!(worker_index(9, 3), 0);
    assert_eq!(worker_index(u64::MAX, 1), 0);
    assert_eq!(worker_index(7, 8), 7);
}

#[test]
fn worker_memory_budget_splits_evenly() {
    assert_eq!(worker_memory_budget(1_000, 1), 1_000);
    assert_eq!(worker_memory_budget(1_000, 3), 333);
    assert_eq!(worker_memory_budget(2, 4), 0);
}

#[test]
fn conservative_delta_saturates() {
    assert_eq!(conservative_delta_bytes(42, 2), 44);
    assert_eq!(conservative_delta_bytes(42, -2), 40);
    assert_eq!(conservative_delta_bytes(5, -10), 0);
    assert_eq!(conservative_delta_bytes(usize::MAX, 1), usize::MAX);
    assert_eq!(conservative_delta_bytes(usize::MAX - 1, isize::MAX), usize::MAX);
    assert_eq!(conservative_delta_bytes(10, isize::MIN), 0);
}

#[test]
fn admission_stays_strictly_under_budget() {
    assert!(admits_event(0, 44, 1_000));
    assert!(admits_event(955, 44, 1_000));
    assert!(!admits_event(956, 44, 1_000));
    assert!(!admits_event(990, 10, 1_000));
    assert!(!admits_event(usize::MAX, 1, usize::MAX));
    assert!(!admits_event(1, usize::MAX, usize::MAX));
    assert!(!admits_event(0, 0, 0));
}

#[test]
fn usage_after_saturates() {
    assert_eq!(usage_after(100, 5), 105);
    assert_eq!(usage_after(100, -5), 95);
    assert_eq!(usage_after(3, -5), 0);
    assert_eq!(usage_after(usize::MAX, 5), usize::MAX);
}
