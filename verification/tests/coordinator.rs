use codex_guard::batch::{BatchAction, BatchRequest, BatchScope};
use codex_guard::coordinator::{GuardCoordinator, GuardRecoveryStatus};

#[test]
fn try_write_is_non_queueing_and_uses_stable_busy_code() {
    let mut coordinator = GuardCoordinator::new();
    coordinator.try_write().unwrap();
    assert_eq!(coordinator.try_write().unwrap_err(), "guard_busy");
}

#[test]
fn recovery_status_contains_only_stable_state() {
    let mut coordinator = GuardCoordinator::new();
    assert_eq!(coordinator.recovery_status(), GuardRecoveryStatus { blocked: false, code: None });
    coordinator.mark_recovery_blocked("recovery_failed");
    assert_eq!(
        coordinator.recovery_status(),
        GuardRecoveryStatus { blocked: true, code: Some("recovery_failed".to_string()) }
    );
    coordinator.clear_recovery();
    assert!(!coordinator.recovery_status().blocked);
}

#[test]
fn ordinary_writes_fail_closed_until_recovery_is_clear() {
    let mut coordinator = GuardCoordinator::new();
    coordinator.mark_recovery_blocked("recovery_failed");
    assert_eq!(coordinator.try_guard_write().unwrap_err(), "recovery_blocked");
    assert!(coordinator.try_poll_write().unwrap().is_none());
    coordinator.clear_recovery();
    assert!(coordinator.try_guard_write().is_ok());
}

#[test]
fn poll_start_claim_is_idempotent() {
    let mut coordinator = GuardCoordinator::new();
    assert!(coordinator.claim_poll_start());
    assert!(!coordinator.claim_poll_start());
}

#[test]
fn preview_is_invalidated_when_configuration_revision_changes() {
    let mut coordinator = GuardCoordinator::new();
    let request = BatchRequest::new(BatchScope::all(), BatchAction::Apply);
    coordinator.remember_preview("preview".to_string(), request.clone(), "rev-a".to_string());
    assert!(!coordinator.take_preview("preview", &request, "rev-b"));
    coordinator.remember_preview("preview".to_string(), request.clone(), "rev-a".to_string());
    assert!(coordinator.take_preview("preview", &request, "rev-a"));
}

#[test]
fn previews_expire_and_are_taken_once() {
    let mut c = GuardCoordinator::new();
    let request = BatchRequest::new(BatchScope::group("g"), BatchAction::Lock);
    c.remember_preview_at("p".to_string(), request.clone(), "r".to_string(), 100);
    assert!(!c.take_preview_at("p", &request, "r", 400));
    c.remember_preview_at("p".to_string(), request.clone(), "r".to_string(), 100);
    assert!(c.take_preview_at("p", &request, "r", 399));
    assert!(!c.take_preview_at("p", &request, "r", 100));
    let other = BatchRequest::new(BatchScope::group("h"), BatchAction::Lock);
    c.remember_preview_at("q".to_string(), request.clone(), "r".to_string(), 1);
    assert!(!c.take_preview_at("q", &other, "r", 2));
}

#[test]
fn a_released_write_can_be_taken_again() {
    let mut c = GuardCoordinator::new();
    assert!(c.try_poll_write().unwrap().is_some());
    assert!(c.try_poll_write().unwrap().is_none());
    c.release_write();
    assert!(c.try_guard_write().is_ok());
}
