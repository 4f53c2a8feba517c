use codex_guard::journal::{JournalEntry, JournalEnvelope, JournalParticipant, JOURNAL_SCHEMA_VERSION};
use codex_guard::transaction::{
    is_recovery_blocking_error, recovery_action, stable_transaction_error_code, RecoveryAction,
    TransactionErrorCode, TransactionFaultPlan, TransactionFaultPoint, TransactionPhase, TransactionState,
};

fn entry() -> JournalEntry {
    JournalEntry {
        participant: JournalParticipant::Codex,
        relative_file: "config.toml".into(),
        original_exists: true,
        original_sha256: "0".repeat(64),
        candidate_exists: true,
        candidate_sha256: "1".repeat(64),
        snapshot_ref: "snapshots/snapshot-0".into(),
        completed: false,
        post_checked: false,
        restored: false,
    }
}

#[test]
fn transaction_phase_rejects_skips_and_repeated_terminal_transitions() {
    let mut state = TransactionState::new();
    assert!(state.transition(TransactionPhase::Snapshot).is_ok());
    assert!(state.transition(TransactionPhase::Writing).is_ok());
    assert!(state.transition(TransactionPhase::Completed).is_err());
    assert!(state.transition(TransactionPhase::PostCheck).is_ok());
    assert!(state.transition(TransactionPhase::Completed).is_ok());
    assert!(state.transition(TransactionPhase::Completed).is_err());
}

#[test]
fn recovery_action_requires_commit_marker_for_cleanup() {
    let mut journal = JournalEnvelope::new("batch-1".into(), vec![entry()]);
    journal.phase = TransactionPhase::Completed;
    assert_eq!(recovery_action(&journal), RecoveryAction::RestorePending);
    journal.commit_marker = true;
    assert_eq!(recovery_action(&journal), RecoveryAction::CleanupCompleted);
    journal.critical = true;
    assert_eq!(recovery_action(&journal), RecoveryAction::CleanupCompleted);
}

#[test]
fn journal_schema_version_is_stable() {
    assert_eq!(JOURNAL_SCHEMA_VERSION, 1);
}

#[test]
fn critical_mark_is_fail_closed_after_completion() {
    let mut state = TransactionState::new();
    state.transition(TransactionPhase::Snapshot).unwrap();
    state.mark_critical().unwrap();
    assert_eq!(state.phase, TransactionPhase::Critical);
    assert!(state.mark_critical().is_ok());
    state.phase = TransactionPhase::Completed;
    assert_eq!(state.mark_critical().unwrap_err().code, TransactionErrorCode::InvalidTransition);
}

#[test]
fn fault_plan_trips_once_at_its_point() {
    let mut plan = TransactionFaultPlan::fail_at(TransactionFaultPoint::Write(2));
    assert!(plan.check(TransactionFaultPoint::Write(1)).is_ok());
    assert_eq!(plan.check(TransactionFaultPoint::Write(2)).unwrap_err().code, TransactionErrorCode::FaultInjected);
    assert!(plan.check(TransactionFaultPoint::Write(2)).is_ok());
    let mut off = TransactionFaultPlan::disabled();
    assert!(off.check(TransactionFaultPoint::JournalCreate).is_ok());
}

#[test]
fn recovery_blocking_errors_and_stable_codes() {
    assert!(is_recovery_blocking_error("recovery_blocked"));
    assert!(is_recovery_blocking_error("x restore_failed_critical y"));
    assert!(is_recovery_blocking_error("journal_io"));
    assert!(!is_recovery_blocking_error("replace_failed"));
    assert_eq!(stable_transaction_error_code("guard transaction failed: replace_failed"), "replace_failed");
    assert_eq!(stable_transaction_error_code("bad text with spaces"), "operation_failed");
    assert_eq!(stable_transaction_error_code(""), "operation_failed");
    assert_eq!(stable_transaction_error_code(&"a".repeat(97)), "operation_failed");
    assert_eq!(TransactionErrorCode::JournalIo.as_str(), "journal_io");
}
