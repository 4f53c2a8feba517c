use codex_guard::audit::{
    sanitize_operation_audit, OperationAuditInput, OperationAuditPhase, OperationAuditRecord, OperationAuditResult,
    AUDIT_SCHEMA_VERSION, MAX_OPERATION_AUDIT_ENTRIES,
};
use codex_guard::operation_audit::{
    audit_error_outcome, audit_rows, final_outcome, stable_audit_error_code, outcome_input, phase_for_result, records_from_rows, should_compact, tail_cut,
    OperationAuditStoreError, OperationOutcome, COMPACT_AFTER_BYTES, MAX_AUDIT_FILE_BYTES,
};

fn input(at_ms: u64) -> OperationAuditInput {
    OperationAuditInput {
        at_ms,
        batch_id: "batch-1".to_string(),
        scope: "global".to_string(),
        relative_file: Some("config.toml".to_string()),
        phase: OperationAuditPhase::Completed,
        result: OperationAuditResult::Success,
        error_code: None,
        changed: 1,
        unchanged: 0,
        files: 1,
        role_id: Some("default".to_string()),
        model: Some("gpt-test".to_string()),
        effort: Some("high".to_string()),
    }
}

fn record(at_ms: u64) -> OperationAuditRecord {
    sanitize_operation_audit(&input(at_ms)).unwrap()
}

fn recorded(scope: &str, outcome: Option<OperationOutcome>) -> OperationAuditRecord {
    let input = outcome_input(10, "batch-1".to_string(), scope.to_string(), final_outcome(outcome), None);
    sanitize_operation_audit(&input).unwrap()
}

#[test]
fn malformed_rows_fail_closed() {
    let rows = audit_rows(b"{not-json}\n").unwrap();
    assert_eq!(rows, vec![b"{not-json}".to_vec()]);
    assert_eq!(records_from_rows(vec![None]).unwrap_err(), OperationAuditStoreError::InvalidRecord);
}

#[test]
fn a_crash_torn_tail_row_is_dropped_but_terminated_corruption_fails_closed() {
    let rows = audit_rows(b"{\"row\":1}\n{\"schema_version\":").unwrap();
    assert_eq!(rows.len(), 1, "the torn tail is dropped");
    assert_eq!(rows[0], b"{\"row\":1}".to_vec());
    assert_eq!(tail_cut(28, b"{\"row\":1}\n{\"schema_version\":").unwrap(), Some(10));
    let rows = audit_rows(b"{\"row\":1}\n{\"row\":2}\n").unwrap();
    assert_eq!(rows.len(), 2);
    assert_eq!(records_from_rows(vec![Some(record(1)), None]).unwrap_err(), OperationAuditStoreError::InvalidRecord);
}

#[test]
fn reads_keep_only_the_newest_records_past_the_cap() {
    let parsed = (0..MAX_OPERATION_AUDIT_ENTRIES + 2).map(|index| Some(record(index as u64))).collect::<Vec<_>>();
    let records = records_from_rows(parsed).unwrap();
    assert_eq!(records.len(), MAX_OPERATION_AUDIT_ENTRIES);
    assert_eq!(records[0].at_ms, 2, "the two oldest records are dropped");
}

#[test]
fn guard_records_explicit_results_codes_and_counts() {
    let cases = [
        ("failed", OperationAuditResult::Failed, "config_read_failed", (1, 2, 3), OperationAuditPhase::Verify),
        ("rejected", OperationAuditResult::Rejected, "guard_contract_version_unsupported", (4, 5, 6), OperationAuditPhase::Preflight),
        ("busy", OperationAuditResult::Busy, "guard_busy", (7, 8, 9), OperationAuditPhase::Preflight),
        ("rolled-back", OperationAuditResult::RolledBack, "guard_transaction_rolled_back", (10, 11, 12), OperationAuditPhase::Recovery),
        ("critical", OperationAuditResult::Critical, "restore_failed_critical", (13, 14, 15), OperationAuditPhase::Recovery),
        ("recorded", OperationAuditResult::Rejected, "recorded_rejection", (16, 17, 18), OperationAuditPhase::Preflight),
    ];
    let records = cases
        .iter()
        .map(|(scope, result, code, (c, u, f), _)| recorded(scope, Some(OperationOutcome::new(*result, Some(code), *c, *u, *f))))
        .collect::<Vec<_>>();
    let records = records_from_rows(records.into_iter().map(Some).collect()).expect("operation records");
    assert_eq!(records.len(), 6);
    for (record, (scope, result, error_code, counts, phase)) in records.iter().zip(cases) {
        assert_eq!(record.scope, scope);
        assert_eq!(record.result, result);
        assert_eq!(record.phase, phase);
        assert_eq!(record.error_code.as_deref(), Some(error_code));
        assert_eq!((record.changed, record.unchanged, record.files), counts);
    }
}

#[test]
fn guard_drop_uses_a_stable_default_failure_code() {
    let record = recorded("implicit-failure", None);
    assert_eq!(record.result, OperationAuditResult::Failed);
    assert_eq!(record.error_code.as_deref(), Some("operation_failed"));
    assert_eq!(record.phase, OperationAuditPhase::Verify);
    assert_eq!((record.changed, record.unchanged, record.files), (0, 0, 0));
    assert_eq!(record.at_ms, 10_000);
    assert_eq!(record.schema_version, AUDIT_SCHEMA_VERSION);
}

#[test]
fn successful_commands_complete() {
    assert_eq!(phase_for_result(OperationAuditResult::Success), OperationAuditPhase::Completed);
    let record = recorded("global", Some(OperationOutcome::success(2, 1, 1)));
    assert_eq!(record.phase, OperationAuditPhase::Completed);
    assert_eq!(record.error_code, None);
}

#[test]
fn oversized_files_are_refused() {
    let big = vec![b'x'; MAX_AUDIT_FILE_BYTES + 1];
    assert_eq!(audit_rows(&big).unwrap_err(), OperationAuditStoreError::TooLarge);
    assert_eq!(OperationAuditStoreError::TooLarge.code(), "operation_audit_too_large");
    assert_eq!(OperationAuditStoreError::InvalidRecord.code(), "operation_audit_invalid_record");
}

#[test]
fn torn_tail_cuts_back_to_the_last_complete_row() {
    assert_eq!(tail_cut(0, b"").unwrap(), None);
    assert_eq!(tail_cut(4, b"ab\n\n").unwrap(), None);
    assert_eq!(tail_cut(3, b"abc").unwrap(), Some(0));
    let window = vec![b'x'; 65536];
    assert_eq!(tail_cut(70000, &window).unwrap_err(), OperationAuditStoreError::Write);
    let mut window = vec![b'x'; 65536];
    window[100] = b'\n';
    assert_eq!(tail_cut(70000, &window).unwrap(), Some(70000 - 65536 + 101));
}

#[test]
fn appends_compact_past_the_threshold() {
    assert!(!should_compact(0, 10, COMPACT_AFTER_BYTES));
    assert!(!should_compact(COMPACT_AFTER_BYTES - 10, 10, COMPACT_AFTER_BYTES));
    assert!(should_compact(COMPACT_AFTER_BYTES - 10, 11, COMPACT_AFTER_BYTES));
    assert!(should_compact(1, 1, 0));
    assert!(!should_compact(u64::MAX, 5, u64::MAX));
}

#[test]
fn audit_errors_use_stable_codes_and_phases() {
    let records = ["audit_already_running", "filesystem details are not persisted"]
        .iter()
        .map(|error| Some(recorded("audit:test", Some(audit_error_outcome(error)))))
        .collect::<Vec<_>>();
    let records = records_from_rows(records).unwrap();
    assert_eq!(records[0].result, OperationAuditResult::Rejected);
    assert_eq!(records[0].error_code.as_deref(), Some("audit_already_running"));
    assert_eq!(records[1].result, OperationAuditResult::Failed);
    assert_eq!(records[1].error_code.as_deref(), Some("audit_failed"));
}

#[test]
fn failed_audit_transactions_roll_back_under_their_code() {
    let outcome = audit_error_outcome("guard transaction failed: journal_write_failed");
    assert_eq!(outcome.result, OperationAuditResult::RolledBack);
    assert_eq!(outcome.error_code.as_deref(), Some("journal_write_failed"));
    assert_eq!(stable_audit_error_code(""), "audit_failed");
}
