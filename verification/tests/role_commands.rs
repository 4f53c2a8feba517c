use codex_guard::audit::OperationAuditResult;
use codex_guard::role_commands::{
    adopt_precheck, copy_source, migrated_states, migration_choice, plan_role_save, remaining_states,
    reorder_counts, role_error_result, role_file_needs_write, stable_role_error_code, states_after_save,
    RoleDeleteReport,
};
use codex_guard::roles::{
    build_managed_role_record, CapabilitySnapshot, ManagedRoleRecord, ModelCapability, RoleEditableFields,
    RoleErrorCode, RoleId, RoleLifecycle, RoleMigrationChoice, TextOrigin,
};
use codex_guard::roles_store::ManagedRoleState;

fn capabilities() -> CapabilitySnapshot {
    CapabilitySnapshot::new(vec![ModelCapability::new("model-v2", "v2", vec!["low".into()]).unwrap()], "fixture", 1)
        .unwrap()
}

fn fields(name: &str) -> RoleEditableFields {
    RoleEditableFields {
        display_name: name.into(),
        purpose: "Inspect changes".into(),
        selection_criteria: "inspect code".into(),
        model: "model-v2".into(),
        effort: "low".into(),
        instructions: "Inspect the change.".into(),
    }
}

fn record(id: &str, order: u32) -> ManagedRoleRecord {
    build_managed_role_record(
        RoleId::new(id).unwrap(),
        &fields("Inspector"),
        order,
        1,
        &capabilities(),
        TextOrigin::User,
        TextOrigin::User,
    )
    .unwrap()
}

fn state(id: &str, order: u32, lifecycle: RoleLifecycle) -> ManagedRoleState {
    ManagedRoleState { record: record(id, order), lifecycle }
}

fn ids(states: &[ManagedRoleState]) -> Vec<String> {
    states.iter().map(|s| s.record.id.as_str().to_string()).collect()
}

#[test]
fn stable_error_codes_strip_the_transaction_prefix() {
    assert_eq!(stable_role_error_code("role.duplicate_id"), "role.duplicate_id");
    assert_eq!(stable_role_error_code("guard transaction failed: role_file_invalid"), "role_file_invalid");
    assert_eq!(stable_role_error_code("disk full at /tmp/x"), "operation_failed");
    assert_eq!(stable_role_error_code(""), "operation_failed");
    assert_eq!(stable_role_error_code(&"a".repeat(65)), "operation_failed");
    assert_eq!(stable_role_error_code(&"a".repeat(64)), "a".repeat(64));
}

#[test]
fn role_errors_map_to_audit_results() {
    assert_eq!(role_error_result("guard_busy"), OperationAuditResult::Busy);
    assert_eq!(role_error_result("role.duplicate_id"), OperationAuditResult::Rejected);
    assert_eq!(role_error_result("capability_unavailable"), OperationAuditResult::Rejected);
    assert_eq!(role_error_result("role_not_managed"), OperationAuditResult::Rejected);
    assert_eq!(role_error_result("guard transaction failed: io"), OperationAuditResult::RolledBack);
    assert_eq!(role_error_result("recovery_failed"), OperationAuditResult::Critical);
    assert_eq!(role_error_result("something else"), OperationAuditResult::Failed);
}

#[test]
fn migration_choice_accepts_the_three_names_only() {
    assert_eq!(migration_choice("adopt_live").unwrap(), RoleMigrationChoice::AdoptLive);
    assert_eq!(migration_choice("adopt_stored").unwrap(), RoleMigrationChoice::AdoptStored);
    assert_eq!(migration_choice("use_safe_default").unwrap(), RoleMigrationChoice::UseSafeDefault);
    assert_eq!(migration_choice("adopt").unwrap_err().code, RoleErrorCode::InvalidMigrationChoice);
}

#[test]
fn role_file_is_written_only_when_it_differs() {
    assert!(!role_file_needs_write(Some("same"), "same"));
    assert!(role_file_needs_write(Some("old"), "new"));
    assert!(role_file_needs_write(None, "new"));
}

#[test]
fn remaining_states_drop_only_the_named_role() {
    let states = vec![
        state("default", 0, RoleLifecycle::Applied),
        state("inspector", 1, RoleLifecycle::Disabled),
        state("writer", 2, RoleLifecycle::Applied),
    ];
    let rest = remaining_states(&states, "inspector").unwrap();
    assert_eq!(ids(&rest), vec!["default", "writer"]);
    assert_eq!(rest[1].lifecycle, RoleLifecycle::Applied);
    assert_eq!(remaining_states(&states, "missing").unwrap_err(), "role_not_managed");
}

#[test]
fn migration_replaces_the_default_role_in_order() {
    let states = vec![
        state("inspector", 1, RoleLifecycle::Disabled),
        state("default", 5, RoleLifecycle::Applied),
        state("writer", 2, RoleLifecycle::Applied),
    ];
    let next = state("default", 0, RoleLifecycle::Disabled);
    let migrated = migrated_states(&states, next);
    assert_eq!(ids(&migrated), vec!["default", "inspector", "writer"]);
    assert_eq!(migrated[0].record.order, 0);
    assert_eq!(migrated[0].lifecycle, RoleLifecycle::Disabled);
}

#[test]
fn delete_report_counts_the_file_only_when_removed() {
    let removed = RoleDeleteReport::new("inspector", true);
    assert_eq!(removed.files_removed, 1);
    assert_eq!(removed.backup_summary.as_deref(), Some("files:1;backups:1"));
    assert!(removed.directory_updated);
    let kept = RoleDeleteReport::new("inspector", false);
    assert_eq!(kept.files_removed, 0);
    assert_eq!(kept.backup_summary, None);
}

#[test]
fn save_plan_keeps_a_managed_role_and_places_a_new_one_last() {
    let states = vec![state("default", 0, RoleLifecycle::Applied), state("inspector", 1, RoleLifecycle::Applied)];
    match plan_role_save(&states, "inspector", true) {
        Ok(plan) => {
            assert_eq!(plan.order, 1);
            assert_eq!(plan.revision, 2);
            assert_eq!(plan.lifecycle, RoleLifecycle::Applied);
            assert_eq!(plan.previous_toml.as_deref(), Some(states[1].record.expected_toml.as_str()));
        }
        Err(e) => panic!("unexpected {e:?}"),
    }
    match plan_role_save(&states, "writer", false) {
        Ok(plan) => {
            assert_eq!(plan.order, 2);
            assert_eq!(plan.revision, 1);
            assert_eq!(plan.lifecycle, RoleLifecycle::Disabled);
            assert!(plan.previous_toml.is_none());
        }
        Err(e) => panic!("unexpected {e:?}"),
    }
    match plan_role_save(&states, "writer", true) {
        Ok(_) => panic!("a live file with a new id must be refused"),
        Err(e) => assert_eq!(e.code, RoleErrorCode::DuplicateRoleId),
    }
}

#[test]
fn saved_record_replaces_the_managed_one_and_keeps_its_lifecycle() {
    let states = vec![state("default", 0, RoleLifecycle::Applied), state("inspector", 1, RoleLifecycle::Applied)];
    let updated = record("inspector", 7);
    let after = states_after_save(states.clone(), updated, RoleLifecycle::Disabled);
    assert_eq!(ids(&after), vec!["default", "inspector"]);
    assert_eq!(after[1].record.order, 7);
    assert_eq!(after[1].lifecycle, RoleLifecycle::Applied);
    let added = states_after_save(states, record("writer", 2), RoleLifecycle::Disabled);
    assert_eq!(ids(&added), vec!["default", "inspector", "writer"]);
    assert_eq!(added[2].lifecycle, RoleLifecycle::Disabled);
}

#[test]
fn copy_and_adopt_refuse_duplicates() {
    let states = vec![state("default", 0, RoleLifecycle::Applied), state("inspector", 1, RoleLifecycle::Applied)];
    assert_eq!(copy_source(&states, "inspector", "writer", false), Ok(1));
    assert_eq!(copy_source(&states, "inspector", "default", false), Err("role.duplicate_id".to_string()));
    assert_eq!(copy_source(&states, "inspector", "writer", true), Err("role.duplicate_id".to_string()));
    assert_eq!(copy_source(&states, "missing", "writer", false), Err("role_not_managed".to_string()));
    assert_eq!(adopt_precheck(&states, "inspector", true).unwrap_err().code, RoleErrorCode::DuplicateRoleId);
    assert_eq!(adopt_precheck(&states, "writer", false).unwrap_err().code, RoleErrorCode::MigrationSourceUnavailable);
    assert!(adopt_precheck(&states, "writer", true).is_ok());
}

#[test]
fn reorder_counts_moved_roles() {
    let before = vec![state("default", 0, RoleLifecycle::Applied), state("inspector", 1, RoleLifecycle::Applied), state("writer", 2, RoleLifecycle::Applied)];
    let after = vec![state("default", 0, RoleLifecycle::Applied), state("writer", 1, RoleLifecycle::Applied), state("inspector", 2, RoleLifecycle::Applied)];
    assert_eq!(reorder_counts(&before, &after), (2, 3));
    assert_eq!(reorder_counts(&before, &before), (0, 3));
}
