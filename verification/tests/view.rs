use codex_guard::batch::BatchAction;
use codex_guard::coordinator::GuardRecoveryStatus;
use codex_guard::lifecycle::{HealthStatus, ParameterLifecycle};
use codex_guard::model::GuardFileFormat;
use codex_guard::view::{
    action_eligibility, action_states, member_health, runtime_state, view_recovery, MemberSnapshot,
    GuardRuntimeState,
};

fn member(file: &str, lifecycle: ParameterLifecycle, health: HealthStatus, pending_migration: bool) -> MemberSnapshot {
    MemberSnapshot {
        param_id: "features.multi_agent_v2.enabled".to_string(),
        group_id: "subagent-optimization".to_string(),
        file: file.to_string(),
        format: GuardFileFormat::Toml,
        lifecycle,
        health,
        pending_migration,
        error: None,
    }
}

#[test]
fn pending_lifecycle_migration_disables_every_action() {
    let members = [member("config.toml", ParameterLifecycle::Disabled, HealthStatus::Invalid, true)];
    let actions = action_states(&members);
    for action in [actions.apply, actions.lock, actions.unlock, actions.disable] {
        assert!(!action.enabled);
        assert_eq!(action.reason.as_deref(), Some("lifecycle_migration_pending"));
    }
}

#[test]
fn empty_scope_enables_no_action() {
    let actions = action_states(&[]);
    for action in [actions.apply, actions.lock, actions.unlock, actions.disable] {
        assert!(!action.enabled);
        assert_eq!(action.reason.as_deref(), Some("empty_scope"));
        assert_eq!(action.affected_members, 0);
        assert_eq!(action.affected_files, 0);
    }
}

#[test]
fn affected_files_are_counted_once_per_file() {
    let members = [
        member("config.toml", ParameterLifecycle::Disabled, HealthStatus::Healthy, false),
        member("config.toml", ParameterLifecycle::Disabled, HealthStatus::Healthy, false),
        member("AGENTS.md", ParameterLifecycle::Disabled, HealthStatus::Healthy, false),
    ];
    let apply = action_eligibility(BatchAction::Apply, &members);
    assert!(apply.enabled);
    assert_eq!(apply.reason, None);
    assert_eq!(apply.affected_members, 3);
    assert_eq!(apply.affected_files, 2);
    let unlock = action_eligibility(BatchAction::Unlock, &members);
    assert!(unlock.enabled);
    assert_eq!(unlock.affected_members, 0);
    assert_eq!(unlock.affected_files, 0);
}

#[test]
fn first_blocking_member_gives_the_reason() {
    let members = [
        member("config.toml", ParameterLifecycle::Applied, HealthStatus::Healthy, false),
        member("config.toml", ParameterLifecycle::Applied, HealthStatus::Error, false),
        member("AGENTS.md", ParameterLifecycle::Applied, HealthStatus::Invalid, false),
    ];
    let lock = action_eligibility(BatchAction::Lock, &members);
    assert!(!lock.enabled);
    assert_eq!(lock.reason.as_deref(), Some("error"));
    assert_eq!(lock.affected_members, 3);
    assert_eq!(lock.affected_files, 0);
    let disable = action_eligibility(BatchAction::Disable, &members);
    assert!(disable.enabled);
    assert_eq!(disable.affected_members, 3);
}

#[test]
fn member_health_follows_status_and_pending_migration() {
    assert_eq!(member_health(true, "match"), HealthStatus::Invalid);
    assert_eq!(member_health(false, "match"), HealthStatus::Healthy);
    assert_eq!(member_health(false, "drift"), HealthStatus::Drifted);
    assert_eq!(member_health(false, "missing"), HealthStatus::Drifted);
    assert_eq!(member_health(false, "broken"), HealthStatus::Error);
}

#[test]
fn recovery_prefers_blocked_coordinator_then_format_then_lifecycle() {
    let blocked = GuardRecoveryStatus { blocked: true, code: Some("transaction_recovery_failed".to_string()) };
    let r = view_recovery(blocked, true, true);
    assert!(r.blocked);
    assert_eq!(r.code.as_deref(), Some("transaction_recovery_failed"));
    let clear = || GuardRecoveryStatus { blocked: false, code: None };
    assert_eq!(view_recovery(clear(), true, true).code.as_deref(), Some("format_migration_pending"));
    assert_eq!(view_recovery(clear(), false, true).code.as_deref(), Some("lifecycle_migration_pending"));
    let none = view_recovery(clear(), false, false);
    assert!(!none.blocked);
    assert_eq!(none.code, None);
}

#[test]
fn runtime_state_follows_enabled_flag() {
    assert_eq!(runtime_state(true), GuardRuntimeState::Running);
    assert_eq!(runtime_state(false), GuardRuntimeState::Suspended);
}
