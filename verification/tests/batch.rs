use codex_guard::batch::{
    aggregate_member_status, evaluate_eligibility, eligibility_for, is_action_eligible,
    members_in_scope, plan_member_action, BatchAction, BatchEligibilityReason, BatchMember,
    BatchScope, EligibilityContext,
};
use codex_guard::lifecycle::{HealthStatus, LifecycleSummary, ParameterLifecycle};

fn member(id: &str, group: &str, role: &str, lifecycle: ParameterLifecycle, health: HealthStatus) -> BatchMember {
    BatchMember::new(id, lifecycle, health).in_group(group).for_role(role)
}

#[test]
fn action_matrix_covers_all_four_actions_and_three_lifecycles() {
    let cases = [
        (BatchAction::Apply, ParameterLifecycle::Disabled, ParameterLifecycle::Applied, true, true),
        (BatchAction::Apply, ParameterLifecycle::Applied, ParameterLifecycle::Applied, false, false),
        (BatchAction::Apply, ParameterLifecycle::Locked, ParameterLifecycle::Locked, false, false),
        (BatchAction::Lock, ParameterLifecycle::Disabled, ParameterLifecycle::Locked, true, true),
        (BatchAction::Lock, ParameterLifecycle::Applied, ParameterLifecycle::Locked, true, false),
        (BatchAction::Lock, ParameterLifecycle::Locked, ParameterLifecycle::Locked, false, false),
        (BatchAction::Unlock, ParameterLifecycle::Disabled, ParameterLifecycle::Disabled, false, false),
        (BatchAction::Unlock, ParameterLifecycle::Applied, ParameterLifecycle::Applied, false, false),
        (BatchAction::Unlock, ParameterLifecycle::Locked, ParameterLifecycle::Applied, true, false),
        (BatchAction::Disable, ParameterLifecycle::Disabled, ParameterLifecycle::Disabled, false, false),
        (BatchAction::Disable, ParameterLifecycle::Applied, ParameterLifecycle::Disabled, true, false),
        (BatchAction::Disable, ParameterLifecycle::Locked, ParameterLifecycle::Disabled, true, false),
    ];
    for (action, initial, target, changed, writes_file) in cases {
        let plan = plan_member_action(action, initial, HealthStatus::Healthy);
        assert_eq!(plan.lifecycle, target, "{action:?} {initial:?}");
        assert_eq!(plan.changed, changed, "{action:?} {initial:?}");
        assert_eq!(plan.writes_file, writes_file, "{action:?} {initial:?}");
    }
    let drifted_apply = plan_member_action(BatchAction::Apply, ParameterLifecycle::Applied, HealthStatus::Drifted);
    assert!(drifted_apply.changed);
    assert!(drifted_apply.writes_file);
    assert!(plan_member_action(BatchAction::Lock, ParameterLifecycle::Applied, HealthStatus::Drifted).writes_file);
}

#[test]
fn health_eligibility_blocks_apply_and_lock_but_allows_unlock_and_disable() {
    for health in [HealthStatus::Invalid, HealthStatus::Unsupported, HealthStatus::Error] {
        for action in [BatchAction::Apply, BatchAction::Lock] {
            let result = eligibility_for(action, ParameterLifecycle::Applied, health);
            assert!(!result.eligible);
            assert!(result.reason.is_some());
        }
        for action in [BatchAction::Unlock, BatchAction::Disable] {
            assert!(is_action_eligible(action, ParameterLifecycle::Locked, health));
        }
    }
}

#[test]
fn boundary_eligibility_blocks_every_action() {
    let mut context = EligibilityContext::new(ParameterLifecycle::Locked, HealthStatus::Healthy);
    context.state_readable = false;
    assert_eq!(
        evaluate_eligibility(BatchAction::Disable, context).reason,
        Some(BatchEligibilityReason::StateUnavailable)
    );
    context.state_readable = true;
    context.transaction_recovering = true;
    assert_eq!(
        evaluate_eligibility(BatchAction::Unlock, context).reason,
        Some(BatchEligibilityReason::RecoveryInProgress)
    );
    context.transaction_recovering = false;
    context.ownership_known = false;
    assert_eq!(
        evaluate_eligibility(BatchAction::Apply, context).reason,
        Some(BatchEligibilityReason::OwnershipUncertain)
    );
}

#[test]
fn all_group_parameter_and_role_scopes_are_stable_and_sorted() {
    let members = vec![
        member("z", "g1", "r1", ParameterLifecycle::Applied, HealthStatus::Healthy),
        member("a", "g1", "r2", ParameterLifecycle::Disabled, HealthStatus::Healthy),
        member("m", "g2", "r1", ParameterLifecycle::Locked, HealthStatus::Healthy),
    ];
    let ids = |scope: BatchScope| {
        members_in_scope(&scope, &members).into_iter().map(|m| m.id.clone()).collect::<Vec<_>>()
    };
    assert_eq!(ids(BatchScope::All), vec!["a", "m", "z"]);
    assert_eq!(ids(BatchScope::group("g1")), vec!["a", "z"]);
    assert_eq!(ids(BatchScope::parameter("m")), vec!["m"]);
    assert_eq!(ids(BatchScope::role("r1")), vec!["m", "z"]);
    assert!(ids(BatchScope::group("missing")).is_empty());
}

#[test]
fn aggregate_status_does_not_depend_on_scope_storage() {
    let members = vec![
        member("a", "g", "r", ParameterLifecycle::Applied, HealthStatus::Drifted),
        member("b", "g", "r", ParameterLifecycle::Locked, HealthStatus::Invalid),
        member("c", "g", "r", ParameterLifecycle::Locked, HealthStatus::Error),
    ];
    assert_eq!(aggregate_member_status(&members), (LifecycleSummary::Mixed, HealthStatus::Error));
    assert_eq!(
        aggregate_member_status(&Vec::<BatchMember>::new()),
        (LifecycleSummary::Disabled, HealthStatus::Healthy)
    );
}

#[test]
fn only_apply_and_lock_write_the_target_file() {
    assert!(BatchAction::Apply.writes_target_file());
    assert!(BatchAction::Lock.writes_target_file());
    assert!(!BatchAction::Unlock.writes_target_file());
    assert!(!BatchAction::Disable.writes_target_file());
}

#[test]
fn applying_twice_leaves_the_second_plan_unchanged() {
    let first = plan_member_action(BatchAction::Apply, ParameterLifecycle::Disabled, HealthStatus::Healthy);
    let second = plan_member_action(BatchAction::Apply, first.lifecycle, HealthStatus::Healthy);
    assert_eq!(second.lifecycle, first.lifecycle);
    assert!(!second.changed);
}
