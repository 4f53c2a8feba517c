use codex_guard::lifecycle::{
    aggregate_health, aggregate_lifecycle, summarize_health, summarize_lifecycle, HealthStatus,
    InvalidLifecycleFlags, LifecycleSummary, ParameterLifecycle,
};

#[test]
fn legacy_flags_accept_only_the_three_valid_states() {
    assert_eq!(ParameterLifecycle::from_flags(false, false), Ok(ParameterLifecycle::Disabled));
    assert_eq!(ParameterLifecycle::from_flags(true, false), Ok(ParameterLifecycle::Applied));
    assert_eq!(ParameterLifecycle::from_flags(true, true), Ok(ParameterLifecycle::Locked));
}

#[test]
fn locked_without_applied_is_an_explicit_migration_blocker() {
    let error = ParameterLifecycle::from_flags(false, true).unwrap_err();
    assert_eq!(error, InvalidLifecycleFlags { applied: false, locked: true });
    assert_eq!(error.code(), "invalid_lifecycle");
}

#[test]
fn summaries_use_mixed_and_health_priority() {
    assert_eq!(summarize_lifecycle(&Vec::<ParameterLifecycle>::new()), LifecycleSummary::Disabled);
    assert_eq!(
        summarize_lifecycle(&[ParameterLifecycle::Applied, ParameterLifecycle::Applied]),
        LifecycleSummary::Applied
    );
    assert_eq!(
        summarize_lifecycle(&[ParameterLifecycle::Disabled, ParameterLifecycle::Locked]),
        LifecycleSummary::Mixed
    );
    assert_eq!(
        summarize_health(&[
            HealthStatus::Healthy,
            HealthStatus::Drifted,
            HealthStatus::Unsupported,
            HealthStatus::Invalid,
            HealthStatus::Error,
        ]),
        HealthStatus::Error
    );
    assert_eq!(summarize_health(&[HealthStatus::Healthy, HealthStatus::Drifted]), HealthStatus::Drifted);
}

#[test]
fn summaries_accept_borrowed_members() {
    let lifecycle = vec![ParameterLifecycle::Locked, ParameterLifecycle::Locked];
    let health = vec![HealthStatus::Healthy, HealthStatus::Invalid];
    assert_eq!(summarize_lifecycle(&lifecycle), LifecycleSummary::Locked);
    assert_eq!(summarize_health(&health), HealthStatus::Invalid);
}

#[test]
fn lifecycle_flags_round_trip_for_every_state() {
    for l in [ParameterLifecycle::Disabled, ParameterLifecycle::Applied, ParameterLifecycle::Locked] {
        assert_eq!(ParameterLifecycle::from_flags(l.is_enabled(), l.is_locked()), Ok(l));
    }
}

#[test]
fn legacy_flags_reject_locked_without_applied() {
    assert!(ParameterLifecycle::from_legacy_flags(false, true).is_err());
    assert_eq!(ParameterLifecycle::from_legacy_flags(true, true), Ok(ParameterLifecycle::Locked));
}

#[test]
fn aggregates_match_summaries() {
    let members = [ParameterLifecycle::Applied, ParameterLifecycle::Disabled];
    assert_eq!(aggregate_lifecycle(&members), summarize_lifecycle(&members));
    assert_eq!(aggregate_health(&[HealthStatus::Unsupported]), HealthStatus::Unsupported);
    assert_eq!(LifecycleSummary::Mixed.as_str(), "mixed");
    assert!(HealthStatus::Error.priority() > HealthStatus::Invalid.priority());
}
