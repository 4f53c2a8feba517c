use codex_guard::guard::GuardGroup;
use codex_guard::lifecycle::{HealthStatus, LifecycleSummary, ParameterLifecycle};
use codex_guard::model::{DiagnosticCode, GuardFileFormat};
use codex_guard::view::MemberSnapshot;
use codex_guard::view_groups::{
    assemble_view, file_health, group_files, group_members, group_summary, member_diagnostics, ordered_group_ids,
    param_summary,
};

fn member(param: &str, group: &str, file: &str, format: GuardFileFormat, lifecycle: ParameterLifecycle, health: HealthStatus) -> MemberSnapshot {
    MemberSnapshot {
        param_id: param.to_string(),
        group_id: group.to_string(),
        file: file.to_string(),
        format,
        lifecycle,
        health,
        pending_migration: false,
        error: None,
    }
}

fn group(id: &str, name: &str, builtin: bool, order: u32) -> GuardGroup {
    GuardGroup { id: id.to_string(), name: name.to_string(), builtin, order }
}

#[test]
fn groups_are_ordered_builtin_then_custom_then_unconfigured() {
    let groups = vec![
        group("mine", "Mine", false, 0),
        group("general", "General", true, 1),
        group("subagent-operations", "Subagents", true, 0),
    ];
    let members = vec!["zeta".to_string(), "general".to_string(), "alpha".to_string(), "zeta".to_string()];
    let ids = ordered_group_ids(&members, &groups);
    assert_eq!(ids, vec!["subagent-optimization", "general", "mine", "alpha", "zeta"]);
}

#[test]
fn group_files_are_unique_sorted_and_take_the_last_format() {
    let members = vec![
        member("a", "g", "z.toml", GuardFileFormat::Toml, ParameterLifecycle::Disabled, HealthStatus::Healthy),
        member("b", "g", "a.md", GuardFileFormat::Markdown, ParameterLifecycle::Disabled, HealthStatus::Healthy),
        member("c", "g", "z.toml", GuardFileFormat::PlainText, ParameterLifecycle::Disabled, HealthStatus::Healthy),
    ];
    let files = group_files(&members);
    assert_eq!(files.len(), 2);
    assert_eq!(files[0].file, "a.md");
    assert_eq!(files[0].format, GuardFileFormat::Markdown);
    assert_eq!(files[1].file, "z.toml");
    assert_eq!(files[1].format, GuardFileFormat::PlainText);
}

#[test]
fn group_summary_collects_its_members() {
    let mut failing = member("b", "general", "AGENTS.md", GuardFileFormat::Markdown, ParameterLifecycle::Applied, HealthStatus::Error);
    failing.error = Some("read_failed".to_string());
    let members = vec![
        member("a", "general", "config.toml", GuardFileFormat::Toml, ParameterLifecycle::Applied, HealthStatus::Drifted),
        member("x", "other", "config.toml", GuardFileFormat::Toml, ParameterLifecycle::Locked, HealthStatus::Healthy),
        failing,
    ];
    let groups = vec![group("general", "General", true, 1)];
    let summary = group_summary("general", &members, &groups);
    assert_eq!(summary.name, "General");
    assert!(summary.builtin);
    assert_eq!(summary.affected_members, 2);
    assert_eq!(summary.affected_files, 2);
    assert_eq!(summary.file, "AGENTS.md");
    assert_eq!(summary.format, GuardFileFormat::Markdown);
    assert_eq!(summary.lifecycle, LifecycleSummary::Applied);
    assert_eq!(summary.health, HealthStatus::Error);
    assert_eq!(summary.error.as_deref(), Some("read_failed"));
    assert!(!summary.actions.apply.enabled);
    assert_eq!(summary.actions.apply.reason.as_deref(), Some("error"));
    assert_eq!(group_members(&members, "general").len(), 2);
}

#[test]
fn unconfigured_groups_fall_back_to_their_id_or_uncategorized() {
    let members = vec![member("a", "uncategorized", "x.txt", GuardFileFormat::PlainText, ParameterLifecycle::Disabled, HealthStatus::Healthy)];
    let summary = group_summary("uncategorized", &members, &[]);
    assert_eq!(summary.name, "Uncategorized");
    assert!(!summary.builtin);
    assert_eq!(summary.lifecycle, LifecycleSummary::Disabled);
    let empty = group_summary("mine", &members, &[]);
    assert_eq!(empty.name, "mine");
    assert_eq!(empty.file, "");
    assert_eq!(empty.format, GuardFileFormat::PlainText);
    assert_eq!(empty.affected_members, 0);
    assert!(!empty.actions.apply.enabled);
    assert_eq!(empty.actions.apply.reason.as_deref(), Some("empty_scope"));
}

#[test]
fn file_health_takes_the_worst_member_of_the_file() {
    let members = vec![
        member("a", "g", "config.toml", GuardFileFormat::Toml, ParameterLifecycle::Applied, HealthStatus::Drifted),
        member("b", "g", "AGENTS.md", GuardFileFormat::Markdown, ParameterLifecycle::Applied, HealthStatus::Error),
        member("c", "g", "config.toml", GuardFileFormat::Toml, ParameterLifecycle::Applied, HealthStatus::Healthy),
    ];
    assert_eq!(file_health(&members, "config.toml"), HealthStatus::Drifted);
    assert_eq!(file_health(&members, "AGENTS.md"), HealthStatus::Error);
    assert_eq!(file_health(&members, "other"), HealthStatus::Healthy);
}

#[test]
fn param_summary_counts_its_file_when_apply_or_lock_writes_it() {
    let disabled = member("a", "g", "config.toml", GuardFileFormat::Toml, ParameterLifecycle::Disabled, HealthStatus::Healthy);
    let s = param_summary(&disabled);
    assert!(!s.applied && !s.locked);
    assert_eq!(s.affected_members, 1);
    assert_eq!(s.affected_files, 1);
    let locked = member("a", "g", "config.toml", GuardFileFormat::Toml, ParameterLifecycle::Locked, HealthStatus::Healthy);
    let s = param_summary(&locked);
    assert!(s.applied && s.locked);
    assert_eq!(s.affected_files, 0);
}

#[test]
fn failed_checks_carry_a_plan_conflict() {
    let d = member_diagnostics("p", "config.toml", true);
    assert_eq!(d.len(), 1);
    assert_eq!(d[0].code, DiagnosticCode::PlanConflict);
    assert_eq!(d[0].relative_file.as_deref(), Some("config.toml"));
    assert!(member_diagnostics("p", "config.toml", false).is_empty());
}

#[test]
fn assembled_view_orders_groups_and_reports_recovery() {
    let groups = vec![group("mine", "Mine", false, 0), group("general", "General", true, 1)];
    let members = vec![
        member("a", "mine", "x.toml", GuardFileFormat::Toml, ParameterLifecycle::Disabled, HealthStatus::Healthy),
        member("b", "general", "y.md", GuardFileFormat::Markdown, ParameterLifecycle::Disabled, HealthStatus::Healthy),
    ];
    let idle = codex_guard::coordinator::GuardRecoveryStatus { blocked: false, code: None };
    let v = assemble_view(&members, &groups, true, idle.clone(), true, false);
    assert_eq!(v.runtime, codex_guard::view::GuardRuntimeState::Running);
    assert!(v.recovery.blocked);
    assert_eq!(v.recovery.code.as_deref(), Some("format_migration_pending"));
    let ids: Vec<&str> = v.groups.iter().map(|g| g.id.as_str()).collect();
    assert_eq!(ids, vec!["general", "mine"]);
    assert_eq!(v.groups[0].files[0].file, "y.md");
    let off = assemble_view(&members, &groups, false, idle, false, false);
    assert_eq!(off.runtime, codex_guard::view::GuardRuntimeState::Suspended);
    assert!(!off.recovery.blocked);
}
