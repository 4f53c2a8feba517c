use codex_guard::audit::{
    merge_outbound_evidence, retain_operation_audit, sanitize_operation_audit, valid_hash,
    valid_identifier, valid_join_key, valid_relative_identifier, AgentAudit, AuditLimits,
    AuditSourceSupport, AuditVerdict, ManagedRoleSnapshot, OperationAuditInput,
    OperationAuditPhase, OperationAuditResult, OutboundObservation, RolloutObservation,
    SubagentAuditResult, TurnAudit, AUDIT_SCHEMA_VERSION, OPERATION_AUDIT_RETENTION_MS,
};
use codex_guard::audit_merge::{
    empty_parent, merge_rollout_evidence, merge_rollout_evidence_with_limits,
};
use codex_guard::audit_parse::{
    parse_rollout_bytes, parse_rollout_files, parse_rollout_jsonl, ReadEnd, RolloutFile,
};
use codex_guard::audit_time::{days_from_civil, parse_rfc3339_ms};

fn limits() -> AuditLimits {
    AuditLimits {
        max_date_directories: 7,
        max_rollout_files: 500,
        max_file_bytes: 16 * 1024 * 1024,
        max_line_bytes: 2 * 1024 * 1024,
        max_children: 20,
        max_pair_delay_ms: 120_000,
        max_identifier_bytes: 128,
    }
}

fn child_fixture(extra: &str) -> String {
    format!(
        "{{\"type\":\"session_meta\",\"timestamp_ms\":1000,\"payload\":{{\"id\":\"child-1\",\"parent_thread_id\":\"parent-1\",\"agent_path\":\"root/worker\",\"agent_role\":\"worker\"}}}}\n{{\"type\":\"turn_context\",\"thread_id\":\"child-1\",\"timestamp_ms\":1100,\"payload\":{{\"turn_id\":\"turn-1\",\"model\":\"gpt-test\",\"effort\":\"high\",\"multi_agent_version\":\"v2\"}}}}\n{extra}"
    )
}

fn role() -> ManagedRoleSnapshot {
    ManagedRoleSnapshot::new("worker", "gpt-test", "high")
}

fn has_notice(notices: &[codex_guard::audit::AuditNotice], code: &str) -> bool {
    notices.iter().any(|notice| notice.code == code)
}

#[test]
fn bounded_parser_extracts_allowlisted_events_without_message() {
    let input = child_fixture(
        "{\"type\":\"response_item\",\"thread_id\":\"parent-1\",\"timestamp_ms\":900,\"payload\":{\"name\":\"spawn_agent\",\"arguments\":\"{\\\"task_name\\\":\\\"worker\\\",\\\"agent_type\\\":\\\"worker\\\",\\\"fork_turns\\\":\\\"none\\\"}\",\"message\":\"secret prompt\"}}",
    );
    let parsed = parse_rollout_bytes(input.as_bytes(), limits());
    assert_eq!(parsed.observations.len(), 3);
    let debug = format!("{:?}", parsed.observations[0]);
    assert!(!debug.contains("secret prompt"));
    let result = merge_rollout_evidence(&parsed, &[role()], 2000);
    assert_eq!(result.agents.len(), 1);
    assert_eq!(result.agents[0].parent.verdict, AuditVerdict::Match);
    assert_eq!(result.agents[0].turns[0].client_verdict, AuditVerdict::Match);
    assert_eq!(result.agents[0].verdict, AuditVerdict::Unsupported);
}

#[test]
fn subagent_activity_enriches_child_session_and_filters_root() {
    let input = [
        "{\"type\":\"session_meta\",\"timestamp_ms\":1000,\"payload\":{\"id\":\"parent-1\",\"timestamp_ms\":1000}}\n",
        "{\"type\":\"event_msg\",\"payload\":{\"type\":\"sub_agent_activity\",\"kind\":\"started\",\"occurred_at_ms\":1050,\"agent_thread_id\":\"child-1\",\"agent_path\":\"/root/worker\"}}\n",
        "{\"type\":\"session_meta\",\"timestamp_ms\":1100,\"payload\":{\"id\":\"child-1\",\"parent_thread_id\":\"parent-1\",\"timestamp_ms\":1040,\"agent_path\":\"/root/worker\",\"agent_role\":\"worker\"}}\n",
        "{\"type\":\"response_item\",\"thread_id\":\"parent-1\",\"timestamp_ms\":1000,\"payload\":{\"name\":\"spawn_agent\",\"arguments\":{\"task_name\":\"worker\",\"agent_type\":\"worker\",\"fork_turns\":\"none\",\"model\":null,\"reasoning_effort\":null}}}\n",
        "{\"type\":\"turn_context\",\"thread_id\":\"child-1\",\"timestamp_ms\":1060,\"payload\":{\"turn_id\":\"turn-1\",\"model\":\"gpt-test\",\"effort\":\"high\",\"multi_agent_version\":\"v2\"}}",
    ]
    .concat();
    let parsed = parse_rollout_bytes(input.as_bytes(), limits());
    assert_eq!(
        parsed
            .observations
            .iter()
            .filter(|observation| matches!(observation, RolloutObservation::Session(_)))
            .count(),
        3
    );
    let result = merge_rollout_evidence(&parsed, &[role()], 2_000);
    assert_eq!(result.agents.len(), 1);
    let agent = &result.agents[0];
    assert_eq!(agent.thread_id, "child-1");
    assert_eq!(agent.role_id, "worker");
    assert_eq!(agent.parent.verdict, AuditVerdict::Match);
    assert_eq!(agent.turns[0].client_verdict, AuditVerdict::Match);
    assert_eq!(agent.turns[0].started_at_ms, Some(1_060_000));
    assert_eq!(agent.verdict, AuditVerdict::Unsupported);
    assert!(!has_notice(&result.notices, "audit_ambiguous"));
}

#[test]
fn duplicate_conflicting_turn_context_is_ambiguous() {
    let input = format!(
        "{}\n{{\"type\":\"turn_context\",\"thread_id\":\"child-1\",\"timestamp_ms\":1100,\"payload\":{{\"turn_id\":\"turn-1\",\"model\":\"other\",\"effort\":\"high\",\"multi_agent_version\":\"v2\"}}}}",
        child_fixture("{}")
    );
    let parsed = parse_rollout_bytes(input.as_bytes(), limits());
    let result = merge_rollout_evidence(&parsed, &[role()], 2000);
    assert_eq!(result.agents[0].turns[0].verdict, AuditVerdict::Ambiguous);
    assert_eq!(result.agents[0].verdict, AuditVerdict::Ambiguous);
}

#[test]
fn duplicate_spawn_candidates_do_not_choose_latest() {
    let input = format!(
        "{}\n{{\"type\":\"response_item\",\"thread_id\":\"parent-1\",\"timestamp_ms\":900,\"payload\":{{\"name\":\"spawn_agent\",\"arguments\":{{\"task_name\":\"worker\",\"agent_type\":\"worker\",\"fork_turns\":\"none\"}}}}}}",
        child_fixture("{\"type\":\"response_item\",\"thread_id\":\"parent-1\",\"timestamp_ms\":800,\"payload\":{\"name\":\"spawn_agent\",\"arguments\":{\"task_name\":\"worker\",\"agent_type\":\"worker\",\"fork_turns\":\"none\"}}}")
    );
    let parsed = parse_rollout_bytes(input.as_bytes(), limits());
    let result = merge_rollout_evidence(&parsed, &[role()], 2000);
    assert_eq!(result.agents[0].parent.verdict, AuditVerdict::Ambiguous);
}

#[test]
fn truncation_downgrades_a_matching_agent() {
    let input = child_fixture("{}");
    let mut small = limits();
    small.max_file_bytes = input.len() - 1;
    let parsed = parse_rollout_bytes(input.as_bytes(), small);
    assert!(parsed.truncated);
    let result = merge_rollout_evidence(&parsed, &[role()], 2000);
    assert_ne!(result.agents[0].verdict, AuditVerdict::Match);
    assert!(has_notice(&result.notices, "audit_truncated"));
}

#[test]
fn truncation_survives_the_outbound_merge() {
    let input = [
        "{\"type\":\"session_meta\",\"timestamp_ms\":1000,\"payload\":{\"id\":\"parent-1\",\"timestamp_ms\":1000}}\n",
        "{\"type\":\"session_meta\",\"timestamp_ms\":1100,\"payload\":{\"id\":\"child-1\",\"parent_thread_id\":\"parent-1\",\"timestamp_ms\":1040,\"agent_path\":\"/root/worker\",\"agent_role\":\"worker\"}}\n",
        "{\"type\":\"response_item\",\"thread_id\":\"parent-1\",\"timestamp_ms\":1000,\"payload\":{\"name\":\"spawn_agent\",\"arguments\":{\"task_name\":\"worker\",\"agent_type\":\"worker\",\"fork_turns\":\"none\",\"model\":null,\"reasoning_effort\":null}}}\n",
        "{\"type\":\"turn_context\",\"thread_id\":\"child-1\",\"timestamp_ms\":1060,\"payload\":{\"turn_id\":\"turn-1\",\"model\":\"gpt-test\",\"effort\":\"high\",\"multi_agent_version\":\"v2\"}}",
    ]
    .concat();
    let mut capped = limits();
    capped.max_children = 1;
    let parsed = parse_rollout_bytes(input.as_bytes(), capped);
    let rollout = merge_rollout_evidence_with_limits(&parsed, &[role()], 2000, capped);
    assert_eq!(
        rollout.agents[0].parent.verdict,
        AuditVerdict::Match,
        "parent evidence itself must be clean so only the truncation downgrade is under test"
    );
    assert!(
        has_notice(&rollout.notices, "audit_truncated"),
        "reaching the child budget must record a truncation notice"
    );
    assert_ne!(
        rollout.agents[0].verdict,
        AuditVerdict::Match,
        "hitting the child budget must downgrade the agent"
    );

    let observations = rollout.agents[0]
        .turns
        .iter()
        .map(|turn| OutboundObservation {
            thread_id: rollout.agents[0].thread_id.clone(),
            turn_id: turn.turn_id.clone(),
            requested_model: turn.model.clone().unwrap_or_else(|| "gpt-test".to_string()),
            observed_at_ms: None,
        })
        .collect::<Vec<_>>();
    let merged = merge_outbound_evidence(&rollout, &observations);

    assert_ne!(
        merged.agents[0].verdict,
        AuditVerdict::Match,
        "a truncated scan must never end up fully green"
    );
    assert!(
        !matches!(merged.source_support, AuditSourceSupport::Full),
        "truncated evidence must not claim full source support"
    );
    assert!(has_notice(&merged.notices, "audit_truncated"));
}

#[test]
fn operation_audit_drops_invalid_relative_paths_and_keeps_retention_boundary() {
    let input = OperationAuditInput {
        at_ms: 1,
        batch_id: "batch-1".to_string(),
        scope: "global".to_string(),
        relative_file: Some("/private/prompt.txt".to_string()),
        phase: OperationAuditPhase::Completed,
        result: OperationAuditResult::Success,
        error_code: Some("ok".to_string()),
        changed: 1,
        unchanged: 0,
        files: 1,
        role_id: Some("worker".to_string()),
        model: Some("gpt-test".to_string()),
        effort: Some("high".to_string()),
    };
    let record = sanitize_operation_audit(&input).unwrap();
    assert_eq!(record.relative_file, None);
    assert!(!format!("{:?}", record).contains("private"));
    let boundary = record.at_ms + OPERATION_AUDIT_RETENTION_MS;
    assert_eq!(retain_operation_audit(&[record], boundary).len(), 1);
}

#[test]
fn invalid_timestamp_is_not_paired() {
    let input = child_fixture(
        "{\"type\":\"response_item\",\"thread_id\":\"parent-1\",\"timestamp_ms\":\"bad\",\"payload\":{\"name\":\"spawn_agent\",\"arguments\":{\"task_name\":\"worker\",\"agent_type\":\"worker\",\"fork_turns\":\"none\"}}}",
    );
    let parsed = parse_rollout_bytes(input.as_bytes(), limits());
    let result = merge_rollout_evidence(&parsed, &[role()], 2000);
    assert_eq!(result.agents[0].parent.verdict, AuditVerdict::Ambiguous);
}

#[test]
fn unknown_schema_is_not_treated_as_success() {
    let parsed = parse_rollout_bytes(
        br#"{"schemaVersion":99,"type":"session_meta","payload":{"id":"child-1"}}"#,
        limits(),
    );
    assert!(parsed.observations.is_empty());
    assert!(has_notice(&parsed.notices, "audit_schema_unsupported"));
}

#[test]
fn unknown_schema_notice_downgrades_otherwise_valid_agent() {
    let valid = child_fixture(
        "{\"type\":\"response_item\",\"thread_id\":\"parent-1\",\"timestamp_ms\":900,\"payload\":{\"name\":\"spawn_agent\",\"arguments\":{\"task_name\":\"worker\",\"agent_type\":\"worker\",\"fork_turns\":\"none\"}}}",
    );
    let input = format!(
        "{}\n{{\"schemaVersion\":99,\"type\":\"unrelated\",\"payload\":{{}}}}",
        valid
    );
    let parsed = parse_rollout_bytes(input.as_bytes(), limits());
    let result = merge_rollout_evidence(&parsed, &[role()], 2_000);
    assert_eq!(result.agents[0].verdict, AuditVerdict::Unsupported);
}

#[test]
fn outbound_duplicate_rows_are_deduplicated_and_conflicts_are_visible() {
    let mut result = SubagentAuditResult {
        schema_version: AUDIT_SCHEMA_VERSION,
        checked_at_ms: 1,
        source_support: AuditSourceSupport::RolloutOnly,
        agents: vec![AgentAudit {
            thread_id: "child-1".to_string(),
            role_id: "worker".to_string(),
            expected_policy_revision: None,
            expected_policy_hash: None,
            expected_model: Some("gpt-test".to_string()),
            expected_effort: Some("high".to_string()),
            parent: empty_parent(AuditVerdict::Match),
            turns: vec![TurnAudit {
                turn_id: "turn-1".to_string(),
                started_at_ms: Some(2),
                model: Some("gpt-test".to_string()),
                effort: Some("high".to_string()),
                multi_agent_version: Some("v2".to_string()),
                client_verdict: AuditVerdict::Match,
                outbound_requested_model: None,
                outbound_evidence_count: 0,
                outbound_verdict: AuditVerdict::Unsupported,
                verdict: AuditVerdict::Unsupported,
            }],
            verdict: AuditVerdict::Unsupported,
        }],
        notices: Vec::new(),
    };
    let observations = vec![
        OutboundObservation {
            thread_id: "child-1".to_string(),
            turn_id: "turn-1".to_string(),
            requested_model: "gpt-test".to_string(),
            observed_at_ms: Some(99),
        },
        OutboundObservation {
            thread_id: "child-1".to_string(),
            turn_id: "turn-1".to_string(),
            requested_model: "gpt-test".to_string(),
            observed_at_ms: Some(3),
        },
        OutboundObservation {
            thread_id: "child-1".to_string(),
            turn_id: "turn-1".to_string(),
            requested_model: "other".to_string(),
            observed_at_ms: Some(4),
        },
    ];
    result = merge_outbound_evidence(&result, &observations);
    assert_eq!(result.agents[0].turns[0].outbound_evidence_count, 2);
    assert_eq!(
        result.agents[0].turns[0].outbound_verdict,
        AuditVerdict::Ambiguous
    );
}

#[test]
fn exact_file_budget_is_marked_truncated() {
    let input = b"{}\n";
    let mut budget = limits();
    budget.max_file_bytes = input.len();
    let parsed = parse_rollout_bytes(input, budget);
    assert!(parsed.truncated);
    assert!(has_notice(&parsed.notices, "audit_truncated"));
}

#[test]
fn direct_jsonl_reader_marks_exact_file_budget_truncated() {
    let input = b"{}\n";
    let mut budget = limits();
    budget.max_file_bytes = input.len();
    let parsed = parse_rollout_jsonl(input, ReadEnd::Eof, budget);
    assert!(parsed.truncated);
    assert!(has_notice(&parsed.notices, "audit_truncated"));
}

#[test]
fn outbound_single_model_matches_the_turn_but_keeps_the_rollout_downgrade() {
    let input = child_fixture(
        "{\"type\":\"response_item\",\"thread_id\":\"parent-1\",\"timestamp_ms\":900,\"payload\":{\"name\":\"spawn_agent\",\"arguments\":{\"task_name\":\"worker\",\"agent_type\":\"worker\",\"fork_turns\":\"none\"}}}",
    );
    let parsed = parse_rollout_bytes(input.as_bytes(), limits());
    let rollout = merge_rollout_evidence(&parsed, &[role()], 2000);
    assert_eq!(rollout.source_support, AuditSourceSupport::RolloutOnly);
    let observations = vec![OutboundObservation {
        thread_id: "child-1".to_string(),
        turn_id: "turn-1".to_string(),
        requested_model: "gpt-test".to_string(),
        observed_at_ms: None,
    }];
    let merged = merge_outbound_evidence(&rollout, &observations);
    assert_eq!(merged.agents[0].turns[0].outbound_verdict, AuditVerdict::Match);
    assert_eq!(merged.agents[0].turns[0].outbound_evidence_count, 1);
    assert_eq!(merged.agents[0].turns[0].verdict, AuditVerdict::Match);
    // The rollout layer alone left the agent unsupported, and that downgrade stays.
    assert_eq!(merged.agents[0].verdict, AuditVerdict::Unsupported);
    assert_eq!(merged.source_support, AuditSourceSupport::RolloutOnly);
    let wrong = vec![OutboundObservation {
        thread_id: "child-1".to_string(),
        turn_id: "turn-1".to_string(),
        requested_model: "gpt-other".to_string(),
        observed_at_ms: None,
    }];
    let merged = merge_outbound_evidence(&rollout, &wrong);
    assert_eq!(merged.agents[0].verdict, AuditVerdict::Mismatch);
    assert_eq!(merged.source_support, AuditSourceSupport::RolloutOnly);
}

#[test]
fn unmanaged_roles_and_missing_turns_are_reported() {
    let input = "{\"type\":\"session_meta\",\"timestamp_ms\":1000,\"payload\":{\"id\":\"child-1\",\"parent_thread_id\":\"parent-1\",\"agent_path\":\"root/worker\",\"agent_role\":\"worker\"}}\n";
    let parsed = parse_rollout_bytes(input.as_bytes(), limits());
    let result = merge_rollout_evidence(&parsed, &[], 2000);
    assert_eq!(result.agents.len(), 1);
    assert_eq!(result.agents[0].verdict, AuditVerdict::Missing);
    assert!(has_notice(&result.notices, "audit_role_unmanaged"));
    assert!(has_notice(&result.notices, "audit_missing_turn"));
    assert!(has_notice(&result.notices, "audit_missing_spawn"));
    let empty = parse_rollout_bytes(b"", limits());
    let result = merge_rollout_evidence(&empty, &[role()], 2000);
    assert_eq!(result.source_support, AuditSourceSupport::Unsupported);
    assert!(result.agents.is_empty());
}

#[test]
fn bad_role_policies_are_cleared_and_noted() {
    let mut bad = role();
    bad.policy_hash = Some("not-a-hash".to_string());
    let parsed = parse_rollout_bytes(child_fixture("{}").as_bytes(), limits());
    let result = merge_rollout_evidence(&parsed, &[bad], 2000);
    assert!(has_notice(&result.notices, "audit_bad_policy_hash"));
    assert!(has_notice(&result.notices, "audit_policy_invalid"));
    assert_eq!(result.agents[0].expected_policy_hash, None);
    assert_eq!(result.agents[0].turns[0].client_verdict, AuditVerdict::Incomplete);
}

#[test]
fn identifiers_hashes_and_join_keys() {
    assert!(valid_identifier("gpt-5.1:mini/a_b", 128));
    assert!(!valid_identifier("/abs", 128));
    assert!(!valid_identifier("a..b", 128));
    assert!(!valid_identifier("", 128));
    assert!(!valid_identifier("abc", 2));
    assert!(!valid_identifier("a b", 128));
    assert!(valid_hash(&"0123456789abcdef".repeat(4)));
    assert!(!valid_hash(&"0123456789ABCDEF".repeat(4)));
    assert!(!valid_hash("abc"));
    assert!(valid_join_key("task name!", 128));
    assert!(!valid_join_key("a/b", 128));
    assert!(!valid_join_key("a\\b", 128));
    assert!(valid_relative_identifier("agents/default.toml"));
    assert!(!valid_relative_identifier("agents//default.toml"));
    assert!(!valid_relative_identifier("./x"));
    assert!(!valid_relative_identifier("/x"));
}

#[test]
fn rfc3339_timestamps_and_civil_days() {
    assert_eq!(days_from_civil(1970, 1, 1), Some(0));
    assert_eq!(days_from_civil(2000, 3, 1), Some(11017));
    assert_eq!(days_from_civil(2024, 2, 29), Some(19782));
    assert_eq!(days_from_civil(2023, 2, 29), None);
    assert_eq!(days_from_civil(2023, 13, 1), None);
    assert_eq!(parse_rfc3339_ms("1970-01-01T00:00:00Z"), Some(0));
    assert_eq!(parse_rfc3339_ms("1970-01-01T00:00:01.5Z"), Some(1500));
    assert_eq!(parse_rfc3339_ms("1970-01-01T00:00:01.123456Z"), Some(1123));
    assert_eq!(parse_rfc3339_ms("1970-01-01T01:00:00+01:00"), Some(0));
    assert_eq!(parse_rfc3339_ms("2024-05-06 07:08:09z"), Some(1_714_979_289_000));
    assert_eq!(parse_rfc3339_ms("1970-01-01T00:00:00+00:01"), None);
    assert_eq!(parse_rfc3339_ms("1970-01-01T00:00:00"), None);
    assert_eq!(parse_rfc3339_ms("1970-01-01T24:00:00Z"), None);
    assert_eq!(parse_rfc3339_ms("1970-01-01T00:00:00.Z"), None);
}

#[test]
fn operation_retention_keeps_the_newest_within_the_window() {
    let make = |at: u64| {
        sanitize_operation_audit(&OperationAuditInput {
            at_ms: at,
            batch_id: "b".to_string(),
            scope: "s".to_string(),
            relative_file: Some("a/b.toml".to_string()),
            phase: OperationAuditPhase::Write,
            result: OperationAuditResult::Failed,
            error_code: Some("x".repeat(65)),
            changed: 0,
            unchanged: 0,
            files: 0,
            role_id: None,
            model: Some("bad model".to_string()),
            effort: None,
        })
        .unwrap()
    };
    let first = make(0);
    assert_eq!(first.relative_file.as_deref(), Some("a/b.toml"));
    assert_eq!(first.error_code, None);
    assert_eq!(first.model, None);
    let records: Vec<_> = (0..600u64).map(|i| make(i + 10)).collect();
    let kept = retain_operation_audit(&records, OPERATION_AUDIT_RETENTION_MS + 20);
    assert_eq!(kept.len(), 500);
    assert_eq!(kept[0].at_ms, 110);
    assert_eq!(kept[499].at_ms, 609);
    assert!(retain_operation_audit(&records, u64::MAX).is_empty());
    let mut bad = OperationAuditInput {
        at_ms: 0,
        batch_id: "..".to_string(),
        scope: "s".to_string(),
        relative_file: None,
        phase: OperationAuditPhase::Audit,
        result: OperationAuditResult::Busy,
        error_code: None,
        changed: 0,
        unchanged: 0,
        files: 0,
        role_id: None,
        model: None,
        effort: None,
    };
    assert!(sanitize_operation_audit(&bad).is_err());
    bad.batch_id = "b".to_string();
    bad.scope = String::new();
    assert!(sanitize_operation_audit(&bad).is_err());
}

#[test]
fn rollout_files_are_read_newest_first_within_the_date_budget() {
    let file = |date: &str, name: &str, bytes: &str| RolloutFile {
        date_key: date.to_string(),
        file_key: name.to_string(),
        bytes: bytes.as_bytes().to_vec(),
    };
    let mut budget = limits();
    budget.max_date_directories = 1;
    let parsed = parse_rollout_files(
        vec![
            file("2024/01/01", "a", "{\"type\":\"session_meta\",\"payload\":{\"id\":\"old\"}}\n"),
            file("2024/01/02", "b", "{\"type\":\"session_meta\",\"payload\":{\"id\":\"new\"}}\n"),
        ],
        budget,
    );
    assert!(parsed.truncated);
    assert_eq!(parsed.observations.len(), 1);
    match &parsed.observations[0] {
        RolloutObservation::Session(s) => assert_eq!(s.thread_id, "new"),
        _ => panic!("expected a session"),
    }
}
