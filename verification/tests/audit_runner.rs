use codex_guard::audit::{AuditLimits, AuditSourceSupport, AuditVerdict, ManagedRoleSnapshot};
use codex_guard::audit_merge::merge_rollout_evidence;
use codex_guard::audit_parse::parse_rollout_bytes;
use codex_guard::audit_runner::{finish_with_sampling, known_thread_ids, merge_parsed, note_rollout_reads, sqlite_notice_code};
use codex_guard::audit_sqlite::{read_sampling_sources, source_evidence, SampleRow, SourceRead, SqliteNoticeCode};

fn limits() -> AuditLimits {
    AuditLimits {
        max_date_directories: 7,
        max_rollout_files: 500,
        max_file_bytes: 16 * 1024 * 1024,
        max_line_bytes: 2 * 1024 * 1024,
        max_children: 20,
        max_pair_delay_ms: 120_000,
        max_identifier_bytes: 128,
    }
}

fn rollout() -> &'static str {
    "{\"type\":\"session_meta\",\"timestamp_ms\":1000,\"payload\":{\"id\":\"parent-1\",\"timestamp_ms\":1000}}\n{\"type\":\"session_meta\",\"timestamp_ms\":1100,\"payload\":{\"id\":\"child-2\",\"parent_thread_id\":\"parent-1\",\"agent_path\":\"root/worker\",\"agent_role\":\"worker\"}}\n{\"type\":\"session_meta\",\"timestamp_ms\":1100,\"payload\":{\"id\":\"child-1\",\"parent_thread_id\":\"parent-1\",\"agent_path\":\"root/worker\",\"agent_role\":\"worker\"}}\n{\"type\":\"turn_context\",\"thread_id\":\"child-1\",\"timestamp_ms\":1100,\"payload\":{\"turn_id\":\"turn-1\",\"model\":\"gpt-test\",\"effort\":\"high\",\"multi_agent_version\":\"v2\"}}\n"
}

fn role() -> ManagedRoleSnapshot {
    ManagedRoleSnapshot::new("worker", "gpt-test", "high")
}

#[test]
fn child_threads_are_asked_once_each_in_order() {
    let parsed = parse_rollout_bytes(rollout().as_bytes(), limits());
    assert_eq!(known_thread_ids(&parsed), vec!["child-1", "child-2"]);
}

#[test]
fn sqlite_notices_have_stable_audit_codes() {
    assert_eq!(sqlite_notice_code(SqliteNoticeCode::SourceMissing), "audit_sqlite_source_missing");
    assert_eq!(sqlite_notice_code(SqliteNoticeCode::ConflictingEvidence), "audit_sqlite_conflicting_evidence");
    assert_eq!(sqlite_notice_code(SqliteNoticeCode::BodyTooLarge), "audit_sqlite_body_too_large");
}

#[test]
fn incomplete_sampling_downgrades_and_is_noticed() {
    let parsed = parse_rollout_bytes(rollout().as_bytes(), limits());
    let result = merge_rollout_evidence(&parsed, &[role()], 2000);
    let missing = SourceRead { source: "logs_2".to_string(), rows: Err(SqliteNoticeCode::SourceMissing) };
    let sqlite = read_sampling_sources(&[missing], &known_thread_ids(&parsed));
    let finished = finish_with_sampling(result, &sqlite);
    assert!(finished.notices.iter().any(|n| n.code == "audit_sqlite_source_missing"));
    assert!(finished.notices.iter().any(|n| n.code == "audit_sqlite_incomplete"));
    assert_ne!(finished.source_support, AuditSourceSupport::Full);
    for agent in &finished.agents {
        assert!(matches!(
            agent.verdict,
            AuditVerdict::Incomplete | AuditVerdict::Unsupported | AuditVerdict::Ambiguous | AuditVerdict::Mismatch
        ));
    }
}

#[test]
fn complete_sampling_merges_outbound_models() {
    let parsed = parse_rollout_bytes(rollout().as_bytes(), limits());
    let result = merge_rollout_evidence(&parsed, &[role()], 2000);
    let body = |turn: &str| format!("try_run_sampling_request{{turn_id={turn} model=gpt-test}} model_client.stream_responses_websocket{{model=gpt-test}}");
    let rows = vec![
        SampleRow { thread_id: "child-1".to_string(), feedback_tags: "sampling".to_string(), body: body("turn-1") },
        SampleRow { thread_id: "child-2".to_string(), feedback_tags: "sampling".to_string(), body: body("turn-2") },
    ];
    let sqlite = read_sampling_sources(
        &[SourceRead { source: "logs_2".to_string(), rows: source_evidence(&rows) }],
        &known_thread_ids(&parsed),
    );
    assert!(sqlite.complete);
    let finished = finish_with_sampling(result, &sqlite);
    assert!(!finished.notices.iter().any(|n| n.code == "audit_sqlite_incomplete"));
}

#[test]
fn merging_files_keeps_order_and_notices_once() {
    let mut first = parse_rollout_bytes(rollout().as_bytes(), limits());
    let second = parse_rollout_bytes(b"not json\n", limits());
    let before = first.observations.len();
    merge_parsed(&mut first, second);
    assert_eq!(first.observations.len(), before);
    let count = first.notices.iter().filter(|n| n.code == "audit_jsonl_invalid").count();
    assert_eq!(count, 1);
    let again = parse_rollout_bytes(b"not json\n", limits());
    merge_parsed(&mut first, again);
    assert_eq!(first.notices.iter().filter(|n| n.code == "audit_jsonl_invalid").count(), 1);
    note_rollout_reads(&mut first, &["audit_read_error".to_string()], true);
    assert!(first.truncated);
    assert!(first.notices.iter().any(|n| n.code == "audit_read_error"));
    assert!(first.notices.iter().any(|n| n.code == "audit_truncated"));
}
