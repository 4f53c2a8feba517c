use codex_guard::audit_sqlite::{
    evidence_of_row, parse_marker_fields, read_sampling_sources, source_evidence, SampleRow, SourceRead, SqliteNoticeCode,
    MAX_BODY_BYTES,
};

fn row(thread: &str, tags: &str, body: &str) -> SampleRow {
    SampleRow { thread_id: thread.to_string(), feedback_tags: tags.to_string(), body: body.to_string() }
}

fn source(name: &str, rows: &[SampleRow]) -> SourceRead {
    SourceRead { source: name.to_string(), rows: source_evidence(rows) }
}

fn known(ids: &[&str]) -> Vec<String> {
    ids.iter().map(|id| id.to_string()).collect()
}

const MATCHING: &str = "try_run_sampling_request{turn_id=turn-1 model=gpt-request} model_client.stream_responses_websocket{model=gpt-client}";

#[test]
fn reads_sampling_markers_read_only_and_reports_match() {
    let result = read_sampling_sources(&[source("primary", &[row("turn-1", "sampling", MATCHING)])], &known(&["turn-1"]));
    assert!(result.complete);
    assert_eq!(result.evidence[0].client_model, "gpt-client");
    assert_eq!(result.evidence[0].requested_model, "gpt-request");
    assert_eq!(result.evidence[0].source_count, 1);
}

#[test]
fn binds_thread_id_but_returns_turn_id_from_the_marker() {
    let body = "try_run_sampling_request{turn_id=turn-9 model=gpt-request} model_client.stream_responses_websocket{model=gpt-client}";
    let result = read_sampling_sources(&[source("primary", &[row("thread-1", "sampling", body)])], &known(&["thread-1"]));
    assert!(result.complete);
    assert_eq!(result.evidence[0].thread_id, "thread-1");
    assert_eq!(result.evidence[0].turn_id, "turn-9");
}

#[test]
fn conflicting_markers_never_look_complete() {
    let body = "try_run_sampling_request{turn_id=turn-1 model=gpt-a} try_run_sampling_request{turn_id=turn-1 model=gpt-b} model_client.stream_responses_websocket{model=gpt-client}";
    let result = read_sampling_sources(&[source("primary", &[row("turn-1", "sampling", body)])], &known(&["turn-1"]));
    assert!(!result.complete);
    assert!(result.notices.iter().any(|notice| notice.code == SqliteNoticeCode::ConflictingEvidence));
}

#[test]
fn missing_schema_and_body_limit_never_look_green() {
    let missing = SourceRead { source: "primary".to_string(), rows: Err(SqliteNoticeCode::MissingLogsTable) };
    let result = read_sampling_sources(&[missing], &[]);
    assert!(!result.complete);
    assert_eq!(result.notices[0].code, SqliteNoticeCode::MissingLogsTable);
    let big = "x".repeat(MAX_BODY_BYTES + 1);
    let result = read_sampling_sources(&[source("primary", &[row("turn-1", "sampling", &big)])], &known(&["turn-1"]));
    assert!(!result.complete);
    assert_eq!(result.notices[0].code, SqliteNoticeCode::BodyTooLarge);
}

#[test]
fn fields_are_never_stitched_across_two_marker_instances() {
    let body = "try_run_sampling_request{turn_id=turn-1} try_run_sampling_request{model=gpt-from-another-marker} model_client.stream_responses_websocket{model=gpt-client}";
    let result = read_sampling_sources(&[source("primary", &[row("turn-1", "sampling", body)])], &known(&["turn-1"]));
    assert!(!result.complete, "a half-populated marker must not produce complete evidence");
    assert!(result.evidence.is_empty(), "fields from separate marker instances must not be stitched together");
}

#[test]
fn conflicting_duplicate_sources_are_visible() {
    let first = "try_run_sampling_request{turn_id=turn-1 model=gpt-request} model_client.stream_responses_websocket{model=gpt-a}";
    let second = "try_run_sampling_request{turn_id=turn-1 model=gpt-request} model_client.stream_responses_websocket{model=gpt-b}";
    let result = read_sampling_sources(
        &[source("primary", &[row("turn-1", "sampling", first)]), source("secondary", &[row("turn-1", "sampling", second)])],
        &known(&["turn-1"]),
    );
    assert!(!result.complete);
    assert!(result.notices.iter().any(|notice| notice.code == SqliteNoticeCode::ConflictingEvidence));
    assert_eq!(result.notices[0].source, "secondary");
    assert_eq!(result.evidence[0].client_model, "");
}

#[test]
fn agreeing_sources_are_counted_and_evidence_is_sorted() {
    let b = "try_run_sampling_request{turn_id=t model=m} model_client.stream_responses_websocket{model=c}";
    let result = read_sampling_sources(
        &[
            source("primary", &[row("thread-b", "sampling", b), row("thread-a", "feedback", b)]),
            source("secondary", &[row("thread-b", "sampling", b)]),
        ],
        &known(&["thread-a", "thread-b"]),
    );
    assert!(result.complete);
    assert_eq!(result.evidence.len(), 2);
    assert_eq!(result.evidence[0].thread_id, "thread-a");
    assert_eq!(result.evidence[1].thread_id, "thread-b");
    assert_eq!(result.evidence[1].source_count, 2);
    let missing_thread = read_sampling_sources(&[source("primary", &[row("thread-a", "sampling", b)])], &known(&["thread-a", "thread-z"]));
    assert!(!missing_thread.complete);
}

#[test]
fn untagged_rows_and_malformed_markers() {
    assert_eq!(evidence_of_row(&row("t", "other", MATCHING)).unwrap(), None);
    assert_eq!(evidence_of_row(&row("t", "sampling", "nothing here")).unwrap_err(), SqliteNoticeCode::InvalidMarker);
    assert_eq!(parse_marker_fields("m{a=1", "m", &["a"]).unwrap_err(), SqliteNoticeCode::InvalidMarker);
    assert_eq!(parse_marker_fields("m{a}", "m", &["a"]).unwrap_err(), SqliteNoticeCode::InvalidMarker);
    assert_eq!(parse_marker_fields("m{a=1 a=2}", "m", &["a"]).unwrap_err(), SqliteNoticeCode::ConflictingEvidence);
    assert_eq!(parse_marker_fields("m{a=1 b=2} m{a=1}", "m", &["a"]).unwrap(), Some(vec!["1".to_string()]));
    assert_eq!(parse_marker_fields("m{b=2}", "m", &["a"]).unwrap(), None);
    assert_eq!(parse_marker_fields("m{a=é}", "m", &["a"]).unwrap_err(), SqliteNoticeCode::InvalidMarker);
}

#[test]
fn evidence_comes_out_sorted_one_entry_per_key() {
    let body = |turn: &str, model: &str| {
        format!("try_run_sampling_request{{turn_id={turn} model={model}}} model_client.stream_responses_websocket{{model=gpt-client}}")
    };
    let rows = [
        row("thread-b", "sampling", &body("turn-2", "m")),
        row("thread-a", "sampling", &body("turn-9", "z")),
        row("thread-a", "sampling", &body("turn-9", "a")),
        row("thread-b", "sampling", &body("turn-2", "m")),
    ];
    let result = read_sampling_sources(&[source("primary", &rows[..2]), source("backup", &rows[2..])], &known(&["thread-a", "thread-b"]));
    let keys: Vec<(String, String, String)> = result
        .evidence
        .iter()
        .map(|e| (e.thread_id.clone(), e.turn_id.clone(), e.requested_model.clone()))
        .collect();
    assert_eq!(
        keys,
        vec![
            ("thread-a".to_string(), "turn-9".to_string(), "a".to_string()),
            ("thread-a".to_string(), "turn-9".to_string(), "z".to_string()),
            ("thread-b".to_string(), "turn-2".to_string(), "m".to_string()),
        ]
    );
    assert_eq!(result.evidence[2].source_count, 2);
}
