use codex_guard::capability::{ensure_success, parse_reports, validate_doctor_shape};
use codex_guard::digest::content_sha256;
use codex_guard::json::parse_json;

const OK_DOCTOR: &[u8] = br#"{"config_loaded":true,"role_warnings":[]}"#;
const OK_MODELS: &[u8] = br#"{"models":[{"slug":"gpt-5","multi_agent_version":"v2","supported_reasoning_levels":[{"effort":"low"},{"effort":"high"}]}]}"#;

fn identity() -> String {
    content_sha256(b"fixture")
}

#[test]
fn fixture_probe_parses_only_machine_fields() {
    assert!(ensure_success(true).is_ok());
    let snapshot = parse_reports(OK_DOCTOR, OK_MODELS, identity(), 123).unwrap();
    assert_eq!(snapshot.executable_identity.len(), 64);
    assert_eq!(snapshot.available_models(), vec!["gpt-5"]);
    assert!(snapshot.supports("gpt-5", "high"));
}

#[test]
fn malformed_or_missing_models_are_rejected() {
    assert_eq!(parse_reports(br#"{}"#, br#"{"models":[]}"#, identity(), 123).unwrap_err(), "capability_models_missing");
}

#[test]
fn failed_report_commands_are_refused() {
    assert_eq!(ensure_success(false).unwrap_err(), "capability_command_failed");
}

#[test]
fn doctor_report_must_be_machine_readable_and_loaded() {
    let check = |bytes: &[u8]| validate_doctor_shape(&parse_json(bytes).unwrap());
    assert!(check(br#"{"configLoaded":true,"config":{"loaded":true},"roleWarnings":[]}"#).is_ok());
    assert!(check(br#"{"config":null}"#).is_ok());
    assert_eq!(check(br#"[]"#).unwrap_err(), "capability_invalid_doctor_report");
    assert_eq!(check(br#"{"config_loaded":false}"#).unwrap_err(), "capability_config_unavailable");
    assert_eq!(check(br#"{"config":{"configLoaded":false}}"#).unwrap_err(), "capability_config_unavailable");
    assert_eq!(check(br#"{"config":5}"#).unwrap_err(), "capability_invalid_doctor_report");
    assert_eq!(check(br#"{"config_loaded":"yes"}"#).unwrap_err(), "capability_invalid_doctor_report");
    assert_eq!(check(br#"{"role_warnings":{}}"#).unwrap_err(), "capability_invalid_doctor_report");
}

#[test]
fn reports_must_be_json() {
    assert_eq!(parse_reports(b"not json", OK_MODELS, identity(), 1).unwrap_err(), "capability_invalid_json");
    assert_eq!(parse_reports(OK_DOCTOR, b"{", identity(), 1).unwrap_err(), "capability_invalid_json");
}

#[test]
fn models_are_found_in_nested_members_and_camel_case_fields() {
    let models = br#"{"data":{"entries":[{"id":"gpt-5","multiAgentVersion":"v2","supportedReasoningLevels":["low","medium"]}]}}"#;
    let snapshot = parse_reports(OK_DOCTOR, models, identity(), 7).unwrap();
    assert_eq!(snapshot.available_models(), vec!["gpt-5"]);
    assert!(snapshot.supports("gpt-5", "medium"));
    assert_eq!(snapshot.fetched_at_ms, 7);
    let bare = br#"[{"slug":"gpt-5","multi_agent_version":"v2","supported_reasoning_levels":["low"]}]"#;
    assert!(parse_reports(OK_DOCTOR, bare, identity(), 7).is_ok());
}

#[test]
fn bad_model_entries_are_rejected() {
    let no_slug = br#"{"models":[{"multi_agent_version":"v2","supported_reasoning_levels":["low"]}]}"#;
    assert_eq!(parse_reports(OK_DOCTOR, no_slug, identity(), 1).unwrap_err(), "capability_model_invalid");
    let bad_level = br#"{"models":[{"slug":"gpt-5","multi_agent_version":"v2","supported_reasoning_levels":[1]}]}"#;
    assert_eq!(parse_reports(OK_DOCTOR, bad_level, identity(), 1).unwrap_err(), "capability_model_invalid");
    let no_models = br#"{"other":1}"#;
    assert_eq!(parse_reports(OK_DOCTOR, no_models, identity(), 1).unwrap_err(), "capability_models_missing");
    assert_eq!(parse_reports(OK_DOCTOR, OK_MODELS, "a/b".to_string(), 1).unwrap_err(), "role.invalid_text");
}
