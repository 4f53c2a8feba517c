use codex_guard::format::validate_bytes;
use codex_guard::model::{DiagnosticCode, GuardFileFormat};

fn assert_valid(format: GuardFileFormat, bytes: &[u8]) {
    assert!(validate_bytes(format, bytes, "scope", Some("config.toml")).is_ok());
}

fn assert_code(format: GuardFileFormat, bytes: &[u8], expected: DiagnosticCode) {
    let diagnostics = validate_bytes(format, bytes, "scope", Some("safe.toml")).unwrap_err();
    assert_eq!(diagnostics[0].code, expected);
}

#[test]
fn valid_json_is_accepted() {
    assert_valid(GuardFileFormat::Json, br#"{"features":{"enabled":true},"items":[1,"two",null]}"#);
}

#[test]
fn json_nested_duplicate_key_is_rejected() {
    assert_code(GuardFileFormat::Json, br#"{"outer":[{"secret":1,"secret":2}]}"#, DiagnosticCode::JsonDuplicateKey);
}

#[test]
fn json_root_duplicate_and_equivalent_escaped_keys_are_rejected() {
    assert_code(GuardFileFormat::Json, br#"{"a":1,"a":2}"#, DiagnosticCode::JsonDuplicateKey);
    assert_code(GuardFileFormat::Json, br#"{"a":1,"\u0061":2}"#, DiagnosticCode::JsonDuplicateKey);
}

#[test]
fn json_invalid_syntax_and_trailing_values_are_rejected() {
    assert_code(GuardFileFormat::Json, br#"{"a":1} trailing"#, DiagnosticCode::JsonInvalid);
    assert_code(GuardFileFormat::Json, b"{\"a\":}", DiagnosticCode::JsonInvalid);
    assert_code(GuardFileFormat::Json, &[0xff], DiagnosticCode::InvalidUtf8);
}

#[test]
fn same_key_in_sibling_objects_and_values_is_accepted() {
    assert_code(GuardFileFormat::Json, br#"{"\ud83d\ude00":1,"\ud83d\ude00":2}"#, DiagnosticCode::JsonDuplicateKey);
    assert_valid(GuardFileFormat::Json, br#"{"a":{"x":1},"b":{"x":"a"},"c":["a","a"]}"#);
    assert_valid(GuardFileFormat::Json, br#"{"k\"q":1,"k":2,"\ud83d\ude00":3,"\ud83d\ude01":4}"#);
}

#[test]
fn repeated_key_is_placed_after_the_key() {
    let d = validate_bytes(GuardFileFormat::Json, b"{\"a\":1,\n\"a\":2}", "scope", None).unwrap_err();
    assert_eq!(d[0].code, DiagnosticCode::JsonDuplicateKey);
    assert_eq!((d[0].line, d[0].column), (Some(2), Some(4)));
    let d = validate_bytes(GuardFileFormat::Json, b"{\n  \"a\": }", "scope", None).unwrap_err();
    assert_eq!(d[0].line, Some(2));
}

#[test]
fn each_format_goes_to_its_check() {
    assert_valid(GuardFileFormat::Toml, b"a = 1\n");
    assert_code(GuardFileFormat::Toml, b"a = \n", DiagnosticCode::TomlInvalid);
    assert_code(GuardFileFormat::PlainText, b"a\0", DiagnosticCode::NulByte);
    assert_valid(GuardFileFormat::Markdown, b"# t\n");
}
