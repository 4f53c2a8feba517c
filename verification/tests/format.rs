use codex_guard::format::{
    diagnostics_message, line_column, parse_marker, parse_toml_document, validate_markdown,
    validate_plain_text, MarkerKind, MAX_DIAGNOSTICS,
};
use codex_guard::model::{DiagnosticCode, ValidationDiagnostic};

fn markdown_code(bytes: &[u8]) -> DiagnosticCode {
    validate_markdown(bytes, "scope", Some("safe.toml")).unwrap_err()[0].code
}

#[test]
fn valid_toml_is_accepted() {
    assert!(parse_toml_document(b"[features]\nenabled = true\n", "scope", Some("config.toml")).is_ok());
}

#[test]
fn toml_duplicate_key_reports_line_and_column() {
    let diagnostics =
        parse_toml_document(b"[features]\nenabled = true\nenabled = false\n", "scope", Some("config.toml")).unwrap_err();
    assert_eq!(diagnostics[0].code, DiagnosticCode::TomlInvalid);
    assert_eq!(diagnostics[0].line, Some(3));
    assert!(diagnostics[0].column.is_some());
}

#[test]
fn markdown_crossing_markers_are_rejected() {
    assert_eq!(
        markdown_code(b"<!-- dashi:begin a -->\n<!-- dashi:begin b -->\n<!-- dashi:end a -->\n<!-- dashi:end b -->\n"),
        DiagnosticCode::MarkdownCrossingMarker
    );
}

#[test]
fn markdown_duplicate_unmatched_unclosed_and_malformed_markers_are_rejected() {
    assert_eq!(
        markdown_code(b"<!-- dashi:begin a -->\n<!-- dashi:end a -->\n<!-- dashi:begin a -->\n"),
        DiagnosticCode::MarkdownDuplicateMarker
    );
    assert_eq!(markdown_code(b"<!-- dashi:end missing -->\n"), DiagnosticCode::MarkdownUnmatchedMarker);
    assert_eq!(markdown_code(b"<!-- dashi:begin open -->\n"), DiagnosticCode::MarkdownUnclosedMarker);
    assert_eq!(markdown_code(b"<!-- dashi:unknown bad -->\n"), DiagnosticCode::MarkdownMalformedMarker);
}

#[test]
fn markdown_without_managed_markers_is_valid() {
    assert!(validate_markdown(b"# Notes\nplain text\n", "scope", Some("config.toml")).is_ok());
}

#[test]
fn markdown_diagnostics_are_bounded() {
    let source = (0..(MAX_DIAGNOSTICS + 10)).map(|_| "<!-- dashi:end missing -->\n").collect::<String>();
    let diagnostics = validate_markdown(source.as_bytes(), "scope", Some("notes.md")).unwrap_err();
    assert_eq!(diagnostics.len(), MAX_DIAGNOSTICS);
}

#[test]
fn plain_text_requires_utf8_and_no_nul() {
    assert!(validate_plain_text(b"hello\n", "scope", Some("config.toml")).is_ok());
    assert_eq!(
        validate_plain_text(&[0xff, 0xfe], "scope", Some("safe.toml")).unwrap_err()[0].code,
        DiagnosticCode::InvalidUtf8
    );
    assert_eq!(validate_plain_text(b"hello\0", "scope", Some("safe.toml")).unwrap_err()[0].code, DiagnosticCode::NulByte);
}

#[test]
fn markdown_positions_and_open_marker_without_close() {
    let d = validate_markdown(b"x\n  <!-- dashi:end gone -->\n", "s", None).unwrap_err();
    assert_eq!(d[0].line, Some(2));
    assert_eq!(d[0].column, Some(3));
    let d = validate_markdown(b"<!-- dashi:begin a\n-->\n", "s", None).unwrap_err();
    assert_eq!(d[0].code, DiagnosticCode::MarkdownMalformedMarker);
    let ok = validate_markdown(b"<!-- dashi:begin a --><!-- dashi:begin b -->\n<!-- dashi:end b --> <!-- dashi:end a -->", "s", None);
    assert!(ok.is_ok());
}

#[test]
fn markers_parse_kind_and_id() {
    assert_eq!(parse_marker("<!-- dashi:begin abc -->").map(|(k, id)| (k, id)), Some((MarkerKind::Begin, "abc".to_string())));
    assert_eq!(parse_marker("<!-- dashi:end x   -->").map(|(k, _)| k), Some(MarkerKind::End));
    assert!(parse_marker("<!-- dashi:end a b -->").is_none());
    assert!(parse_marker("<!-- dashi:end -->").is_none());
    assert!(parse_marker("<!-- dashi:begin a<b -->").is_none());
}

#[test]
fn line_column_counts_lines_and_characters() {
    assert_eq!(line_column(b"ab\ncd", 4), (2, 2));
    assert_eq!(line_column("é\nxé".as_bytes(), 6), (2, 3));
    assert_eq!(line_column(b"abc", 99), (1, 4));
}

#[test]
fn message_names_code_and_position() {
    let d = ValidationDiagnostic::new("s", None, DiagnosticCode::NulByte, Some(3), Some(12));
    assert_eq!(diagnostics_message(&[d]), "nul_byte at 3:12");
    let e = ValidationDiagnostic::new("s", None, DiagnosticCode::JsonInvalid, None, None);
    assert_eq!(diagnostics_message(&[e]), "json_invalid");
    assert_eq!(diagnostics_message(&[]), "format validation failed");
}
