use codex_guard::engine::{
    apply_plan, check_content, expected_of, remove_block, remove_plan, render_toml_value, toml_value_of, EditPlan, GuardValue,
    TomlScalar,
};

const DOC: &str = "b = true\ni = 42\ns = \"hi\"\nf = 1.5\n[a]\nx = 1\n";

fn status(path: &str, expected: GuardValue) -> String {
    check_content("toml_key", "p", path, Some(DOC), &expected).status
}

#[test]
fn toml_matches_json_compares_scalar_types() {
    assert_eq!(status("b", GuardValue::Bool(true)), "match");
    assert_eq!(status("b", GuardValue::Bool(false)), "drift");
    assert_eq!(status("i", GuardValue::Int(42)), "match");
    assert_eq!(status("i", GuardValue::Int(43)), "drift");
    assert_eq!(status("s", GuardValue::Str("hi".to_string())), "match");
    assert_eq!(status("i", GuardValue::Str("42".to_string())), "drift");
    assert_eq!(status("f", GuardValue::Decimal), "drift");
    assert_eq!(status("a", GuardValue::Other), "drift");
    assert_eq!(status("a.x", GuardValue::Int(1)), "match");
    assert_eq!(status("a.y", GuardValue::Int(1)), "missing");
}

#[test]
fn json_to_toml_rejects_decimals_and_arrays() {
    assert!(toml_value_of(&GuardValue::Int(42)).is_ok());
    assert!(toml_value_of(&GuardValue::Bool(true)).is_ok());
    assert!(toml_value_of(&GuardValue::Str("s".to_string())).is_ok());
    assert!(toml_value_of(&GuardValue::Decimal).is_err());
    assert!(toml_value_of(&GuardValue::Other).is_err());
}

#[test]
fn render_toml_value_formats_scalars() {
    let doc = "s = \"hi\"\nb = true\ni = 7\n";
    let at = |p: &str| check_content("toml_key", "p", p, Some(doc), &GuardValue::Other).actual.unwrap();
    assert_eq!(at("s"), "\"hi\"");
    assert_eq!(at("b"), "true");
    assert_eq!(at("i"), "7");
    assert_eq!(render_toml_value(&TomlScalar::Int(-12)), "-12");
    assert_eq!(render_toml_value(&TomlScalar::Int(i64::MIN)), "-9223372036854775808");
    assert_eq!(render_toml_value(&TomlScalar::Other("[1, 2]".to_string())), "[1, 2]");
}

#[test]
fn check_reports_missing_files_parse_errors_and_unknown_modes() {
    let none = check_content("toml_key", "p", "x", None, &GuardValue::Bool(true));
    assert_eq!((none.status.as_str(), none.actual.as_deref()), ("missing", Some("(file does not exist)")));
    let bad = check_content("toml_key", "p", "x", Some("x = = 1"), &GuardValue::Bool(true));
    assert_eq!(bad.status, "error");
    assert!(bad.error.unwrap().starts_with("TOML parse failed; guarding paused for this group: "));
    let unknown = check_content("yaml_key", "p", "x", Some(""), &GuardValue::Other);
    assert_eq!(unknown.error.as_deref(), Some("Unknown apply_mode: yaml_key"));
    let absent = check_content("toml_absent", "p", "agents", None, &GuardValue::Other);
    assert_eq!((absent.status.as_str(), absent.actual.as_deref()), ("match", Some("absent")));
    let present = check_content("toml_absent", "p", "a", Some(DOC), &GuardValue::Other);
    assert_eq!((present.status.as_str(), present.actual.as_deref()), ("drift", Some("present")));
}

#[test]
fn overwritten_files_and_blocks_check_as_written() {
    let expected = GuardValue::Str("  hello  ".to_string());
    let written = match apply_plan("file_overwrite", "p", "", None, &expected).unwrap() {
        EditPlan::Write(t) => t,
        other => panic!("unexpected {other:?}"),
    };
    assert_eq!(written, "hello\n");
    let check = check_content("file_overwrite", "p", "", Some(&written), &expected);
    assert_eq!((check.status.as_str(), check.actual.as_deref()), ("match", Some("6 bytes")));
    let drift = check_content("file_overwrite", "p", "", Some("other"), &expected);
    assert_eq!(drift.actual.as_deref(), Some("5 bytes, content differs"));

    let body = GuardValue::Str("managed text".to_string());
    let doc = match apply_plan("markdown_block", "rules", "", Some("# Title\n"), &body).unwrap() {
        EditPlan::Write(t) => t,
        other => panic!("unexpected {other:?}"),
    };
    assert_eq!(check_content("markdown_block", "rules", "", Some(&doc), &body).status, "match");
    assert_eq!(check_content("markdown_block", "rules", "", Some("# Title\n"), &body).status, "missing");
    match remove_plan("markdown_block", "rules", "", Some(&doc)).unwrap() {
        EditPlan::Write(t) => assert_eq!(t, "# Title\n\n"),
        other => panic!("unexpected {other:?}"),
    }
}

#[test]
fn plans_follow_the_apply_mode() {
    match apply_plan("toml_key", "p", "features.x", None, &GuardValue::Bool(true)).unwrap() {
        EditPlan::Write(t) => assert_eq!(t, "[features]\nx = true\n"),
        other => panic!("unexpected {other:?}"),
    }
    match apply_plan("toml_key", "p", "model", Some("# keep\nmodel = \"a\"\n"), &GuardValue::Str("b".to_string())).unwrap() {
        EditPlan::Write(t) => assert_eq!(t, "model = \"b\"\n"),
        other => panic!("unexpected {other:?}"),
    }
    assert_eq!(
        apply_plan("toml_key", "p", "model.x", Some("model = \"a\"\n"), &GuardValue::Bool(true)).unwrap_err(),
        "Intermediate path node model is not a table"
    );
    assert!(apply_plan("toml_key", "p", "x", Some("= broken"), &GuardValue::Decimal).unwrap_err().starts_with("TOML parse failed; nothing written: "));
    assert!(remove_plan("toml_key", "p", "x", Some("= broken")).unwrap_err().starts_with("TOML parse failed; nothing written: "));
    match remove_plan("toml_key", "p", "agents.max_threads", Some("# c\nx = 1\n[agents]\nmax_threads = 6\n")).unwrap() {
        EditPlan::Write(t) => assert_eq!(t, "# c\nx = 1\n[agents]\n"),
        other => panic!("unexpected {other:?}"),
    }
    assert_eq!(apply_plan("toml_key", "p", "x", None, &GuardValue::Decimal).unwrap_err(), "Integer parameters do not support decimals");
    assert_eq!(apply_plan("toml_absent", "p", "agents", None, &GuardValue::Other).unwrap(), EditPlan::Nothing);
    assert_eq!(apply_plan("toml_absent", "p", "agents", Some(""), &GuardValue::Other).unwrap(), EditPlan::Write(String::new()));
    assert_eq!(remove_plan("file_overwrite", "p", "", Some("x")).unwrap(), EditPlan::DeleteFile);
    assert_eq!(remove_plan("file_overwrite", "p", "", None).unwrap(), EditPlan::Nothing);
    assert_eq!(remove_plan("toml_absent", "p", "x", Some("")).unwrap(), EditPlan::Nothing);
    assert_eq!(remove_plan("bogus", "p", "x", Some("")).unwrap_err(), "Unknown apply_mode: bogus");
    assert_eq!(remove_block("a<b>x<e>\nrest", "<b>", "<e>").as_deref(), Some("arest"));
    assert_eq!(remove_block("<e>a<b>", "<b>", "<e>"), None);
    assert_eq!(expected_of(None, GuardValue::Int(1)), GuardValue::Int(1));
    assert_eq!(expected_of(Some(GuardValue::Int(2)), GuardValue::Int(1)), GuardValue::Int(2));
}
