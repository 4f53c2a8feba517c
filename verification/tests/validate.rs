use codex_guard::engine::GuardValue;
use codex_guard::model::{GuardFileFormat, GuardParam};
use codex_guard::validate::{
    normalize_custom_id, validate_apply_mode, validate_file_path, validate_format,
    validate_param_fields, validate_param_for_file, validate_value_type,
};

#[test]
fn validate_normalize_custom_id_adds_prefix() {
    assert_eq!(normalize_custom_id("foo"), "custom.foo");
    assert_eq!(normalize_custom_id("custom.bar"), "custom.bar");
}

#[test]
fn codex_guard_normalize_custom_id_adds_prefix() {
    assert_eq!(normalize_custom_id("foo"), "custom.foo");
    assert_eq!(normalize_custom_id("custom.bar"), "custom.bar");
}

#[test]
fn validate_validate_apply_mode_accepts_four_modes() {
    for m in ["toml_key", "toml_absent", "file_overwrite", "markdown_block"] {
        assert!(validate_apply_mode(m).is_ok(), "{} should be valid", m);
    }
    assert!(validate_apply_mode("nonsense").is_err());
}

#[test]
fn codex_guard_validate_apply_mode_accepts_four_modes() {
    for m in ["toml_key", "toml_absent", "file_overwrite", "markdown_block"] {
        assert!(validate_apply_mode(m).is_ok(), "{} should be valid", m);
    }
    assert!(validate_apply_mode("nonsense").is_err());
}

#[test]
fn validate_validate_file_path_rejects_traversal() {
    assert!(validate_file_path("config.toml").is_ok());
    assert!(validate_file_path("agents/foo.toml").is_ok());
    assert!(validate_file_path("../escape").is_err());
    assert!(validate_file_path("a/../b").is_err());
    assert!(validate_file_path("/absolute").is_err());
    assert!(validate_file_path("").is_err());
}

#[test]
fn codex_guard_validate_file_path_rejects_traversal() {
    assert!(validate_file_path("config.toml").is_ok());
    assert!(validate_file_path("agents/foo.toml").is_ok());
    assert!(validate_file_path("../escape").is_err());
    assert!(validate_file_path("a/../b").is_err());
    assert!(validate_file_path("/absolute").is_err());
    assert!(validate_file_path("").is_err());
}

#[test]
fn validate_format_accepts_three() {
    for f in ["toml", "json", "md"] {
        assert!(validate_format(f).is_ok());
    }
    assert!(validate_format("yaml").is_err());
    assert!(validate_format("").is_err());
}

#[test]
fn error_messages_name_the_refused_value() {
    assert_eq!(validate_apply_mode("x").unwrap_err(), "Unsupported apply_mode: x");
    assert_eq!(validate_value_type("float").unwrap_err(), "Unsupported value_type: float");
    assert!(validate_value_type("text").is_ok());
    assert_eq!(validate_file_path("  ").unwrap_err(), "File path cannot be empty");
    assert_eq!(
        validate_param_for_file("markdown_block", GuardFileFormat::Toml).unwrap_err(),
        "Apply mode markdown_block is incompatible with file format toml"
    );
    assert!(validate_param_for_file("file_overwrite", GuardFileFormat::Json).is_ok());
    assert!(validate_param_for_file("toml_absent", GuardFileFormat::Toml).is_ok());
}

#[test]
fn param_fields_check_toml_key_requirements() {
    assert!(validate_param_fields("config.toml", "toml_key", "bool", "测试", "").is_err());
    assert!(validate_param_fields("config.toml", "toml_key", "bool", "测试", "x.y").is_ok());
    assert_eq!(
        validate_param_fields("config.toml", "toml_key", "none", "测试", "x.y").unwrap_err(),
        "value_type of toml_key mode cannot be none"
    );
    assert_eq!(validate_param_fields("config.toml", "toml_key", "bool", " ", "x").unwrap_err(), "label cannot be empty");
}

fn custom_param(id: &str, label: &str, file: &str, apply_mode: &str, path: &str, value_type: &str) -> GuardParam {
    GuardParam {
        id: id.into(),
        label: label.into(),
        label_en: String::new(),
        description: String::new(),
        description_en: String::new(),
        file: file.into(),
        file_id: String::new(),
        group_id: None,
        apply_mode: apply_mode.into(),
        path: path.into(),
        value_type: value_type.into(),
        default: GuardValue::Other,
        default_en: None,
        custom: true,
    }
}

fn check_fields(p: &GuardParam) -> Result<(), String> {
    validate_param_fields(&p.file, &p.apply_mode, &p.value_type, &p.label, &p.path)
}

fn toml_key_requirements() {
    let mut p = custom_param("custom.test", "测试", "config.toml", "toml_key", "", "bool");
    assert!(check_fields(&p).is_err());
    p.path = "x.y".into();
    assert!(check_fields(&p).is_ok());
    p.value_type = "none".into();
    assert!(check_fields(&p).is_err());
}

fn bad_file_path() {
    let p = custom_param("custom.test", "测试", "../evil.toml", "file_overwrite", "", "text");
    assert!(check_fields(&p).is_err());
}

#[test]
fn codex_guard_validate_param_fields_checks_toml_key_requirements() {
    toml_key_requirements();
}

#[test]
fn validate_validate_param_fields_checks_toml_key_requirements() {
    toml_key_requirements();
}

#[test]
fn codex_guard_validate_param_fields_rejects_bad_file_path() {
    bad_file_path();
}

#[test]
fn validate_validate_param_fields_rejects_bad_file_path() {
    bad_file_path();
}

#[test]
fn validate_param_for_file_accepts_matching_modes() {
    let mut p = custom_param("p", "参数", "config.toml", "toml_key", "features.x", "bool");
    assert!(validate_param_for_file(&p.apply_mode, GuardFileFormat::Toml).is_ok());
    assert!(validate_param_for_file(&p.apply_mode, GuardFileFormat::Json).is_err());
    p.apply_mode = "file_overwrite".into();
    assert!(validate_param_for_file(&p.apply_mode, GuardFileFormat::PlainText).is_ok());
}
