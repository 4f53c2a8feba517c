use codex_guard::engine::GuardValue;
use codex_guard::guard::GuardFile;
use codex_guard::model::{GuardFileFormat, GuardParam};
use codex_guard::ownership::{
    normalize_relative_path, normalize_toml_path, validate_ownership, validate_param_ids,
    validate_target_path, valid_param_id, OwnershipCode, OwnershipError,
};

fn file(id: &str, path: &str, format: GuardFileFormat, builtin: bool) -> GuardFile {
    GuardFile {
        id: id.into(),
        name: id.into(),
        file: path.into(),
        format,
        builtin,
        detection: None,
    }
}

fn param(id: &str, file: &str, mode: &str, path: &str, value_type: &str) -> GuardParam {
    GuardParam {
        id: id.into(),
        label: id.into(),
        label_en: String::new(),
        description: String::new(),
        description_en: String::new(),
        file: file.into(),
        file_id: String::new(),
        group_id: None,
        apply_mode: mode.into(),
        path: path.into(),
        value_type: value_type.into(),
        default: GuardValue::Other,
        default_en: None,
        custom: true,
    }
}

/// Every file resolves to its own place under a fixed home.
fn resolved(files: &[GuardFile]) -> Vec<Result<String, OwnershipCode>> {
    files.iter().map(|f| Ok(format!("/home/u/.codex/{}", f.file))).collect()
}

fn owned_roots() -> Vec<String> {
    vec![
        "mcp_servers.fastctx".to_string(),
        "features.code_mode.direct_only_tool_namespaces".to_string(),
        "tool_output_token_limit".to_string(),
    ]
}

fn check(files: &[GuardFile], params: &[GuardParam]) -> Result<(), OwnershipError> {
    validate_ownership(files, &resolved(files), params, &owned_roots())
}

fn config_file() -> Vec<GuardFile> {
    vec![file("config", "config.toml", GuardFileFormat::Toml, true)]
}

#[test]
fn normalizes_relative_guard_paths_and_rejects_escape_forms() {
    assert_eq!(
        normalize_relative_path("./agents//default.toml").unwrap(),
        "agents/default.toml"
    );
    assert_eq!(
        normalize_relative_path(r"agents\default.toml").unwrap(),
        "agents/default.toml"
    );
    for invalid in [
        "",
        "../escape",
        "/absolute",
        r"C:\outside",
        r"\\server\share",
        "a\0b",
    ] {
        assert!(
            normalize_relative_path(invalid).is_err(),
            "{invalid:?} should be rejected"
        );
    }
}

#[test]
fn ownership_rejects_duplicate_file_ids_paths_and_parent_paths() {
    let files = vec![
        file("custom.Config", "config.toml", GuardFileFormat::Toml, false),
        file("custom.config", "./config.toml", GuardFileFormat::Toml, false),
    ];
    assert_eq!(check(&files, &[]).unwrap_err().code, OwnershipCode::DuplicateFileId);

    let files = vec![
        file("one", "config.toml", GuardFileFormat::Toml, false),
        file("two", "config.toml", GuardFileFormat::Toml, false),
    ];
    assert_eq!(check(&files, &[]).unwrap_err().code, OwnershipCode::DuplicateFilePath);

    let files = vec![
        file("one", "agents", GuardFileFormat::PlainText, false),
        file("two", "agents/default.toml", GuardFileFormat::Toml, false),
    ];
    assert_eq!(
        check(&files, &[]).unwrap_err().code,
        OwnershipCode::ParentFilePathConflict
    );
}

#[test]
fn ownership_rejects_toml_parent_child_and_file_overwrite_conflicts() {
    let files = config_file();
    let params = vec![
        param("a", "config.toml", "toml_key", "features", "bool"),
        param("b", "config.toml", "toml_absent", "features.multi", "none"),
    ];
    assert_eq!(
        check(&files, &params).unwrap_err().code,
        OwnershipCode::TomlAbsentConflict
    );
    let params = vec![
        param("a", "config.toml", "toml_key", "features", "bool"),
        param("b", "config.toml", "toml_key", "features.multi", "bool"),
    ];
    assert_eq!(
        check(&files, &params).unwrap_err().code,
        OwnershipCode::TomlParentChildConflict
    );
    let params = vec![
        param("a", "config.toml", "file_overwrite", "", "text"),
        param("b", "config.toml", "toml_key", "features.enabled", "bool"),
    ];
    assert_eq!(
        check(&files, &params).unwrap_err().code,
        OwnershipCode::FileOverwriteConflict
    );
    let params = vec![
        param("a", "config.toml", "toml_key", "model", "string"),
        param("b", "config.toml", "toml_key", " model ", "string"),
    ];
    assert_eq!(
        check(&files, &params).unwrap_err().code,
        OwnershipCode::DuplicateTomlPath
    );
}

#[test]
fn ownership_rejects_unknown_files_and_duplicate_parameter_ids() {
    let files = config_file();
    let params = vec![param("a", "missing.toml", "toml_key", "x", "bool")];
    assert_eq!(check(&files, &params).unwrap_err().code, OwnershipCode::UnknownFile);
    let params = vec![
        param("same", "config.toml", "toml_key", "x", "bool"),
        param("SAME", "config.toml", "toml_key", "y", "bool"),
    ];
    assert_eq!(
        check(&files, &params).unwrap_err().code,
        OwnershipCode::DuplicateParamId
    );
    assert_eq!(
        validate_param_ids(&params).unwrap_err().code,
        OwnershipCode::DuplicateParamId
    );
    let mut bound = param("a", "config.toml", "toml_key", "x", "bool");
    bound.file_id = "other".into();
    assert_eq!(check(&files, &[bound]).unwrap_err().code, OwnershipCode::UnknownFile);
    let mut bound = param("a", "config.toml", "toml_key", "x", "bool");
    bound.file_id = "config".into();
    assert!(check(&files, &[bound]).is_ok());
}

#[test]
fn ownership_rejects_externally_owned_paths() {
    let files = config_file();
    for path in [
        "mcp_servers.fastctx",
        "mcp_servers.fastctx.command",
        "features.code_mode.direct_only_tool_namespaces",
        "tool_output_token_limit",
    ] {
        let params = vec![param("p", "config.toml", "toml_key", path, "text")];
        assert_eq!(
            check(&files, &params).unwrap_err().code,
            OwnershipCode::ExternalKeyOwned
        );
    }
    let params = vec![param("p", "config.toml", "toml_key", "mcp_servers.fastctx_extra", "text")];
    assert!(check(&files, &params).is_ok());
}

#[test]
fn ownership_reports_file_system_refusals_and_shared_real_paths() {
    let files = vec![file("linked", "linked.toml", GuardFileFormat::Toml, false)];
    let refused = vec![Err(OwnershipCode::PathSymlink)];
    assert_eq!(
        validate_ownership(&files, &refused, &[], &[]).unwrap_err().code,
        OwnershipCode::PathSymlink
    );
    let files = vec![
        file("one", "a.toml", GuardFileFormat::Toml, false),
        file("two", "b.toml", GuardFileFormat::Toml, false),
    ];
    let same = vec![Ok("/real/x.toml".to_string()), Ok("/real/x.toml".to_string())];
    assert_eq!(
        validate_ownership(&files, &same, &[], &[]).unwrap_err().code,
        OwnershipCode::DuplicateFilePath
    );
}

#[test]
fn ownership_accepts_the_builtin_files() {
    let files = codex_guard::guard::builtin_files();
    let params = vec![
        param("model", "config.toml", "toml_key", "model", "string"),
        param("agents", "AGENTS.md", "markdown_block", "", "text"),
    ];
    assert!(check(&files, &params).is_ok());
}

#[test]
fn canonical_paths_and_keys() {
    assert_eq!(normalize_toml_path(" a . b ").unwrap(), "a.b");
    assert_eq!(
        normalize_toml_path("a..b").unwrap_err().code,
        OwnershipCode::InvalidPath
    );
    assert_eq!(
        normalize_toml_path("a/b.c").unwrap_err().code,
        OwnershipCode::InvalidPath
    );
    assert_eq!(validate_target_path("agents/x.toml").unwrap(), "agents/x.toml");
    assert_eq!(
        validate_target_path("./agents/x.toml").unwrap_err().code,
        OwnershipCode::NonCanonicalPath
    );
    assert!(valid_param_id("custom.a"));
    assert!(!valid_param_id("a b"));
    assert!(!valid_param_id("a<b"));
    assert!(!valid_param_id(""));
    assert_eq!(
        OwnershipError::new(OwnershipCode::UnknownFile).message(),
        "ownership.unknown_file"
    );
}
