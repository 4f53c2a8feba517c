use codex_guard::guard::{
    builtin_files, builtin_groups, canonical_config_group_id, canonical_group_id, check_state_version, find_file,
    format_from_name, infer_file_formats, legacy_state_needs_migration, normalize_groups, pick_i18n, GuardFileWire,
    GuardGroup, CODEX_GUARD_SCHEMA_VERSION,
};
use codex_guard::lifecycle::{lifecycle_or_disabled, stored_flags, ParameterLifecycle};
use codex_guard::model::GuardFileFormat;
use codex_guard::validate::validate_guard_file;

#[test]
fn files_builtin_files_has_three_entries() {
    let files = builtin_files();
    assert_eq!(files.len(), 3);
    for f in &files {
        assert!(f.builtin, "{} should be built in", f.id);
        assert!(f.id.starts_with("builtin."));
        validate_guard_file(f).unwrap();
    }
}

#[test]
fn codex_guard_builtin_files_has_three_entries() {
    let files = builtin_files();
    assert_eq!(files.len(), 3);
    for f in &files {
        assert!(f.builtin, "{} should be built in", f.id);
        assert!(f.id.starts_with("builtin."));
        validate_guard_file(f).unwrap();
    }
}

#[test]
fn legacy_subagent_group_id_is_canonicalized() {
    assert_eq!(canonical_group_id("features.multi_agent_v2.enabled", Some("subagent-operations"), false), "subagent-optimization");
    assert_eq!(canonical_config_group_id("subagent-operations"), "subagent-optimization");
}

#[test]
fn schema_pick_i18n_selects_by_language() {
    assert_eq!(pick_i18n("中文", "English", "en"), "English");
    assert_eq!(pick_i18n("自定义", "", "en"), "自定义");
    assert_eq!(pick_i18n("中文", "English", "zh-CN"), "中文");
}

#[test]
fn codex_guard_pick_i18n_selects_by_language() {
    assert_eq!(pick_i18n("中文", "English", "en"), "English");
    assert_eq!(pick_i18n("自定义", "", "en"), "自定义");
    assert_eq!(pick_i18n("中文", "English", "zh-CN"), "中文");
}

#[test]
fn group_ids_follow_the_fixed_mapping() {
    assert_eq!(canonical_group_id("custom.x", None, true), "uncategorized");
    assert_eq!(canonical_group_id("custom.x", Some("mine"), true), "mine");
    assert_eq!(canonical_group_id("features.image_generation", Some("x"), false), "general");
    assert_eq!(canonical_group_id("agents-v1-remove", None, false), "subagent-optimization");
    assert_eq!(canonical_group_id("other", None, false), "general");
    assert_eq!(canonical_config_group_id("general"), "general");
}

#[test]
fn file_formats_come_from_builtins_or_extensions() {
    assert_eq!(infer_file_formats("builtin.agents-md", "x", true), vec![GuardFileFormat::Markdown]);
    assert_eq!(infer_file_formats("c", "a/b.JSON", false), vec![GuardFileFormat::Json]);
    assert_eq!(infer_file_formats("c", "notes.md", false), vec![GuardFileFormat::Markdown]);
    assert_eq!(infer_file_formats("c", ".toml", false).len(), 4);
    assert_eq!(infer_file_formats("c", "plain", false).len(), 4);
}

#[test]
fn groups_start_with_the_builtins_and_keep_custom_order() {
    let stored = vec![
        GuardGroup { id: "mine".into(), name: "Mine".into(), builtin: false, order: 5 },
        GuardGroup { id: "general".into(), name: "Renamed".into(), builtin: false, order: 9 },
        GuardGroup { id: "mine".into(), name: "Again".into(), builtin: false, order: 6 },
    ];
    let groups = normalize_groups(&stored);
    assert_eq!(groups.iter().map(|g| g.id.as_str()).collect::<Vec<_>>(), vec!["subagent-optimization", "general", "mine"]);
    assert_eq!(groups[1].name, "General");
    assert_eq!(groups[2].name, "Mine");
    assert_eq!(builtin_groups().len(), 2);
    assert!(find_file(&builtin_files(), "builtin.agents-md").is_some());
    assert!(find_file(&builtin_files(), "nope").is_none());
}

fn wire(id: &str, name: &str, file: &str, format: Option<&str>) -> GuardFileWire {
    GuardFileWire {
        id: id.to_string(),
        name: name.to_string(),
        file: file.to_string(),
        format: format.map(str::to_string),
        builtin: false,
        detection: None,
    }
}

#[test]
fn legacy_md_alias_resolves_without_a_pending_marker() {
    assert!(check_state_version(Some(0)).is_ok());
    let resolved = wire("custom.readme", "Readme", "docs/readme.md", Some("md")).resolve_format().unwrap();
    let file = resolved.unwrap();
    assert_eq!(file.format, GuardFileFormat::Markdown);
}

#[test]
fn missing_format_with_unique_extension_is_inferred() {
    let file = wire("custom.settings", "Settings", "settings.json", None).resolve_format().unwrap().unwrap();
    assert_eq!(file.format, GuardFileFormat::Json);
    assert_eq!(file.id, "custom.settings");
}

#[test]
fn unknown_or_ambiguous_format_becomes_pending_and_roundtrips() {
    let pending = wire("custom.opaque", "Opaque", "settings", Some("yaml")).resolve_format().unwrap().unwrap_err();
    assert_eq!(pending.id, "custom.opaque");
    assert_eq!(pending.raw_format.as_deref(), Some("yaml"));
    assert_eq!(pending.candidates.len(), 4);
}

#[test]
fn unknown_state_version_is_rejected() {
    assert_eq!(check_state_version(Some(99)).unwrap_err(), "unsupported codex guard schema version");
    assert!(check_state_version(None).is_ok());
    assert!(check_state_version(Some(CODEX_GUARD_SCHEMA_VERSION)).is_ok());
}

#[test]
fn legacy_boolean_state_migrates_without_preserving_invalid_lock() {
    let valid = stored_flags(None, true, true);
    assert_eq!(lifecycle_or_disabled(valid.0, valid.1), ParameterLifecycle::Locked);
    assert!(!legacy_state_needs_migration(false, Some(true), Some(true)));
    let invalid = stored_flags(None, false, true);
    assert_eq!(lifecycle_or_disabled(invalid.0, invalid.1), ParameterLifecycle::Disabled);
    assert!(!invalid.1);
    assert!(legacy_state_needs_migration(false, Some(false), Some(true)));
    assert!(normalize_groups(&Vec::new()).iter().all(|group| group.builtin));
}

#[test]
fn stored_lifecycle_wins_over_legacy_flags() {
    assert_eq!(stored_flags(Some(ParameterLifecycle::Applied), false, true), (true, false));
    assert!(!legacy_state_needs_migration(true, Some(false), Some(true)));
    assert_eq!(lifecycle_or_disabled(false, true), ParameterLifecycle::Disabled);
}

#[test]
fn format_names_follow_the_wire_names() {
    assert_eq!(format_from_name("toml"), Some(GuardFileFormat::Toml));
    assert_eq!(format_from_name("json"), Some(GuardFileFormat::Json));
    assert_eq!(format_from_name("markdown"), Some(GuardFileFormat::Markdown));
    assert_eq!(format_from_name("md"), Some(GuardFileFormat::Markdown));
    assert_eq!(format_from_name("plain_text"), Some(GuardFileFormat::PlainText));
    assert_eq!(format_from_name("yaml"), None);
    assert_eq!(wire("builtin.agents-md", "Agents", "AGENTS", None).resolve_format().unwrap().unwrap().format, GuardFileFormat::Markdown);
}
