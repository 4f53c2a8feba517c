use codex_guard::engine::GuardValue;
use codex_guard::guard::{builtin_files, GuardFile};
use codex_guard::model::{GuardFileFormat, GuardParam};
use codex_guard::schema::{
    backfill_file_ids, merge_schema, merge_schema_plan, prefers_english_default, default_for_lang, stable_file_id_for_path, SchemaSlot,
    SchemaSource,
};

fn param(id: &str, label: &str, label_en: &str) -> GuardParam {
    GuardParam {
        id: id.into(),
        label: label.into(),
        label_en: label_en.into(),
        description: String::new(),
        description_en: String::new(),
        file: "config.toml".into(),
        file_id: String::new(),
        group_id: None,
        apply_mode: "toml_key".into(),
        path: String::new(),
        value_type: String::new(),
        default: GuardValue::Other,
        default_en: None,
        custom: false,
    }
}

fn keeps_builtin_english_resources() {
    let mut b = param("a", "内置中文", "Builtin EN");
    b.default_en = Some(GuardValue::Str("EN content".to_string()));
    let builtin = vec![b];
    let disk = vec![param("a", "用户改过的中文", ""), param("custom.x", "自定义", "")];
    let merged = merge_schema(&builtin, &disk);
    assert_eq!(merged.len(), 2);
    let a = merged.iter().find(|p| p.id == "a").unwrap();
    assert_eq!(a.label, "用户改过的中文");
    assert_eq!(a.label_en, "Builtin EN");
    assert_eq!(a.default_en, Some(GuardValue::Str("EN content".to_string())));
    let plan = merge_schema_plan(&["a".to_string()], &["a".to_string(), "custom.x".to_string()]);
    assert_eq!(plan[0], SchemaSlot { main: SchemaSource::Disk(0), english: SchemaSource::Builtin(0) });
    assert!(merged.iter().any(|p| p.id == "custom.x"));
}

#[test]
fn codex_guard_merge_schema_keeps_builtin_english_resources() {
    keeps_builtin_english_resources();
}

#[test]
fn schema_merge_schema_keeps_builtin_english_resources() {
    keeps_builtin_english_resources();
}

fn default_by_language() {
    let p = |default_en: Option<GuardValue>| {
        let mut x = param("x", "中文", "");
        x.file = "f".into();
        x.apply_mode = "file_overwrite".into();
        x.value_type = "text".into();
        x.default = GuardValue::Str("中文内容".to_string());
        x.default_en = default_en;
        x
    };
    let with_en = p(Some(GuardValue::Str("English content".to_string())));
    assert_eq!(default_for_lang(&with_en, "en"), GuardValue::Str("English content".to_string()));
    assert_eq!(default_for_lang(&with_en, "zh-CN"), GuardValue::Str("中文内容".to_string()));
    let without_en = p(None);
    assert_eq!(default_for_lang(&without_en, "en"), GuardValue::Str("中文内容".to_string()));
    assert!(prefers_english_default("en", true));
    assert!(!prefers_english_default("zh-CN", true));
    assert!(!prefers_english_default("en", false));
}

#[test]
fn codex_guard_default_for_lang_selects_content_by_language() {
    default_by_language();
}

#[test]
fn schema_default_for_lang_selects_content_by_language() {
    default_by_language();
}

#[test]
fn backfilled_file_id_resolves_to_the_real_custom_guard_file() {
    let mut files = builtin_files();
    files.push(GuardFile {
        id: "custom.my-config".to_string(),
        name: "My config".to_string(),
        file: "myconfig.toml".to_string(),
        format: GuardFileFormat::Toml,
        builtin: false,
        detection: None,
    });
    let mut legacy = param("custom.legacy", "Legacy", "");
    legacy.file = "myconfig.toml".into();
    legacy.custom = true;
    let mut params = vec![legacy, param("kept", "Kept", "")];
    params[1].file_id = "builtin.config-toml".into();
    backfill_file_ids(&mut params, &files);
    assert_eq!(params[0].file_id, "custom.my-config");
    assert_eq!(params[1].file_id, "builtin.config-toml");
    assert_eq!(stable_file_id_for_path("elsewhere.toml", &files), "path:elsewhere.toml");
}

#[test]
fn disk_duplicates_replace_in_place_and_new_ids_append() {
    let plan = merge_schema_plan(
        &["a".to_string(), "b".to_string()],
        &["c".to_string(), "b".to_string(), "c".to_string()],
    );
    assert_eq!(
        plan,
        vec![
            SchemaSlot { main: SchemaSource::Builtin(0), english: SchemaSource::Builtin(0) },
            SchemaSlot { main: SchemaSource::Disk(1), english: SchemaSource::Builtin(1) },
            SchemaSlot { main: SchemaSource::Disk(2), english: SchemaSource::Disk(0) },
        ]
    );
}
