use codex_guard::config::{
    ensure_instance_credentials, files_or_builtin, generate_credentials, keep_or_replace_credentials, instance_credentials_valid, strip_unc, taskboard_url, LauncherConfig,
};

#[test]
fn taskboard_url_builds_token_prefix() {
    assert_eq!(taskboard_url("127.0.0.1", 47823, "tok"), "http://127.0.0.1:47823/tok");
    assert_eq!(taskboard_url("0.0.0.0", 8080, "abc"), "http://0.0.0.0:8080/abc");
}

#[test]
fn taskboard_url_renders_port_zero_and_max() {
    assert_eq!(taskboard_url("h", 0, "t"), "http://h:0/t");
    assert_eq!(taskboard_url("h", 65535, "t"), "http://h:65535/t");
}

#[test]
fn credentials_need_long_token_and_hex_secret() {
    assert!(instance_credentials_valid("0123456789abcdef", &"a".repeat(32)));
    assert!(!instance_credentials_valid("short", &"a".repeat(32)));
    assert!(!instance_credentials_valid("0123456789abcdef", &"g".repeat(32)));
    assert!(!instance_credentials_valid("0123456789abcde_", &"a".repeat(32)));
}

fn sample_guard_state() -> codex_guard::config::CodexGuardState {
    codex_guard::config::CodexGuardState {
        enabled: true,
        params: vec![(
            "features.image_generation".to_string(),
            codex_guard::config::GuardParamState {
                value: Some(codex_guard::engine::GuardValue::Bool(false)),
                applied: true,
                locked: true,
                last_checked: Some(12345),
                last_restored: Some(12340),
            },
        )],
        files: Vec::new(),
    }
}

#[test]
fn merge_settings_preserves_codex_guard() {
    let mut current = codex_guard::config::LauncherConfig::default_for("/usr/bin/chatgpt");
    current.codex_guard = sample_guard_state();
    current.taskboard_path = "/old/path".to_string();
    current.auto_open = true;
    let settings = codex_guard::config::LauncherConfig {
        taskboard_path: "/new/path".to_string(),
        auto_open: false,
        cdp_port: 9999,
        ..codex_guard::config::LauncherConfig::default_for("/usr/bin/chatgpt")
    };
    codex_guard::config::merge_settings(&mut current, &settings);
    assert_eq!(current.taskboard_path, "/new/path");
    assert_eq!(current.auto_open, false);
    assert_eq!(current.cdp_port, 9999);
    assert_eq!(current.codex_guard.enabled, true);
    let p = &current.codex_guard.params.iter().find(|(k, _)| k == "features.image_generation").unwrap().1;
    assert_eq!(p.applied, true);
    assert_eq!(p.locked, true);
    assert_eq!(p.last_checked, Some(12345));
    assert_eq!(p.value, Some(codex_guard::engine::GuardValue::Bool(false)));
}

#[test]
fn merge_settings_updates_all_setting_fields() {
    let mut current = codex_guard::config::LauncherConfig::default_for("/usr/bin/chatgpt");
    current.codex_guard = sample_guard_state();
    let settings = codex_guard::config::LauncherConfig {
        taskboard_path: "tp".to_string(),
        node_path: "np".to_string(),
        codex_app_path: "cap".to_string(),
        taskboard_port: 1111,
        taskboard_host: "0.0.0.0".to_string(),
        cdp_port: 2222,
        auto_open: false,
        separate_window_mode: true,
        minimize_to_tray_on_close: true,
        language: "zh-CN".to_string(),
        ..codex_guard::config::LauncherConfig::default_for("/usr/bin/chatgpt")
    };
    codex_guard::config::merge_settings(&mut current, &settings);
    assert_eq!(current.taskboard_path, "tp");
    assert_eq!(current.node_path, "np");
    assert_eq!(current.codex_app_path, "cap");
    assert_eq!(current.taskboard_port, 1111);
    assert_eq!(current.taskboard_host, "0.0.0.0");
    assert_eq!(current.cdp_port, 2222);
    assert_eq!(current.auto_open, false);
    assert_eq!(current.separate_window_mode, true);
    assert_eq!(current.minimize_to_tray_on_close, true);
    assert_eq!(current.language, "zh-CN");
    assert_eq!(current.codex_guard.enabled, true);
    assert_eq!(current.codex_guard.params.len(), 1);
}

#[test]
fn default_guard_state_is_disabled_and_empty() {
    let cfg = codex_guard::config::LauncherConfig::default_for("/usr/bin/chatgpt");
    assert_eq!(cfg.codex_guard.enabled, false);
    assert!(cfg.codex_guard.params.is_empty());
    assert_eq!(cfg.taskboard_port, 47823);
    assert_eq!(cfg.cdp_port, 9231);
    assert_eq!(cfg.language, "system");
    assert!(cfg.auto_open);
}

#[test]
fn unc_prefix_is_stripped_on_windows_only() {
    assert_eq!(strip_unc(r"\\?\C:\work\board", true), r"C:\work\board");
    assert_eq!(strip_unc(r"\\?\UNC\server\share\x", true), r"\\server\share\x");
    assert_eq!(strip_unc(r"C:\plain", true), r"C:\plain");
    assert_eq!(strip_unc(r"\\?\C:\work", false), r"\\?\C:\work");
}

#[test]
fn stored_credentials_are_kept_when_valid_and_replaced_otherwise() {
    let mut cfg = LauncherConfig::default_for("");
    cfg.instance_token = "abcdef0123456789-tok".to_string();
    cfg.instance_secret = "0123456789abcdef0123456789abcdef".to_string();
    let (t, s, save) = keep_or_replace_credentials(&mut cfg, "new-token-0000000000".into(), "f".repeat(64));
    assert_eq!((t.as_str(), s.as_str(), save), ("abcdef0123456789-tok", "0123456789abcdef0123456789abcdef", false));
    cfg.instance_secret = "short".to_string();
    let (t, s, save) = keep_or_replace_credentials(&mut cfg, "new-token-0000000000".into(), "f".repeat(64));
    assert_eq!((t.as_str(), save), ("new-token-0000000000", true));
    assert_eq!(s, "f".repeat(64));
    assert_eq!(cfg.instance_token, "new-token-0000000000");
}

#[test]
fn empty_file_list_falls_back_to_the_builtin_files() {
    let (files, save) = files_or_builtin(Vec::new());
    assert!(save);
    assert_eq!(files.len(), codex_guard::guard::builtin_files().len());
    let (kept, save) = files_or_builtin(vec![codex_guard::guard::builtin_files().remove(0)]);
    assert!(!save);
    assert_eq!(kept.len(), 1);
}

#[test]
fn generated_credentials_have_the_taskboard_shapes() {
    let (token, secret) = generate_credentials();
    assert_eq!(token.len(), 36);
    assert!(token.chars().all(|c| c.is_ascii_hexdigit() && !c.is_ascii_uppercase() || c == '-'));
    assert_eq!(secret.len(), 64);
    assert!(secret.chars().all(|c| c.is_ascii_digit() || ('a'..='f').contains(&c)));
    assert!(instance_credentials_valid(&token, &secret));
    let mut cfg = LauncherConfig::default_for("");
    let (t, s, save) = ensure_instance_credentials(&mut cfg);
    assert!(save);
    assert_eq!(cfg.instance_token, t);
    assert_eq!(cfg.instance_secret, s);
    let (t2, s2, save2) = ensure_instance_credentials(&mut cfg);
    assert!(!save2);
    assert_eq!((t2, s2), (t, s));
}
