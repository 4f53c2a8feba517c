use codex_guard::engine::{check_content, GuardValue, TomlScalar};
use codex_guard::toml_path::{toml_remove_path, toml_set_path};

fn keys(path: &str) -> Vec<String> {
    path.split('.').map(|s| s.to_string()).collect()
}

fn present(text: &str, path: &str) -> bool {
    check_content("toml_absent", "p", path, Some(text), &GuardValue::Other).status == "drift"
}

fn set_get_remove_roundtrip() {
    let out = toml_set_path("[mcp_servers.x]\nurl = \"u\"\n", &keys("features.multi_agent_v2.enabled"), &TomlScalar::Bool(true)).unwrap();
    assert_eq!(check_content("toml_key", "p", "features.multi_agent_v2.enabled", Some(&out), &GuardValue::Bool(true)).status, "match");
    assert!(present(&out, "mcp_servers.x.url"));
    let doc2 = toml_remove_path("# 注释\nx = 1\n[agents]\nmax_threads = 6\n", &keys("agents")).unwrap();
    assert!(!present(&doc2, "agents"));
    assert!(doc2.contains("# 注释"));
    assert!(present(&doc2, "x"));
}

fn remove_nested() {
    let doc = toml_remove_path("[a.b]\nx = 1\n", &keys("a.b")).unwrap();
    assert!(!present(&doc, "a.b"));
}

#[test]
fn codex_fs_toml_set_get_remove_roundtrip() {
    set_get_remove_roundtrip();
}

#[test]
fn codex_guard_toml_set_get_remove_roundtrip() {
    set_get_remove_roundtrip();
}

#[test]
fn codex_fs_toml_remove_nested() {
    remove_nested();
}

#[test]
fn codex_guard_toml_remove_nested() {
    remove_nested();
}

#[test]
fn set_path_refuses_a_value_on_the_way_and_bad_text() {
    assert_eq!(
        toml_set_path("a = 1\n", &keys("a.b"), &TomlScalar::Int(2)).unwrap_err(),
        "Intermediate path node a is not a table"
    );
    assert!(toml_set_path("[x", &keys("a"), &TomlScalar::Int(2)).unwrap_err().starts_with("TOML parse failed; nothing written: "));
    assert!(toml_remove_path("[x", &keys("a")).is_err());
    let out = toml_set_path("a = 1\n", &keys("a"), &TomlScalar::Str("v".to_string())).unwrap();
    assert_eq!(out, "a = \"v\"\n");
}

#[test]
fn removing_a_missing_path_keeps_the_document() {
    assert_eq!(toml_remove_path("x = 1\n", &keys("a.b")).unwrap(), "x = 1\n");
}

#[test]
fn an_emptied_implicit_table_is_not_written() {
    assert_eq!(toml_remove_path("[a.b]\nx = 1\n", &keys("a.b")).unwrap(), "");
    assert!(!present(&toml_remove_path("[a.b]\nx = 1\n", &keys("a.b")).unwrap(), "a"));
}

#[test]
fn a_table_at_the_key_path_is_drift() {
    let r = check_content("toml_key", "p", "agents", Some("[agents]\nmax_threads = 6\n"), &GuardValue::Int(6));
    assert_eq!(r.status, "drift");
    assert!(r.actual.is_some());
    let r = check_content("toml_key", "p", "agents.max_threads", Some("[agents]\nmax_threads = 6\n"), &GuardValue::Int(6));
    assert_eq!(r.status, "match");
    let r = check_content("toml_key", "p", "agents.max_threads.deeper", Some("[agents]\nmax_threads = 6\n"), &GuardValue::Int(6));
    assert_eq!(r.status, "missing");
}
