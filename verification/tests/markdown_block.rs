use codex_guard::markdown_block::{block_begin, block_end, extract_block, upsert_block};

#[test]
fn markdown_block_markdown_block_append_and_replace() {
    let s = upsert_block("# 我的笔记\n\n已有内容。\n", "<!-- b -->", "<!-- e -->", "你好");
    assert!(s.contains("已有内容。"));
    assert!(s.contains("<!-- b -->\n你好\n<!-- e -->"));
    let s2 = upsert_block(&s, "<!-- b -->", "<!-- e -->", "世界");
    assert!(s2.contains("世界"));
    assert!(!s2.contains("你好"));
    assert_eq!(extract_block(&s2, "<!-- b -->", "<!-- e -->").as_deref(), Some("世界"));
}

#[test]
fn codex_guard_markdown_block_append_and_replace() {
    let s = upsert_block("# 我的笔记\n\n已有内容。\n", "<!-- b -->", "<!-- e -->", "你好");
    assert!(s.contains("已有内容。"));
    assert!(s.contains("<!-- b -->\n你好\n<!-- e -->"));
    let s2 = upsert_block(&s, "<!-- b -->", "<!-- e -->", "世界");
    assert!(s2.contains("世界"));
    assert!(!s2.contains("你好"));
    assert_eq!(extract_block(&s2, "<!-- b -->", "<!-- e -->").as_deref(), Some("世界"));
}

#[test]
fn upsert_block_empty_content_produces_block_only() {
    let s = upsert_block("", "<!-- b -->", "<!-- e -->", "内容");
    assert_eq!(s, "<!-- b -->\n内容\n<!-- e -->\n");
}

#[test]
fn upsert_block_reversed_or_partial_markers_leave_content_unchanged() {
    let broken = "<!-- e -->\nxxx\n<!-- b -->\n";
    let s = upsert_block(broken, "<!-- b -->", "<!-- e -->", "新");
    assert_eq!(s, broken);
    let partial = "<!-- b -->\nxxx\n";
    assert_eq!(upsert_block(partial, "<!-- b -->", "<!-- e -->", "新"), partial);
}

#[test]
fn markers_are_built_from_the_id_and_read_back_trimmed() {
    assert_eq!(block_begin("x"), "<!-- dashi:begin x -->");
    assert_eq!(block_end("x"), "<!-- dashi:end x -->");
    let doc = upsert_block("text  \n", &block_begin("x"), &block_end("x"), "  body \n");
    assert_eq!(doc, "text\n\n<!-- dashi:begin x -->\nbody\n<!-- dashi:end x -->\n");
    assert_eq!(extract_block(&doc, &block_begin("x"), &block_end("x")).as_deref(), Some("body"));
    assert_eq!(extract_block("no markers", "<!-- b -->", "<!-- e -->"), None);
}
