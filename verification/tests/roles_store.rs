use codex_guard::roles::{
    build_managed_role_record, CapabilitySnapshot, ModelCapability, RoleEditableFields, RoleId,
    RoleLifecycle, TextOrigin,
};
use codex_guard::roles_store::{
    markdown_single_line, render_role_directory, render_role_directory_content,
    replace_role_directory_block, validate_role_states, ManagedRoleState, ROLE_DIRECTORY_BEGIN,
    ROLE_DIRECTORY_END,
};

fn capabilities() -> CapabilitySnapshot {
    CapabilitySnapshot::new(vec![ModelCapability::new("model-v2", "v2", vec!["low".into()]).unwrap()], "fixture", 1)
        .unwrap()
}

fn fields() -> RoleEditableFields {
    RoleEditableFields {
        display_name: "Inspector".into(),
        purpose: "Inspect changes".into(),
        selection_criteria: "inspect code".into(),
        model: "model-v2".into(),
        effort: "low".into(),
        instructions: "Inspect the change.".into(),
    }
}

fn states() -> Vec<ManagedRoleState> {
    vec![ManagedRoleState::new(
        build_managed_role_record(
            RoleId::new("inspector").unwrap(),
            &fields(),
            1,
            1,
            &capabilities(),
            TextOrigin::User,
            TextOrigin::User,
        )
        .unwrap(),
    )]
}

fn present() -> Vec<String> {
    vec!["inspector".to_string()]
}

#[test]
fn role_directory_is_single_line_and_does_not_include_instructions() {
    let block = render_role_directory(&states(), &present()).unwrap();
    assert!(block.contains("agent_type"));
    assert!(block.contains("fork_turns=\"none\""));
    assert!(block.contains("Inspect changes"));
    assert!(!block.contains("Inspect the change."));
    assert!(block.lines().all(|line| !line.contains('\r')));
}

#[test]
fn reorder_keeps_each_lifecycle_with_its_own_role() {
    let make = |id: &str, lifecycle: RoleLifecycle| ManagedRoleState {
        record: build_managed_role_record(
            RoleId::new(id).unwrap(),
            &fields(),
            1,
            1,
            &capabilities(),
            TextOrigin::User,
            TextOrigin::User,
        )
        .unwrap(),
        lifecycle,
    };
    let mut states = vec![
        make("default", RoleLifecycle::Locked),
        make("inspector", RoleLifecycle::Disabled),
        make("writer", RoleLifecycle::Locked),
    ];
    let requested = vec![
        RoleId::new("default").unwrap(),
        RoleId::new("writer").unwrap(),
        RoleId::new("inspector").unwrap(),
    ];
    ManagedRoleState::reorder(&mut states, &requested).unwrap();
    assert_eq!(
        states.iter().map(|managed| (managed.id().as_str(), managed.lifecycle)).collect::<Vec<_>>(),
        vec![("default", RoleLifecycle::Locked), ("writer", RoleLifecycle::Locked), ("inspector", RoleLifecycle::Disabled)],
        "reorder must not transplant a lifecycle onto a different role"
    );
    assert_eq!(states.iter().map(|managed| managed.record.order).collect::<Vec<_>>(), vec![0, 1, 2]);
}

#[test]
fn role_directory_replacement_preserves_surrounding_document() {
    let old = "before\n<!-- dashi:begin subagent-role-directory -->\nold\n<!-- dashi:end subagent-role-directory -->\nafter\n";
    let updated = replace_role_directory_block(old, &states(), &present()).unwrap();
    assert!(updated.starts_with("before\n"));
    assert!(updated.ends_with("after\n"));
    assert!(!updated.contains("\nold\n"));
}

#[test]
fn role_directory_content_is_ready_for_shared_markdown_planning() {
    let content = render_role_directory_content(&states(), &present()).unwrap();
    assert!(!content.contains(ROLE_DIRECTORY_BEGIN));
    assert!(!content.contains(ROLE_DIRECTORY_END));
    assert!(content.contains("Use the exact agent_type below"));
    let document = format!("before\n{}\n{}\n{}\nafter\n", ROLE_DIRECTORY_BEGIN, content, ROLE_DIRECTORY_END);
    let replaced = replace_role_directory_block(&document, &states(), &present()).unwrap();
    assert!(replaced.contains(content.trim()));
    assert!(replaced.starts_with("before\n"));
    assert!(replaced.ends_with("after\n"));
}

#[test]
fn role_directory_rejects_reversed_markers() {
    let reversed = format!("before\n{}\nold\n{}\nafter\n", ROLE_DIRECTORY_END, ROLE_DIRECTORY_BEGIN);
    assert_eq!(
        replace_role_directory_block(&reversed, &states(), &present()).unwrap_err(),
        "role_directory_markers_invalid"
    );
}

#[test]
fn markdown_line_escapes_and_squashes_whitespace() {
    assert_eq!(markdown_single_line("  a\tb\n*c*  [d] "), "a b \\*c\\* \\[d\\]");
    assert_eq!(markdown_single_line("x|y<z>_w\\"), "x\\|y\\<z\\>\\_w\\\\");
}

#[test]
fn directory_without_markers_is_appended_and_absent_roles_are_left_out() {
    let updated = replace_role_directory_block("notes", &states(), &present()).unwrap();
    assert!(updated.starts_with("notes\n\n<!-- dashi:begin subagent-role-directory -->"));
    assert!(updated.ends_with("<!-- dashi:end subagent-role-directory -->\n"));
    let empty = render_role_directory(&states(), &[]).unwrap();
    assert!(!empty.contains("agent_type=inspector"));
    let twice = format!("{b}\n{e}\n{b}\n{e}\n", b = ROLE_DIRECTORY_BEGIN, e = ROLE_DIRECTORY_END);
    assert_eq!(replace_role_directory_block(&twice, &states(), &present()).unwrap_err(), "role_directory_markers_invalid");
}

#[test]
fn role_states_with_duplicate_ids_are_refused() {
    let mut s = states();
    s.extend(states());
    assert_eq!(validate_role_states(&s).unwrap_err().code, codex_guard::roles::RoleErrorCode::DuplicateRoleId);
    assert_eq!(render_role_directory(&s, &present()).unwrap_err(), "role.duplicate_id");
    assert!(validate_role_states(&states()).is_ok());
}
