use codex_guard::roles::{
    build_managed_role_record, can_add_managed_role, discover_role, parse_role_toml,
    plan_default_role_migration, policy_hash_for_toml, render_minimal_role_toml,
    reorder_role_records, resolve_default_role_migration, role_count_near_limit, role_file_name,
    role_relative_path, sort_managed_role_records, update_role_toml, validate_copy_roles,
    validate_default_action, validate_new_role_id, validate_role_count, validate_role_file_name,
    validate_role_relative_path, validate_unique_role_ids, CapabilitySnapshot, ManagedRoleRecord,
    ModelCapability, RoleAction, RoleCapabilityStatus, RoleEditableFields, RoleErrorCode, RoleId,
    RoleLifecycle, RoleLifecycleAction, RoleMigrationChoice, RoleMigrationPlan, RoleMigrationSource,
    RoleSyntaxStatus, TextOrigin, DEFAULT_ROLE_ID, ordered_role_ids, parse_role_toml_bytes,
};

fn capabilities() -> CapabilitySnapshot {
    CapabilitySnapshot::new(
        vec![
            ModelCapability::new("model-v2", "v2", vec!["low".into(), "high".into()]).unwrap(),
            ModelCapability::new("model-v1", "v1", vec!["low".into()]).unwrap(),
        ],
        "fixture-build",
        10,
    )
    .unwrap()
}

fn role_toml(model: &str, effort: &str) -> String {
    format!(
        "# keep this comment\nname = \"Fixture\" # keep name note\ndescription = \"Fixture role\"\nmodel = \"{model}\"\nmodel_reasoning_effort = \"{effort}\"\ndeveloper_instructions = \"fixture instructions\"\nunknown = 1\n"
    )
}

#[test]
fn role_id_boundaries_and_path_validation_are_strict() {
    assert!(RoleId::new("a").is_ok());
    assert!(RoleId::new(&format!("a{}", "x".repeat(62))).is_ok());
    assert!(RoleId::new(&format!("a{}", "x".repeat(63))).is_err());
    for invalid in ["", "A", "-x", "x_", "x/y", "x\\y", "x..y", "../x", "x\0y"] {
        assert!(RoleId::new(invalid).is_err(), "{invalid:?} should be rejected");
    }
    let id = RoleId::new("inspector").unwrap();
    assert_eq!(role_file_name(&id), "inspector.toml");
    assert_eq!(role_relative_path(&id), "agents/inspector.toml");
    assert!(validate_role_file_name(&id, "inspector.toml").is_ok());
    assert!(validate_role_file_name(&id, "../inspector.toml").is_err());
    assert!(validate_role_relative_path(&id, "agents/../inspector.toml").is_err());
}

#[test]
fn duplicate_ids_are_case_insensitive_and_capacity_has_warning_threshold() {
    let ids = vec![RoleId::new("inspector").unwrap(), RoleId::new("writer").unwrap()];
    assert!(validate_unique_role_ids(&ids).is_ok());
    assert!(validate_role_count(32).is_ok());
    assert!(validate_role_count(33).is_err());
    assert!(!role_count_near_limit(27));
    assert!(role_count_near_limit(28));
    assert!(role_count_near_limit(32));
    assert!(can_add_managed_role(31).is_ok());
    assert!(can_add_managed_role(32).is_err());
}

#[test]
fn default_is_protected_but_other_roles_can_be_changed() {
    let default = RoleId::new(DEFAULT_ROLE_ID).unwrap();
    let custom = RoleId::new("inspector").unwrap();
    assert!(validate_new_role_id("new-role", std::slice::from_ref(&default)).is_ok());
    assert_eq!(validate_new_role_id("default", &[]).unwrap_err().code, RoleErrorCode::DefaultRoleProtected);
    for action in [RoleAction::Rename, RoleAction::CopyInto, RoleAction::StopManaging, RoleAction::Delete] {
        assert_eq!(
            validate_default_action(&default, action).unwrap_err().code,
            RoleErrorCode::DefaultRoleProtected
        );
        assert!(validate_default_action(&custom, action).is_ok());
    }
    assert!(validate_copy_roles(&default, &custom).is_ok());
    assert_eq!(validate_copy_roles(&custom, &default).unwrap_err().code, RoleErrorCode::DefaultRoleProtected);
}

#[test]
fn lifecycle_is_a_valid_enum_and_rejects_legacy_impossible_state() {
    assert_eq!(RoleLifecycle::from_flags(false, false).unwrap(), RoleLifecycle::Disabled);
    assert_eq!(RoleLifecycle::from_flags(true, false).unwrap(), RoleLifecycle::Applied);
    assert_eq!(RoleLifecycle::from_flags(true, true).unwrap(), RoleLifecycle::Locked);
    assert!(RoleLifecycle::from_flags(false, true).is_err());
    assert_eq!(RoleLifecycle::Disabled.transition(RoleLifecycleAction::Lock).unwrap(), RoleLifecycle::Locked);
    assert_eq!(RoleLifecycle::Locked.transition(RoleLifecycleAction::Disable).unwrap(), RoleLifecycle::Disabled);
}

fn record(id: &str, order: u32) -> ManagedRoleRecord {
    ManagedRoleRecord {
        id: RoleId::new(id).unwrap(),
        selection_criteria: "fixture criteria".into(),
        order,
        expected_toml: role_toml("model-v2", "low"),
        policy_revision: 1,
        policy_hash: "hash".into(),
        policy_updated_at_ms: 1,
        description_origin: TextOrigin::User,
        instructions_origin: TextOrigin::User,
    }
}

#[test]
fn ordering_keeps_default_first_and_does_not_change_ids_or_paths() {
    let mut records = vec![record("writer", 2), record("default", 9), record("inspector", 1)];
    sort_managed_role_records(&mut records);
    assert_eq!(records.iter().map(|record| record.id.as_str()).collect::<Vec<_>>(), vec!["default", "inspector", "writer"]);
    assert_eq!(role_relative_path(&records[0].id), "agents/default.toml");
    let requested = vec![
        RoleId::new("default").unwrap(),
        RoleId::new("writer").unwrap(),
        RoleId::new("inspector").unwrap(),
    ];
    reorder_role_records(&mut records, &requested).unwrap();
    assert_eq!(records[1].id.as_str(), "writer");
    assert_eq!(records[1].order, 1);
    assert_eq!(role_relative_path(&records[1].id), "agents/writer.toml");
}

#[test]
fn migration_auto_adopts_equal_sources_and_has_three_explicit_resolution_branches() {
    let stored = role_toml("model-v2", "low");
    let live = role_toml("model-v2", "high");
    let safe = role_toml("model-v2", "low");
    let plan = plan_default_role_migration(Some(&stored), Some(&stored), RoleLifecycle::Locked, &safe).unwrap();
    assert_eq!(
        plan,
        RoleMigrationPlan::Auto { source: RoleMigrationSource::Stored, lifecycle: RoleLifecycle::Locked }
    );
    let conflict = plan_default_role_migration(Some(&stored), Some(&live), RoleLifecycle::Locked, &safe).unwrap();
    assert!(matches!(conflict, RoleMigrationPlan::Pending { .. }));
    let adopted_live = resolve_default_role_migration(
        RoleMigrationChoice::AdoptLive,
        Some(&stored),
        Some(&live),
        &safe,
        RoleLifecycle::Locked,
        20,
    )
    .unwrap();
    assert_eq!(adopted_live.lifecycle, RoleLifecycle::Locked);
    assert_eq!(adopted_live.source, RoleMigrationSource::Live);
    let adopted_stored = resolve_default_role_migration(
        RoleMigrationChoice::AdoptStored,
        Some(&stored),
        Some(&live),
        &safe,
        RoleLifecycle::Locked,
        20,
    )
    .unwrap();
    assert_eq!(adopted_stored.lifecycle, RoleLifecycle::Disabled);
    assert_eq!(adopted_stored.record.id.as_str(), DEFAULT_ROLE_ID);
    let safe_default = resolve_default_role_migration(
        RoleMigrationChoice::UseSafeDefault,
        Some(&stored),
        Some(&live),
        &safe,
        RoleLifecycle::Locked,
        20,
    )
    .unwrap();
    assert_eq!(safe_default.lifecycle, RoleLifecycle::Disabled);
    assert_eq!(safe_default.source, RoleMigrationSource::SafeDefault);
}

#[test]
fn role_toml_parses_known_fields_and_only_warns_on_unknown_keys() {
    let parsed = parse_role_toml(&role_toml("model-v2", "low")).unwrap();
    assert_eq!(parsed.view.display_name, "Fixture");
    assert_eq!(parsed.view.purpose, "Fixture role");
    assert_eq!(parsed.view.model, "model-v2");
    assert_eq!(parsed.view.effort, "low");
    assert_eq!(parsed.warnings.len(), 1);
    assert_eq!(parsed.warnings[0].field.as_deref(), Some("unknown"));
    assert_eq!(parse_role_toml("name = 1").unwrap_err().code, RoleErrorCode::InvalidRoleFieldType);
    assert_eq!(parse_role_toml("name = \"x\"\0").unwrap_err().code, RoleErrorCode::InvalidText);
    assert_eq!(parse_role_toml("name = ").unwrap_err().code, RoleErrorCode::InvalidRoleToml);
    assert_eq!(parse_role_toml("description = \"x\"").unwrap_err().code, RoleErrorCode::MissingRoleField);
    assert_eq!(parse_role_toml_bytes(&[0xff]).unwrap_err().code, RoleErrorCode::InvalidText);
}

#[test]
fn updating_known_fields_preserves_comments_and_unknown_keys() {
    let original = role_toml("model-v2", "low");
    let fields = RoleEditableFields {
        display_name: "Updated".into(),
        purpose: "Updated purpose".into(),
        selection_criteria: "Updated criteria".into(),
        model: "model-v2".into(),
        effort: "high".into(),
        instructions: "updated instructions".into(),
    };
    let updated = update_role_toml(&original, &fields).unwrap();
    assert!(updated.contains("# keep this comment"));
    assert!(updated.contains("# keep name note"));
    assert!(updated.contains("unknown = 1"));
    assert_eq!(parse_role_toml(&updated).unwrap().view.effort, "high");
    assert_ne!(
        policy_hash_for_toml(&original, "fixture criteria").unwrap(),
        policy_hash_for_toml(&updated, "Updated criteria").unwrap()
    );
    let formatting_only = original.replace("# keep this comment\n", "# another comment\n");
    assert_eq!(
        policy_hash_for_toml(&original, "fixture criteria").unwrap(),
        policy_hash_for_toml(&formatting_only, "fixture criteria").unwrap()
    );
    assert_eq!(policy_hash_for_toml(&original, "x").unwrap().len(), 64);
}

#[test]
fn rendered_role_document_parses_back_to_the_trimmed_fields() {
    let fields = RoleEditableFields {
        display_name: "  Inspector ".into(),
        purpose: "Inspect changes".into(),
        selection_criteria: "inspect code".into(),
        model: "model-v2".into(),
        effort: "low".into(),
        instructions: " Inspect the change. ".into(),
    };
    let text = render_minimal_role_toml(&fields).unwrap();
    let parsed = parse_role_toml(&text).unwrap();
    assert_eq!(parsed.view.display_name, "Inspector");
    assert_eq!(parsed.view.instructions, "Inspect the change.");
    assert!(parsed.warnings.is_empty());
    let mut bad = fields.clone();
    bad.display_name = "   ".into();
    assert_eq!(render_minimal_role_toml(&bad).unwrap_err().code, RoleErrorCode::InvalidText);
}

#[test]
fn capability_only_accepts_v2_models_and_declared_efforts() {
    let snapshot = capabilities();
    assert_eq!(snapshot.available_models(), vec!["model-v2"]);
    assert_eq!(snapshot.efforts_for("model-v2"), vec!["low", "high"]);
    assert!(snapshot.supports("model-v2", "high"));
    assert!(!snapshot.supports("model-v1", "low"));
    assert_eq!(snapshot.validate_selection("missing", "low").unwrap_err().code, RoleErrorCode::UnsupportedModel);
    assert_eq!(
        snapshot.validate_selection("model-v1", "low").unwrap_err().code,
        RoleErrorCode::UnsupportedMultiAgentVersion
    );
    assert_eq!(
        snapshot.validate_selection("model-v2", "medium").unwrap_err().code,
        RoleErrorCode::UnsupportedReasoningEffort
    );
    assert!(CapabilitySnapshot::new(vec![], "/private/codex", 1).is_err());
    assert!(ModelCapability::new("m", "v2", vec!["low".into(), "low".into()]).is_err());
}

#[test]
fn discovery_reports_adoptable_outside_and_managed_files() {
    let snapshot = capabilities();
    let discovered = discover_role("agents/discovered.toml", &role_toml("model-v2", "low"), &[], Some(&snapshot));
    assert!(discovered.can_adopt);
    assert_eq!(discovered.syntax, RoleSyntaxStatus::Valid);
    assert_eq!(discovered.capability, RoleCapabilityStatus::Supported);
    let outside = discover_role(
        "/private/user/codex/agents/discovered.toml",
        &role_toml("model-v2", "low"),
        &[],
        Some(&snapshot),
    );
    assert_eq!(outside.relative_file_name, "discovered.toml");
    assert_eq!(outside.id, "discovered");
    assert!(!outside.can_adopt);
    let managed_invalid = discover_role("agents/discovered.toml", "name = 1", &[RoleId::new("discovered").unwrap()], Some(&snapshot));
    assert!(managed_invalid.managed);
    assert!(!managed_invalid.can_adopt);
    let unavailable = discover_role("agents/x.toml", &role_toml("model-v2", "low"), &[], None);
    assert_eq!(unavailable.capability, RoleCapabilityStatus::Unavailable);
}

#[test]
fn built_record_has_revision_one_and_a_hash() {
    let fields = RoleEditableFields {
        display_name: "Inspector".into(),
        purpose: "Inspect changes".into(),
        selection_criteria: "inspect code".into(),
        model: "model-v2".into(),
        effort: "low".into(),
        instructions: "Inspect the change.".into(),
    };
    let rec = build_managed_role_record(
        RoleId::new("inspector").unwrap(),
        &fields,
        3,
        7,
        &capabilities(),
        TextOrigin::User,
        TextOrigin::Builtin,
    )
    .unwrap();
    assert_eq!(rec.policy_revision, 1);
    assert_eq!(rec.order, 3);
    assert_eq!(rec.policy_hash.len(), 64);
    assert_eq!(rec.policy_hash, policy_hash_for_toml(&rec.expected_toml, "inspect code").unwrap());
    let mut unsupported = fields.clone();
    unsupported.effort = "medium".into();
    assert_eq!(
        build_managed_role_record(RoleId::new("inspector").unwrap(), &unsupported, 1, 1, &capabilities(), TextOrigin::User, TextOrigin::User)
            .unwrap_err()
            .code,
        RoleErrorCode::UnsupportedReasoningEffort
    );
}

#[test]
fn reorder_refusals_leave_records_unchanged() {
    let mut records = vec![record("default", 0), record("writer", 1)];
    let wrong_len = vec![RoleId::new("default").unwrap()];
    assert_eq!(reorder_role_records(&mut records, &wrong_len).unwrap_err().code, RoleErrorCode::InvalidRoleOrder);
    let default_last = vec![RoleId::new("writer").unwrap(), RoleId::new("default").unwrap()];
    assert_eq!(
        reorder_role_records(&mut records, &default_last).unwrap_err().code,
        RoleErrorCode::DefaultRoleProtected
    );
    let unknown = vec![RoleId::new("default").unwrap(), RoleId::new("other").unwrap()];
    assert_eq!(reorder_role_records(&mut records, &unknown).unwrap_err().code, RoleErrorCode::InvalidRoleOrder);
    assert_eq!(records[1].id.as_str(), "writer");
    let ids = ordered_role_ids(&[record("b", 0), record("a", 0)]).unwrap();
    assert_eq!(ids.iter().map(|i| i.as_str()).collect::<Vec<_>>(), vec!["a", "b"]);
}

#[test]
fn offered_migration_choices_all_resolve() {
    let stored = role_toml("model-v2", "low");
    let safe = role_toml("model-v2", "low");
    let plan = plan_default_role_migration(Some(&stored), None, RoleLifecycle::Applied, &safe).unwrap();
    match plan {
        RoleMigrationPlan::Pending { choices, .. } => {
            assert_eq!(choices, vec![RoleMigrationChoice::AdoptStored, RoleMigrationChoice::UseSafeDefault]);
            for choice in choices {
                assert!(resolve_default_role_migration(choice, Some(&stored), None, &safe, RoleLifecycle::Applied, 1).is_ok());
            }
        }
        _ => panic!("expected a pending plan"),
    }
    assert_eq!(
        resolve_default_role_migration(RoleMigrationChoice::AdoptLive, Some(&stored), None, &safe, RoleLifecycle::Applied, 1)
            .unwrap_err()
            .code,
        RoleErrorCode::MigrationSourceUnavailable
    );
}
