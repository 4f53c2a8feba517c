use codex_guard::journal::{
    validate_batch_and_ref, valid_component, valid_hash, valid_relative_ref, JournalEntry, JournalEnvelope,
    JournalParticipant,
};
use codex_guard::transaction::TransactionErrorCode;

fn entry() -> JournalEntry {
    JournalEntry {
        participant: JournalParticipant::Codex,
        relative_file: "config.toml".into(),
        original_exists: true,
        original_sha256: "0".repeat(64),
        candidate_exists: true,
        candidate_sha256: "1".repeat(64),
        snapshot_ref: "snapshots/config.toml.bin".into(),
        completed: false,
        post_checked: false,
        restored: false,
    }
}

#[test]
fn unknown_schema_and_absolute_refs_fail_closed() {
    let mut journal = JournalEnvelope::new("batch-1".into(), vec![entry()]);
    journal.schema_version = 99;
    assert_eq!(journal.validate().unwrap_err().code, TransactionErrorCode::JournalSchema);
    let mut journal = JournalEnvelope::new("batch-1".into(), vec![entry()]);
    journal.entries[0].relative_file = "/outside/config.toml".into();
    assert_eq!(journal.validate().unwrap_err().code, TransactionErrorCode::JournalSchema);
}

#[test]
fn relative_refs_components_and_hashes() {
    assert!(valid_relative_ref("snapshots/entry-0.bin"));
    assert!(!valid_relative_ref("../outside"));
    assert!(!valid_relative_ref("a//b"));
    assert!(!valid_relative_ref("C:\\x"));
    assert!(!valid_relative_ref("a/./b"));
    assert!(!valid_relative_ref(""));
    assert!(valid_component("batch-1"));
    assert!(!valid_component(".."));
    assert!(!valid_component("a/b"));
    assert!(valid_hash(&"aF".repeat(32)));
    assert!(!valid_hash(&"g".repeat(64)));
    assert!(!valid_hash("00"));
    assert!(validate_batch_and_ref("batch-1", "snapshots/entry-0.bin").is_ok());
    assert_eq!(validate_batch_and_ref("batch-1", "../outside").unwrap_err().code, TransactionErrorCode::JournalSchema);
}

#[test]
fn commit_marker_requires_completion() {
    let mut journal = JournalEnvelope::new("batch-1".into(), vec![entry()]);
    assert!(journal.validate().is_ok());
    journal.commit_marker = true;
    assert!(journal.validate().is_err());
}
