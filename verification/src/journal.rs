//! The versioned transaction journal: relative targets, hashes, snapshot references and
//! progress flags, never file contents, absolute paths or user values.
use vstd::prelude::*;
use crate::transaction::{TransactionError, TransactionErrorCode, TransactionPhase};
use crate::text::{chars_of, has_char, str_eq};

verus! {

pub const JOURNAL_SCHEMA_VERSION: u16 = 1;

#[derive(Debug, Clone, Copy, PartialEq, Eq, Structural)]
pub enum JournalParticipant {
    Codex,
    Launcher,
}

#[derive(Debug, Clone)]
pub struct JournalEntry {
    pub participant: JournalParticipant,
    pub relative_file: String,
    pub original_exists: bool,
    pub original_sha256: String,
    pub candidate_exists: bool,
    pub candidate_sha256: String,
    pub snapshot_ref: String,
    pub completed: bool,
    pub post_checked: bool,
    pub restored: bool,
}

#[derive(Debug, Clone)]
pub struct JournalEnvelope {
    pub schema_version: u16,
    pub batch_id: String,
    pub phase: TransactionPhase,
    pub entries: Vec<JournalEntry>,
    pub commit_marker: bool,
    pub critical: bool,
}

impl JournalEnvelope {
    /// A new journal: current schema, preflight, no marker.
    pub fn new(batch_id: String, entries: Vec<JournalEntry>) -> (r: Self)
        ensures
            r.schema_version == JOURNAL_SCHEMA_VERSION,
            r.batch_id@ == batch_id@,
            r.phase == TransactionPhase::Preflight,
            r.entries@ == entries@,
            !r.commit_marker,
            !r.critical,
    {
        JournalEnvelope {
            schema_version: JOURNAL_SCHEMA_VERSION,
            batch_id,
            phase: TransactionPhase::Preflight,
            entries,
            commit_marker: false,
            critical: false,
        }
    }

    /// Checks the schema version, the batch id, the marker and every entry.
    pub fn validate(&self) -> (r: Result<(), TransactionError>)
        ensures
            journal_valid(*self) ==> r is Ok,
            !journal_valid(*self) ==> (r matches Err(e) && e.code == TransactionErrorCode::JournalSchema),
    {
        if self.schema_version != JOURNAL_SCHEMA_VERSION || !valid_component(self.batch_id.as_str())
            || (self.commit_marker && self.phase != TransactionPhase::Completed) {
            return Err(TransactionError::new(TransactionErrorCode::JournalSchema));
        }
        let mut i: usize = 0;
        while i < self.entries.len()
            invariant
                i <= self.entries@.len(),
                forall|k: int| 0 <= k < i ==> entry_valid(#[trigger] self.entries@[k]),
            decreases self.entries@.len() - i,
        {
            let entry = &self.entries[i];
            if !valid_relative_ref(entry.relative_file.as_str()) || !valid_relative_ref(
                entry.snapshot_ref.as_str(),
            ) || !valid_hash(entry.original_sha256.as_str()) || !valid_hash(
                entry.candidate_sha256.as_str(),
            ) {
                assert(!entry_valid(self.entries@[i as int]));
                return Err(TransactionError::new(TransactionErrorCode::JournalSchema));
            }
            i += 1;
        }
        Ok(())
    }
}

pub open spec fn entry_valid(e: JournalEntry) -> bool {
    relative_ref_ok(e.relative_file@) && relative_ref_ok(e.snapshot_ref@) && hash_ok(
        e.original_sha256@,
    ) && hash_ok(e.candidate_sha256@)
}

pub open spec fn journal_valid(j: JournalEnvelope) -> bool {
    &&& j.schema_version == JOURNAL_SCHEMA_VERSION
    &&& component_ok(j.batch_id@)
    &&& !(j.commit_marker && j.phase != TransactionPhase::Completed)
    &&& forall|k: int| 0 <= k < j.entries@.len() ==> entry_valid(#[trigger] j.entries@[k])
}

/// One path component: not empty, not `.` or `..`, with no separator or NUL.
pub open spec fn component_ok(v: Seq<char>) -> bool {
    v.len() > 0 && v != "."@ && v != ".."@ && !v.contains('/') && !v.contains('\\') && !v.contains(
        '\0',
    )
}

pub fn valid_component(value: &str) -> (r: bool)
    ensures
        r == component_ok(value@),
{
    let v = chars_of(value);
    v.len() > 0 && !str_eq(value, ".") && !str_eq(value, "..") && !has_char(&v, '/') && !has_char(
        &v,
        '\\',
    ) && !has_char(&v, '\0')
}

pub open spec fn is_sep(c: char) -> bool {
    c == '/' || c == '\\'
}

/// The parts of a path split at `/` and `\` (`str::split`).
pub open spec fn path_parts(s: Seq<char>) -> Seq<Seq<char>>
    decreases s.len(),
{
    if s.len() == 0 {
        seq![Seq::empty()]
    } else {
        let rest = path_parts(s.drop_last());
        if is_sep(s.last()) {
            rest.push(Seq::empty())
        } else {
            rest.update(rest.len() - 1, rest.last().push(s.last()))
        }
    }
}

pub open spec fn part_ok(p: Seq<char>) -> bool {
    p.len() > 0 && p != "."@ && p != ".."@
}

/// A relative reference: not empty, no NUL or `:`, and every part a plain name. Absolute
/// paths always fail: they start with a separator (an empty part) or hold `:`.
pub open spec fn relative_ref_ok(v: Seq<char>) -> bool {
    v.len() > 0 && !v.contains('\0') && !v.contains(':') && forall|i: int|
        0 <= i < path_parts(v).len() ==> part_ok(#[trigger] path_parts(v)[i])
}

proof fn lemma_path_parts_len(s: Seq<char>)
    ensures
        path_parts(s).len() >= 1,
    decreases s.len(),
{
    if s.len() > 0 {
        lemma_path_parts_len(s.drop_last());
    }
}

pub proof fn lemma_path_parts_len_pub(s: Seq<char>)
    ensures
        path_parts(s).len() >= 1,
{
    lemma_path_parts_len(s);
}

pub fn valid_relative_ref(value: &str) -> (r: bool)
    ensures
        r == relative_ref_ok(value@),
{
    let v = chars_of(value);
    if v.len() == 0 || has_char(&v, '\0') || has_char(&v, ':') {
        return false;
    }
    // Every finished part so far is a plain name; `current` is the part being read.
    let mut current: Vec<char> = Vec::new();
    let mut i: usize = 0;
    while i < v.len()
        invariant
            i <= v@.len(),
            v@ == value@,
            v@.len() > 0 && !v@.contains('\0') && !v@.contains(':'),
            path_parts(v@.subrange(0, i as int)).len() >= 1,
            current@ == path_parts(v@.subrange(0, i as int)).last(),
            forall|k: int|
                0 <= k < path_parts(v@.subrange(0, i as int)).len() - 1 ==> part_ok(
                    #[trigger] path_parts(v@.subrange(0, i as int))[k],
                ),
        decreases v@.len() - i,
    {
        let ghost pre = v@.subrange(0, i as int);
        let ghost next = v@.subrange(0, i + 1);
        assert(next.drop_last() =~= pre);
        proof {
            lemma_path_parts_len(pre);
        }
        let c = v[i];
        if c == '/' || c == '\\' {
            if current.len() == 0 || str_eq(crate::text::string_of(&current).as_str(), ".") || str_eq(
                crate::text::string_of(&current).as_str(),
                "..",
            ) {
                proof {
                    let k = path_parts(pre).len() - 1;
                    assert(!part_ok(current@));
                    assert(path_parts(next) == path_parts(pre).push(Seq::<char>::empty()));
                    assert(path_parts(next)[k] == current@);
                    lemma_parts_prefix_bad(v@, i + 1, k);
                }
                return false;
            }
            current = Vec::new();
        } else {
            current.push(c);
        }
        i += 1;
    }
    assert(v@.subrange(0, v@.len() as int) =~= v@);
    let last = crate::text::string_of(&current);
    if current.len() == 0 || str_eq(last.as_str(), ".") || str_eq(last.as_str(), "..") {
        return false;
    }
    true
}

/// A part that a prefix has finished stays a part of the whole path.
proof fn lemma_parts_prefix_bad(s: Seq<char>, n: int, k: int)
    requires
        0 < n <= s.len(),
        0 <= k < path_parts(s.subrange(0, n)).len() - 1,
        !part_ok(path_parts(s.subrange(0, n))[k]),
    ensures
        !relative_ref_ok(s),
    decreases s.len() - n,
{
    if n == s.len() {
        assert(s.subrange(0, n) =~= s);
    } else {
        let pre = s.subrange(0, n);
        let next = s.subrange(0, n + 1);
        assert(next.drop_last() =~= pre);
        lemma_path_parts_len(pre);
        assert(path_parts(next)[k] == path_parts(pre)[k]);
        lemma_parts_prefix_bad(s, n + 1, k);
    }
}

pub open spec fn is_hex(c: char) -> bool {
    ('0' <= c <= '9') || ('a' <= c <= 'f') || ('A' <= c <= 'F')
}

/// 64 hex digits.
pub open spec fn hash_ok(v: Seq<char>) -> bool {
    v.len() == 64 && forall|i: int| 0 <= i < v.len() ==> is_hex(#[trigger] v[i])
}

pub fn valid_hash(value: &str) -> (r: bool)
    ensures
        r == hash_ok(value@),
{
    let v = chars_of(value);
    if v.len() != 64 {
        return false;
    }
    let mut i: usize = 0;
    while i < v.len()
        invariant
            i <= v@.len(),
            v@ == value@,
            v@.len() == 64,
            forall|k: int| 0 <= k < i ==> is_hex(#[trigger] v@[k]),
        decreases v@.len() - i,
    {
        let c = v[i];
        if !(('0' <= c && c <= '9') || ('a' <= c && c <= 'f') || ('A' <= c && c <= 'F')) {
            assert(!is_hex(v@[i as int]));
            return false;
        }
        i += 1;
    }
    true
}

/// Checks a batch id and a snapshot reference before they name a file.
pub fn validate_batch_and_ref(batch_id: &str, snapshot_ref: &str) -> (r: Result<(), TransactionError>)
    ensures
        component_ok(batch_id@) && relative_ref_ok(snapshot_ref@) ==> r is Ok,
        !(component_ok(batch_id@) && relative_ref_ok(snapshot_ref@)) ==> (r matches Err(e) && e.code
            == TransactionErrorCode::JournalSchema),
{
    if !valid_component(batch_id) || !valid_relative_ref(snapshot_ref) {
        return Err(TransactionError::new(TransactionErrorCode::JournalSchema));
    }
    Ok(())
}

} // verus!
