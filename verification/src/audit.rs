//! Runtime provenance audit of sub-agents and the operation audit trail.
//!
//! The audit only takes bounded, already-read inputs and returns a small allow-listed
//! result: no prompt, message, path or parser text ever reaches it.
use vstd::prelude::*;
use crate::model::opt_view;
use crate::text::{chars_of, owned, str_eq};

verus! {

pub const AUDIT_SCHEMA_VERSION: u32 = 1;
pub const MAX_ROLLOUT_DATES: usize = 7;
pub const MAX_ROLLOUT_FILES: usize = 500;
pub const MAX_ROLLOUT_FILE_BYTES: usize = 16777216;
pub const MAX_ROLLOUT_LINE_BYTES: usize = 2097152;
pub const MAX_CHILDREN: usize = 20;
pub const MAX_IDENTIFIER_BYTES: usize = 128;
pub const MAX_PAIR_DELAY_MS: u64 = 120000;
pub const MAX_OPERATION_AUDIT_ENTRIES: usize = 500;
/// Thirty days.
pub const OPERATION_AUDIT_RETENTION_MS: u64 = 2592000000;

/// The source layer that the audit observed. Rollout evidence alone is never complete:
/// sampling evidence is needed before a full result can be claimed.
#[derive(Debug, Clone, Copy, PartialEq, Eq, Structural)]
pub enum AuditSourceSupport {
    Unsupported,
    RolloutOnly,
    Full,
}

#[derive(Debug, Clone, Copy, PartialEq, Eq, Structural)]
pub enum AuditVerdict {
    Match,
    Missing,
    Incomplete,
    Unsupported,
    Ambiguous,
    Mismatch,
}

/// How bad a verdict is; the order is explicit so that no verdict can pass for a better one.
pub open spec fn verdict_rank(v: AuditVerdict) -> int {
    match v {
        AuditVerdict::Mismatch => 6,
        AuditVerdict::Ambiguous => 5,
        AuditVerdict::Unsupported => 4,
        AuditVerdict::Incomplete => 3,
        AuditVerdict::Missing => 2,
        AuditVerdict::Match => 1,
    }
}

/// The worse of two verdicts (the first on a tie).
pub open spec fn worse(a: AuditVerdict, b: AuditVerdict) -> AuditVerdict {
    if verdict_rank(a) >= verdict_rank(b) {
        a
    } else {
        b
    }
}

impl AuditVerdict {
    pub fn rank(self) -> (r: u8)
        ensures
            r == verdict_rank(self),
    {
        match self {
            AuditVerdict::Mismatch => 6,
            AuditVerdict::Ambiguous => 5,
            AuditVerdict::Unsupported => 4,
            AuditVerdict::Incomplete => 3,
            AuditVerdict::Missing => 2,
            AuditVerdict::Match => 1,
        }
    }

    pub fn worst(self, other: Self) -> (r: Self)
        ensures
            r == worse(self, other),
    {
        if self.rank() >= other.rank() {
            self
        } else {
            other
        }
    }
}

/// Combining verdicts takes the worse one: the order of combination does not matter, a
/// verdict combined with itself is unchanged, `Match` changes nothing and `Mismatch`
/// always wins.
pub proof fn law_worst_is_a_maximum(a: AuditVerdict, b: AuditVerdict, c: AuditVerdict)
    ensures
        worse(a, b) == worse(b, a),
        worse(worse(a, b), c) == worse(a, worse(b, c)),
        worse(a, a) == a,
        worse(a, AuditVerdict::Match) == a,
        worse(a, AuditVerdict::Mismatch) == AuditVerdict::Mismatch,
        verdict_rank(worse(a, b)) >= verdict_rank(a),
        verdict_rank(worse(a, b)) >= verdict_rank(b),
{
}

/// A notice carries a stable code only: never parser text or a source identifier.
#[derive(Debug, Clone, PartialEq, Eq)]
pub struct AuditNotice {
    pub code: String,
}

impl AuditNotice {
    pub fn new(code: &str) -> (r: Self)
        ensures
            r.code@ == code@,
    {
        AuditNotice { code: owned(code) }
    }
}

pub open spec fn notice_codes(v: Seq<AuditNotice>) -> Seq<Seq<char>> {
    v.map_values(|n: AuditNotice| n.code@)
}

/// The notice list after noting `code`: appended once, never repeated.
pub open spec fn noted(codes: Seq<Seq<char>>, code: Seq<char>) -> Seq<Seq<char>> {
    if codes.contains(code) {
        codes
    } else {
        codes.push(code)
    }
}

pub fn push_notice(notices: &mut Vec<AuditNotice>, code: &str)
    ensures
        notice_codes(final(notices)@) == noted(notice_codes(old(notices)@), code@),
{
    let ghost before = notice_codes(notices@);
    let mut k: usize = 0;
    while k < notices.len()
        invariant
            k <= notices@.len(),
            before == notice_codes(notices@),
            forall|m: int| 0 <= m < k ==> #[trigger] before[m] != code@,
        decreases notices@.len() - k,
    {
        if str_eq(notices[k].code.as_str(), code) {
            assert(before[k as int] == code@);
            return;
        }
        k += 1;
    }
    notices.push(AuditNotice::new(code));
    assert(notice_codes(notices@) =~= before.push(code@));
}

/// Noting a code twice is noting it once, and a list of distinct codes stays distinct.
pub proof fn law_notices_are_distinct(codes: Seq<Seq<char>>, code: Seq<char>)
    requires
        codes.no_duplicates(),
    ensures
        noted(noted(codes, code), code) == noted(codes, code),
        noted(codes, code).no_duplicates(),
        noted(codes, code).contains(code),
{
    if !codes.contains(code) {
        assert(codes.push(code)[codes.len() as int] == code);
    }
}

// ---------- identifiers ----------

pub open spec fn ascii_alnum(c: char) -> bool {
    ('a' <= c && c <= 'z') || ('A' <= c && c <= 'Z') || ('0' <= c && c <= '9')
}

pub open spec fn ident_char(c: char) -> bool {
    ascii_alnum(c) || c == '_' || c == '-' || c == '.' || c == ':' || c == '/'
}

/// An audit identifier: 1 to `max` ASCII letters, digits and `_-.:/`, not starting with `/`
/// and without `..`.
pub open spec fn identifier_ok(v: Seq<char>, max: int) -> bool {
    0 < v.len() <= max && (forall|k: int| 0 <= k < v.len() ==> ident_char(#[trigger] v[k])) && v[0] != '/'
        && !crate::text::contains_seq(v, ".."@)
}

fn all_chars_ident(v: &[char]) -> (r: bool)
    ensures
        r == forall|k: int| 0 <= k < v@.len() ==> ident_char(#[trigger] v@[k]),
{
    let mut k: usize = 0;
    while k < v.len()
        invariant
            k <= v@.len(),
            forall|m: int| 0 <= m < k ==> ident_char(#[trigger] v@[m]),
        decreases v@.len() - k,
    {
        let c = v[k];
        if !(('a' <= c && c <= 'z') || ('A' <= c && c <= 'Z') || ('0' <= c && c <= '9') || c == '_' || c == '-'
            || c == '.' || c == ':' || c == '/') {
            return false;
        }
        k += 1;
    }
    true
}

pub fn valid_identifier(value: &str, max_bytes: usize) -> (r: bool)
    ensures
        r == identifier_ok(value@, max_bytes as int),
{
    let v = chars_of(value);
    if v.len() == 0 || v.len() > max_bytes {
        return false;
    }
    all_chars_ident(&v) && v[0] != '/' && !crate::text::contains_chars(&v, &chars_of(".."))
}

pub open spec fn hex_lower(c: char) -> bool {
    ('0' <= c && c <= '9') || ('a' <= c && c <= 'f')
}

/// A policy hash: 64 lowercase hex digits.
pub open spec fn hash_ok(v: Seq<char>) -> bool {
    v.len() == 64 && forall|k: int| 0 <= k < v.len() ==> hex_lower(#[trigger] v[k])
}

pub fn valid_hash(value: &str) -> (r: bool)
    ensures
        r == hash_ok(value@),
{
    let v = chars_of(value);
    if v.len() != 64 {
        return false;
    }
    let mut k: usize = 0;
    while k < v.len()
        invariant
            k <= v@.len(),
            v@ == value@,
            forall|m: int| 0 <= m < k ==> hex_lower(#[trigger] v@[m]),
        decreases v@.len() - k,
    {
        let c = v[k];
        if !(('0' <= c && c <= '9') || ('a' <= c && c <= 'f')) {
            return false;
        }
        k += 1;
    }
    true
}

pub open spec fn join_char(c: char) -> bool {
    ' ' <= c && c <= '~' && c != '/' && c != '\\'
}

/// A join key: 1 to `max` printable ASCII characters other than `/` and `\`.
pub open spec fn join_key_ok(v: Seq<char>, max: int) -> bool {
    0 < v.len() <= max && forall|k: int| 0 <= k < v.len() ==> join_char(#[trigger] v[k])
}

pub fn valid_join_key(value: &str, max_bytes: usize) -> (r: bool)
    ensures
        r == join_key_ok(value@, max_bytes as int),
{
    let v = chars_of(value);
    if v.len() == 0 || v.len() > max_bytes {
        return false;
    }
    let mut k: usize = 0;
    while k < v.len()
        invariant
            k <= v@.len(),
            v@ == value@,
            forall|m: int| 0 <= m < k ==> join_char(#[trigger] v@[m]),
        decreases v@.len() - k,
    {
        let c = v[k];
        if !(' ' <= c && c <= '~' && c != '/' && c != '\\') {
            return false;
        }
        k += 1;
    }
    true
}

pub open spec fn relative_part_char(c: char) -> bool {
    ascii_alnum(c) || c == '_' || c == '-' || c == '.'
}

pub open spec fn relative_part_ok(p: Seq<char>) -> bool {
    p.len() > 0 && p != "."@ && p != ".."@ && forall|k: int| 0 <= k < p.len() ==> relative_part_char(#[trigger] p[k])
}

/// A relative file reference of an operation record: 1 to 128 characters, `/`-separated
/// parts of ASCII letters, digits and `_-.`, none empty, `.` or `..`.
pub open spec fn relative_identifier_ok(v: Seq<char>) -> bool {
    0 < v.len() <= MAX_IDENTIFIER_BYTES && v[0] != '/' && !crate::text::contains_seq(v, ".."@)
        && forall|k: int| 0 <= k < crate::text::split_on(v, '/').len() ==> relative_part_ok(
        #[trigger] crate::text::split_on(v, '/')[k],
    )
}

fn relative_part_valid(p: &[char]) -> (r: bool)
    ensures
        r == relative_part_ok(p@),
{
    if p.len() == 0 || crate::text::chars_eq(p, &chars_of(".")) || crate::text::chars_eq(p, &chars_of("..")) {
        return false;
    }
    let mut k: usize = 0;
    while k < p.len()
        invariant
            k <= p@.len(),
            forall|m: int| 0 <= m < k ==> relative_part_char(#[trigger] p@[m]),
        decreases p@.len() - k,
    {
        let c = p[k];
        if !(('a' <= c && c <= 'z') || ('A' <= c && c <= 'Z') || ('0' <= c && c <= '9') || c == '_' || c == '-'
            || c == '.') {
            return false;
        }
        k += 1;
    }
    true
}

pub fn valid_relative_identifier(value: &str) -> (r: bool)
    ensures
        r == relative_identifier_ok(value@),
{
    let v = chars_of(value);
    if v.len() == 0 || v.len() > MAX_IDENTIFIER_BYTES || v[0] == '/' || crate::text::contains_chars(&v, &chars_of("..")) {
        return false;
    }
    let parts = crate::text::split_chars(&v, '/');
    let ghost pv = crate::text::chars_view(parts@);
    let mut k: usize = 0;
    while k < parts.len()
        invariant
            k <= parts@.len(),
            pv == crate::text::chars_view(parts@),
            pv == crate::text::split_on(v@, '/'),
            v@ == value@,
            forall|m: int| 0 <= m < k ==> relative_part_ok(#[trigger] pv[m]),
        decreases parts@.len() - k,
    {
        if !relative_part_valid(parts[k].as_slice()) {
            assert(!relative_part_ok(pv[k as int]));
            return false;
        }
        k += 1;
    }
    true
}

// ---------- operation audit ----------

#[derive(Debug, Clone, Copy, PartialEq, Eq, Structural)]
pub enum OperationAuditPhase {
    Preflight,
    Snapshot,
    Write,
    Verify,
    Completed,
    RolledBack,
    Recovery,
    Audit,
}

#[derive(Debug, Clone, Copy, PartialEq, Eq, Structural)]
pub enum OperationAuditResult {
    Success,
    Failed,
    Rejected,
    Busy,
    RolledBack,
    Critical,
}

/// An operation record as a caller proposes it, free-form values included.
#[derive(Debug, Clone, PartialEq, Eq)]
pub struct OperationAuditInput {
    pub at_ms: u64,
    pub batch_id: String,
    pub scope: String,
    pub relative_file: Option<String>,
    pub phase: OperationAuditPhase,
    pub result: OperationAuditResult,
    pub error_code: Option<String>,
    pub changed: u32,
    pub unchanged: u32,
    pub files: u32,
    pub role_id: Option<String>,
    pub model: Option<String>,
    pub effort: Option<String>,
}

/// The only shape of an operation record that is stored or shown.
#[derive(Debug, Clone, PartialEq, Eq)]
pub struct OperationAuditRecord {
    pub schema_version: u32,
    pub at_ms: u64,
    pub batch_id: String,
    pub scope: String,
    pub relative_file: Option<String>,
    pub phase: OperationAuditPhase,
    pub result: OperationAuditResult,
    pub error_code: Option<String>,
    pub changed: u32,
    pub unchanged: u32,
    pub files: u32,
    pub role_id: Option<String>,
    pub model: Option<String>,
    pub effort: Option<String>,
}

pub struct RecordView {
    pub schema_version: u32,
    pub at_ms: u64,
    pub batch_id: Seq<char>,
    pub scope: Seq<char>,
    pub relative_file: Option<Seq<char>>,
    pub phase: OperationAuditPhase,
    pub result: OperationAuditResult,
    pub error_code: Option<Seq<char>>,
    pub changed: u32,
    pub unchanged: u32,
    pub files: u32,
    pub role_id: Option<Seq<char>>,
    pub model: Option<Seq<char>>,
    pub effort: Option<Seq<char>>,
}

impl View for OperationAuditRecord {
    type V = RecordView;

    open spec fn view(&self) -> RecordView {
        RecordView {
            schema_version: self.schema_version,
            at_ms: self.at_ms,
            batch_id: self.batch_id@,
            scope: self.scope@,
            relative_file: opt_view(self.relative_file),
            phase: self.phase,
            result: self.result,
            error_code: opt_view(self.error_code),
            changed: self.changed,
            unchanged: self.unchanged,
            files: self.files,
            role_id: opt_view(self.role_id),
            model: opt_view(self.model),
            effort: opt_view(self.effort),
        }
    }
}

impl OperationAuditRecord {
    pub fn duplicate(&self) -> (r: Self)
        ensures
            r@ == self@,
    {
        OperationAuditRecord {
            schema_version: self.schema_version,
            at_ms: self.at_ms,
            batch_id: self.batch_id.clone(),
            scope: self.scope.clone(),
            relative_file: crate::model::opt_clone(&self.relative_file),
            phase: self.phase,
            result: self.result,
            error_code: crate::model::opt_clone(&self.error_code),
            changed: self.changed,
            unchanged: self.unchanged,
            files: self.files,
            role_id: crate::model::opt_clone(&self.role_id),
            model: crate::model::opt_clone(&self.model),
            effort: crate::model::opt_clone(&self.effort),
        }
    }
}

#[derive(Debug, Clone, Copy, PartialEq, Eq, Structural)]
pub enum AuditSanitizeError {
    InvalidBatchId,
    InvalidScope,
}

/// An optional value kept only when it passes `ok`.
pub open spec fn kept_if(o: Option<String>, ok: spec_fn(Seq<char>) -> bool) -> Option<Seq<char>> {
    match o {
        Some(s) => if ok(s@) { Some(s@) } else { None },
        None => None,
    }
}

pub open spec fn sanitized(input: OperationAuditInput) -> RecordView {
    RecordView {
        schema_version: AUDIT_SCHEMA_VERSION,
        at_ms: input.at_ms,
        batch_id: input.batch_id@,
        scope: input.scope@,
        relative_file: kept_if(input.relative_file, |v: Seq<char>| relative_identifier_ok(v)),
        phase: input.phase,
        result: input.result,
        error_code: kept_if(input.error_code, |v: Seq<char>| identifier_ok(v, 64)),
        changed: input.changed,
        unchanged: input.unchanged,
        files: input.files,
        role_id: kept_if(input.role_id, |v: Seq<char>| identifier_ok(v, MAX_IDENTIFIER_BYTES as int)),
        model: kept_if(input.model, |v: Seq<char>| identifier_ok(v, MAX_IDENTIFIER_BYTES as int)),
        effort: kept_if(input.effort, |v: Seq<char>| identifier_ok(v, MAX_IDENTIFIER_BYTES as int)),
    }
}

fn keep_identifier(o: &Option<String>, max: usize) -> (r: Option<String>)
    ensures
        opt_view(r) == kept_if(*o, |v: Seq<char>| identifier_ok(v, max as int)),
{
    match o {
        Some(s) => if valid_identifier(s.as_str(), max) { Some(s.clone()) } else { None },
        None => None,
    }
}

/// Drops the untrusted free-form values of a proposed record: a record with a bad batch id
/// or scope is refused, and each optional value is kept only when it is a valid identifier
/// (or relative reference).
pub fn sanitize_operation_audit(input: &OperationAuditInput) -> (r: Result<OperationAuditRecord, AuditSanitizeError>)
    ensures
        !identifier_ok(input.batch_id@, MAX_IDENTIFIER_BYTES as int) ==> r == Err::<OperationAuditRecord, AuditSanitizeError>(AuditSanitizeError::InvalidBatchId),
        identifier_ok(input.batch_id@, MAX_IDENTIFIER_BYTES as int) && !identifier_ok(input.scope@, MAX_IDENTIFIER_BYTES as int)
            ==> r == Err::<OperationAuditRecord, AuditSanitizeError>(AuditSanitizeError::InvalidScope),
        identifier_ok(input.batch_id@, MAX_IDENTIFIER_BYTES as int) && identifier_ok(input.scope@, MAX_IDENTIFIER_BYTES as int)
            ==> (r matches Ok(rec) && rec@ == sanitized(*input)),
{
    if !valid_identifier(input.batch_id.as_str(), MAX_IDENTIFIER_BYTES) {
        return Err(AuditSanitizeError::InvalidBatchId);
    }
    if !valid_identifier(input.scope.as_str(), MAX_IDENTIFIER_BYTES) {
        return Err(AuditSanitizeError::InvalidScope);
    }
    let relative_file = match &input.relative_file {
        Some(s) => if valid_relative_identifier(s.as_str()) { Some(s.clone()) } else { None },
        None => None,
    };
    let rec = OperationAuditRecord {
        schema_version: AUDIT_SCHEMA_VERSION,
        at_ms: input.at_ms,
        batch_id: input.batch_id.clone(),
        scope: input.scope.clone(),
        relative_file,
        phase: input.phase,
        result: input.result,
        error_code: keep_identifier(&input.error_code, 64),
        changed: input.changed,
        unchanged: input.unchanged,
        files: input.files,
        role_id: keep_identifier(&input.role_id, MAX_IDENTIFIER_BYTES),
        model: keep_identifier(&input.model, MAX_IDENTIFIER_BYTES),
        effort: keep_identifier(&input.effort, MAX_IDENTIFIER_BYTES),
    };
    assert(rec@ =~= sanitized(*input));
    Ok(rec)
}

/// A record is young enough at `now` when its expiry exists and is not before `now`.
pub open spec fn within_retention(r: RecordView, now: u64) -> bool {
    r.at_ms + OPERATION_AUDIT_RETENTION_MS <= u64::MAX && r.at_ms + OPERATION_AUDIT_RETENTION_MS >= now
}

pub open spec fn records_view(v: Seq<OperationAuditRecord>) -> Seq<RecordView> {
    v.map_values(|r: OperationAuditRecord| r@)
}

/// The records young enough at `now`, in order.
pub open spec fn young_records(v: Seq<RecordView>, now: u64) -> Seq<RecordView> {
    v.filter(|r: RecordView| within_retention(r, now))
}

/// What retention keeps: the young records, and of those only the newest
/// `MAX_OPERATION_AUDIT_ENTRIES`, in their order.
pub open spec fn retained(v: Seq<RecordView>, now: u64) -> Seq<RecordView> {
    let y = young_records(v, now);
    if y.len() > MAX_OPERATION_AUDIT_ENTRIES {
        y.skip(y.len() - MAX_OPERATION_AUDIT_ENTRIES)
    } else {
        y
    }
}

pub fn retain_operation_audit(records: &[OperationAuditRecord], now_ms: u64) -> (r: Vec<OperationAuditRecord>)
    ensures
        records_view(r@) == retained(records_view(records@), now_ms),
{
    let ghost src = records_view(records@);
    let mut kept: Vec<OperationAuditRecord> = Vec::new();
    let mut i: usize = 0;
    while i < records.len()
        invariant
            i <= records@.len(),
            src == records_view(records@),
            records_view(kept@) == young_records(src.subrange(0, i as int), now_ms),
        decreases records@.len() - i,
    {
        let ghost before = kept@;
        let rec = &records[i];
        proof {
            reveal(Seq::filter);
            assert(src.subrange(0, i + 1).drop_last() =~= src.subrange(0, i as int));
            assert(src.subrange(0, i + 1).last() == rec@);
        }
        if rec.at_ms <= u64::MAX - OPERATION_AUDIT_RETENTION_MS && rec.at_ms + OPERATION_AUDIT_RETENTION_MS >= now_ms {
            kept.push(rec.duplicate());
            assert(records_view(kept@) =~= records_view(before).push(rec@));
        }
        i += 1;
    }
    assert(src.subrange(0, records@.len() as int) =~= src);
    if kept.len() > MAX_OPERATION_AUDIT_ENTRIES {
        let start = kept.len() - MAX_OPERATION_AUDIT_ENTRIES;
        let mut r: Vec<OperationAuditRecord> = Vec::new();
        let mut k: usize = start;
        while k < kept.len()
            invariant
                start <= k <= kept@.len(),
                records_view(r@) == records_view(kept@).subrange(start as int, k as int),
            decreases kept@.len() - k,
        {
            let ghost before = r@;
            assert(records_view(kept@)[k as int] == kept@[k as int]@);
            let d = kept[k].duplicate();
            r.push(d);
            assert(records_view(r@) =~= records_view(before).push(d@));
            assert(records_view(r@) =~= records_view(kept@).subrange(start as int, k + 1));
            k += 1;
        }
        assert(records_view(kept@).subrange(start as int, kept@.len() as int) =~= records_view(kept@).skip(start as int));
        r
    } else {
        kept
    }
}

/// Retention is idempotent at a given instant, keeps at most the cap, and only ever keeps
/// records that were there, in their order.
pub proof fn law_retention_is_idempotent(v: Seq<RecordView>, now: u64)
    ensures
        retained(retained(v, now), now) == retained(v, now),
        retained(v, now).len() <= MAX_OPERATION_AUDIT_ENTRIES,
        forall|k: int| 0 <= k < retained(v, now).len() ==> within_retention(#[trigger] retained(v, now)[k], now),
{
    let r = retained(v, now);
    let y = young_records(v, now);
    assert forall|k: int| 0 <= k < y.len() implies within_retention(#[trigger] y[k], now) by {
        v.lemma_filter_pred(|x: RecordView| within_retention(x, now), k);
    }
    assert forall|k: int| 0 <= k < r.len() implies within_retention(#[trigger] r[k], now) by {
        if y.len() > MAX_OPERATION_AUDIT_ENTRIES {
            assert(r[k] == y[k + y.len() - MAX_OPERATION_AUDIT_ENTRIES]);
        }
    }
    lemma_filter_all_kept(r, now);
}

proof fn lemma_filter_all_kept(r: Seq<RecordView>, now: u64)
    requires
        forall|k: int| 0 <= k < r.len() ==> within_retention(#[trigger] r[k], now),
    ensures
        young_records(r, now) == r,
    decreases r.len(),
{
    reveal(Seq::filter);
    if r.len() > 0 {
        lemma_filter_all_kept(r.drop_last(), now);
        assert(r.drop_last().push(r.last()) =~= r);
    } else {
        assert(young_records(r, now) =~= r);
    }
}

// ---------- audit results ----------

#[derive(Debug, Clone, PartialEq, Eq)]
pub struct ParentDispatchAudit {
    pub verdict: AuditVerdict,
    pub observed_agent_type: Option<String>,
    pub observed_fork_turns: Option<String>,
    pub override_model: Option<String>,
    pub override_effort: Option<String>,
}

#[derive(Debug, Clone, PartialEq, Eq)]
pub struct TurnAudit {
    pub turn_id: String,
    pub started_at_ms: Option<u64>,
    pub model: Option<String>,
    pub effort: Option<String>,
    pub multi_agent_version: Option<String>,
    pub client_verdict: AuditVerdict,
    pub outbound_requested_model: Option<String>,
    pub outbound_evidence_count: u32,
    pub outbound_verdict: AuditVerdict,
    pub verdict: AuditVerdict,
}

#[derive(Debug, Clone, PartialEq, Eq)]
pub struct AgentAudit {
    pub thread_id: String,
    pub role_id: String,
    pub expected_policy_revision: Option<u64>,
    pub expected_policy_hash: Option<String>,
    pub expected_model: Option<String>,
    pub expected_effort: Option<String>,
    pub parent: ParentDispatchAudit,
    pub turns: Vec<TurnAudit>,
    pub verdict: AuditVerdict,
}

#[derive(Debug, Clone, PartialEq, Eq)]
pub struct SubagentAuditResult {
    pub schema_version: u32,
    pub checked_at_ms: u64,
    pub source_support: AuditSourceSupport,
    pub agents: Vec<AgentAudit>,
    pub notices: Vec<AuditNotice>,
}

pub struct ParentView {
    pub verdict: AuditVerdict,
    pub observed_agent_type: Option<Seq<char>>,
    pub observed_fork_turns: Option<Seq<char>>,
    pub override_model: Option<Seq<char>>,
    pub override_effort: Option<Seq<char>>,
}

pub struct TurnView {
    pub turn_id: Seq<char>,
    pub started_at_ms: Option<u64>,
    pub model: Option<Seq<char>>,
    pub effort: Option<Seq<char>>,
    pub multi_agent_version: Option<Seq<char>>,
    pub client_verdict: AuditVerdict,
    pub outbound_requested_model: Option<Seq<char>>,
    pub outbound_evidence_count: u32,
    pub outbound_verdict: AuditVerdict,
    pub verdict: AuditVerdict,
}

pub struct AgentView {
    pub thread_id: Seq<char>,
    pub role_id: Seq<char>,
    pub expected_policy_revision: Option<u64>,
    pub expected_policy_hash: Option<Seq<char>>,
    pub expected_model: Option<Seq<char>>,
    pub expected_effort: Option<Seq<char>>,
    pub parent: ParentView,
    pub turns: Seq<TurnView>,
    pub verdict: AuditVerdict,
}

pub struct ResultView {
    pub schema_version: u32,
    pub checked_at_ms: u64,
    pub source_support: AuditSourceSupport,
    pub agents: Seq<AgentView>,
    pub notices: Seq<Seq<char>>,
}

impl View for ParentDispatchAudit {
    type V = ParentView;

    open spec fn view(&self) -> ParentView {
        ParentView {
            verdict: self.verdict,
            observed_agent_type: opt_view(self.observed_agent_type),
            observed_fork_turns: opt_view(self.observed_fork_turns),
            override_model: opt_view(self.override_model),
            override_effort: opt_view(self.override_effort),
        }
    }
}

impl View for TurnAudit {
    type V = TurnView;

    open spec fn view(&self) -> TurnView {
        TurnView {
            turn_id: self.turn_id@,
            started_at_ms: self.started_at_ms,
            model: opt_view(self.model),
            effort: opt_view(self.effort),
            multi_agent_version: opt_view(self.multi_agent_version),
            client_verdict: self.client_verdict,
            outbound_requested_model: opt_view(self.outbound_requested_model),
            outbound_evidence_count: self.outbound_evidence_count,
            outbound_verdict: self.outbound_verdict,
            verdict: self.verdict,
        }
    }
}

pub open spec fn turns_view(v: Seq<TurnAudit>) -> Seq<TurnView> {
    v.map_values(|t: TurnAudit| t@)
}

impl View for AgentAudit {
    type V = AgentView;

    open spec fn view(&self) -> AgentView {
        AgentView {
            thread_id: self.thread_id@,
            role_id: self.role_id@,
            expected_policy_revision: self.expected_policy_revision,
            expected_policy_hash: opt_view(self.expected_policy_hash),
            expected_model: opt_view(self.expected_model),
            expected_effort: opt_view(self.expected_effort),
            parent: self.parent@,
            turns: turns_view(self.turns@),
            verdict: self.verdict,
        }
    }
}

pub open spec fn agents_view(v: Seq<AgentAudit>) -> Seq<AgentView> {
    v.map_values(|a: AgentAudit| a@)
}

impl View for SubagentAuditResult {
    type V = ResultView;

    open spec fn view(&self) -> ResultView {
        ResultView {
            schema_version: self.schema_version,
            checked_at_ms: self.checked_at_ms,
            source_support: self.source_support,
            agents: agents_view(self.agents@),
            notices: notice_codes(self.notices@),
        }
    }
}

impl ParentDispatchAudit {
    pub fn duplicate(&self) -> (r: Self)
        ensures
            r@ == self@,
    {
        ParentDispatchAudit {
            verdict: self.verdict,
            observed_agent_type: crate::model::opt_clone(&self.observed_agent_type),
            observed_fork_turns: crate::model::opt_clone(&self.observed_fork_turns),
            override_model: crate::model::opt_clone(&self.override_model),
            override_effort: crate::model::opt_clone(&self.override_effort),
        }
    }
}

impl TurnAudit {
    pub fn duplicate(&self) -> (r: Self)
        ensures
            r@ == self@,
    {
        TurnAudit {
            turn_id: self.turn_id.clone(),
            started_at_ms: self.started_at_ms,
            model: crate::model::opt_clone(&self.model),
            effort: crate::model::opt_clone(&self.effort),
            multi_agent_version: crate::model::opt_clone(&self.multi_agent_version),
            client_verdict: self.client_verdict,
            outbound_requested_model: crate::model::opt_clone(&self.outbound_requested_model),
            outbound_evidence_count: self.outbound_evidence_count,
            outbound_verdict: self.outbound_verdict,
            verdict: self.verdict,
        }
    }
}

pub fn notices_copy(v: &Vec<AuditNotice>) -> (r: Vec<AuditNotice>)
    ensures
        notice_codes(r@) == notice_codes(v@),
{
    let mut r: Vec<AuditNotice> = Vec::new();
    let mut k: usize = 0;
    while k < v.len()
        invariant
            k <= v@.len(),
            notice_codes(r@) == notice_codes(v@).subrange(0, k as int),
        decreases v@.len() - k,
    {
        let ghost before = r@;
        let n = AuditNotice { code: v[k].code.clone() };
        r.push(n);
        assert(notice_codes(r@) =~= notice_codes(before).push(n.code@));
        assert(notice_codes(r@) =~= notice_codes(v@).subrange(0, k + 1));
        k += 1;
    }
    assert(notice_codes(v@).subrange(0, v@.len() as int) =~= notice_codes(v@));
    r
}

/// The policy of a managed role as it stood when the audit began.
#[derive(Debug, Clone, PartialEq, Eq)]
pub struct ManagedRoleSnapshot {
    pub role_id: String,
    pub policy_revision: Option<u64>,
    pub policy_hash: Option<String>,
    pub expected_model: Option<String>,
    pub expected_effort: Option<String>,
    pub policy_updated_at_ms: Option<u64>,
    pub managed: bool,
}

impl ManagedRoleSnapshot {
    /// A managed role that expects this model and effort, with no revision, hash or update
    /// time.
    pub fn new(role_id: &str, expected_model: &str, expected_effort: &str) -> (r: Self)
        ensures
            r.role_id@ == role_id@,
            r.policy_revision is None,
            r.policy_hash is None,
            opt_view(r.expected_model) == Some(expected_model@),
            opt_view(r.expected_effort) == Some(expected_effort@),
            r.policy_updated_at_ms is None,
            r.managed,
    {
        ManagedRoleSnapshot {
            role_id: owned(role_id),
            policy_revision: None,
            policy_hash: None,
            expected_model: Some(owned(expected_model)),
            expected_effort: Some(owned(expected_effort)),
            policy_updated_at_ms: None,
            managed: true,
        }
    }
}

// ---------- outbound sampling evidence ----------

/// One outbound sampling marker: the model a turn actually requested.
#[derive(Debug, Clone, PartialEq, Eq)]
pub struct OutboundObservation {
    pub thread_id: String,
    pub turn_id: String,
    pub requested_model: String,
    pub observed_at_ms: Option<u64>,
}

pub struct OutboundView {
    pub thread_id: Seq<char>,
    pub turn_id: Seq<char>,
    pub requested_model: Seq<char>,
}

pub open spec fn outbound_view(v: Seq<OutboundObservation>) -> Seq<OutboundView> {
    v.map_values(|o: OutboundObservation| OutboundView { thread_id: o.thread_id@, turn_id: o.turn_id@, requested_model: o.requested_model@ })
}

pub open spec fn outbound_valid(o: OutboundView) -> bool {
    identifier_ok(o.thread_id, MAX_IDENTIFIER_BYTES as int) && identifier_ok(o.turn_id, MAX_IDENTIFIER_BYTES as int)
        && identifier_ok(o.requested_model, MAX_IDENTIFIER_BYTES as int)
}

/// The distinct models that valid markers of a turn requested, in order of first appearance.
pub open spec fn outbound_models(obs: Seq<OutboundView>, thread: Seq<char>, turn: Seq<char>) -> Seq<Seq<char>>
    decreases obs.len(),
{
    if obs.len() == 0 {
        Seq::empty()
    } else {
        let prev = outbound_models(obs.drop_last(), thread, turn);
        let o = obs.last();
        if outbound_valid(o) && o.thread_id == thread && o.turn_id == turn && !prev.contains(o.requested_model) {
            prev.push(o.requested_model)
        } else {
            prev
        }
    }
}

/// A turn after the outbound evidence: no evidence leaves it unsupported, several models
/// make it ambiguous, one model is compared with the role's expected model (or the turn's
/// own model when the role expects none).
pub open spec fn outbound_turn(obs: Seq<OutboundView>, thread: Seq<char>, expected: Option<Seq<char>>, t: TurnView) -> TurnView {
    let ms = outbound_models(obs, thread, t.turn_id);
    let count: u32 = if ms.len() > u32::MAX { u32::MAX } else { ms.len() as u32 };
    if ms.len() == 0 {
        TurnView {
            outbound_verdict: AuditVerdict::Unsupported,
            outbound_requested_model: None,
            outbound_evidence_count: 0,
            verdict: worse(t.client_verdict, AuditVerdict::Unsupported),
            ..t
        }
    } else if ms.len() != 1 {
        TurnView {
            outbound_verdict: AuditVerdict::Ambiguous,
            outbound_requested_model: None,
            outbound_evidence_count: count,
            verdict: worse(t.client_verdict, AuditVerdict::Ambiguous),
            ..t
        }
    } else {
        let want = if expected is Some { expected } else { t.model };
        let ov = match want {
            Some(v) => if v == ms[0] { AuditVerdict::Match } else { AuditVerdict::Mismatch },
            None => AuditVerdict::Incomplete,
        };
        TurnView {
            outbound_verdict: ov,
            outbound_requested_model: Some(ms[0]),
            outbound_evidence_count: count,
            verdict: worse(t.client_verdict, ov),
            ..t
        }
    }
}

/// `v` made worse by the verdict of each turn.
pub open spec fn verdict_over(v: AuditVerdict, turns: Seq<TurnView>) -> AuditVerdict
    decreases turns.len(),
{
    if turns.len() == 0 {
        v
    } else {
        worse(verdict_over(v, turns.drop_last()), turns.last().verdict)
    }
}

pub open spec fn outbound_agent(obs: Seq<OutboundView>, a: AgentView) -> AgentView {
    let turns = a.turns.map_values(|t: TurnView| outbound_turn(obs, a.thread_id, a.expected_model, t));
    AgentView { turns, verdict: verdict_over(worse(a.verdict, a.parent.verdict), turns), ..a }
}

/// Every agent has turns and matches, and so does each of its turns.
pub open spec fn all_agents_match(agents: Seq<AgentView>) -> bool {
    agents.len() > 0 && forall|k: int| 0 <= k < agents.len() ==> (#[trigger] agents[k]).turns.len() > 0
        && agents[k].verdict == AuditVerdict::Match && forall|m: int| 0 <= m < agents[k].turns.len()
        ==> (#[trigger] agents[k].turns[m]).verdict == AuditVerdict::Match
}

/// The result after the outbound evidence; it becomes complete only when every agent and
/// turn matches and the rollout layer was supported.
pub open spec fn outbound_merged(r: ResultView, obs: Seq<OutboundView>) -> ResultView {
    let agents = r.agents.map_values(|a: AgentView| outbound_agent(obs, a));
    ResultView {
        agents,
        source_support: if all_agents_match(agents) && r.source_support != AuditSourceSupport::Unsupported {
            AuditSourceSupport::Full
        } else {
            r.source_support
        },
        ..r
    }
}

proof fn lemma_verdict_over_rises(v: AuditVerdict, turns: Seq<TurnView>)
    ensures
        verdict_rank(verdict_over(v, turns)) >= verdict_rank(v),
    decreases turns.len(),
{
    if turns.len() > 0 {
        lemma_verdict_over_rises(v, turns.drop_last());
    }
}

/// Outbound evidence only makes verdicts worse: every agent keeps its thread, role, expected
/// policy and parent dispatch, its verdict ranks at least as bad as before and as its parent's,
/// each turn keeps its id and ranks at least as bad as its client verdict; the notices, the
/// schema and the check time stay, and the result becomes fully supported only when the rollout
/// layer was supported.
pub proof fn law_outbound_only_worsens(r: ResultView, obs: Seq<OutboundView>)
    ensures
        ({
            let m = outbound_merged(r, obs);
            &&& m.agents.len() == r.agents.len()
            &&& m.notices == r.notices
            &&& m.schema_version == r.schema_version
            &&& m.checked_at_ms == r.checked_at_ms
            &&& (m.source_support == AuditSourceSupport::Full ==> r.source_support != AuditSourceSupport::Unsupported)
            &&& (m.source_support != AuditSourceSupport::Full ==> m.source_support == r.source_support)
            &&& forall|i: int| 0 <= i < r.agents.len() ==> {
                let a = #[trigger] m.agents[i];
                let b = r.agents[i];
                &&& a.thread_id == b.thread_id
                &&& a.role_id == b.role_id
                &&& a.expected_model == b.expected_model
                &&& a.expected_policy_hash == b.expected_policy_hash
                &&& a.expected_policy_revision == b.expected_policy_revision
                &&& a.parent == b.parent
                &&& verdict_rank(a.verdict) >= verdict_rank(b.verdict)
                &&& verdict_rank(a.verdict) >= verdict_rank(b.parent.verdict)
                &&& a.turns.len() == b.turns.len()
                &&& forall|k: int| 0 <= k < b.turns.len() ==> (#[trigger] a.turns[k]).turn_id == b.turns[k].turn_id
                    && verdict_rank(a.turns[k].verdict) >= verdict_rank(b.turns[k].client_verdict)
            }
        }),
{
    let m = outbound_merged(r, obs);
    assert forall|i: int| 0 <= i < r.agents.len() implies {
        let a = #[trigger] m.agents[i];
        let b = r.agents[i];
        &&& a.thread_id == b.thread_id
        &&& a.role_id == b.role_id
        &&& a.expected_model == b.expected_model
        &&& a.expected_policy_hash == b.expected_policy_hash
        &&& a.expected_policy_revision == b.expected_policy_revision
        &&& a.parent == b.parent
        &&& verdict_rank(a.verdict) >= verdict_rank(b.verdict)
        &&& verdict_rank(a.verdict) >= verdict_rank(b.parent.verdict)
        &&& a.turns.len() == b.turns.len()
        &&& forall|k: int| 0 <= k < b.turns.len() ==> (#[trigger] a.turns[k]).turn_id == b.turns[k].turn_id
            && verdict_rank(a.turns[k].verdict) >= verdict_rank(b.turns[k].client_verdict)
    } by {
        let b = r.agents[i];
        let turns = b.turns.map_values(|t: TurnView| outbound_turn(obs, b.thread_id, b.expected_model, t));
        lemma_verdict_over_rises(worse(b.verdict, b.parent.verdict), turns);
        assert(m.agents[i] == outbound_agent(obs, b));
    }
}

pub fn contains_string(v: &Vec<String>, x: &str) -> (r: bool)
    ensures
        r == crate::ownership::strings_view(v@).contains(x@),
{
    let ghost sv = crate::ownership::strings_view(v@);
    let mut k: usize = 0;
    while k < v.len()
        invariant
            k <= v@.len(),
            sv == crate::ownership::strings_view(v@),
            forall|m: int| 0 <= m < k ==> #[trigger] sv[m] != x@,
        decreases v@.len() - k,
    {
        if str_eq(v[k].as_str(), x) {
            assert(sv[k as int] == x@);
            return true;
        }
        k += 1;
    }
    false
}

fn models_of(observations: &[OutboundObservation], thread: &str, turn: &str) -> (r: Vec<String>)
    ensures
        crate::ownership::strings_view(r@) == outbound_models(outbound_view(observations@), thread@, turn@),
{
    let ghost obs = outbound_view(observations@);
    let mut ms: Vec<String> = Vec::new();
    let mut i: usize = 0;
    while i < observations.len()
        invariant
            i <= observations@.len(),
            obs == outbound_view(observations@),
            crate::ownership::strings_view(ms@) == outbound_models(obs.subrange(0, i as int), thread@, turn@),
        decreases observations@.len() - i,
    {
        let o = &observations[i];
        let ghost prev = crate::ownership::strings_view(ms@);
        assert(obs.subrange(0, i + 1).drop_last() =~= obs.subrange(0, i as int));
        assert(obs.subrange(0, i + 1).last() == obs[i as int]);
        if valid_identifier(o.thread_id.as_str(), MAX_IDENTIFIER_BYTES) && valid_identifier(o.turn_id.as_str(), MAX_IDENTIFIER_BYTES)
            && valid_identifier(o.requested_model.as_str(), MAX_IDENTIFIER_BYTES) && str_eq(o.thread_id.as_str(), thread)
            && str_eq(o.turn_id.as_str(), turn) {
            let seen = contains_string(&ms, o.requested_model.as_str());
            if !seen {
                ms.push(o.requested_model.clone());
                assert(crate::ownership::strings_view(ms@) =~= prev.push(o.requested_model@));
            }
        }
        i += 1;
    }
    assert(obs.subrange(0, observations@.len() as int) =~= obs);
    ms
}

fn outbound_turn_exec(observations: &[OutboundObservation], thread: &str, expected: &Option<String>, t: &TurnAudit) -> (r: TurnAudit)
    ensures
        r@ == outbound_turn(outbound_view(observations@), thread@, opt_view(*expected), t@),
{
    let ms = models_of(observations, thread, t.turn_id.as_str());
    let mut u = t.duplicate();
    if ms.len() == 0 {
        u.outbound_verdict = AuditVerdict::Unsupported;
        u.outbound_requested_model = None;
        u.outbound_evidence_count = 0;
        u.verdict = t.client_verdict.worst(AuditVerdict::Unsupported);
        return u;
    }
    let count: u32 = if ms.len() > 4294967295usize { 4294967295u32 } else { ms.len() as u32 };
    u.outbound_evidence_count = count;
    if ms.len() != 1 {
        u.outbound_verdict = AuditVerdict::Ambiguous;
        u.outbound_requested_model = None;
        u.verdict = t.client_verdict.worst(AuditVerdict::Ambiguous);
        return u;
    }
    let want = match expected {
        Some(v) => Some(v),
        None => match &t.model {
            Some(v) => Some(v),
            None => None,
        },
    };
    let ov = match want {
        Some(v) => if str_eq(v.as_str(), ms[0].as_str()) { AuditVerdict::Match } else { AuditVerdict::Mismatch },
        None => AuditVerdict::Incomplete,
    };
    u.outbound_verdict = ov;
    u.outbound_requested_model = Some(ms[0].clone());
    u.verdict = t.client_verdict.worst(ov);
    u
}

/// Merges the allow-listed outbound sampling markers into an audit result: duplicates are
/// counted once, and a result that was already downgraded stays downgraded.
pub fn merge_outbound_evidence(result: &SubagentAuditResult, observations: &[OutboundObservation]) -> (r: SubagentAuditResult)
    ensures
        r@ == outbound_merged(result@, outbound_view(observations@)),
{
    let ghost obs = outbound_view(observations@);
    let ghost src = agents_view(result.agents@);
    let ghost want = src.map_values(|a: AgentView| outbound_agent(obs, a));
    let mut agents: Vec<AgentAudit> = Vec::new();
    let mut all_match = result.agents.len() > 0;
    let mut i: usize = 0;
    while i < result.agents.len()
        invariant
            i <= result.agents@.len(),
            obs == outbound_view(observations@),
            src == agents_view(result.agents@),
            want == src.map_values(|a: AgentView| outbound_agent(obs, a)),
            agents_view(agents@) == want.subrange(0, i as int),
            all_match == (src.len() > 0 && forall|k: int| 0 <= k < i ==> (#[trigger] want[k]).turns.len() > 0
                && want[k].verdict == AuditVerdict::Match && forall|m: int| 0 <= m < want[k].turns.len()
                ==> (#[trigger] want[k].turns[m]).verdict == AuditVerdict::Match),
        decreases result.agents@.len() - i,
    {
        let a = &result.agents[i];
        let ghost av = a@;
        assert(av == src[i as int]);
        let ghost tw = av.turns.map_values(|t: TurnView| outbound_turn(obs, av.thread_id, av.expected_model, t));
        let mut turns: Vec<TurnAudit> = Vec::new();
        let mut verdict = a.verdict.worst(a.parent.verdict);
        let mut turns_match = true;
        let mut j: usize = 0;
        while j < a.turns.len()
            invariant
                j <= a.turns@.len(),
                av == a@,
                obs == outbound_view(observations@),
                tw == av.turns.map_values(|t: TurnView| outbound_turn(obs, av.thread_id, av.expected_model, t)),
                turns_view(turns@) == tw.subrange(0, j as int),
                verdict == verdict_over(worse(av.verdict, av.parent.verdict), tw.subrange(0, j as int)),
                turns_match == forall|m: int| 0 <= m < j ==> (#[trigger] tw[m]).verdict == AuditVerdict::Match,
            decreases a.turns@.len() - j,
        {
            let ghost before = turns@;
            assert(av.turns[j as int] == a.turns@[j as int]@);
            let u = outbound_turn_exec(observations, a.thread_id.as_str(), &a.expected_model, &a.turns[j]);
            assert(u@ == tw[j as int]);
            verdict = verdict.worst(u.verdict);
            turns_match = turns_match && u.verdict == AuditVerdict::Match;
            turns.push(u);
            assert(turns_view(turns@) =~= turns_view(before).push(u@));
            assert(tw.subrange(0, j + 1).drop_last() =~= tw.subrange(0, j as int));
            assert(turns_view(turns@) =~= tw.subrange(0, j + 1));
            j += 1;
        }
        assert(tw.subrange(0, tw.len() as int) =~= tw);
        let b = AgentAudit {
            thread_id: a.thread_id.clone(),
            role_id: a.role_id.clone(),
            expected_policy_revision: a.expected_policy_revision,
            expected_policy_hash: crate::model::opt_clone(&a.expected_policy_hash),
            expected_model: crate::model::opt_clone(&a.expected_model),
            expected_effort: crate::model::opt_clone(&a.expected_effort),
            parent: a.parent.duplicate(),
            turns,
            verdict,
        };
        assert(b@ == want[i as int]);
        all_match = all_match && b.turns.len() > 0 && verdict == AuditVerdict::Match && turns_match;
        let ghost before = agents@;
        agents.push(b);
        assert(agents_view(agents@) =~= agents_view(before).push(b@));
        assert(agents_view(agents@) =~= want.subrange(0, i + 1));
        i += 1;
    }
    assert(want.subrange(0, want.len() as int) =~= want);
    let support = if all_match && result.source_support != AuditSourceSupport::Unsupported {
        AuditSourceSupport::Full
    } else {
        result.source_support
    };
    let r = SubagentAuditResult {
        schema_version: result.schema_version,
        checked_at_ms: result.checked_at_ms,
        source_support: support,
        agents,
        notices: notices_copy(&result.notices),
    };
    assert(r@ =~= outbound_merged(result@, obs));
    r
}

// ---------- rollout observations ----------

/// Bounds of one audit run.
#[derive(Debug, Clone, Copy, PartialEq, Eq)]
pub struct AuditLimits {
    pub max_date_directories: usize,
    pub max_rollout_files: usize,
    pub max_file_bytes: usize,
    pub max_line_bytes: usize,
    pub max_children: usize,
    pub max_pair_delay_ms: u64,
    pub max_identifier_bytes: usize,
}

impl Default for AuditLimits {
    fn default() -> (r: Self)
        ensures
            r.max_date_directories == MAX_ROLLOUT_DATES,
            r.max_rollout_files == MAX_ROLLOUT_FILES,
            r.max_file_bytes == MAX_ROLLOUT_FILE_BYTES,
            r.max_line_bytes == MAX_ROLLOUT_LINE_BYTES,
            r.max_children == MAX_CHILDREN,
            r.max_pair_delay_ms == MAX_PAIR_DELAY_MS,
            r.max_identifier_bytes == MAX_IDENTIFIER_BYTES,
    {
        AuditLimits {
            max_date_directories: MAX_ROLLOUT_DATES,
            max_rollout_files: MAX_ROLLOUT_FILES,
            max_file_bytes: MAX_ROLLOUT_FILE_BYTES,
            max_line_bytes: MAX_ROLLOUT_LINE_BYTES,
            max_children: MAX_CHILDREN,
            max_pair_delay_ms: MAX_PAIR_DELAY_MS,
            max_identifier_bytes: MAX_IDENTIFIER_BYTES,
        }
    }
}

/// The time of an observation: absent, a valid instant in milliseconds, or present but
/// unusable.
#[derive(Debug, Clone, Copy, PartialEq, Eq, Structural)]
pub enum TimeState {
    Missing,
    Valid(u64),
    Invalid,
}

/// A session record: a thread, with its parent and role when it is a child.
#[derive(Debug, Clone, PartialEq, Eq)]
pub struct SessionObservation {
    pub thread_id: String,
    pub parent_thread_id: Option<String>,
    pub agent_role: Option<String>,
    pub started_at_ms: Option<u64>,
    pub join_key: Option<String>,
    pub time_state: TimeState,
    /// Whether this is the parent-side launch instant of the child, which is the one instant
    /// that pairs with the parent's spawn.
    pub activity_start: bool,
}

/// The model settings that a turn ran with.
#[derive(Debug, Clone, PartialEq, Eq)]
pub struct TurnObservation {
    pub thread_id: String,
    pub turn_id: String,
    pub model: Option<String>,
    pub effort: Option<String>,
    pub multi_agent_version: Option<String>,
    pub started_at_ms: Option<u64>,
    pub time_state: TimeState,
}

/// A parent's spawn call: what it asked of the child.
#[derive(Debug, Clone, PartialEq, Eq)]
pub struct SpawnObservation {
    pub parent_thread_id: String,
    pub task_name_present: bool,
    pub observed_agent_type: Option<String>,
    pub observed_fork_turns: Option<String>,
    pub override_model: Option<String>,
    pub override_effort: Option<String>,
    pub spawned_at_ms: Option<u64>,
    pub task_key: Option<String>,
    pub task_key_valid: bool,
    pub agent_type_present: bool,
    pub fork_turns_present: bool,
    pub model_present: bool,
    pub effort_present: bool,
    pub fields_valid: bool,
    pub time_state: TimeState,
}

#[derive(Debug, Clone, PartialEq, Eq)]
pub enum RolloutObservation {
    Session(SessionObservation),
    Turn(TurnObservation),
    Spawn(SpawnObservation),
}

/// What the parser kept of the rollout files.
#[derive(Debug, Clone)]
pub struct ParsedRollout {
    pub observations: Vec<RolloutObservation>,
    pub notices: Vec<AuditNotice>,
    pub truncated: bool,
}

pub struct SessionView {
    pub thread_id: Seq<char>,
    pub parent_thread_id: Option<Seq<char>>,
    pub agent_role: Option<Seq<char>>,
    pub started_at_ms: Option<u64>,
    pub join_key: Option<Seq<char>>,
    pub time_state: TimeState,
    pub activity_start: bool,
}

pub struct TurnObsView {
    pub thread_id: Seq<char>,
    pub turn_id: Seq<char>,
    pub model: Option<Seq<char>>,
    pub effort: Option<Seq<char>>,
    pub multi_agent_version: Option<Seq<char>>,
    pub started_at_ms: Option<u64>,
    pub time_state: TimeState,
}

pub struct SpawnView {
    pub parent_thread_id: Seq<char>,
    pub task_name_present: bool,
    pub observed_agent_type: Option<Seq<char>>,
    pub observed_fork_turns: Option<Seq<char>>,
    pub override_model: Option<Seq<char>>,
    pub override_effort: Option<Seq<char>>,
    pub spawned_at_ms: Option<u64>,
    pub task_key: Option<Seq<char>>,
    pub task_key_valid: bool,
    pub agent_type_present: bool,
    pub fork_turns_present: bool,
    pub model_present: bool,
    pub effort_present: bool,
    pub fields_valid: bool,
    pub time_state: TimeState,
}

pub enum ObservationView {
    Session(SessionView),
    Turn(TurnObsView),
    Spawn(SpawnView),
}

impl View for SessionObservation {
    type V = SessionView;

    open spec fn view(&self) -> SessionView {
        SessionView {
            thread_id: self.thread_id@,
            parent_thread_id: opt_view(self.parent_thread_id),
            agent_role: opt_view(self.agent_role),
            started_at_ms: self.started_at_ms,
            join_key: opt_view(self.join_key),
            time_state: self.time_state,
            activity_start: self.activity_start,
        }
    }
}

impl View for TurnObservation {
    type V = TurnObsView;

    open spec fn view(&self) -> TurnObsView {
        TurnObsView {
            thread_id: self.thread_id@,
            turn_id: self.turn_id@,
            model: opt_view(self.model),
            effort: opt_view(self.effort),
            multi_agent_version: opt_view(self.multi_agent_version),
            started_at_ms: self.started_at_ms,
            time_state: self.time_state,
        }
    }
}

impl View for SpawnObservation {
    type V = SpawnView;

    open spec fn view(&self) -> SpawnView {
        SpawnView {
            parent_thread_id: self.parent_thread_id@,
            task_name_present: self.task_name_present,
            observed_agent_type: opt_view(self.observed_agent_type),
            observed_fork_turns: opt_view(self.observed_fork_turns),
            override_model: opt_view(self.override_model),
            override_effort: opt_view(self.override_effort),
            spawned_at_ms: self.spawned_at_ms,
            task_key: opt_view(self.task_key),
            task_key_valid: self.task_key_valid,
            agent_type_present: self.agent_type_present,
            fork_turns_present: self.fork_turns_present,
            model_present: self.model_present,
            effort_present: self.effort_present,
            fields_valid: self.fields_valid,
            time_state: self.time_state,
        }
    }
}

impl View for RolloutObservation {
    type V = ObservationView;

    open spec fn view(&self) -> ObservationView {
        match self {
            RolloutObservation::Session(s) => ObservationView::Session(s@),
            RolloutObservation::Turn(t) => ObservationView::Turn(t@),
            RolloutObservation::Spawn(p) => ObservationView::Spawn(p@),
        }
    }
}

pub open spec fn observations_view(v: Seq<RolloutObservation>) -> Seq<ObservationView> {
    v.map_values(|o: RolloutObservation| o@)
}

impl SessionObservation {
    pub fn duplicate(&self) -> (r: Self)
        ensures
            r@ == self@,
    {
        SessionObservation {
            thread_id: self.thread_id.clone(),
            parent_thread_id: crate::model::opt_clone(&self.parent_thread_id),
            agent_role: crate::model::opt_clone(&self.agent_role),
            started_at_ms: self.started_at_ms,
            join_key: crate::model::opt_clone(&self.join_key),
            time_state: self.time_state,
            activity_start: self.activity_start,
        }
    }
}

impl TurnObservation {
    pub fn duplicate(&self) -> (r: Self)
        ensures
            r@ == self@,
    {
        TurnObservation {
            thread_id: self.thread_id.clone(),
            turn_id: self.turn_id.clone(),
            model: crate::model::opt_clone(&self.model),
            effort: crate::model::opt_clone(&self.effort),
            multi_agent_version: crate::model::opt_clone(&self.multi_agent_version),
            started_at_ms: self.started_at_ms,
            time_state: self.time_state,
        }
    }
}

impl SpawnObservation {
    /// A spawn call with every field well formed: present exactly when given.
    pub fn new(
        parent_thread_id: &str,
        task_name: Option<&str>,
        agent_type: Option<&str>,
        fork_turns: Option<&str>,
        model: Option<&str>,
        effort: Option<&str>,
        spawned_at_ms: Option<u64>,
    ) -> (r: Self)
        ensures
            r@ == (SpawnView {
                parent_thread_id: parent_thread_id@,
                task_name_present: task_name is Some,
                observed_agent_type: crate::model::opt_str_view(agent_type),
                observed_fork_turns: crate::model::opt_str_view(fork_turns),
                override_model: crate::model::opt_str_view(model),
                override_effort: crate::model::opt_str_view(effort),
                spawned_at_ms,
                task_key: crate::model::opt_str_view(task_name),
                task_key_valid: true,
                agent_type_present: agent_type is Some,
                fork_turns_present: fork_turns is Some,
                model_present: model is Some,
                effort_present: effort is Some,
                fields_valid: true,
                time_state: match spawned_at_ms {
                    Some(t) => TimeState::Valid(t),
                    None => TimeState::Missing,
                },
            }),
    {
        SpawnObservation {
            parent_thread_id: owned(parent_thread_id),
            task_name_present: task_name.is_some(),
            observed_agent_type: crate::model::opt_owned(agent_type),
            observed_fork_turns: crate::model::opt_owned(fork_turns),
            override_model: crate::model::opt_owned(model),
            override_effort: crate::model::opt_owned(effort),
            spawned_at_ms,
            task_key: crate::model::opt_owned(task_name),
            task_key_valid: true,
            agent_type_present: agent_type.is_some(),
            fork_turns_present: fork_turns.is_some(),
            model_present: model.is_some(),
            effort_present: effort.is_some(),
            fields_valid: true,
            time_state: match spawned_at_ms {
                Some(t) => TimeState::Valid(t),
                None => TimeState::Missing,
            },
        }
    }

    pub fn duplicate(&self) -> (r: Self)
        ensures
            r@ == self@,
    {
        SpawnObservation {
            parent_thread_id: self.parent_thread_id.clone(),
            task_name_present: self.task_name_present,
            observed_agent_type: crate::model::opt_clone(&self.observed_agent_type),
            observed_fork_turns: crate::model::opt_clone(&self.observed_fork_turns),
            override_model: crate::model::opt_clone(&self.override_model),
            override_effort: crate::model::opt_clone(&self.override_effort),
            spawned_at_ms: self.spawned_at_ms,
            task_key: crate::model::opt_clone(&self.task_key),
            task_key_valid: self.task_key_valid,
            agent_type_present: self.agent_type_present,
            fork_turns_present: self.fork_turns_present,
            model_present: self.model_present,
            effort_present: self.effort_present,
            fields_valid: self.fields_valid,
            time_state: self.time_state,
        }
    }
}

pub struct RoleView {
    pub role_id: Seq<char>,
    pub policy_revision: Option<u64>,
    pub policy_hash: Option<Seq<char>>,
    pub expected_model: Option<Seq<char>>,
    pub expected_effort: Option<Seq<char>>,
    pub policy_updated_at_ms: Option<u64>,
    pub managed: bool,
}

impl View for ManagedRoleSnapshot {
    type V = RoleView;

    open spec fn view(&self) -> RoleView {
        RoleView {
            role_id: self.role_id@,
            policy_revision: self.policy_revision,
            policy_hash: opt_view(self.policy_hash),
            expected_model: opt_view(self.expected_model),
            expected_effort: opt_view(self.expected_effort),
            policy_updated_at_ms: self.policy_updated_at_ms,
            managed: self.managed,
        }
    }
}

impl ManagedRoleSnapshot {
    pub fn duplicate(&self) -> (r: Self)
        ensures
            r@ == self@,
    {
        ManagedRoleSnapshot {
            role_id: self.role_id.clone(),
            policy_revision: self.policy_revision,
            policy_hash: crate::model::opt_clone(&self.policy_hash),
            expected_model: crate::model::opt_clone(&self.expected_model),
            expected_effort: crate::model::opt_clone(&self.expected_effort),
            policy_updated_at_ms: self.policy_updated_at_ms,
            managed: self.managed,
        }
    }
}

pub open spec fn roles_view(v: Seq<ManagedRoleSnapshot>) -> Seq<RoleView> {
    v.map_values(|r: ManagedRoleSnapshot| r@)
}

} // verus!
