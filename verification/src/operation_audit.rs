//! The decisions of the local operation history: which rows of the stored file count, when a
//! torn final row is cut away, when the file is compacted, and what a finished command
//! records. Reading, writing and serializing the file are the caller's.
use vstd::prelude::*;
use crate::audit::{
    records_view, OperationAuditInput, OperationAuditPhase, OperationAuditRecord, OperationAuditResult, RecordView,
    AUDIT_SCHEMA_VERSION, MAX_OPERATION_AUDIT_ENTRIES,
};
use crate::audit_parse::{lemma_split_lines_len, split_lines};
use crate::model::{opt_owned, opt_str_view, opt_view};
use crate::text::owned;

verus! {

/// The largest operation history file that is read.
pub const MAX_AUDIT_FILE_BYTES: usize = 4096000;

/// Appends stay in place until the file would pass this size; then it is compacted.
pub const COMPACT_AFTER_BYTES: u64 = 262144;

/// The largest error sidecar that is read.
pub const MAX_ERROR_RECORD_BYTES: usize = 8192;

/// How far back from the end an append looks for the last complete row.
pub const TAIL_SCAN_BYTES: u64 = 65536;

#[derive(Debug, Clone, Copy, PartialEq, Eq, Structural)]
pub enum OperationAuditStoreError {
    Read,
    InvalidRecord,
    TooLarge,
    Serialize,
    Write,
}

pub open spec fn store_error_code(e: OperationAuditStoreError) -> Seq<char> {
    match e {
        OperationAuditStoreError::Read => "operation_audit_read_failed"@,
        OperationAuditStoreError::InvalidRecord => "operation_audit_invalid_record"@,
        OperationAuditStoreError::TooLarge => "operation_audit_too_large"@,
        OperationAuditStoreError::Serialize => "operation_audit_serialize_failed"@,
        OperationAuditStoreError::Write => "operation_audit_write_failed"@,
    }
}

impl OperationAuditStoreError {
    pub fn code(self) -> (r: &'static str)
        ensures
            r@ == store_error_code(self),
    {
        match self {
            OperationAuditStoreError::Read => "operation_audit_read_failed",
            OperationAuditStoreError::InvalidRecord => "operation_audit_invalid_record",
            OperationAuditStoreError::TooLarge => "operation_audit_too_large",
            OperationAuditStoreError::Serialize => "operation_audit_serialize_failed",
            OperationAuditStoreError::Write => "operation_audit_write_failed",
        }
    }
}

/// The rows of a history file: its non-empty lines that a newline ends. A final row without
/// one was torn by a crash and does not count.
pub open spec fn complete_rows(b: Seq<u8>) -> Seq<Seq<u8>> {
    split_lines(b).drop_last().filter(|l: Seq<u8>| l.len() > 0)
}

pub open spec fn rows_view(v: Seq<Vec<u8>>) -> Seq<Seq<u8>> {
    v.map_values(|r: Vec<u8>| r@)
}

/// The rows of a history file, or `TooLarge` for a file past the read budget.
pub fn audit_rows(bytes: &[u8]) -> (r: Result<Vec<Vec<u8>>, OperationAuditStoreError>)
    ensures
        bytes@.len() > MAX_AUDIT_FILE_BYTES ==> r == Err::<Vec<Vec<u8>>, OperationAuditStoreError>(OperationAuditStoreError::TooLarge),
        bytes@.len() <= MAX_AUDIT_FILE_BYTES ==> (r matches Ok(rows) && rows_view(rows@) == complete_rows(bytes@)),
{
    if bytes.len() > MAX_AUDIT_FILE_BYTES {
        return Err(OperationAuditStoreError::TooLarge);
    }
    let ghost d = bytes@;
    let mut rows: Vec<Vec<u8>> = Vec::new();
    let mut start: usize = 0;
    let mut i: usize = 0;
    assert(d.subrange(0, 0) =~= Seq::<u8>::empty());
    assert(split_lines(Seq::<u8>::empty()).drop_last() =~= Seq::<Seq<u8>>::empty());
    assert(rows_view(rows@) =~= Seq::<Seq<u8>>::empty());
    proof {
        reveal(Seq::filter);
        assert(Seq::<Seq<u8>>::empty().filter(|l: Seq<u8>| l.len() > 0) =~= Seq::<Seq<u8>>::empty());
    }
    while i < bytes.len()
        invariant
            start <= i <= d.len(),
            d == bytes@,
            split_lines(d.subrange(0, i as int)).last() == d.subrange(start as int, i as int),
            rows_view(rows@) == split_lines(d.subrange(0, i as int)).drop_last().filter(|l: Seq<u8>| l.len() > 0),
        decreases d.len() - i,
    {
        let ghost pre = d.subrange(0, i as int);
        let ghost segs = split_lines(pre);
        proof {
            lemma_split_lines_len(pre);
            assert(d.subrange(0, i + 1).drop_last() =~= pre);
            assert(d.subrange(0, i + 1).last() == d[i as int]);
            reveal(Seq::filter);
        }
        if bytes[i] == 10 {
            let ghost before = rows@;
            let ghost line = d.subrange(start as int, i as int);
            proof {
                let nsegs = segs.push(Seq::<u8>::empty());
                assert(split_lines(d.subrange(0, i + 1)) == nsegs);
                assert(nsegs.drop_last() =~= segs);
                assert(segs =~= segs.drop_last().push(segs.last()));
                assert(nsegs.last() =~= d.subrange(i + 1, i + 1));
                assert(segs.drop_last().push(line).drop_last() =~= segs.drop_last());
            }
            if start < i {
                let row = crate::text::sub_bytes(bytes, start, i);
                rows.push(row);
                assert(rows_view(rows@) =~= rows_view(before).push(line));
            }
            start = i + 1;
        } else {
            proof {
                let nsegs = segs.update(segs.len() - 1, segs.last().push(d[i as int]));
                assert(split_lines(d.subrange(0, i + 1)) == nsegs);
                assert(nsegs.drop_last() =~= segs.drop_last());
                assert(nsegs.last() =~= d.subrange(start as int, i + 1));
            }
        }
        i += 1;
    }
    assert(d.subrange(0, d.len() as int) =~= d);
    Ok(rows)
}

pub open spec fn has_newline(t: Seq<u8>) -> bool {
    exists|k: int| 0 <= k < t.len() && t[k] == 10
}

proof fn lemma_split_extend(b: Seq<u8>, t: Seq<u8>)
    requires
        !has_newline(t),
    ensures
        split_lines(b + t) == split_lines(b).update(split_lines(b).len() - 1, split_lines(b).last() + t),
    decreases t.len(),
{
    lemma_split_lines_len(b);
    if t.len() == 0 {
        assert(b + t =~= b);
        assert(split_lines(b).last() + t =~= split_lines(b).last());
        assert(split_lines(b).update(split_lines(b).len() - 1, split_lines(b).last()) =~= split_lines(b));
    } else {
        let t2 = t.drop_last();
        assert(!has_newline(t2)) by {
            if has_newline(t2) {
                let k = choose|k: int| 0 <= k < t2.len() && t2[k] == 10;
                assert(t[k] == 10);
            }
        }
        lemma_split_extend(b, t2);
        assert((b + t).drop_last() =~= b + t2);
        assert((b + t).last() == t.last());
        assert(t.last() != 10) by {
            if t.last() == 10 {
                assert(t[t.len() - 1] == 10);
            }
        }
        let s = split_lines(b);
        let rest = split_lines(b + t2);
        assert(rest.len() == s.len());
        assert(rest.last() == s.last() + t2);
        assert(split_lines(b + t) == rest.update(rest.len() - 1, rest.last().push(t.last())));
        assert((s.last() + t2).push(t.last()) =~= s.last() + t);
        assert(split_lines(b + t) =~= s.update(s.len() - 1, s.last() + t));
    }
}

/// A row torn by a crash is never read: bytes without a newline after a file leave its rows
/// as they were.
pub proof fn law_torn_tail_is_not_read(b: Seq<u8>, t: Seq<u8>)
    requires
        !has_newline(t),
    ensures
        complete_rows(b + t) == complete_rows(b),
{
    lemma_split_extend(b, t);
    lemma_split_lines_len(b);
    let s = split_lines(b);
    assert(s.update(s.len() - 1, s.last() + t).drop_last() =~= s.drop_last());
}

/// Appending one row, ended by a newline, to a file whose rows are complete adds exactly that
/// row to what is read.
pub proof fn law_appended_row_is_read(b: Seq<u8>, line: Seq<u8>)
    requires
        b.len() == 0 || b.last() == 10,
        line.len() > 0,
        !has_newline(line),
    ensures
        complete_rows(b + line + seq![10u8]) == complete_rows(b).push(line),
{
    lemma_split_extend(b, line);
    lemma_split_lines_len(b);
    let s = split_lines(b);
    assert(s.last() =~= Seq::<u8>::empty()) by {
        if b.len() > 0 {
            lemma_split_lines_len(b.drop_last());
        }
    }
    let e = b + line + seq![10u8];
    assert(e.drop_last() =~= b + line);
    assert(e.last() == 10);
    assert(split_lines(e) == split_lines(b + line).push(Seq::<u8>::empty()));
    assert(s.last() + line =~= line);
    assert(split_lines(e).drop_last() =~= s.drop_last().push(line));
    reveal(Seq::filter);
    assert(s.drop_last().push(line).drop_last() =~= s.drop_last());
}

/// The newest `MAX_OPERATION_AUDIT_ENTRIES` records, in order.
pub open spec fn newest(v: Seq<RecordView>) -> Seq<RecordView> {
    if v.len() > MAX_OPERATION_AUDIT_ENTRIES {
        v.skip(v.len() - MAX_OPERATION_AUDIT_ENTRIES)
    } else {
        v
    }
}

/// A row that did not parse, or parsed to another schema version, fails the whole read.
pub open spec fn row_ok(r: Option<OperationAuditRecord>) -> bool {
    r matches Some(rec) && rec.schema_version == AUDIT_SCHEMA_VERSION
}

pub open spec fn unwrapped(v: Seq<Option<OperationAuditRecord>>) -> Seq<RecordView> {
    v.map_values(|r: Option<OperationAuditRecord>| r->Some_0@)
}

/// The records of a history file from its parsed rows (`None` where a row did not parse):
/// all rows must be records of this schema version; the newest are kept.
pub fn records_from_rows(parsed: Vec<Option<OperationAuditRecord>>) -> (r: Result<Vec<OperationAuditRecord>, OperationAuditStoreError>)
    ensures
        (forall|k: int| 0 <= k < parsed@.len() ==> row_ok(#[trigger] parsed@[k])) ==> (r matches Ok(v) && records_view(v@)
            == newest(unwrapped(parsed@))),
        !(forall|k: int| 0 <= k < parsed@.len() ==> row_ok(#[trigger] parsed@[k])) ==> r
            == Err::<Vec<OperationAuditRecord>, OperationAuditStoreError>(OperationAuditStoreError::InvalidRecord),
{
    let mut all: Vec<OperationAuditRecord> = Vec::new();
    let mut i: usize = 0;
    while i < parsed.len()
        invariant
            i <= parsed@.len(),
            forall|k: int| 0 <= k < i ==> row_ok(#[trigger] parsed@[k]),
            records_view(all@) == unwrapped(parsed@.subrange(0, i as int)),
        decreases parsed@.len() - i,
    {
        match &parsed[i] {
            Some(rec) => {
                if rec.schema_version != AUDIT_SCHEMA_VERSION {
                    assert(!row_ok(parsed@[i as int]));
                    return Err(OperationAuditStoreError::InvalidRecord);
                }
                let ghost before = all@;
                let copy = rec.duplicate();
                all.push(copy);
                assert(records_view(all@) =~= records_view(before).push(copy@));
                assert(parsed@.subrange(0, i + 1) =~= parsed@.subrange(0, i as int).push(parsed@[i as int]));
                assert(unwrapped(parsed@.subrange(0, i + 1)) =~= unwrapped(parsed@.subrange(0, i as int)).push(rec@));
            },
            None => {
                assert(!row_ok(parsed@[i as int]));
                return Err(OperationAuditStoreError::InvalidRecord);
            },
        }
        i += 1;
    }
    assert(parsed@.subrange(0, parsed@.len() as int) =~= parsed@);
    if all.len() > MAX_OPERATION_AUDIT_ENTRIES {
        let from = all.len() - MAX_OPERATION_AUDIT_ENTRIES;
        let mut kept: Vec<OperationAuditRecord> = Vec::new();
        let mut k: usize = from;
        let ghost av = records_view(all@);
        while k < all.len()
            invariant
                from <= k <= all@.len(),
                av == records_view(all@),
                records_view(kept@) == av.subrange(from as int, k as int),
            decreases all@.len() - k,
        {
            let ghost before = kept@;
            let copy = all[k].duplicate();
            kept.push(copy);
            assert(records_view(kept@) =~= records_view(before).push(copy@));
            assert(av[k as int] == all@[k as int]@);
            assert(records_view(kept@) =~= av.subrange(from as int, k + 1));
            k += 1;
        }
        assert(av.skip(av.len() - MAX_OPERATION_AUDIT_ENTRIES) =~= av.subrange(from as int, all@.len() as int));
        return Ok(kept);
    }
    Ok(all)
}

/// Where an append cuts a file whose last row may be torn, given the file's length and its
/// last `min(len, TAIL_SCAN_BYTES)` bytes: nowhere when the file is empty or ends a row; just
/// after the last newline in the window; at zero when the whole file is one torn row; and
/// when a longer file has no newline in the window, the append fails rather than guess.
pub open spec fn tail_cut_spec(len: u64, tail: Seq<u8>) -> Result<Option<u64>, OperationAuditStoreError> {
    if len == 0 || tail.last() == 10 {
        Ok(None)
    } else {
        match last_newline(tail) {
            Some(p) => Ok(Some((len - tail.len() + p + 1) as u64)),
            None => if len == tail.len() { Ok(Some(0)) } else { Err(OperationAuditStoreError::Write) },
        }
    }
}

/// The position of the last newline.
pub open spec fn last_newline(b: Seq<u8>) -> Option<int>
    decreases b.len(),
{
    if b.len() == 0 {
        None
    } else if b.last() == 10 {
        Some(b.len() - 1)
    } else {
        last_newline(b.drop_last())
    }
}

proof fn lemma_last_newline_bound(b: Seq<u8>)
    ensures
        last_newline(b) matches Some(p) ==> 0 <= p < b.len(),
    decreases b.len(),
{
    if b.len() > 0 {
        lemma_last_newline_bound(b.drop_last());
    }
}

pub fn tail_cut(len: u64, tail: &[u8]) -> (r: Result<Option<u64>, OperationAuditStoreError>)
    requires
        tail@.len() == (if len < TAIL_SCAN_BYTES { len as int } else { TAIL_SCAN_BYTES as int }),
    ensures
        r == tail_cut_spec(len, tail@),
{
    if len == 0 || tail[tail.len() - 1] == 10 {
        return Ok(None);
    }
    let ghost t = tail@;
    assert(t.subrange(0, t.len() as int) =~= t);
    let mut k: usize = tail.len();
    while k > 0 && tail[k - 1] != 10
        invariant
            k <= t.len(),
            t == tail@,
            last_newline(t) == last_newline(t.subrange(0, k as int)),
        decreases k,
    {
        assert(t.subrange(0, k as int).drop_last() =~= t.subrange(0, k - 1));
        k -= 1;
    }
    proof {
        assert(t.subrange(0, t.len() as int) =~= t);
        lemma_last_newline_bound(t);
    }
    if k > 0 {
        assert(t.subrange(0, k as int).last() == t[k - 1]);
        let scan = tail.len() as u64;
        return Ok(Some(len - scan + (k as u64 - 1) + 1));
    }
    assert(t.subrange(0, 0) =~= Seq::<u8>::empty());
    if len == tail.len() as u64 {
        Ok(Some(0))
    } else {
        Err(OperationAuditStoreError::Write)
    }
}

/// An append compacts the file when the new row would take it past the threshold.
pub fn should_compact(size: u64, line_len: usize, compact_after_bytes: u64) -> (r: bool)
    ensures
        r == ((if size + line_len > u64::MAX { u64::MAX as int } else { size + line_len }) > compact_after_bytes),
{
    let line = line_len as u64;
    let total: u64 = if size > u64::MAX - line { u64::MAX } else { size + line };
    total > compact_after_bytes
}

/// How a command ended, as recorded in the history.
#[derive(Debug, Clone, PartialEq, Eq)]
pub struct OperationOutcome {
    pub result: OperationAuditResult,
    pub error_code: Option<String>,
    pub changed: u32,
    pub unchanged: u32,
    pub files: u32,
}

/// The phase a result is recorded under.
pub open spec fn result_phase(r: OperationAuditResult) -> OperationAuditPhase {
    match r {
        OperationAuditResult::Success => OperationAuditPhase::Completed,
        OperationAuditResult::RolledBack | OperationAuditResult::Critical => OperationAuditPhase::Recovery,
        OperationAuditResult::Rejected | OperationAuditResult::Busy => OperationAuditPhase::Preflight,
        OperationAuditResult::Failed => OperationAuditPhase::Verify,
    }
}

pub fn phase_for_result(result: OperationAuditResult) -> (r: OperationAuditPhase)
    ensures
        r == result_phase(result),
{
    match result {
        OperationAuditResult::Success => OperationAuditPhase::Completed,
        OperationAuditResult::RolledBack | OperationAuditResult::Critical => OperationAuditPhase::Recovery,
        OperationAuditResult::Rejected | OperationAuditResult::Busy => OperationAuditPhase::Preflight,
        OperationAuditResult::Failed => OperationAuditPhase::Verify,
    }
}

impl OperationOutcome {
    /// An outcome with a result, an optional code and the counts.
    pub fn new(result: OperationAuditResult, error_code: Option<&str>, changed: u32, unchanged: u32, files: u32) -> (r: Self)
        ensures
            r.result == result,
            opt_view(r.error_code) == opt_str_view(error_code),
            r.changed == changed,
            r.unchanged == unchanged,
            r.files == files,
    {
        OperationOutcome { result, error_code: opt_owned(error_code), changed, unchanged, files }
    }

    pub fn success(changed: u32, unchanged: u32, files: u32) -> (r: Self)
        ensures
            r.result == OperationAuditResult::Success,
            r.error_code is None,
            r.changed == changed && r.unchanged == unchanged && r.files == files,
    {
        OperationOutcome { result: OperationAuditResult::Success, error_code: None, changed, unchanged, files }
    }

    /// What a command that recorded nothing is recorded as.
    pub fn unrecorded() -> (r: Self)
        ensures
            r.result == OperationAuditResult::Failed,
            opt_view(r.error_code) == Some("operation_failed"@),
            r.changed == 0 && r.unchanged == 0 && r.files == 0,
    {
        OperationOutcome { result: OperationAuditResult::Failed, error_code: Some(owned("operation_failed")), changed: 0, unchanged: 0, files: 0 }
    }
}

/// The outcome a command leaves: the one it recorded, else a failure.
pub fn final_outcome(recorded: Option<OperationOutcome>) -> (r: OperationOutcome)
    ensures
        match recorded {
            Some(o) => r == o,
            None => r.result == OperationAuditResult::Failed && opt_view(r.error_code) == Some("operation_failed"@)
                && r.changed == 0 && r.unchanged == 0 && r.files == 0,
        },
{
    match recorded {
        Some(o) => o,
        None => OperationOutcome::unrecorded(),
    }
}

/// The history input that a finished command appends, at `now_secs` seconds, with the phase
/// its result implies.
pub fn outcome_input(now_secs: u64, batch_id: String, scope: String, outcome: OperationOutcome, role_id: Option<&str>) -> (r: OperationAuditInput)
    ensures
        r.at_ms == (if now_secs * 1000 > u64::MAX { u64::MAX as int } else { now_secs * 1000 }),
        r.batch_id == batch_id,
        r.scope == scope,
        r.relative_file is None,
        r.phase == result_phase(outcome.result),
        r.result == outcome.result,
        r.error_code == outcome.error_code,
        r.changed == outcome.changed && r.unchanged == outcome.unchanged && r.files == outcome.files,
        opt_view(r.role_id) == opt_str_view(role_id),
        r.model is None && r.effort is None,
{
    let phase = phase_for_result(outcome.result);
    let at_ms: u64 = if now_secs > u64::MAX / 1000 { u64::MAX } else { now_secs * 1000 };
    OperationAuditInput {
        at_ms,
        batch_id,
        scope,
        relative_file: None,
        phase,
        result: outcome.result,
        error_code: outcome.error_code,
        changed: outcome.changed,
        unchanged: outcome.unchanged,
        files: outcome.files,
        role_id: opt_owned(role_id),
        model: None,
        effort: None,
    }
}

/// How a failed audit command is recorded: a second run while one is running is rejected, a
/// failed transaction rolled back, anything else failed; always under a stable code.
pub open spec fn audit_error_result(error: Seq<char>) -> OperationAuditResult {
    if error == "audit_already_running"@ {
        OperationAuditResult::Rejected
    } else if crate::text::starts_with(error, crate::role_commands::txn_prefix()) {
        OperationAuditResult::RolledBack
    } else {
        OperationAuditResult::Failed
    }
}

/// The stable code an audit command error is recorded under.
pub fn stable_audit_error_code(error: &str) -> (r: String)
    ensures
        r@ == crate::role_commands::stable_code_or(error@, "audit_failed"@),
{
    crate::role_commands::stable_error_code(error, "audit_failed")
}

pub fn audit_error_outcome(error: &str) -> (r: OperationOutcome)
    ensures
        r.result == audit_error_result(error@),
        opt_view(r.error_code) == Some(crate::role_commands::stable_code_or(error@, "audit_failed"@)),
        r.changed == 0 && r.unchanged == 0 && r.files == 0,
{
    proof {
        reveal_strlit("guard transaction failed: ");
    }
    let code = stable_audit_error_code(error);
    let result = if crate::text::str_eq(error, "audit_already_running") {
        OperationAuditResult::Rejected
    } else if crate::text::starts_with_chars(&crate::text::chars_of(error), &crate::text::chars_of("guard transaction failed: ")) {
        OperationAuditResult::RolledBack
    } else {
        OperationAuditResult::Failed
    };
    OperationOutcome { result, error_code: Some(code), changed: 0, unchanged: 0, files: 0 }
}

} // verus!
