//! Transaction phases and recovery decisions, without any file I/O.
use vstd::prelude::*;
use crate::text::{chars_of, contains_seq, owned, str_eq};

verus! {

#[derive(Debug, Clone, Copy, PartialEq, Eq, Structural)]
pub enum TransactionPhase {
    Preflight,
    Snapshot,
    Writing,
    PostCheck,
    Restoring,
    Completed,
    Critical,
}

/// The phase steps a transaction may take.
pub open spec fn phase_step(from: TransactionPhase, to: TransactionPhase) -> bool {
    match (from, to) {
        (TransactionPhase::Preflight, TransactionPhase::Snapshot) => true,
        (TransactionPhase::Snapshot, TransactionPhase::Writing) => true,
        (TransactionPhase::Writing, TransactionPhase::PostCheck) => true,
        (TransactionPhase::Writing, TransactionPhase::Restoring) => true,
        (TransactionPhase::PostCheck, TransactionPhase::Completed) => true,
        (TransactionPhase::PostCheck, TransactionPhase::Restoring) => true,
        (TransactionPhase::Restoring, TransactionPhase::Completed) => true,
        (TransactionPhase::Restoring, TransactionPhase::Critical) => true,
        (TransactionPhase::Critical, TransactionPhase::Restoring) => true,
        _ => false,
    }
}

impl TransactionPhase {
    pub fn can_transition(self, next: Self) -> (r: bool)
        ensures
            r == phase_step(self, next),
    {
        match (self, next) {
            (TransactionPhase::Preflight, TransactionPhase::Snapshot) => true,
            (TransactionPhase::Snapshot, TransactionPhase::Writing) => true,
            (TransactionPhase::Writing, TransactionPhase::PostCheck) => true,
            (TransactionPhase::Writing, TransactionPhase::Restoring) => true,
            (TransactionPhase::PostCheck, TransactionPhase::Completed) => true,
            (TransactionPhase::PostCheck, TransactionPhase::Restoring) => true,
            (TransactionPhase::Restoring, TransactionPhase::Completed) => true,
            (TransactionPhase::Restoring, TransactionPhase::Critical) => true,
            (TransactionPhase::Critical, TransactionPhase::Restoring) => true,
            _ => false,
        }
    }
}

#[derive(Debug, Clone, Copy, PartialEq, Eq, Structural)]
pub enum TransactionErrorCode {
    InvalidTransition,
    JournalSchema,
    JournalIo,
    ReadFailed,
    IdentityChanged,
    ReplaceFailed,
    DurableBackupFailed,
    PostCheckFailed,
    RestoreFailedCritical,
    FaultInjected,
}

pub open spec fn transaction_error_text(code: TransactionErrorCode) -> Seq<char> {
    match code {
        TransactionErrorCode::InvalidTransition => "invalid_transition"@,
        TransactionErrorCode::JournalSchema => "journal_schema"@,
        TransactionErrorCode::JournalIo => "journal_io"@,
        TransactionErrorCode::ReadFailed => "read_failed"@,
        TransactionErrorCode::IdentityChanged => "identity_changed"@,
        TransactionErrorCode::ReplaceFailed => "replace_failed"@,
        TransactionErrorCode::DurableBackupFailed => "durable_backup_failed"@,
        TransactionErrorCode::PostCheckFailed => "post_check_failed"@,
        TransactionErrorCode::RestoreFailedCritical => "restore_failed_critical"@,
        TransactionErrorCode::FaultInjected => "fault_injected"@,
    }
}

impl TransactionErrorCode {
    pub fn as_str(self) -> (r: &'static str)
        ensures
            r@ == transaction_error_text(self),
    {
        match self {
            TransactionErrorCode::InvalidTransition => "invalid_transition",
            TransactionErrorCode::JournalSchema => "journal_schema",
            TransactionErrorCode::JournalIo => "journal_io",
            TransactionErrorCode::ReadFailed => "read_failed",
            TransactionErrorCode::IdentityChanged => "identity_changed",
            TransactionErrorCode::ReplaceFailed => "replace_failed",
            TransactionErrorCode::DurableBackupFailed => "durable_backup_failed",
            TransactionErrorCode::PostCheckFailed => "post_check_failed",
            TransactionErrorCode::RestoreFailedCritical => "restore_failed_critical",
            TransactionErrorCode::FaultInjected => "fault_injected",
        }
    }
}

#[derive(Debug, Clone, Copy, PartialEq, Eq, Structural)]
pub struct TransactionError {
    pub code: TransactionErrorCode,
}

impl TransactionError {
    pub fn new(code: TransactionErrorCode) -> (r: Self)
        ensures
            r.code == code,
    {
        TransactionError { code }
    }
}

/// Failure locations of the durable transaction protocol, for exercising the executor.
#[derive(Debug, Clone, Copy, PartialEq, Eq, Structural)]
pub enum TransactionFaultPoint {
    JournalCreate,
    JournalSync,
    Snapshot(usize),
    PreWriteIdentity(usize),
    DurableBackup(usize),
    Write(usize),
    Replace(usize),
    PostCheck(usize),
    StateSaveBefore(TransactionPhase),
    StateSaveAfter(TransactionPhase),
    CommitMarkerBefore,
    CommitMarkerAfter,
    Restore(usize),
    JournalCleanup,
}

/// A plan holding at most one failure, which trips once.
#[derive(Debug, Clone, Copy)]
pub struct TransactionFaultPlan {
    pub point: Option<TransactionFaultPoint>,
    pub tripped: bool,
}

impl Default for TransactionFaultPlan {
    fn default() -> (r: Self)
        ensures
            r.point is None && !r.tripped,
    {
        TransactionFaultPlan { point: None, tripped: false }
    }
}

/// Whether a check at this point trips the plan.
pub open spec fn fault_trips(plan: TransactionFaultPlan, point: TransactionFaultPoint) -> bool {
    !plan.tripped && plan.point == Some(point)
}

impl TransactionFaultPlan {
    pub fn disabled() -> (r: Self)
        ensures
            r.point is None && !r.tripped,
    {
        TransactionFaultPlan { point: None, tripped: false }
    }

    pub fn fail_at(point: TransactionFaultPoint) -> (r: Self)
        ensures
            r.point == Some(point) && !r.tripped,
    {
        TransactionFaultPlan { point: Some(point), tripped: false }
    }

    /// Fails once, at the planned point; every other check succeeds.
    pub fn check(&mut self, point: TransactionFaultPoint) -> (r: Result<(), TransactionError>)
        ensures
            fault_trips(*old(self), point) ==> (r matches Err(e) && e.code
                == TransactionErrorCode::FaultInjected && final(self).tripped && final(self).point
                == old(self).point),
            !fault_trips(*old(self), point) ==> (r is Ok && *final(self) == *old(self)),
    {
        let hit = match self.point {
            Some(p) => p == point,
            None => false,
        };
        if !self.tripped && hit {
            self.tripped = true;
            return Err(TransactionError::new(TransactionErrorCode::FaultInjected));
        }
        Ok(())
    }
}

/// A tripped plan never trips again.
pub proof fn law_fault_plan_trips_once(
    plan: TransactionFaultPlan,
    first: TransactionFaultPoint,
    second: TransactionFaultPoint,
)
    requires
        fault_trips(plan, first),
    ensures
        !fault_trips(TransactionFaultPlan { tripped: true, ..plan }, second),
{
}

/// Errors that leave durable recovery state behind, which must block the next write.
pub open spec fn recovery_blocking(error: Seq<char>) -> bool {
    error == "recovery_blocked"@ || error == "recovery_failed"@ || error == "migration_failed"@
        || contains_seq(error, "restore_failed_critical"@) || contains_seq(error, "journal_"@)
        || contains_seq(error, "invalid_transition"@)
}

pub fn is_recovery_blocking_error(error: &str) -> (r: bool)
    ensures
        r == recovery_blocking(error@),
{
    let e = chars_of(error);
    str_eq(error, "recovery_blocked") || str_eq(error, "recovery_failed") || str_eq(
        error,
        "migration_failed",
    ) || crate::text::contains_chars(&e, &chars_of("restore_failed_critical"))
        || crate::text::contains_chars(&e, &chars_of("journal_")) || crate::text::contains_chars(
        &e,
        &chars_of("invalid_transition"),
    )
}

pub open spec fn is_code_char(c: char) -> bool {
    ('a' <= c <= 'z') || ('A' <= c <= 'Z') || ('0' <= c <= '9') || c == '_' || c == '-' || c
        == '.' || c == ':'
}

pub open spec fn transaction_error_prefix() -> Seq<char> {
    "guard transaction failed: "@
}

/// The error without the executor's prefix.
pub open spec fn error_candidate(error: Seq<char>) -> Seq<char> {
    if crate::text::starts_with(error, transaction_error_prefix()) {
        error.subrange(transaction_error_prefix().len() as int, error.len() as int)
    } else {
        error
    }
}

/// A stable audit code: the error itself when it is a short code of ASCII letters, digits and
/// `_-.:`, else `operation_failed`.
pub open spec fn stable_code(error: Seq<char>) -> Seq<char> {
    let c = error_candidate(error);
    if c.len() > 0 && c.len() <= 96 && forall|i: int| 0 <= i < c.len() ==> is_code_char(#[trigger] c[i]) {
        c
    } else {
        "operation_failed"@
    }
}

pub fn stable_transaction_error_code(error: &str) -> (r: String)
    ensures
        r@ == stable_code(error@),
{
    let e = chars_of(error);
    let prefix = chars_of("guard transaction failed: ");
    let candidate = if crate::text::starts_with_chars(&e, &prefix) {
        crate::text::sub_chars(&e, prefix.len(), e.len())
    } else {
        e
    };
    if candidate.len() == 0 || candidate.len() > 96 {
        return owned("operation_failed");
    }
    let mut i: usize = 0;
    while i < candidate.len()
        invariant
            i <= candidate@.len(),
            candidate@ == error_candidate(error@),
            0 < candidate@.len() <= 96,
            forall|k: int| 0 <= k < i ==> is_code_char(#[trigger] candidate@[k]),
        decreases candidate@.len() - i,
    {
        let c = candidate[i];
        if !(('a' <= c && c <= 'z') || ('A' <= c && c <= 'Z') || ('0' <= c && c <= '9') || c == '_'
            || c == '-' || c == '.' || c == ':') {
            assert(!is_code_char(candidate@[i as int]));
            return owned("operation_failed");
        }
        i += 1;
    }
    crate::text::string_of(&candidate)
}

#[derive(Debug, Clone, Copy, PartialEq, Eq, Structural)]
pub enum RecoveryAction {
    CleanupCompleted,
    RestorePending,
}

/// A journal is cleaned up only when it completed and carries the commit marker.
pub open spec fn recovery_for(phase: TransactionPhase, commit_marker: bool) -> RecoveryAction {
    if phase == TransactionPhase::Completed && commit_marker {
        RecoveryAction::CleanupCompleted
    } else {
        RecoveryAction::RestorePending
    }
}

pub fn recovery_action(journal: &crate::journal::JournalEnvelope) -> (r: RecoveryAction)
    ensures
        r == recovery_for(journal.phase, journal.commit_marker),
{
    if journal.phase == TransactionPhase::Completed && journal.commit_marker {
        return RecoveryAction::CleanupCompleted;
    }
    RecoveryAction::RestorePending
}

#[derive(Debug, Clone, Copy, PartialEq, Eq, Structural)]
pub struct TransactionState {
    pub phase: TransactionPhase,
}

impl TransactionState {
    pub fn new() -> (r: Self)
        ensures
            r.phase == TransactionPhase::Preflight,
    {
        TransactionState { phase: TransactionPhase::Preflight }
    }

    /// Moves to the next phase when the step is allowed; a refused step changes nothing.
    pub fn transition(&mut self, next: TransactionPhase) -> (r: Result<(), TransactionError>)
        ensures
            phase_step(old(self).phase, next) ==> (r is Ok && final(self).phase == next),
            !phase_step(old(self).phase, next) ==> (r matches Err(e) && e.code
                == TransactionErrorCode::InvalidTransition && final(self).phase == old(self).phase),
    {
        if !self.phase.can_transition(next) {
            return Err(TransactionError::new(TransactionErrorCode::InvalidTransition));
        }
        self.phase = next;
        Ok(())
    }

    /// Marks the transaction critical, unless it already completed.
    pub fn mark_critical(&mut self) -> (r: Result<(), TransactionError>)
        ensures
            old(self).phase == TransactionPhase::Completed ==> (r matches Err(e) && e.code
                == TransactionErrorCode::InvalidTransition && final(self).phase == old(self).phase),
            old(self).phase != TransactionPhase::Completed ==> (r is Ok && final(self).phase
                == TransactionPhase::Critical),
    {
        if self.phase == TransactionPhase::Completed {
            return Err(TransactionError::new(TransactionErrorCode::InvalidTransition));
        }
        self.phase = TransactionPhase::Critical;
        Ok(())
    }
}

/// A completed transaction is terminal: no step leaves it.
pub proof fn law_completed_is_terminal(next: TransactionPhase)
    ensures
        !phase_step(TransactionPhase::Completed, next),
{
}

/// Every step moves forward by one phase or between restoring and critical; no phase steps to
/// itself, and nothing steps back to preflight.
pub proof fn law_steps_never_repeat_or_restart(from: TransactionPhase, to: TransactionPhase)
    requires
        phase_step(from, to),
    ensures
        from != to,
        to != TransactionPhase::Preflight,
{
}

/// Cleanup requires the commit marker: without it recovery always restores.
pub proof fn law_cleanup_requires_commit_marker(phase: TransactionPhase, commit_marker: bool)
    ensures
        recovery_for(phase, commit_marker) == RecoveryAction::CleanupCompleted ==> commit_marker
            && phase == TransactionPhase::Completed,
{
}

} // verus!
