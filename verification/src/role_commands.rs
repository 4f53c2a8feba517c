//! The decisions of the role commands: which error codes they report and how, what each
//! command does to the stored role states, and the wire forms of their results. Reading and
//! writing the files is the caller's.
use vstd::prelude::*;
use crate::audit::OperationAuditResult;
use crate::roles::{
    ManagedRoleRecord, RecordSpec, RoleError, RoleErrorCode, RoleHealth, RoleLifecycle, RoleMigrationChoice,
    RoleMigrationPendingReason, RoleMigrationPlan, PlanSpec, record_spec, role_error_text, MAX_MANAGED_ROLES,
};
use crate::roles_store::{ManagedRoleState, StateSpec, state_spec, states_view};
use crate::text::{chars_of, owned, str_eq, starts_with, starts_with_chars};

verus! {

pub open spec fn txn_prefix() -> Seq<char> {
    "guard transaction failed: "@
}

pub open spec fn code_char(c: char) -> bool {
    crate::audit::ascii_alnum(c) || c == '_' || c == '-' || c == '.' || c == ':'
}

/// The error without the transaction prefix.
pub open spec fn code_candidate(error: Seq<char>) -> Seq<char> {
    if starts_with(error, txn_prefix()) { error.skip(txn_prefix().len() as int) } else { error }
}

/// The stable code of a command error: the error without the transaction prefix when that is
/// a short code, else the fallback.
pub open spec fn stable_code_or(error: Seq<char>, fallback: Seq<char>) -> Seq<char> {
    let c = code_candidate(error);
    if 0 < c.len() <= 64 && forall|k: int| 0 <= k < c.len() ==> code_char(#[trigger] c[k]) {
        c
    } else {
        fallback
    }
}

pub open spec fn stable_code(error: Seq<char>) -> Seq<char> {
    stable_code_or(error, "operation_failed"@)
}

/// The stable code of an error, with `fallback` for an error that is no short code.
pub fn stable_error_code(error: &str, fallback: &str) -> (r: String)
    ensures
        r@ == stable_code_or(error@, fallback@),
{
    proof {
        reveal_strlit("guard transaction failed: ");
    }
    let v = chars_of(error);
    let p = chars_of("guard transaction failed: ");
    let start = if starts_with_chars(&v, &p) { p.len() } else { 0 };
    let mut c: Vec<char> = Vec::new();
    let mut k = start;
    while k < v.len()
        invariant
            start <= k <= v@.len(),
            c@ == v@.subrange(start as int, k as int),
        decreases v@.len() - k,
    {
        c.push(v[k]);
        assert(c@ =~= v@.subrange(start as int, k + 1));
        k += 1;
    }
    assert(c@ =~= code_candidate(error@));
    if c.len() == 0 || c.len() > 64 {
        return owned(fallback);
    }
    let mut i: usize = 0;
    while i < c.len()
        invariant
            i <= c@.len(),
            0 < c@.len() <= 64,
            c@ == code_candidate(error@),
            forall|m: int| 0 <= m < i ==> code_char(#[trigger] c@[m]),
        decreases c@.len() - i,
    {
        let ch = c[i];
        if !(('a' <= ch && ch <= 'z') || ('A' <= ch && ch <= 'Z') || ('0' <= ch && ch <= '9') || ch == '_' || ch == '-'
            || ch == '.' || ch == ':') {
            assert(!code_char(c@[i as int]));
            return owned(fallback);
        }
        i += 1;
    }
    crate::text::string_of(&c)
}

pub fn stable_role_error_code(error: &str) -> (r: String)
    ensures
        r@ == stable_code(error@),
{
    stable_error_code(error, "operation_failed")
}

/// How a failed role command is recorded in the operation audit.
pub open spec fn role_error_outcome(error: Seq<char>) -> OperationAuditResult {
    if error == "guard_busy"@ {
        OperationAuditResult::Busy
    } else if crate::transaction::recovery_blocking(error) {
        OperationAuditResult::Critical
    } else if starts_with(error, "role."@) || starts_with(error, "role_"@) || starts_with(error, "capability_"@)
        || error == "role_not_managed"@ {
        OperationAuditResult::Rejected
    } else if starts_with(error, txn_prefix()) {
        OperationAuditResult::RolledBack
    } else {
        OperationAuditResult::Failed
    }
}

pub fn role_error_result(error: &str) -> (r: OperationAuditResult)
    ensures
        r == role_error_outcome(error@),
{
    let v = chars_of(error);
    if str_eq(error, "guard_busy") {
        OperationAuditResult::Busy
    } else if crate::transaction::is_recovery_blocking_error(error) {
        OperationAuditResult::Critical
    } else if starts_with_chars(&v, &chars_of("role.")) || starts_with_chars(&v, &chars_of("role_"))
        || starts_with_chars(&v, &chars_of("capability_")) || str_eq(error, "role_not_managed") {
        OperationAuditResult::Rejected
    } else if starts_with_chars(&v, &chars_of("guard transaction failed: ")) {
        OperationAuditResult::RolledBack
    } else {
        OperationAuditResult::Failed
    }
}

// ---------- wire names ----------

pub open spec fn choice_wire(c: RoleMigrationChoice) -> Seq<char> {
    match c {
        RoleMigrationChoice::AdoptLive => "adopt_live"@,
        RoleMigrationChoice::AdoptStored => "adopt_stored"@,
        RoleMigrationChoice::UseSafeDefault => "use_safe_default"@,
    }
}

pub fn choice_name(c: RoleMigrationChoice) -> (r: &'static str)
    ensures
        r@ == choice_wire(c),
{
    match c {
        RoleMigrationChoice::AdoptLive => "adopt_live",
        RoleMigrationChoice::AdoptStored => "adopt_stored",
        RoleMigrationChoice::UseSafeDefault => "use_safe_default",
    }
}

pub open spec fn pending_wire(r: RoleMigrationPendingReason) -> Seq<char> {
    match r {
        RoleMigrationPendingReason::MissingStored => "missing_stored"@,
        RoleMigrationPendingReason::MissingLive => "missing_live"@,
        RoleMigrationPendingReason::InvalidStored => "invalid_stored"@,
        RoleMigrationPendingReason::InvalidLive => "invalid_live"@,
        RoleMigrationPendingReason::Conflict => "conflict"@,
    }
}

pub fn pending_name(r: RoleMigrationPendingReason) -> (s: &'static str)
    ensures
        s@ == pending_wire(r),
{
    match r {
        RoleMigrationPendingReason::MissingStored => "missing_stored",
        RoleMigrationPendingReason::MissingLive => "missing_live",
        RoleMigrationPendingReason::InvalidStored => "invalid_stored",
        RoleMigrationPendingReason::InvalidLive => "invalid_live",
        RoleMigrationPendingReason::Conflict => "conflict",
    }
}

pub open spec fn lifecycle_wire(l: RoleLifecycle) -> Seq<char> {
    match l {
        RoleLifecycle::Disabled => "disabled"@,
        RoleLifecycle::Applied => "applied"@,
        RoleLifecycle::Locked => "locked"@,
    }
}

pub fn lifecycle_name(l: RoleLifecycle) -> (r: &'static str)
    ensures
        r@ == lifecycle_wire(l),
{
    match l {
        RoleLifecycle::Disabled => "disabled",
        RoleLifecycle::Applied => "applied",
        RoleLifecycle::Locked => "locked",
    }
}

pub open spec fn health_wire(h: RoleHealth) -> Seq<char> {
    match h {
        RoleHealth::Healthy => "healthy"@,
        RoleHealth::Drifted => "drifted"@,
        RoleHealth::Invalid => "invalid"@,
        RoleHealth::Unsupported => "unsupported"@,
        RoleHealth::Error => "error"@,
    }
}

pub fn health_name(h: RoleHealth) -> (r: &'static str)
    ensures
        r@ == health_wire(h),
{
    match h {
        RoleHealth::Healthy => "healthy",
        RoleHealth::Drifted => "drifted",
        RoleHealth::Invalid => "invalid",
        RoleHealth::Unsupported => "unsupported",
        RoleHealth::Error => "error",
    }
}

// ---------- the default role migration ----------

/// The migration choice that the user named.
pub fn migration_choice(raw: &str) -> (r: Result<RoleMigrationChoice, RoleError>)
    ensures
        raw@ == "adopt_live"@ ==> (r matches Ok(c) && c == RoleMigrationChoice::AdoptLive),
        raw@ == "adopt_stored"@ ==> (r matches Ok(c) && c == RoleMigrationChoice::AdoptStored),
        raw@ == "use_safe_default"@ ==> (r matches Ok(c) && c == RoleMigrationChoice::UseSafeDefault),
        raw@ != "adopt_live"@ && raw@ != "adopt_stored"@ && raw@ != "use_safe_default"@ ==> (r matches Err(e)
            && e@ == crate::roles::code_err(RoleErrorCode::InvalidMigrationChoice)),
{
    proof {
        reveal_strlit("adopt_live");
        reveal_strlit("adopt_stored");
        reveal_strlit("use_safe_default");
    }
    assert("adopt_live"@.len() == 10 && "adopt_stored"@.len() == 12 && "use_safe_default"@.len() == 16);
    if str_eq(raw, "adopt_live") {
        Ok(RoleMigrationChoice::AdoptLive)
    } else if str_eq(raw, "adopt_stored") {
        Ok(RoleMigrationChoice::AdoptStored)
    } else if str_eq(raw, "use_safe_default") {
        Ok(RoleMigrationChoice::UseSafeDefault)
    } else {
        Err(RoleError::new(RoleErrorCode::InvalidMigrationChoice))
    }
}

/// A role as a role command shows it.
#[derive(Debug, Clone, PartialEq, Eq)]
pub struct RoleSummaryDto {
    pub id: String,
    pub display_name: String,
    pub purpose: String,
    pub selection_criteria: String,
    pub model: String,
    pub effort: String,
    pub order: u32,
    pub lifecycle: String,
    pub health: String,
    pub actual_file_present: bool,
}

impl RoleSummaryDto {
    /// The wire form of a managed role's summary.
    pub fn from_summary(s: crate::roles::ManagedRoleSummary) -> (r: Self)
        ensures
            r.id@ == s.id@,
            r.display_name@ == s.display_name@,
            r.purpose@ == s.purpose@,
            r.selection_criteria@ == s.selection_criteria@,
            r.model@ == s.model@,
            r.effort@ == s.effort@,
            r.order == s.order,
            r.lifecycle@ == lifecycle_wire(s.lifecycle),
            r.health@ == health_wire(s.health),
            r.actual_file_present == s.actual_file_present,
    {
        RoleSummaryDto {
            id: owned(s.id.as_str()),
            display_name: s.display_name,
            purpose: s.purpose,
            selection_criteria: s.selection_criteria,
            model: s.model,
            effort: s.effort,
            order: s.order,
            lifecycle: owned(lifecycle_name(s.lifecycle)),
            health: owned(health_name(s.health)),
            actual_file_present: s.actual_file_present,
        }
    }
}

/// The state of the default role migration as the commands report it.
#[derive(Debug, Clone, PartialEq, Eq)]
pub struct RoleMigrationDto {
    pub status: String,
    pub reason: Option<String>,
    pub choices: Vec<String>,
    pub role: Option<RoleSummaryDto>,
}

pub open spec fn choices_wire(v: Seq<RoleMigrationChoice>) -> Seq<Seq<char>> {
    v.map_values(|c: RoleMigrationChoice| choice_wire(c))
}

/// An automatic migration has nothing to choose; a pending one names its reason and the
/// choices on offer, in order.
pub fn migration_plan_dto(plan: RoleMigrationPlan) -> (r: RoleMigrationDto)
    ensures
        r.role is None,
        match plan@ {
            PlanSpec::Auto { .. } => r.status@ == "auto"@ && r.reason is None && r.choices@.len() == 0,
            PlanSpec::Pending { reason, choices } => r.status@ == "pending"@ && crate::model::opt_view(r.reason)
                == Some(pending_wire(reason)) && crate::ownership::strings_view(r.choices@) == choices_wire(choices),
        },
{
    match plan {
        RoleMigrationPlan::Auto { .. } => RoleMigrationDto { status: owned("auto"), reason: None, choices: Vec::new(), role: None },
        RoleMigrationPlan::Pending { reason, choices } => {
            let mut names: Vec<String> = Vec::new();
            let mut k: usize = 0;
            while k < choices.len()
                invariant
                    k <= choices@.len(),
                    crate::ownership::strings_view(names@) == choices_wire(choices@).subrange(0, k as int),
                decreases choices@.len() - k,
            {
                let ghost before = names@;
                let name = owned(choice_name(choices[k]));
                assert(choices_wire(choices@)[k as int] == choice_wire(choices@[k as int]));
                names.push(name);
                assert(crate::ownership::strings_view(names@) =~= crate::ownership::strings_view(before).push(name@));
                assert(crate::ownership::strings_view(names@) =~= choices_wire(choices@).subrange(0, k + 1));
                k += 1;
            }
            assert(choices_wire(choices@).subrange(0, choices@.len() as int) =~= choices_wire(choices@));
            RoleMigrationDto { status: owned("pending"), reason: Some(owned(pending_name(reason))), choices: names, role: None }
        },
    }
}

/// The default role's file is written only when its live text differs from the result.
pub fn role_file_needs_write(live: Option<&str>, expected: &str) -> (r: bool)
    ensures
        r == (crate::model::opt_str_view(live) != Some(expected@)),
{
    match live {
        Some(text) => !str_eq(text, expected),
        None => true,
    }
}

fn copy_state(s: &ManagedRoleState) -> (r: ManagedRoleState)
    ensures
        state_spec(r) == state_spec(*s),
{
    ManagedRoleState { record: s.record.duplicate(), lifecycle: s.lifecycle }
}

/// The states without the role with this id.
pub open spec fn without_role(v: Seq<StateSpec>, id: Seq<char>) -> Seq<StateSpec> {
    v.filter(|s: StateSpec| s.record.id != id)
}

pub open spec fn state_order() -> spec_fn(StateSpec, StateSpec) -> bool {
    |a: StateSpec, b: StateSpec| a.record.order < b.record.order
}

/// The states after a resolved migration: every other role kept, the new default role added,
/// all ordered by their order stably.
pub open spec fn migrated_states_spec(v: Seq<StateSpec>, next: StateSpec) -> Seq<StateSpec> {
    crate::order::stable_sort(without_role(v, crate::roles::DEFAULT_ROLE_ID@).push(next), state_order())
}

fn others(states: &[ManagedRoleState], id: &str) -> (r: Vec<ManagedRoleState>)
    ensures
        states_view(r@) == without_role(states_view(states@), id@),
{
    let ghost sv = states_view(states@);
    let mut out: Vec<ManagedRoleState> = Vec::new();
    let mut i: usize = 0;
    while i < states.len()
        invariant
            i <= states@.len(),
            sv == states_view(states@),
            states_view(out@) == without_role(sv.subrange(0, i as int), id@),
        decreases states@.len() - i,
    {
        proof {
            reveal(Seq::filter);
            assert(sv.subrange(0, i + 1).drop_last() =~= sv.subrange(0, i as int));
            assert(sv.subrange(0, i + 1).last() == state_spec(states@[i as int]));
        }
        if !str_eq(states[i].record.id.as_str(), id) {
            let ghost before = out@;
            let c = copy_state(&states[i]);
            out.push(c);
            assert(states_view(out@) =~= states_view(before).push(state_spec(c)));
        }
        i += 1;
    }
    assert(sv.subrange(0, sv.len() as int) =~= sv);
    out
}

fn insert_state(out: &mut Vec<ManagedRoleState>, m: ManagedRoleState)
    ensures
        states_view(final(out)@) == crate::order::stable_insert(states_view(old(out)@), state_spec(m), state_order()),
{
    let ghost s = states_view(out@);
    let mut p = out.len();
    while p > 0 && m.record.order < out[p - 1].record.order
        invariant
            p <= out@.len(),
            s == states_view(out@),
            forall|k: int| p <= k < s.len() ==> (state_order())(state_spec(m), #[trigger] s[k]),
        decreases p,
    {
        p -= 1;
    }
    proof {
        crate::order::lemma_stable_insert_at(s, state_spec(m), state_order(), p as int);
    }
    let ghost mv = state_spec(m);
    out.insert(p, m);
    assert(states_view(out@) =~= s.subrange(0, p as int).push(mv) + s.subrange(p as int, s.len() as int));
}

/// The stored states after the default role migration resolved to `next`.
pub fn migrated_states(states: &[ManagedRoleState], next: ManagedRoleState) -> (r: Vec<ManagedRoleState>)
    ensures
        states_view(r@) == migrated_states_spec(states_view(states@), state_spec(next)),
{
    let mut kept = others(states, crate::roles::DEFAULT_ROLE_ID);
    let ghost nv = state_spec(next);
    let ghost before = kept@;
    kept.push(next);
    assert(states_view(kept@) =~= states_view(before).push(nv));
    let ghost all = states_view(kept@);
    let mut rest = kept;
    let mut sorted: Vec<ManagedRoleState> = Vec::new();
    let ghost mut j: int = 0;
    assert(states_view(rest@) =~= all.subrange(0, all.len() as int));
    while rest.len() > 0
        invariant
            0 <= j <= all.len(),
            states_view(rest@) == all.subrange(j, all.len() as int),
            states_view(sorted@) == crate::order::stable_sort(all.subrange(0, j), state_order()),
        decreases rest@.len(),
    {
        let ghost b = rest@;
        assert(states_view(b).len() == b.len());
        let s = rest.remove(0);
        assert(states_view(b)[0] == state_spec(s));
        assert(all.subrange(j, all.len() as int)[0] == all[j]);
        assert(rest@ =~= b.subrange(1, b.len() as int));
        assert(states_view(rest@) =~= states_view(b).subrange(1, b.len() as int));
        assert(states_view(rest@) =~= all.subrange(j + 1, all.len() as int));
        proof {
            crate::order::lemma_stable_sort_step(all, j, state_order());
        }
        insert_state(&mut sorted, s);
        proof {
            j = j + 1;
        }
    }
    assert(all.subrange(0, all.len() as int) =~= all);
    sorted
}

// ---------- stop managing, delete, save, copy, adopt ----------

pub open spec fn manages(v: Seq<StateSpec>, id: Seq<char>) -> bool {
    exists|k: int| 0 <= k < v.len() && (#[trigger] v[k]).record.id == id
}

fn find_state(states: &[ManagedRoleState], id: &str) -> (r: Option<usize>)
    ensures
        match r {
            Some(k) => k < states@.len() && states_view(states@)[k as int].record.id == id@
                && forall|m: int| 0 <= m < k ==> (#[trigger] states_view(states@)[m]).record.id != id@,
            None => !manages(states_view(states@), id@),
        },
{
    let ghost sv = states_view(states@);
    let mut k: usize = 0;
    while k < states.len()
        invariant
            k <= states@.len(),
            sv == states_view(states@),
            forall|m: int| 0 <= m < k ==> (#[trigger] sv[m]).record.id != id@,
        decreases states@.len() - k,
    {
        assert(sv[k as int] == state_spec(states@[k as int]));
        if str_eq(states[k].record.id.as_str(), id) {
            return Some(k);
        }
        k += 1;
    }
    None
}

/// The states that remain when a managed role stops being managed or is deleted; a role that
/// is not managed is refused.
pub fn remaining_states(states: &[ManagedRoleState], id: &str) -> (r: Result<Vec<ManagedRoleState>, String>)
    ensures
        manages(states_view(states@), id@) ==> (r matches Ok(v) && states_view(v@) == without_role(states_view(states@), id@)),
        !manages(states_view(states@), id@) ==> (r matches Err(e) && e@ == "role_not_managed"@),
{
    match find_state(states, id) {
        None => Err(owned("role_not_managed")),
        Some(_) => Ok(others(states, id)),
    }
}

/// What a delete reports: the role file counts only when one was there.
#[derive(Debug, Clone, PartialEq, Eq)]
pub struct RoleDeleteReport {
    pub id: String,
    pub file_removed: bool,
    pub directory_updated: bool,
    pub files_removed: u32,
    pub backup_summary: Option<String>,
}

impl RoleDeleteReport {
    pub fn new(id: &str, removed: bool) -> (r: Self)
        ensures
            r.id@ == id@,
            r.file_removed == removed,
            r.directory_updated,
            r.files_removed == (if removed { 1u32 } else { 0u32 }),
            crate::model::opt_view(r.backup_summary) == (if removed { Some("files:1;backups:1"@) } else { None }),
    {
        RoleDeleteReport {
            id: owned(id),
            file_removed: removed,
            directory_updated: true,
            files_removed: if removed { 1 } else { 0 },
            backup_summary: if removed { Some(owned("files:1;backups:1")) } else { None },
        }
    }
}

/// Where a save places the role and what it keeps of an earlier version.
pub struct SavePlan {
    pub order: u32,
    pub revision: u64,
    pub previous_toml: Option<String>,
    pub lifecycle: RoleLifecycle,
}

/// A save keeps the order and lifecycle of a managed role and bumps its revision; a new role
/// goes last, disabled, at revision 1, unless a live file with its id exists.
pub fn plan_role_save(states: &[ManagedRoleState], id: &str, file_present: bool) -> (r: Result<SavePlan, RoleError>)
    requires
        states@.len() <= u32::MAX,
    ensures
        !manages(states_view(states@), id@) && file_present ==> (r matches Err(e) && e@ == crate::roles::code_err(RoleErrorCode::DuplicateRoleId)),
        !manages(states_view(states@), id@) && !file_present ==> (r matches Ok(p) && p.order == states@.len()
            && p.revision == 1 && p.previous_toml is None && p.lifecycle == RoleLifecycle::Disabled),
        manages(states_view(states@), id@) ==> (r matches Ok(p) && exists|k: int| 0 <= k < states@.len()
            && #[trigger] states_view(states@)[k].record.id == id@ && (forall|m: int| 0 <= m < k ==> (#[trigger] states_view(states@)[m]).record.id != id@)
            && p.order == states_view(states@)[k].record.order
            && p.revision == (if states_view(states@)[k].record.policy_revision == u64::MAX { u64::MAX } else { (states_view(states@)[k].record.policy_revision + 1) as u64 })
            && crate::model::opt_view(p.previous_toml) == Some(states_view(states@)[k].record.expected_toml)
            && p.lifecycle == states_view(states@)[k].lifecycle),
{
    match find_state(states, id) {
        None => {
            if file_present {
                return Err(RoleError::new(RoleErrorCode::DuplicateRoleId));
            }
            Ok(SavePlan { order: states.len() as u32, revision: 1, previous_toml: None, lifecycle: RoleLifecycle::Disabled })
        },
        Some(k) => {
            let s = &states[k];
            assert(states_view(states@)[k as int] == state_spec(*s));
            Ok(SavePlan {
                order: s.record.order,
                revision: s.record.policy_revision.saturating_add(1),
                previous_toml: Some(s.record.expected_toml.clone()),
                lifecycle: s.lifecycle,
            })
        },
    }
}

/// The states after a save: the first state with the record's id takes the record, keeping
/// its lifecycle; a new role is added with the given lifecycle.
pub open spec fn saved_states_spec(v: Seq<StateSpec>, rec: RecordSpec, lifecycle: RoleLifecycle) -> Seq<StateSpec> {
    if manages(v, rec.id) {
        let k = choose|k: int| 0 <= k < v.len() && #[trigger] v[k].record.id == rec.id && forall|m: int| 0 <= m < k ==> (#[trigger] v[m]).record.id != rec.id;
        v.update(k, StateSpec { record: rec, ..v[k] })
    } else {
        v.push(StateSpec { record: rec, lifecycle })
    }
}

pub fn states_after_save(states: Vec<ManagedRoleState>, record: ManagedRoleRecord, lifecycle: RoleLifecycle) -> (r: Vec<ManagedRoleState>)
    ensures
        states_view(r@) == saved_states_spec(states_view(states@), record_spec(record), lifecycle),
{
    let ghost sv = states_view(states@);
    let ghost rv = record_spec(record);
    let mut states = states;
    match find_state(&states, record.id.as_str()) {
        Some(k) => {
            let ghost b = states@;
            let mut s = states.remove(k);
            assert(sv[k as int] == state_spec(s));
            s.record = record;
            let ghost s2 = s;
            states.insert(k, s);
            assert(b.remove(k as int).insert(k as int, s2) =~= b.update(k as int, s2));
            assert(states_view(states@) =~= sv.update(k as int, StateSpec { record: rv, ..sv[k as int] }));
            proof {
                let kk = choose|kk: int| 0 <= kk < sv.len() && #[trigger] sv[kk].record.id == rv.id && forall|m: int| 0 <= m < kk ==> (#[trigger] sv[m]).record.id != rv.id;
                if kk < k {
                    assert(sv[kk].record.id != rv.id);
                }
                if k < kk {
                    assert(sv[k as int].record.id != rv.id);
                }
                assert(kk == k);
            }
            states
        },
        None => {
            let ghost b = states@;
            let s = ManagedRoleState { record, lifecycle };
            states.push(s);
            assert(states_view(states@) =~= sv.push(StateSpec { record: rv, lifecycle }));
            states
        },
    }
}

/// A copy may only create a role that is neither managed nor present as a file, from a
/// managed source; the position of the source is returned.
pub fn copy_source(states: &[ManagedRoleState], source: &str, target: &str, target_file_present: bool) -> (r: Result<usize, String>)
    ensures
        manages(states_view(states@), target@) || (!manages(states_view(states@), target@) && target_file_present) ==> (r matches Err(e)
            && e@ == role_error_text(RoleErrorCode::DuplicateRoleId)),
        !manages(states_view(states@), target@) && !target_file_present && !manages(states_view(states@), source@)
            ==> (r matches Err(e) && e@ == "role_not_managed"@),
        !manages(states_view(states@), target@) && !target_file_present && manages(states_view(states@), source@)
            ==> (r matches Ok(k) && k < states@.len() && states_view(states@)[k as int].record.id == source@),
{
    if find_state(states, target).is_some() || target_file_present {
        return Err(owned(RoleError::new(RoleErrorCode::DuplicateRoleId).as_str()));
    }
    match find_state(states, source) {
        None => Err(owned("role_not_managed")),
        Some(k) => Ok(k),
    }
}

/// An adoption takes a live role file under management: not one already managed, not beyond
/// the role budget, and only when its file is there.
pub fn adopt_precheck(states: &[ManagedRoleState], id: &str, file_present: bool) -> (r: Result<(), RoleError>)
    ensures
        manages(states_view(states@), id@) ==> (r matches Err(e) && e@ == crate::roles::code_err(RoleErrorCode::DuplicateRoleId)),
        !manages(states_view(states@), id@) && states@.len() >= MAX_MANAGED_ROLES ==> (r matches Err(e)
            && e@ == crate::roles::code_err(RoleErrorCode::TooManyManagedRoles)),
        !manages(states_view(states@), id@) && states@.len() < MAX_MANAGED_ROLES && !file_present ==> (r matches Err(e)
            && e@ == crate::roles::code_err(RoleErrorCode::MigrationSourceUnavailable)),
        !manages(states_view(states@), id@) && states@.len() < MAX_MANAGED_ROLES && file_present ==> r is Ok,
{
    if find_state(states, id).is_some() {
        return Err(RoleError::new(RoleErrorCode::DuplicateRoleId));
    }
    if states.len() >= MAX_MANAGED_ROLES {
        return Err(RoleError::new(RoleErrorCode::TooManyManagedRoles));
    }
    if !file_present {
        return Err(RoleError::new(RoleErrorCode::MigrationSourceUnavailable));
    }
    Ok(())
}

// ---------- inputs and results ----------

/// The fields of a role save.
#[derive(Debug, Clone, PartialEq, Eq)]
pub struct RoleSaveInput {
    pub id: String,
    pub display_name: String,
    pub purpose: String,
    pub selection_criteria: String,
    pub model: String,
    pub effort: String,
    pub instructions: String,
}

impl RoleSaveInput {
    /// The editable fields of the save, without its id.
    pub fn fields(&self) -> (r: crate::roles::RoleEditableFields)
        ensures
            r.display_name@ == self.display_name@,
            r.purpose@ == self.purpose@,
            r.selection_criteria@ == self.selection_criteria@,
            r.model@ == self.model@,
            r.effort@ == self.effort@,
            r.instructions@ == self.instructions@,
    {
        crate::roles::RoleEditableFields {
            display_name: self.display_name.clone(),
            purpose: self.purpose.clone(),
            selection_criteria: self.selection_criteria.clone(),
            model: self.model.clone(),
            effort: self.effort.clone(),
            instructions: self.instructions.clone(),
        }
    }
}

#[derive(Debug, Clone, PartialEq, Eq)]
pub struct RoleCopyInput {
    pub id: String,
    pub display_name: String,
    pub selection_criteria: String,
}

#[derive(Debug, Clone, PartialEq, Eq)]
pub struct RoleReorderInput {
    pub ids: Vec<String>,
}

#[derive(Debug, Clone, PartialEq, Eq)]
pub struct RoleMigrationResolveInput {
    pub choice: String,
    pub safe_default_toml: String,
}

#[derive(Debug, Clone, PartialEq, Eq)]
pub struct RoleListDto {
    pub roles: Vec<RoleSummaryDto>,
}

/// A managed role with its document fields, as a detail view shows it.
#[derive(Debug, Clone, PartialEq, Eq)]
pub struct RoleDetailDto {
    pub id: String,
    pub display_name: String,
    pub purpose: String,
    pub selection_criteria: String,
    pub model: String,
    pub effort: String,
    pub instructions: String,
    pub lifecycle: String,
    pub health: String,
    pub actual_file_present: bool,
    pub policy_revision: u64,
    pub policy_hash: String,
}

impl RoleDetailDto {
    pub fn from_managed(m: crate::roles::ManagedRole) -> (r: Self)
        ensures
            r.id@ == m.record.id@,
            r.display_name@ == m.view.display_name@,
            r.purpose@ == m.view.purpose@,
            r.selection_criteria@ == m.record.selection_criteria@,
            r.model@ == m.view.model@,
            r.effort@ == m.view.effort@,
            r.instructions@ == m.view.instructions@,
            r.lifecycle@ == lifecycle_wire(m.lifecycle),
            r.health@ == health_wire(m.health),
            r.actual_file_present == m.actual_file_present,
            r.policy_revision == m.record.policy_revision,
            r.policy_hash@ == m.record.policy_hash@,
    {
        RoleDetailDto {
            id: owned(m.record.id.as_str()),
            display_name: m.view.display_name,
            purpose: m.view.purpose,
            selection_criteria: m.record.selection_criteria,
            model: m.view.model,
            effort: m.view.effort,
            instructions: m.view.instructions,
            lifecycle: owned(lifecycle_name(m.lifecycle)),
            health: owned(health_name(m.health)),
            actual_file_present: m.actual_file_present,
            policy_revision: m.record.policy_revision,
            policy_hash: m.record.policy_hash,
        }
    }
}

pub open spec fn error_code_wire(c: RoleErrorCode) -> Seq<char> {
    match c {
        RoleErrorCode::InvalidRoleId => "invalid_role_id"@,
        RoleErrorCode::InvalidRoleFileName => "invalid_role_file_name"@,
        RoleErrorCode::DuplicateRoleId => "duplicate_role_id"@,
        RoleErrorCode::DefaultRoleProtected => "default_role_protected"@,
        RoleErrorCode::TooManyManagedRoles => "too_many_managed_roles"@,
        RoleErrorCode::InvalidText => "invalid_text"@,
        RoleErrorCode::TextTooLong => "text_too_long"@,
        RoleErrorCode::MissingRoleField => "missing_role_field"@,
        RoleErrorCode::InvalidRoleFieldType => "invalid_role_field_type"@,
        RoleErrorCode::UnknownRoleField => "unknown_role_field"@,
        RoleErrorCode::InvalidRoleToml => "invalid_role_toml"@,
        RoleErrorCode::InvalidRoleOrder => "invalid_role_order"@,
        RoleErrorCode::InvalidRoleLifecycle => "invalid_role_lifecycle"@,
        RoleErrorCode::UnsupportedModel => "unsupported_model"@,
        RoleErrorCode::UnsupportedReasoningEffort => "unsupported_reasoning_effort"@,
        RoleErrorCode::UnsupportedMultiAgentVersion => "unsupported_multi_agent_version"@,
        RoleErrorCode::CapabilityUnavailable => "capability_unavailable"@,
        RoleErrorCode::MigrationSourceUnavailable => "migration_source_unavailable"@,
        RoleErrorCode::MigrationSourceInvalid => "migration_source_invalid"@,
        RoleErrorCode::SafeDefaultInvalid => "safe_default_invalid"@,
        RoleErrorCode::InvalidMigrationChoice => "invalid_migration_choice"@,
    }
}

pub fn error_code_name(c: RoleErrorCode) -> (r: &'static str)
    ensures
        r@ == error_code_wire(c),
{
    match c {
        RoleErrorCode::InvalidRoleId => "invalid_role_id",
        RoleErrorCode::InvalidRoleFileName => "invalid_role_file_name",
        RoleErrorCode::DuplicateRoleId => "duplicate_role_id",
        RoleErrorCode::DefaultRoleProtected => "default_role_protected",
        RoleErrorCode::TooManyManagedRoles => "too_many_managed_roles",
        RoleErrorCode::InvalidText => "invalid_text",
        RoleErrorCode::TextTooLong => "text_too_long",
        RoleErrorCode::MissingRoleField => "missing_role_field",
        RoleErrorCode::InvalidRoleFieldType => "invalid_role_field_type",
        RoleErrorCode::UnknownRoleField => "unknown_role_field",
        RoleErrorCode::InvalidRoleToml => "invalid_role_toml",
        RoleErrorCode::InvalidRoleOrder => "invalid_role_order",
        RoleErrorCode::InvalidRoleLifecycle => "invalid_role_lifecycle",
        RoleErrorCode::UnsupportedModel => "unsupported_model",
        RoleErrorCode::UnsupportedReasoningEffort => "unsupported_reasoning_effort",
        RoleErrorCode::UnsupportedMultiAgentVersion => "unsupported_multi_agent_version",
        RoleErrorCode::CapabilityUnavailable => "capability_unavailable",
        RoleErrorCode::MigrationSourceUnavailable => "migration_source_unavailable",
        RoleErrorCode::MigrationSourceInvalid => "migration_source_invalid",
        RoleErrorCode::SafeDefaultInvalid => "safe_default_invalid",
        RoleErrorCode::InvalidMigrationChoice => "invalid_migration_choice",
    }
}

pub open spec fn syntax_wire(s: crate::roles::RoleSyntaxStatus) -> Seq<char> {
    match s {
        crate::roles::RoleSyntaxStatus::Valid => "valid"@,
        crate::roles::RoleSyntaxStatus::Invalid => "invalid"@,
    }
}

pub open spec fn capability_wire(c: crate::roles::RoleCapabilityStatus) -> Seq<char> {
    match c {
        crate::roles::RoleCapabilityStatus::Supported => "supported"@,
        crate::roles::RoleCapabilityStatus::UnsupportedModel => "unsupported_model"@,
        crate::roles::RoleCapabilityStatus::UnsupportedReasoningEffort => "unsupported_reasoning_effort"@,
        crate::roles::RoleCapabilityStatus::UnsupportedMultiAgentVersion => "unsupported_multi_agent_version"@,
        crate::roles::RoleCapabilityStatus::Unavailable => "unavailable"@,
        crate::roles::RoleCapabilityStatus::Invalid => "invalid"@,
    }
}

#[derive(Debug, Clone, PartialEq, Eq)]
pub struct RoleDiscoveryDiagnosticDto {
    pub code: String,
    pub field: Option<String>,
}

/// A discovered role file as discovery shows it: a summary, never its document.
#[derive(Debug, Clone, PartialEq, Eq)]
pub struct RoleDiscoveryItemDto {
    pub id: String,
    pub relative_file_name: String,
    pub syntax: String,
    pub capability: String,
    pub can_adopt: bool,
    pub managed: bool,
    pub diagnostics: Vec<RoleDiscoveryDiagnosticDto>,
}

#[derive(Debug, Clone, PartialEq, Eq)]
pub struct RoleDiscoveryDto {
    pub roles: Vec<RoleDiscoveryItemDto>,
}

pub open spec fn diagnostics_wire(v: Seq<RoleDiscoveryDiagnosticDto>) -> Seq<(Seq<char>, Option<Seq<char>>)> {
    v.map_values(|d: RoleDiscoveryDiagnosticDto| (d.code@, crate::model::opt_view(d.field)))
}

pub open spec fn role_diagnostics_wire(v: Seq<crate::roles::RoleDiagnostic>) -> Seq<(Seq<char>, Option<Seq<char>>)> {
    v.map_values(|d: crate::roles::RoleDiagnostic| (error_code_wire(d.code), crate::model::opt_view(d.field)))
}

impl RoleDiscoveryItemDto {
    pub fn from_discovered(item: crate::roles::DiscoveredRole) -> (r: Self)
        ensures
            r.id@ == item.id@,
            r.relative_file_name@ == item.relative_file_name@,
            r.syntax@ == syntax_wire(item.syntax),
            r.capability@ == capability_wire(item.capability),
            r.can_adopt == item.can_adopt,
            r.managed == item.managed,
            diagnostics_wire(r.diagnostics@) == role_diagnostics_wire(item.diagnostics@),
    {
        let mut diagnostics: Vec<RoleDiscoveryDiagnosticDto> = Vec::new();
        let mut k: usize = 0;
        while k < item.diagnostics.len()
            invariant
                k <= item.diagnostics@.len(),
                diagnostics_wire(diagnostics@) == role_diagnostics_wire(item.diagnostics@).subrange(0, k as int),
            decreases item.diagnostics@.len() - k,
        {
            let d = &item.diagnostics[k];
            let ghost before = diagnostics@;
            let x = RoleDiscoveryDiagnosticDto { code: owned(error_code_name(d.code)), field: crate::model::opt_clone(&d.field) };
            diagnostics.push(x);
            assert(diagnostics_wire(diagnostics@) =~= diagnostics_wire(before).push((x.code@, crate::model::opt_view(x.field))));
            assert(diagnostics_wire(diagnostics@) =~= role_diagnostics_wire(item.diagnostics@).subrange(0, k + 1));
            k += 1;
        }
        assert(role_diagnostics_wire(item.diagnostics@).subrange(0, item.diagnostics@.len() as int) =~= role_diagnostics_wire(item.diagnostics@));
        let syntax = match item.syntax {
            crate::roles::RoleSyntaxStatus::Valid => "valid",
            crate::roles::RoleSyntaxStatus::Invalid => "invalid",
        };
        let capability = match item.capability {
            crate::roles::RoleCapabilityStatus::Supported => "supported",
            crate::roles::RoleCapabilityStatus::UnsupportedModel => "unsupported_model",
            crate::roles::RoleCapabilityStatus::UnsupportedReasoningEffort => "unsupported_reasoning_effort",
            crate::roles::RoleCapabilityStatus::UnsupportedMultiAgentVersion => "unsupported_multi_agent_version",
            crate::roles::RoleCapabilityStatus::Unavailable => "unavailable",
            crate::roles::RoleCapabilityStatus::Invalid => "invalid",
        };
        RoleDiscoveryItemDto {
            id: item.id,
            relative_file_name: item.relative_file_name,
            syntax: owned(syntax),
            capability: owned(capability),
            can_adopt: item.can_adopt,
            managed: item.managed,
            diagnostics,
        }
    }
}

#[derive(Debug, Clone, PartialEq, Eq)]
pub struct CapabilityModelDto {
    pub slug: String,
    pub multi_agent_version: String,
    pub efforts: Vec<String>,
}

/// The model capabilities as the commands show them; `error` names why a stored snapshot is
/// shown in place of a failed probe.
#[derive(Debug, Clone, PartialEq, Eq)]
pub struct CapabilitySnapshotDto {
    pub available: bool,
    pub executable_identity: Option<String>,
    pub fetched_at_ms: Option<u64>,
    pub models: Vec<CapabilityModelDto>,
    pub error: Option<String>,
}

pub open spec fn model_wire(m: CapabilityModelDto) -> (Seq<char>, Seq<char>, Seq<Seq<char>>) {
    (m.slug@, m.multi_agent_version@, crate::ownership::strings_view(m.efforts@))
}

pub open spec fn capability_model_wire(m: crate::roles::ModelCapability) -> (Seq<char>, Seq<char>, Seq<Seq<char>>) {
    (m.slug@, m.multi_agent_version@, crate::ownership::strings_view(m.supported_reasoning_levels@))
}

fn copy_strings(v: &Vec<String>) -> (r: Vec<String>)
    ensures
        crate::ownership::strings_view(r@) == crate::ownership::strings_view(v@),
{
    let mut r: Vec<String> = Vec::new();
    let mut k: usize = 0;
    while k < v.len()
        invariant
            k <= v@.len(),
            crate::ownership::strings_view(r@) == crate::ownership::strings_view(v@).subrange(0, k as int),
        decreases v@.len() - k,
    {
        let ghost before = r@;
        let x = v[k].clone();
        r.push(x);
        assert(crate::ownership::strings_view(r@) =~= crate::ownership::strings_view(before).push(x@));
        assert(crate::ownership::strings_view(r@) =~= crate::ownership::strings_view(v@).subrange(0, k + 1));
        k += 1;
    }
    assert(crate::ownership::strings_view(v@).subrange(0, v@.len() as int) =~= crate::ownership::strings_view(v@));
    r
}

impl CapabilitySnapshotDto {
    pub fn from_snapshot(snapshot: &crate::roles::CapabilitySnapshot, available: bool, error: Option<String>) -> (r: Self)
        ensures
            r.available == available,
            crate::model::opt_view(r.executable_identity) == Some(snapshot.executable_identity@),
            r.fetched_at_ms == Some(snapshot.fetched_at_ms),
            r.models@.map_values(|m: CapabilityModelDto| model_wire(m)) == snapshot.models@.map_values(
                |m: crate::roles::ModelCapability| capability_model_wire(m),
            ),
            crate::model::opt_view(r.error) == crate::model::opt_view(error),
    {
        let ghost want = snapshot.models@.map_values(|m: crate::roles::ModelCapability| capability_model_wire(m));
        let mut models: Vec<CapabilityModelDto> = Vec::new();
        let mut k: usize = 0;
        while k < snapshot.models.len()
            invariant
                k <= snapshot.models@.len(),
                want == snapshot.models@.map_values(|m: crate::roles::ModelCapability| capability_model_wire(m)),
                models@.map_values(|m: CapabilityModelDto| model_wire(m)) == want.subrange(0, k as int),
            decreases snapshot.models@.len() - k,
        {
            let m = &snapshot.models[k];
            let ghost before = models@;
            let x = CapabilityModelDto {
                slug: m.slug.clone(),
                multi_agent_version: m.multi_agent_version.clone(),
                efforts: copy_strings(&m.supported_reasoning_levels),
            };
            models.push(x);
            assert(models@.map_values(|m: CapabilityModelDto| model_wire(m)) =~= before.map_values(|m: CapabilityModelDto| model_wire(m)).push(model_wire(x)));
            assert(models@.map_values(|m: CapabilityModelDto| model_wire(m)) =~= want.subrange(0, k + 1));
            k += 1;
        }
        assert(want.subrange(0, want.len() as int) =~= want);
        CapabilitySnapshotDto {
            available,
            executable_identity: Some(snapshot.executable_identity.clone()),
            fetched_at_ms: Some(snapshot.fetched_at_ms),
            models,
            error,
        }
    }
}

/// How many roles a reorder moved, and how many it left in place.
pub open spec fn moved_count(before: Seq<StateSpec>, after: Seq<StateSpec>) -> nat
    decreases after.len(),
{
    if after.len() == 0 {
        0
    } else {
        moved_count(before, after.drop_last()) + (if order_changed(before, after.last()) { 1nat } else { 0nat })
    }
}

/// The state's role held another order before; the last state with its id counts.
pub open spec fn order_changed(before: Seq<StateSpec>, s: StateSpec) -> bool {
    exists|k: int| 0 <= k < before.len() && #[trigger] before[k].record.id == s.record.id && before[k].record.order != s.record.order
        && forall|m: int| k < m < before.len() ==> (#[trigger] before[m]).record.id != s.record.id
}

fn last_order(before: &[ManagedRoleState], id: &str) -> (r: Option<u32>)
    ensures
        match r {
            Some(o) => exists|k: int| 0 <= k < before@.len() && #[trigger] states_view(before@)[k].record.id == id@
                && states_view(before@)[k].record.order == o && forall|m: int| k < m < before@.len() ==> (#[trigger] states_view(before@)[m]).record.id != id@,
            None => forall|k: int| 0 <= k < before@.len() ==> (#[trigger] states_view(before@)[k]).record.id != id@,
        },
{
    let ghost sv = states_view(before@);
    let mut k = before.len();
    while k > 0
        invariant
            k <= before@.len(),
            sv == states_view(before@),
            forall|m: int| k <= m < before@.len() ==> (#[trigger] sv[m]).record.id != id@,
        decreases k,
    {
        assert(sv[k - 1] == state_spec(before@[k - 1]));
        if str_eq(before[k - 1].record.id.as_str(), id) {
            assert(sv[k - 1].record.id == id@);
            return Some(before[k - 1].record.order);
        }
        k -= 1;
    }
    None
}

pub fn reorder_counts(before: &[ManagedRoleState], after: &[ManagedRoleState]) -> (r: (u32, u32))
    requires
        after@.len() <= u32::MAX,
    ensures
        r.0 == moved_count(states_view(before@), states_view(after@)),
        r.1 == after@.len(),
{
    let ghost bv = states_view(before@);
    let ghost av = states_view(after@);
    let mut moved: u32 = 0;
    let mut i: usize = 0;
    while i < after.len()
        invariant
            i <= after@.len() <= u32::MAX,
            bv == states_view(before@),
            av == states_view(after@),
            moved == moved_count(bv, av.subrange(0, i as int)),
            moved <= i,
        decreases after@.len() - i,
    {
        assert(av.subrange(0, i + 1).drop_last() =~= av.subrange(0, i as int));
        assert(av[i as int] == state_spec(after@[i as int]));
        match last_order(before, after[i].record.id.as_str()) {
            Some(o) => {
                if o != after[i].record.order {
                    moved += 1;
                } else {
                    assert(!order_changed(bv, av[i as int]));
                }
            },
            None => {},
        }
        i += 1;
    }
    assert(av.subrange(0, av.len() as int) =~= av);
    (moved, after.len() as u32)
}

/// A role that stops being managed, or is deleted, is no longer among the states, and every
/// other state stays.
pub proof fn law_removed_role_is_gone(v: Seq<StateSpec>, id: Seq<char>)
    ensures
        !manages(without_role(v, id), id),
        forall|k: int| 0 <= k < v.len() && (#[trigger] v[k]).record.id != id ==> without_role(v, id).contains(v[k]),
{
    let w = without_role(v, id);
    assert forall|k: int| 0 <= k < w.len() implies (#[trigger] w[k]).record.id != id by {
        v.lemma_filter_pred(|s: StateSpec| s.record.id != id, k);
    }
    assert forall|k: int| 0 <= k < v.len() && (#[trigger] v[k]).record.id != id implies w.contains(v[k]) by {
        v.lemma_filter_contains(|s: StateSpec| s.record.id != id, k);
    }
}

/// A resolved migration leaves exactly the resolved default role: it is among the states,
/// and every state with the default id is it.
pub proof fn law_migration_keeps_one_default(v: Seq<StateSpec>, next: StateSpec)
    requires
        next.record.id == crate::roles::DEFAULT_ROLE_ID@,
    ensures
        migrated_states_spec(v, next).contains(next),
        forall|k: int| 0 <= k < migrated_states_spec(v, next).len() && (#[trigger] migrated_states_spec(v, next)[k]).record.id
            == crate::roles::DEFAULT_ROLE_ID@ ==> migrated_states_spec(v, next)[k] == next,
{
    broadcast use vstd::seq_lib::group_to_multiset_ensures;
    let d = crate::roles::DEFAULT_ROLE_ID@;
    let w = without_role(v, d);
    let s = w.push(next);
    law_removed_role_is_gone(v, d);
    assert forall|k: int| 0 <= k < s.len() implies (|x: StateSpec| x.record.id == d ==> x == next)(#[trigger] s[k]) by {
        if k < w.len() {
            assert(s[k] == w[k]);
            assert(w[k].record.id != d);
        }
    }
    crate::order::lemma_stable_sort_all(s, state_order(), |x: StateSpec| x.record.id == d ==> x == next);
    crate::order::lemma_stable_sort_multiset(s, state_order());
    assert(s[s.len() - 1] == next);
    assert(s.to_multiset().count(next) > 0);
    assert(crate::order::stable_sort(s, state_order()).to_multiset().count(next) > 0);
}

} // verus!
