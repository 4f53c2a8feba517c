//! The decisions behind the Guard view: which batch actions a set of members allows, how
//! many members and files each would touch, and the health and recovery that the view shows.
use vstd::prelude::*;
use crate::batch::{
    eligibility_spec, evaluate_eligibility, plan_member_action, plan_spec, BatchAction, BatchEligibilityReason,
    EligibilityContext,
};
use crate::coordinator::GuardRecoveryStatus;
use crate::lifecycle::{HealthStatus, ParameterLifecycle};
use crate::model::{opt_view, GuardFileFormat};
use crate::text::{owned, str_eq};

verus! {

#[derive(Debug, Clone, Copy, PartialEq, Eq, Structural)]
pub enum GuardRuntimeState {
    Running,
    Suspended,
}

/// The Guard runs exactly when it is enabled.
pub fn runtime_state(enabled: bool) -> (r: GuardRuntimeState)
    ensures
        r == (if enabled { GuardRuntimeState::Running } else { GuardRuntimeState::Suspended }),
{
    if enabled { GuardRuntimeState::Running } else { GuardRuntimeState::Suspended }
}

/// Whether an action is open on a scope, why not, and how many members and files it would
/// touch.
#[derive(Debug, Clone, PartialEq, Eq)]
pub struct ActionEligibilityView {
    pub enabled: bool,
    pub reason: Option<String>,
    pub affected_members: u32,
    pub affected_files: u32,
}

#[derive(Debug, Clone, PartialEq, Eq)]
pub struct ActionStatesView {
    pub apply: ActionEligibilityView,
    pub lock: ActionEligibilityView,
    pub unlock: ActionEligibilityView,
    pub disable: ActionEligibilityView,
}

/// What the view's decisions read of a member: a parameter with its file, group, state and
/// last check.
#[derive(Debug, Clone, PartialEq, Eq)]
pub struct MemberSnapshot {
    pub param_id: String,
    pub group_id: String,
    pub file: String,
    pub format: GuardFileFormat,
    pub lifecycle: ParameterLifecycle,
    pub health: HealthStatus,
    /// A lifecycle migration is waiting for the user's choice.
    pub pending_migration: bool,
    /// Why the last check of the member failed, if it did.
    pub error: Option<String>,
}

impl MemberSnapshot {
    pub fn duplicate(&self) -> (r: Self)
        ensures
            r == *self,
    {
        MemberSnapshot {
            param_id: self.param_id.clone(),
            group_id: self.group_id.clone(),
            file: self.file.clone(),
            format: self.format,
            lifecycle: self.lifecycle,
            health: self.health,
            pending_migration: self.pending_migration,
            error: match &self.error {
                Some(e) => Some(e.clone()),
                None => None,
            },
        }
    }
}

pub struct EligibilityTally {
    pub enabled: bool,
    pub reason: Option<Seq<char>>,
    pub members: nat,
    pub files: Seq<Seq<char>>,
}

pub open spec fn reason_name(r: BatchEligibilityReason) -> Seq<char> {
    match r {
        BatchEligibilityReason::Invalid => "invalid"@,
        BatchEligibilityReason::Unsupported => "unsupported"@,
        BatchEligibilityReason::Error => "error"@,
        BatchEligibilityReason::StateUnavailable => "state_unavailable"@,
        BatchEligibilityReason::RecoveryInProgress => "recovery_in_progress"@,
        BatchEligibilityReason::OwnershipUncertain => "ownership_uncertain"@,
    }
}

/// Why a member blocks the action, if it does: a pending migration first.
pub open spec fn member_block(action: BatchAction, m: MemberSnapshot) -> Option<Seq<char>> {
    if m.pending_migration {
        Some("lifecycle_migration_pending"@)
    } else {
        let e = eligibility_spec(action, EligibilityContext {
            lifecycle: m.lifecycle,
            health: m.health,
            state_readable: true,
            transaction_recovering: false,
            ownership_known: true,
        });
        if e.eligible {
            None
        } else {
            match e.reason {
                Some(r) => Some(reason_name(r)),
                None => Some("state_unavailable"@),
            }
        }
    }
}

/// One member counted: the first block gives the reason; a changed member counts, and so
/// does its file once when the action writes it.
pub open spec fn tally_step(t: EligibilityTally, action: BatchAction, m: MemberSnapshot) -> EligibilityTally {
    let b = member_block(action, m);
    let plan = plan_spec(action, m.lifecycle, m.health);
    EligibilityTally {
        enabled: t.enabled && b is None,
        reason: if t.reason is Some { t.reason } else { b },
        members: if plan.changed { t.members + 1 } else { t.members },
        files: if plan.changed && plan.writes_file && !t.files.contains(m.file@) { t.files.push(m.file@) } else { t.files },
    }
}

pub open spec fn tally(action: BatchAction, members: Seq<MemberSnapshot>) -> EligibilityTally
    decreases members.len(),
{
    if members.len() == 0 {
        EligibilityTally { enabled: true, reason: None, members: 0, files: Seq::empty() }
    } else {
        tally_step(tally(action, members.drop_last()), action, members.last())
    }
}

pub struct EligibilityView {
    pub enabled: bool,
    pub reason: Option<Seq<char>>,
    pub affected_members: int,
    pub affected_files: int,
}

pub open spec fn eligibility_view(v: ActionEligibilityView) -> EligibilityView {
    EligibilityView {
        enabled: v.enabled,
        reason: opt_view(v.reason),
        affected_members: v.affected_members as int,
        affected_files: v.affected_files as int,
    }
}

/// An empty scope allows nothing; otherwise the action is open when no member blocks it.
pub open spec fn action_eligibility_spec(action: BatchAction, members: Seq<MemberSnapshot>) -> EligibilityView {
    if members.len() == 0 {
        EligibilityView { enabled: false, reason: Some("empty_scope"@), affected_members: 0, affected_files: 0 }
    } else {
        let t = tally(action, members);
        EligibilityView { enabled: t.enabled, reason: t.reason, affected_members: t.members as int, affected_files: t.files.len() as int }
    }
}

proof fn lemma_tally_bounds(action: BatchAction, members: Seq<MemberSnapshot>)
    ensures
        tally(action, members).members <= members.len(),
        tally(action, members).files.len() <= members.len(),
    decreases members.len(),
{
    if members.len() > 0 {
        lemma_tally_bounds(action, members.drop_last());
    }
}

fn holds_file(files: &Vec<String>, f: &str) -> (r: bool)
    ensures
        r == crate::ownership::strings_view(files@).contains(f@),
{
    crate::audit::contains_string(files, f)
}

pub fn action_eligibility(action: BatchAction, members: &[MemberSnapshot]) -> (r: ActionEligibilityView)
    requires
        members@.len() <= u32::MAX,
    ensures
        eligibility_view(r) == action_eligibility_spec(action, members@),
{
    proof {
        reveal_strlit("empty_scope");
        reveal_strlit("lifecycle_migration_pending");
        reveal_strlit("state_unavailable");
    }
    if members.len() == 0 {
        return ActionEligibilityView { enabled: false, reason: Some(owned("empty_scope")), affected_members: 0, affected_files: 0 };
    }
    let ghost ms = members@;
    let mut enabled = true;
    let mut reason: Option<String> = None;
    let mut affected: u32 = 0;
    let mut files: Vec<String> = Vec::new();
    let mut i: usize = 0;
    while i < members.len()
        invariant
            i <= members@.len() <= u32::MAX,
            ms == members@,
            ({
                let t = tally(action, ms.subrange(0, i as int));
                &&& enabled == t.enabled
                &&& opt_view(reason) == t.reason
                &&& affected as nat == t.members
                &&& crate::ownership::strings_view(files@) == t.files
            }),
        decreases members@.len() - i,
    {
        proof {
            lemma_tally_bounds(action, ms.subrange(0, i as int));
            assert(ms.subrange(0, i + 1).drop_last() =~= ms.subrange(0, i as int));
            assert(ms.subrange(0, i + 1).last() == ms[i as int]);
        }
        let m = &members[i];
        let block: Option<String> = if m.pending_migration {
            Some(owned("lifecycle_migration_pending"))
        } else {
            let e = evaluate_eligibility(action, EligibilityContext::new(m.lifecycle, m.health));
            if e.eligible {
                None
            } else {
                match e.reason {
                    Some(r) => Some(owned(r.as_str())),
                    None => Some(owned("state_unavailable")),
                }
            }
        };
        assert(opt_view(block) == member_block(action, *m));
        if block.is_some() {
            enabled = false;
            if reason.is_none() {
                reason = block;
            }
        }
        let plan = plan_member_action(action, m.lifecycle, m.health);
        if plan.changed {
            affected += 1;
            if plan.writes_file && !holds_file(&files, m.file.as_str()) {
                let ghost before = files@;
                files.push(m.file.clone());
                assert(crate::ownership::strings_view(files@) =~= crate::ownership::strings_view(before).push(m.file@));
            }
        }
        i += 1;
    }
    assert(ms.subrange(0, ms.len() as int) =~= ms);
    proof {
        lemma_tally_bounds(action, ms);
    }
    ActionEligibilityView { enabled, reason, affected_members: affected, affected_files: files.len() as u32 }
}

pub fn action_states(members: &[MemberSnapshot]) -> (r: ActionStatesView)
    requires
        members@.len() <= u32::MAX,
    ensures
        eligibility_view(r.apply) == action_eligibility_spec(BatchAction::Apply, members@),
        eligibility_view(r.lock) == action_eligibility_spec(BatchAction::Lock, members@),
        eligibility_view(r.unlock) == action_eligibility_spec(BatchAction::Unlock, members@),
        eligibility_view(r.disable) == action_eligibility_spec(BatchAction::Disable, members@),
{
    ActionStatesView {
        apply: action_eligibility(BatchAction::Apply, members),
        lock: action_eligibility(BatchAction::Lock, members),
        unlock: action_eligibility(BatchAction::Unlock, members),
        disable: action_eligibility(BatchAction::Disable, members),
    }
}

/// A member waiting for a migration blocks every action, whatever its lifecycle and health.
pub proof fn law_pending_migration_blocks_every_action(action: BatchAction, members: Seq<MemberSnapshot>)
    requires
        exists|k: int| 0 <= k < members.len() && (#[trigger] members[k]).pending_migration,
    ensures
        !action_eligibility_spec(action, members).enabled,
    decreases members.len(),
{
    let k = choose|k: int| 0 <= k < members.len() && (#[trigger] members[k]).pending_migration;
    if k == members.len() - 1 {
    } else {
        assert(members.drop_last()[k] == members[k]);
        law_pending_migration_blocks_every_action(action, members.drop_last());
    }
}

/// The health that a check status gives a member: a pending migration makes it invalid;
/// `match` is healthy, `drift` and `missing` drifted, anything else an error.
pub open spec fn member_health_spec(pending_migration: bool, status: Seq<char>) -> HealthStatus {
    if pending_migration {
        HealthStatus::Invalid
    } else if status == "match"@ {
        HealthStatus::Healthy
    } else if status == "drift"@ || status == "missing"@ {
        HealthStatus::Drifted
    } else {
        HealthStatus::Error
    }
}

pub fn member_health(pending_migration: bool, status: &str) -> (r: HealthStatus)
    ensures
        r == member_health_spec(pending_migration, status@),
{
    if pending_migration {
        HealthStatus::Invalid
    } else if str_eq(status, "match") {
        HealthStatus::Healthy
    } else if str_eq(status, "drift") || str_eq(status, "missing") {
        HealthStatus::Drifted
    } else {
        HealthStatus::Error
    }
}

/// The recovery the view shows: a blocked coordinator first, then a pending format
/// migration, then a pending lifecycle migration.
pub open spec fn view_recovery_spec(status: GuardRecoveryStatus, format_pending: bool, lifecycle_pending: bool) -> (bool, Option<Seq<char>>) {
    if status.blocked {
        (true, opt_view(status.code))
    } else if format_pending {
        (true, Some("format_migration_pending"@))
    } else if lifecycle_pending {
        (true, Some("lifecycle_migration_pending"@))
    } else {
        (false, None)
    }
}

pub fn view_recovery(status: GuardRecoveryStatus, format_pending: bool, lifecycle_pending: bool) -> (r: GuardRecoveryStatus)
    ensures
        (r.blocked, opt_view(r.code)) == view_recovery_spec(status, format_pending, lifecycle_pending),
{
    if status.blocked {
        status
    } else if format_pending {
        GuardRecoveryStatus { blocked: true, code: Some(owned("format_migration_pending")) }
    } else if lifecycle_pending {
        GuardRecoveryStatus { blocked: true, code: Some(owned("lifecycle_migration_pending")) }
    } else {
        GuardRecoveryStatus { blocked: false, code: None }
    }
}

} // verus!
