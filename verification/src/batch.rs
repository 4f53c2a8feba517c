//! Batch lifecycle operations: the pure domain model.
//!
//! This module resolves scopes, aggregates member states and computes the action matrix and
//! eligibility. File plans, configuration saves and transaction execution live elsewhere.
use vstd::prelude::*;
use crate::lifecycle::{ParameterLifecycle, HealthStatus, LifecycleSummary, lifecycle_summary, health_summary, summarize_lifecycle, summarize_health};
use crate::model::ValidationDiagnostic;
use crate::text::{seq_lt, str_lt, str_eq, owned};

verus! {

pub const BATCH_CONTRACT_SCHEMA_VERSION: u32 = 1;

/// Stable lifecycle stages emitted while a batch is executing. The payload carries no path,
/// file contents or parameter values.
#[derive(Debug, Clone, Copy, PartialEq, Eq, Structural)]
pub enum GuardOperationPhase {
    Preflight,
    Snapshot,
    Write,
    Verify,
    Completed,
    Recovery,
}

#[derive(Debug, Clone, PartialEq, Eq)]
pub struct GuardOperationProgress {
    pub batch_id: String,
    pub phase: GuardOperationPhase,
    pub completed: u32,
    pub total: u32,
}

#[derive(Debug, Clone)]
pub struct BatchPreview {
    pub schema_version: u32,
    pub preview_id: String,
    /// SHA-256 revision of the semantic launcher configuration used for the preview.
    pub revision: String,
    pub scope: BatchScope,
    pub action: BatchAction,
    pub member_ids: Vec<String>,
    pub affected_members: u32,
    pub affected_files: u32,
    pub changed: u32,
    pub unchanged: u32,
    pub files: u32,
    pub eligible: bool,
    pub blockers: Vec<ValidationDiagnostic>,
    pub diagnostics: Vec<ValidationDiagnostic>,
}

/// Scope of a batch command.
#[derive(Debug, Clone, PartialEq, Eq)]
pub enum BatchScope {
    All,
    Group { group_id: String },
    Parameter { parameter_id: String },
    Role { role_id: String },
}

impl BatchScope {
    pub fn all() -> (r: Self)
        ensures
            r is All,
    {
        BatchScope::All
    }

    pub fn group(group_id: &str) -> (r: Self)
        ensures
            r matches BatchScope::Group { group_id: g } && g@ == group_id@,
    {
        BatchScope::Group { group_id: owned(group_id) }
    }

    pub fn parameter(parameter_id: &str) -> (r: Self)
        ensures
            r matches BatchScope::Parameter { parameter_id: p } && p@ == parameter_id@,
    {
        BatchScope::Parameter { parameter_id: owned(parameter_id) }
    }

    pub fn role(role_id: &str) -> (r: Self)
        ensures
            r matches BatchScope::Role { role_id: p } && p@ == role_id@,
    {
        BatchScope::Role { role_id: owned(role_id) }
    }
}

/// A batch lifecycle action.
#[derive(Debug, Clone, Copy, PartialEq, Eq, Hash, Structural)]
pub enum BatchAction {
    Apply,
    Lock,
    Unlock,
    Disable,
}

impl BatchAction {
    pub open spec fn spec_writes_target_file(self) -> bool {
        self is Apply || self is Lock
    }

    pub fn writes_target_file(self) -> (r: bool)
        ensures
            r == self.spec_writes_target_file(),
    {
        matches!(self, BatchAction::Apply | BatchAction::Lock)
    }
}

/// Batch request contract with an explicit schema version.
#[derive(Debug, Clone, PartialEq, Eq)]
pub struct BatchRequest {
    pub schema_version: u32,
    pub scope: BatchScope,
    pub action: BatchAction,
}

impl BatchRequest {
    pub fn new(scope: BatchScope, action: BatchAction) -> (r: Self)
        ensures
            r.schema_version == BATCH_CONTRACT_SCHEMA_VERSION,
            r.scope == scope,
            r.action == action,
    {
        BatchRequest { schema_version: BATCH_CONTRACT_SCHEMA_VERSION, scope, action }
    }

    pub fn is_supported_version(&self) -> (r: bool)
        ensures
            r == (self.schema_version == BATCH_CONTRACT_SCHEMA_VERSION),
    {
        self.schema_version == BATCH_CONTRACT_SCHEMA_VERSION
    }
}

/// Final outcome of a batch transaction; there is no partial success.
#[derive(Debug, Clone, Copy, PartialEq, Eq, Structural)]
pub enum BatchOutcome {
    Committed,
    Rejected,
    RolledBack,
    CriticalRecovery,
}

/// Batch transaction report.
#[derive(Debug, Clone)]
pub struct BatchReport {
    pub schema_version: u32,
    pub batch_id: String,
    pub outcome: BatchOutcome,
    pub changed: u32,
    pub unchanged: u32,
    pub files: u32,
    pub diagnostics: Vec<ValidationDiagnostic>,
}

impl BatchReport {
    pub fn new(batch_id: &str, outcome: BatchOutcome) -> (r: Self)
        ensures
            r.schema_version == BATCH_CONTRACT_SCHEMA_VERSION,
            r.batch_id@ == batch_id@,
            r.outcome == outcome,
            r.changed == 0,
            r.unchanged == 0,
            r.files == 0,
            r.diagnostics@.len() == 0,
    {
        BatchReport {
            schema_version: BATCH_CONTRACT_SCHEMA_VERSION,
            batch_id: owned(batch_id),
            outcome,
            changed: 0,
            unchanged: 0,
            files: 0,
            diagnostics: Vec::new(),
        }
    }
}

/// A member reference of a scope.
#[derive(Debug, Clone, PartialEq, Eq)]
pub struct BatchMember {
    pub id: String,
    pub group_id: Option<String>,
    pub role_id: Option<String>,
    pub lifecycle: ParameterLifecycle,
    pub health: HealthStatus,
}

impl BatchMember {
    pub fn new(id: &str, lifecycle: ParameterLifecycle, health: HealthStatus) -> (r: Self)
        ensures
            r.id@ == id@,
            r.group_id is None,
            r.role_id is None,
            r.lifecycle == lifecycle,
            r.health == health,
    {
        BatchMember { id: owned(id), group_id: None, role_id: None, lifecycle, health }
    }

    pub fn in_group(self, group_id: &str) -> (r: Self)
        ensures
            r.id == self.id,
            r.group_id matches Some(g) && g@ == group_id@,
            r.role_id == self.role_id,
            r.lifecycle == self.lifecycle,
            r.health == self.health,
    {
        let mut m = self;
        m.group_id = Some(owned(group_id));
        m
    }

    pub fn for_role(self, role_id: &str) -> (r: Self)
        ensures
            r.id == self.id,
            r.group_id == self.group_id,
            r.role_id matches Some(g) && g@ == role_id@,
            r.lifecycle == self.lifecycle,
            r.health == self.health,
    {
        let mut m = self;
        m.role_id = Some(owned(role_id));
        m
    }
}

/// Reason that blocks an action. Values are stable translation codes.
#[derive(Debug, Clone, Copy, PartialEq, Eq, Hash, Structural)]
pub enum BatchEligibilityReason {
    Invalid,
    Unsupported,
    Error,
    StateUnavailable,
    RecoveryInProgress,
    OwnershipUncertain,
}

impl BatchEligibilityReason {
    pub fn as_str(self) -> (r: &'static str)
        ensures
            r@ == match self {
                BatchEligibilityReason::Invalid => "invalid"@,
                BatchEligibilityReason::Unsupported => "unsupported"@,
                BatchEligibilityReason::Error => "error"@,
                BatchEligibilityReason::StateUnavailable => "state_unavailable"@,
                BatchEligibilityReason::RecoveryInProgress => "recovery_in_progress"@,
                BatchEligibilityReason::OwnershipUncertain => "ownership_uncertain"@,
            },
    {
        match self {
            BatchEligibilityReason::Invalid => "invalid",
            BatchEligibilityReason::Unsupported => "unsupported",
            BatchEligibilityReason::Error => "error",
            BatchEligibilityReason::StateUnavailable => "state_unavailable",
            BatchEligibilityReason::RecoveryInProgress => "recovery_in_progress",
            BatchEligibilityReason::OwnershipUncertain => "ownership_uncertain",
        }
    }
}

/// Whether one member may take an action.
#[derive(Debug, Clone, Copy, PartialEq, Eq, Structural)]
pub struct BatchEligibility {
    pub eligible: bool,
    pub reason: Option<BatchEligibilityReason>,
}

impl BatchEligibility {
    pub fn allowed() -> (r: Self)
        ensures
            r == (BatchEligibility { eligible: true, reason: None }),
    {
        BatchEligibility { eligible: true, reason: None }
    }

    pub fn blocked(reason: BatchEligibilityReason) -> (r: Self)
        ensures
            r == (BatchEligibility { eligible: false, reason: Some(reason) }),
    {
        BatchEligibility { eligible: false, reason: Some(reason) }
    }
}

/// Boundary state used when computing eligibility.
#[derive(Debug, Clone, Copy, PartialEq, Eq, Structural)]
pub struct EligibilityContext {
    pub lifecycle: ParameterLifecycle,
    pub health: HealthStatus,
    /// Whether the launcher lifecycle could be read; when not, every action is refused.
    pub state_readable: bool,
    /// Whether a transaction recovery is unfinished; user batch writes are refused meanwhile.
    pub transaction_recovering: bool,
    /// Whether file ownership preflight is certain; when not, every action is refused.
    pub ownership_known: bool,
}

impl EligibilityContext {
    pub fn new(lifecycle: ParameterLifecycle, health: HealthStatus) -> (r: Self)
        ensures
            r == (EligibilityContext {
                lifecycle,
                health,
                state_readable: true,
                transaction_recovering: false,
                ownership_known: true,
            }),
    {
        EligibilityContext {
            lifecycle,
            health,
            state_readable: true,
            transaction_recovering: false,
            ownership_known: true,
        }
    }
}

/// Member plan after an action; `writes_file` means the member joins the file write plan.
#[derive(Debug, Clone, Copy, PartialEq, Eq, Structural)]
pub struct MemberActionPlan {
    pub lifecycle: ParameterLifecycle,
    pub changed: bool,
    pub writes_file: bool,
}

/// Target lifecycle of the action matrix.
pub open spec fn action_target(action: BatchAction, l: ParameterLifecycle) -> ParameterLifecycle {
    match action {
        BatchAction::Apply => if l is Disabled {
            ParameterLifecycle::Applied
        } else {
            l
        },
        BatchAction::Lock => ParameterLifecycle::Locked,
        BatchAction::Unlock => if l is Locked {
            ParameterLifecycle::Applied
        } else {
            l
        },
        BatchAction::Disable => ParameterLifecycle::Disabled,
    }
}

/// Whether the action writes the member's target file.
pub open spec fn action_writes(
    action: BatchAction,
    l: ParameterLifecycle,
    h: HealthStatus,
) -> bool {
    (action is Apply || action is Lock) && (l is Disabled || (l is Applied && h is Drifted))
}

pub open spec fn plan_spec(
    action: BatchAction,
    l: ParameterLifecycle,
    h: HealthStatus,
) -> MemberActionPlan {
    MemberActionPlan {
        lifecycle: action_target(action, l),
        changed: action_target(action, l) != l || action_writes(action, l, h),
        writes_file: action_writes(action, l, h),
    }
}

/// Computes one member's target state and file-write impact from the action matrix.
pub fn plan_member_action(
    action: BatchAction,
    lifecycle: ParameterLifecycle,
    health: HealthStatus,
) -> (r: MemberActionPlan)
    ensures
        r == plan_spec(action, lifecycle, health),
{
    let target = match action {
        BatchAction::Apply => match lifecycle {
            ParameterLifecycle::Disabled => ParameterLifecycle::Applied,
            ParameterLifecycle::Applied | ParameterLifecycle::Locked => lifecycle,
        },
        BatchAction::Lock => ParameterLifecycle::Locked,
        BatchAction::Unlock => match lifecycle {
            ParameterLifecycle::Locked => ParameterLifecycle::Applied,
            ParameterLifecycle::Disabled | ParameterLifecycle::Applied => lifecycle,
        },
        BatchAction::Disable => ParameterLifecycle::Disabled,
    };
    let writes_file = match action {
        BatchAction::Apply | BatchAction::Lock => match lifecycle {
            ParameterLifecycle::Disabled => true,
            ParameterLifecycle::Applied => matches!(health, HealthStatus::Drifted),
            ParameterLifecycle::Locked => false,
        },
        BatchAction::Unlock | BatchAction::Disable => false,
    };
    MemberActionPlan { lifecycle: target, changed: target != lifecycle || writes_file, writes_file }
}

pub open spec fn eligibility_spec(action: BatchAction, c: EligibilityContext) -> BatchEligibility {
    if !c.state_readable {
        BatchEligibility {
            eligible: false,
            reason: Some(BatchEligibilityReason::StateUnavailable),
        }
    } else if c.transaction_recovering {
        BatchEligibility {
            eligible: false,
            reason: Some(BatchEligibilityReason::RecoveryInProgress),
        }
    } else if !c.ownership_known {
        BatchEligibility {
            eligible: false,
            reason: Some(BatchEligibilityReason::OwnershipUncertain),
        }
    } else if (action is Apply || action is Lock) && c.health is Invalid {
        BatchEligibility { eligible: false, reason: Some(BatchEligibilityReason::Invalid) }
    } else if (action is Apply || action is Lock) && c.health is Unsupported {
        BatchEligibility { eligible: false, reason: Some(BatchEligibilityReason::Unsupported) }
    } else if (action is Apply || action is Lock) && c.health is Error {
        BatchEligibility { eligible: false, reason: Some(BatchEligibilityReason::Error) }
    } else {
        BatchEligibility { eligible: true, reason: None }
    }
}

/// Eligibility of one member.
pub fn evaluate_eligibility(action: BatchAction, context: EligibilityContext) -> (r:
    BatchEligibility)
    ensures
        r == eligibility_spec(action, context),
{
    if !context.state_readable {
        return BatchEligibility::blocked(BatchEligibilityReason::StateUnavailable);
    }
    if context.transaction_recovering {
        return BatchEligibility::blocked(BatchEligibilityReason::RecoveryInProgress);
    }
    if !context.ownership_known {
        return BatchEligibility::blocked(BatchEligibilityReason::OwnershipUncertain);
    }
    if matches!(action, BatchAction::Apply | BatchAction::Lock) {
        let reason = match context.health {
            HealthStatus::Invalid => Some(BatchEligibilityReason::Invalid),
            HealthStatus::Unsupported => Some(BatchEligibilityReason::Unsupported),
            HealthStatus::Error => Some(BatchEligibilityReason::Error),
            HealthStatus::Healthy | HealthStatus::Drifted => None,
        };
        if let Some(reason) = reason {
            return BatchEligibility::blocked(reason);
        }
    }
    BatchEligibility::allowed()
}

/// Simplified entry: boundary state readable, not recovering, ownership known.
pub fn is_action_eligible(
    action: BatchAction,
    lifecycle: ParameterLifecycle,
    health: HealthStatus,
) -> (r: bool)
    ensures
        r == eligibility_spec(action, EligibilityContext {
            lifecycle,
            health,
            state_readable: true,
            transaction_recovering: false,
            ownership_known: true,
        }).eligible,
{
    evaluate_eligibility(action, EligibilityContext::new(lifecycle, health)).eligible
}

/// Semantic alias of the simplified entry.
pub fn eligibility_for(
    action: BatchAction,
    lifecycle: ParameterLifecycle,
    health: HealthStatus,
) -> (r: BatchEligibility)
    ensures
        r == eligibility_spec(action, EligibilityContext {
            lifecycle,
            health,
            state_readable: true,
            transaction_recovering: false,
            ownership_known: true,
        }),
{
    evaluate_eligibility(action, EligibilityContext::new(lifecycle, health))
}

pub open spec fn opt_is(o: Option<String>, s: Seq<char>) -> bool {
    match o {
        Some(v) => v@ == s,
        None => false,
    }
}

/// Whether a member belongs to a scope.
pub open spec fn in_scope(scope: BatchScope, m: BatchMember) -> bool {
    match scope {
        BatchScope::All => true,
        BatchScope::Group { group_id } => opt_is(m.group_id, group_id@),
        BatchScope::Parameter { parameter_id } => m.id@ == parameter_id@,
        BatchScope::Role { role_id } => opt_is(m.role_id, role_id@),
    }
}

fn opt_equals(o: &Option<String>, s: &String) -> (r: bool)
    ensures
        r == opt_is(*o, s@),
{
    match o {
        Some(v) => str_eq(v.as_str(), s.as_str()),
        None => false,
    }
}

/// Whether a member belongs to a scope.
pub fn scope_matches(scope: &BatchScope, member: &BatchMember) -> (r: bool)
    ensures
        r == in_scope(*scope, *member),
{
    match scope {
        BatchScope::All => true,
        BatchScope::Group { group_id } => opt_equals(&member.group_id, group_id),
        BatchScope::Parameter { parameter_id } => str_eq(member.id.as_str(), parameter_id.as_str()),
        BatchScope::Role { role_id } => opt_equals(&member.role_id, role_id),
    }
}

/// Members of `s` in the scope, in input order.
pub open spec fn scope_filter(scope: BatchScope, s: Seq<BatchMember>) -> Seq<BatchMember>
    decreases s.len(),
{
    if s.len() == 0 {
        Seq::empty()
    } else if in_scope(scope, s.last()) {
        scope_filter(scope, s.drop_last()).push(s.last())
    } else {
        scope_filter(scope, s.drop_last())
    }
}

/// Stable insertion of `x` into `s` by id: after every member whose id is not greater.
pub open spec fn insert_by_id(s: Seq<BatchMember>, x: BatchMember) -> Seq<BatchMember>
    decreases s.len(),
{
    if s.len() == 0 {
        seq![x]
    } else if seq_lt(x.id@, s.last().id@) {
        insert_by_id(s.drop_last(), x).push(s.last())
    } else {
        s.push(x)
    }
}

/// Stable sort by id (the order of `slice::sort_by` with an id comparison).
pub open spec fn sort_by_id(s: Seq<BatchMember>) -> Seq<BatchMember>
    decreases s.len(),
{
    if s.len() == 0 {
        Seq::empty()
    } else {
        insert_by_id(sort_by_id(s.drop_last()), s.last())
    }
}

pub open spec fn derefs(s: Seq<&BatchMember>) -> Seq<BatchMember> {
    s.map_values(|m: &BatchMember| *m)
}

/// Position at which `insert_by_id` places `x`.
proof fn lemma_insert_by_id_at(s: Seq<BatchMember>, x: BatchMember, p: int)
    requires
        0 <= p <= s.len(),
        forall|k: int| p <= k < s.len() ==> seq_lt(x.id@, #[trigger] s[k].id@),
        p > 0 ==> !seq_lt(x.id@, s[p - 1].id@),
    ensures
        insert_by_id(s, x) == s.subrange(0, p).push(x) + s.subrange(p, s.len() as int),
    decreases s.len(),
{
    if s.len() == 0 {
        assert(insert_by_id(s, x) =~= s.subrange(0, p).push(x) + s.subrange(p, s.len() as int));
    } else if p == s.len() {
        assert(!seq_lt(x.id@, s.last().id@));
        assert(s.subrange(0, p) =~= s);
        assert(insert_by_id(s, x) =~= s.subrange(0, p).push(x) + s.subrange(p, s.len() as int));
    } else {
        assert(seq_lt(x.id@, s[s.len() - 1].id@));
        let t = s.drop_last();
        assert forall|k: int| p <= k < t.len() implies seq_lt(x.id@, #[trigger] t[k].id@) by {
            assert(t[k] == s[k]);
        }
        if p > 0 {
            assert(t[p - 1] == s[p - 1]);
        }
        lemma_insert_by_id_at(t, x, p);
        assert(insert_by_id(s, x) =~= s.subrange(0, p).push(x) + s.subrange(p, s.len() as int));
    }
}

/// Inserts `m` into `out`, which holds `sort_by_id` of a prefix, keeping the stable order.
fn insert_member<'a>(out: &mut Vec<&'a BatchMember>, m: &'a BatchMember)
    ensures
        derefs(final(out)@) == insert_by_id(derefs(old(out)@), *m),
{
    let ghost s = derefs(out@);
    let mut p = out.len();
    while p > 0 && str_lt(m.id.as_str(), out[p - 1].id.as_str())
        invariant
            p <= out@.len(),
            s == derefs(out@),
            forall|k: int| p <= k < s.len() ==> seq_lt(m.id@, #[trigger] s[k].id@),
        decreases p,
    {
        p -= 1;
    }
    proof {
        lemma_insert_by_id_at(s, *m, p as int);
    }
    out.insert(p, m);
    assert(derefs(out@) =~= s.subrange(0, p as int).push(*m) + s.subrange(p as int, s.len() as int));
}

/// Resolves a scope and orders it by stable parameter id, so input schema order does not leak
/// into journals and reports.
pub fn members_in_scope<'a>(scope: &BatchScope, members: &'a [BatchMember]) -> (r: Vec<
    &'a BatchMember,
>)
    ensures
        derefs(r@) == sort_by_id(scope_filter(*scope, members@)),
{
    let mut selected: Vec<&'a BatchMember> = Vec::new();
    let mut i: usize = 0;
    while i < members.len()
        invariant
            i <= members@.len(),
            derefs(selected@) == sort_by_id(scope_filter(*scope, members@.subrange(0, i as int))),
        decreases members@.len() - i,
    {
        let ghost prefix = members@.subrange(0, i as int);
        let ghost next = members@.subrange(0, i + 1);
        assert(next.drop_last() =~= prefix);
        assert(next.last() == members@[i as int]);
        if scope_matches(scope, &members[i]) {
            assert(scope_filter(*scope, next) == scope_filter(*scope, prefix).push(members@[i as int]));
            let ghost f = scope_filter(*scope, next);
            assert(f.drop_last() =~= scope_filter(*scope, prefix));
            insert_member(&mut selected, &members[i]);
        }
        i += 1;
    }
    assert(members@.subrange(0, members@.len() as int) =~= members@);
    selected
}

/// Aggregated lifecycle and health of a member list; both are derived from members.
pub fn aggregate_member_status(members: &[BatchMember]) -> (r: (LifecycleSummary, HealthStatus))
    ensures
        r.0 == lifecycle_summary(members@.map_values(|m: BatchMember| m.lifecycle)),
        r.1 == health_summary(members@.map_values(|m: BatchMember| m.health)),
{
    let mut lifecycles: Vec<ParameterLifecycle> = Vec::new();
    let mut healths: Vec<HealthStatus> = Vec::new();
    let mut i: usize = 0;
    while i < members.len()
        invariant
            i <= members@.len(),
            lifecycles@ == members@.subrange(0, i as int).map_values(
                |m: BatchMember| m.lifecycle,
            ),
            healths@ == members@.subrange(0, i as int).map_values(|m: BatchMember| m.health),
        decreases members@.len() - i,
    {
        lifecycles.push(members[i].lifecycle);
        healths.push(members[i].health);
        i += 1;
        assert(lifecycles@ =~= members@.subrange(0, i as int).map_values(
            |m: BatchMember| m.lifecycle,
        ));
        assert(healths@ =~= members@.subrange(0, i as int).map_values(|m: BatchMember| m.health));
    }
    assert(members@.subrange(0, members@.len() as int) =~= members@);
    (summarize_lifecycle(&lifecycles), summarize_health(&healths))
}

/// Ids never decrease along the sequence.
pub open spec fn sorted_by_id(s: Seq<BatchMember>) -> bool {
    forall|i: int, j: int| 0 <= i < j < s.len() ==> !seq_lt(#[trigger] s[j].id@, #[trigger] s[i].id@)
}

proof fn lemma_insert_sorted(s: Seq<BatchMember>, x: BatchMember)
    requires
        sorted_by_id(s),
    ensures
        sorted_by_id(insert_by_id(s, x)),
        insert_by_id(s, x).to_multiset() == s.to_multiset().insert(x),
    decreases s.len(),
{
    broadcast use vstd::seq_lib::group_to_multiset_ensures;
    if s.len() == 0 {
        assert(insert_by_id(s, x) == seq![x]);
        assert(seq![x] =~= Seq::<BatchMember>::empty().push(x));
    } else if seq_lt(x.id@, s.last().id@) {
        let t = s.drop_last();
        assert forall|i: int, j: int| 0 <= i < j < t.len() implies !seq_lt(
            #[trigger] t[j].id@,
            #[trigger] t[i].id@,
        ) by {
            assert(t[i] == s[i] && t[j] == s[j]);
        }
        lemma_insert_sorted(t, x);
        let u = insert_by_id(t, x);
        let r = u.push(s.last());
        assert(r == insert_by_id(s, x));
        assert forall|i: int, j: int| 0 <= i < j < r.len() implies !seq_lt(
            #[trigger] r[j].id@,
            #[trigger] r[i].id@,
        ) by {
            if j == r.len() - 1 {
                assert(r[j] == s.last());
                // r[i] is either x or an element of t; both are not greater than s.last().
                assert(u.to_multiset().count(r[i]) > 0) by {
                    assert(u.contains(u[i]));
                    vstd::seq_lib::lemma_seq_contains_after_push(u, s.last(), u[i]);
                }
                assert(u.to_multiset() == t.to_multiset().insert(x));
                if r[i] != x {
                    assert(t.to_multiset().count(r[i]) > 0);
                    assert(t.contains(r[i]));
                    let k = choose|k: int| 0 <= k < t.len() && t[k] == r[i];
                    assert(s[k] == t[k]);
                    assert(!seq_lt(s[s.len() - 1].id@, s[k].id@));
                } else {
                    crate::text::lemma_seq_lt_asymmetric(x.id@, s.last().id@);
                }
            } else {
                assert(r[i] == u[i] && r[j] == u[j]);
            }
        }
        assert(s =~= t.push(s.last()));
    } else {
        let r = s.push(x);
        assert forall|i: int, j: int| 0 <= i < j < r.len() implies !seq_lt(
            #[trigger] r[j].id@,
            #[trigger] r[i].id@,
        ) by {
            if j == r.len() - 1 {
                assert(r[j] == x);
                if i < s.len() - 1 {
                    assert(!seq_lt(s[s.len() - 1].id@, s[i].id@));
                    crate::text::lemma_seq_lt_total(s[i].id@, s.last().id@);
                    crate::text::lemma_seq_lt_total(x.id@, s.last().id@);
                    if seq_lt(x.id@, s[i].id@) {
                        if s[i].id@ == s.last().id@ {
                        } else {
                            assert(seq_lt(s[i].id@, s.last().id@));
                            crate::text::lemma_seq_lt_transitive(x.id@, s[i].id@, s.last().id@);
                        }
                    }
                }
            } else {
                assert(r[i] == s[i] && r[j] == s[j]);
            }
        }
    }
}

proof fn lemma_sort_by_id(s: Seq<BatchMember>)
    ensures
        sorted_by_id(sort_by_id(s)),
        sort_by_id(s).to_multiset() == s.to_multiset(),
    decreases s.len(),
{
    broadcast use vstd::seq_lib::group_to_multiset_ensures;
    if s.len() > 0 {
        lemma_sort_by_id(s.drop_last());
        lemma_insert_sorted(sort_by_id(s.drop_last()), s.last());
        assert(s =~= s.drop_last().push(s.last()));
    }
}

proof fn lemma_scope_filter(scope: BatchScope, s: Seq<BatchMember>)
    ensures
        forall|m: BatchMember| #[trigger]
            scope_filter(scope, s).to_multiset().count(m) == if in_scope(scope, m) {
                s.to_multiset().count(m)
            } else {
                0
            },
    decreases s.len(),
{
    broadcast use vstd::seq_lib::group_to_multiset_ensures;
    if s.len() == 0 {
        assert(scope_filter(scope, s) =~= s);
        assert forall|m: BatchMember| #[trigger] s.to_multiset().count(m) == 0 by {
            vstd::multiset::lemma_multiset_empty_len::<BatchMember>(s.to_multiset());
        }
    } else {
        let t = s.drop_last();
        lemma_scope_filter(scope, t);
        assert(s =~= t.push(s.last()));
        assert forall|m: BatchMember|
            #[trigger] scope_filter(scope, s).to_multiset().count(m) == if in_scope(scope, m) {
                s.to_multiset().count(m)
            } else {
                0
            } by {
            assert(s.to_multiset() == t.to_multiset().insert(s.last()));
            assert(scope_filter(scope, t).to_multiset().count(m) == if in_scope(scope, m) {
                t.to_multiset().count(m)
            } else {
                0
            });
            if in_scope(scope, s.last()) {
                assert(scope_filter(scope, s) == scope_filter(scope, t).push(s.last()));
                assert(scope_filter(scope, s).to_multiset() == scope_filter(
                    scope,
                    t,
                ).to_multiset().insert(s.last()));
            }
        }
    }
}

/// The members of a resolved scope are exactly the input members that the scope selects,
/// each as often as in the input, in non-decreasing id order.
pub proof fn law_members_in_scope_sorted_selection(scope: BatchScope, members: Seq<BatchMember>)
    ensures
        sorted_by_id(sort_by_id(scope_filter(scope, members))),
        forall|m: BatchMember| #[trigger]
            sort_by_id(scope_filter(scope, members)).to_multiset().count(m) == if in_scope(
                scope,
                m,
            ) {
                members.to_multiset().count(m)
            } else {
                0
            },
{
    lemma_sort_by_id(scope_filter(scope, members));
    lemma_scope_filter(scope, members);
}

/// Performing an action twice moves the lifecycle no further than performing it once.
pub proof fn law_action_target_idempotent(action: BatchAction, l: ParameterLifecycle)
    ensures
        action_target(action, action_target(action, l)) == action_target(action, l),
{
}

/// Unlock and Disable never write a target file; Apply and Lock never write a locked member.
pub proof fn law_only_apply_and_lock_write(
    action: BatchAction,
    l: ParameterLifecycle,
    h: HealthStatus,
)
    ensures
        plan_spec(action, l, h).writes_file ==> action.spec_writes_target_file(),
        l is Locked ==> !plan_spec(action, l, h).writes_file,
        plan_spec(action, l, h).writes_file ==> plan_spec(action, l, h).changed,
{
}

/// An unreadable state, a recovery in progress or uncertain ownership blocks every action;
/// invalid, unsupported or error health blocks exactly Apply and Lock.
pub proof fn law_eligibility_blocks(action: BatchAction, c: EligibilityContext)
    ensures
        (!c.state_readable || c.transaction_recovering || !c.ownership_known) ==> !eligibility_spec(
            action,
            c,
        ).eligible,
        (c.state_readable && !c.transaction_recovering && c.ownership_known) ==> (
        eligibility_spec(action, c).eligible <==> !((action is Apply || action is Lock) && (
        c.health is Invalid || c.health is Unsupported || c.health is Error))),
        eligibility_spec(action, c).eligible <==> eligibility_spec(action, c).reason is None,
{
}

} // verus!
