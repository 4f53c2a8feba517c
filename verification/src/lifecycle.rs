//! Parameter lifecycle and health: the pure domain model.
//!
//! A lifecycle has exactly three legal values, `Disabled -> Applied -> Locked`. The old
//! two-boolean encoding (`applied`, `locked`) cannot express `locked && !applied`; that
//! combination is rejected at the migration boundary instead of being guessed.
use vstd::prelude::*;

verus! {

/// The legal managed lifecycle of one parameter.
#[derive(Debug, Clone, Copy, PartialEq, Eq, Hash, Structural)]
pub enum ParameterLifecycle {
    Disabled,
    Applied,
    Locked,
}

pub open spec fn lifecycle_name(l: ParameterLifecycle) -> Seq<char> {
    match l {
        ParameterLifecycle::Disabled => "disabled"@,
        ParameterLifecycle::Applied => "applied"@,
        ParameterLifecycle::Locked => "locked"@,
    }
}

/// The lifecycle that the legacy flag pair denotes, where it denotes one.
pub open spec fn lifecycle_of_flags(applied: bool, locked: bool) -> Option<ParameterLifecycle> {
    if !applied && !locked {
        Some(ParameterLifecycle::Disabled)
    } else if applied && !locked {
        Some(ParameterLifecycle::Applied)
    } else if applied && locked {
        Some(ParameterLifecycle::Locked)
    } else {
        None
    }
}

impl ParameterLifecycle {
    pub open spec fn spec_enabled(self) -> bool {
        !(self is Disabled)
    }

    pub open spec fn spec_locked(self) -> bool {
        self is Locked
    }

    /// Stable wire name.
    pub fn as_str(self) -> (r: &'static str)
        ensures
            r@ == lifecycle_name(self),
    {
        match self {
            ParameterLifecycle::Disabled => "disabled",
            ParameterLifecycle::Applied => "applied",
            ParameterLifecycle::Locked => "locked",
        }
    }

    pub fn is_enabled(self) -> (r: bool)
        ensures
            r == self.spec_enabled(),
    {
        !matches!(self, ParameterLifecycle::Disabled)
    }

    pub fn is_locked(self) -> (r: bool)
        ensures
            r == self.spec_locked(),
    {
        matches!(self, ParameterLifecycle::Locked)
    }

    /// Converts the v0 boolean pair to a legal lifecycle. `locked && !applied` has no safe
    /// implicit reading and is returned as an error for the migration wizard.
    pub fn from_flags(applied: bool, locked: bool) -> (r: Result<Self, InvalidLifecycleFlags>)
        ensures
            match lifecycle_of_flags(applied, locked) {
                Some(l) => r == Ok::<Self, InvalidLifecycleFlags>(l),
                None => r == Err::<Self, InvalidLifecycleFlags>(
                    InvalidLifecycleFlags { applied, locked },
                ),
            },
    {
        match (applied, locked) {
            (false, false) => Ok(ParameterLifecycle::Disabled),
            (true, false) => Ok(ParameterLifecycle::Applied),
            (true, true) => Ok(ParameterLifecycle::Locked),
            (false, true) => Err(InvalidLifecycleFlags { applied, locked }),
        }
    }

    /// Alias of `from_flags` for migration call sites.
    pub fn from_legacy_flags(applied: bool, locked: bool) -> (r: Result<
        Self,
        InvalidLifecycleFlags,
    >)
        ensures
            match lifecycle_of_flags(applied, locked) {
                Some(l) => r == Ok::<Self, InvalidLifecycleFlags>(l),
                None => r == Err::<Self, InvalidLifecycleFlags>(
                    InvalidLifecycleFlags { applied, locked },
                ),
            },
    {
        Self::from_flags(applied, locked)
    }
}

/// A v0 boolean combination that is not a legal lifecycle.
#[derive(Debug, Clone, Copy, PartialEq, Eq, Hash, Structural)]
pub struct InvalidLifecycleFlags {
    pub applied: bool,
    pub locked: bool,
}

impl InvalidLifecycleFlags {
    /// Stable error code.
    pub fn code(self) -> (r: &'static str)
        ensures
            r@ == "invalid_lifecycle"@,
    {
        "invalid_lifecycle"
    }
}

/// Derived summary of the lifecycles of a group or of all members.
#[derive(Debug, Clone, Copy, PartialEq, Eq, Hash, Structural)]
pub enum LifecycleSummary {
    Disabled,
    Applied,
    Locked,
    Mixed,
}

impl LifecycleSummary {
    pub fn as_str(self) -> (r: &'static str)
        ensures
            r@ == match self {
                LifecycleSummary::Disabled => "disabled"@,
                LifecycleSummary::Applied => "applied"@,
                LifecycleSummary::Locked => "locked"@,
                LifecycleSummary::Mixed => "mixed"@,
            },
    {
        match self {
            LifecycleSummary::Disabled => "disabled",
            LifecycleSummary::Applied => "applied",
            LifecycleSummary::Locked => "locked",
            LifecycleSummary::Mixed => "mixed",
        }
    }
}

impl Default for LifecycleSummary {
    fn default() -> (r: Self)
        ensures
            r == LifecycleSummary::Disabled,
    {
        LifecycleSummary::Disabled
    }
}

/// Health, independent of lifecycle; a larger priority wins when summarizing.
#[derive(Debug, Clone, Copy, PartialEq, Eq, Hash, Structural)]
pub enum HealthStatus {
    Healthy,
    Drifted,
    Invalid,
    Unsupported,
    Error,
}

/// Priority order: Error > Invalid > Unsupported > Drifted > Healthy.
pub open spec fn health_priority(h: HealthStatus) -> nat {
    match h {
        HealthStatus::Healthy => 0,
        HealthStatus::Drifted => 1,
        HealthStatus::Unsupported => 2,
        HealthStatus::Invalid => 3,
        HealthStatus::Error => 4,
    }
}

impl HealthStatus {
    pub fn as_str(self) -> (r: &'static str)
        ensures
            r@ == match self {
                HealthStatus::Healthy => "healthy"@,
                HealthStatus::Drifted => "drifted"@,
                HealthStatus::Invalid => "invalid"@,
                HealthStatus::Unsupported => "unsupported"@,
                HealthStatus::Error => "error"@,
            },
    {
        match self {
            HealthStatus::Healthy => "healthy",
            HealthStatus::Drifted => "drifted",
            HealthStatus::Invalid => "invalid",
            HealthStatus::Unsupported => "unsupported",
            HealthStatus::Error => "error",
        }
    }

    pub fn priority(self) -> (r: u8)
        ensures
            r == health_priority(self),
    {
        match self {
            HealthStatus::Healthy => 0,
            HealthStatus::Drifted => 1,
            HealthStatus::Unsupported => 2,
            HealthStatus::Invalid => 3,
            HealthStatus::Error => 4,
        }
    }
}

impl Default for HealthStatus {
    fn default() -> (r: Self)
        ensures
            r == HealthStatus::Healthy,
    {
        HealthStatus::Healthy
    }
}

pub open spec fn summary_of_lifecycle(l: ParameterLifecycle) -> LifecycleSummary {
    match l {
        ParameterLifecycle::Disabled => LifecycleSummary::Disabled,
        ParameterLifecycle::Applied => LifecycleSummary::Applied,
        ParameterLifecycle::Locked => LifecycleSummary::Locked,
    }
}

/// The lifecycle summary of a member list: Disabled when empty, the common lifecycle when
/// all members agree, Mixed otherwise.
pub open spec fn lifecycle_summary(members: Seq<ParameterLifecycle>) -> LifecycleSummary {
    if members.len() == 0 {
        LifecycleSummary::Disabled
    } else if forall|i: int| 0 <= i < members.len() ==> #[trigger] members[i] == members[0] {
        summary_of_lifecycle(members[0])
    } else {
        LifecycleSummary::Mixed
    }
}

/// The higher-priority of two health values, preferring the later one on ties.
pub open spec fn worse_health(a: HealthStatus, b: HealthStatus) -> HealthStatus {
    if health_priority(b) >= health_priority(a) {
        b
    } else {
        a
    }
}

/// The health summary of a member list: the member of highest priority, Healthy when empty.
pub open spec fn health_summary(members: Seq<HealthStatus>) -> HealthStatus
    decreases members.len(),
{
    if members.len() == 0 {
        HealthStatus::Healthy
    } else {
        worse_health(health_summary(members.drop_last()), members.last())
    }
}

/// Derives the lifecycle summary from the members. An empty list has no enabled member and is
/// Disabled.
pub fn summarize_lifecycle(members: &[ParameterLifecycle]) -> (r: LifecycleSummary)
    ensures
        r == lifecycle_summary(members@),
{
    if members.len() == 0 {
        return LifecycleSummary::Disabled;
    }
    let first = members[0];
    let mut i: usize = 1;
    while i < members.len()
        invariant
            1 <= i <= members@.len(),
            first == members@[0],
            forall|k: int| 0 <= k < i ==> #[trigger] members@[k] == first,
        decreases members@.len() - i,
    {
        if members[i] != first {
            assert(members@[i as int] != members@[0]);
            return LifecycleSummary::Mixed;
        }
        i += 1;
    }
    match first {
        ParameterLifecycle::Disabled => LifecycleSummary::Disabled,
        ParameterLifecycle::Applied => LifecycleSummary::Applied,
        ParameterLifecycle::Locked => LifecycleSummary::Locked,
    }
}

/// Semantic alias of `summarize_lifecycle`.
pub fn aggregate_lifecycle(members: &[ParameterLifecycle]) -> (r: LifecycleSummary)
    ensures
        r == lifecycle_summary(members@),
{
    summarize_lifecycle(members)
}

/// Derives the health summary: the highest-priority member, Healthy when empty.
pub fn summarize_health(members: &[HealthStatus]) -> (r: HealthStatus)
    ensures
        r == health_summary(members@),
{
    let mut acc = HealthStatus::Healthy;
    let mut i: usize = 0;
    while i < members.len()
        invariant
            i <= members@.len(),
            acc == health_summary(members@.subrange(0, i as int)),
        decreases members@.len() - i,
    {
        let m = members[i];
        proof {
            assert(members@.subrange(0, i + 1).drop_last() =~= members@.subrange(0, i as int));
        }
        if m.priority() >= acc.priority() {
            acc = m;
        }
        i += 1;
    }
    assert(members@.subrange(0, members@.len() as int) =~= members@);
    acc
}

/// Semantic alias of `summarize_health`.
pub fn aggregate_health(members: &[HealthStatus]) -> (r: HealthStatus)
    ensures
        r == health_summary(members@),
{
    summarize_health(members)
}

/// Converting a lifecycle to the legacy flag pair and back gives the same lifecycle.
pub proof fn law_lifecycle_flags_round_trip(l: ParameterLifecycle)
    ensures
        lifecycle_of_flags(l.spec_enabled(), l.spec_locked()) == Some(l),
{
}

/// Exactly one flag combination, locked without applied, is not a lifecycle.
pub proof fn law_only_locked_unapplied_is_invalid(applied: bool, locked: bool)
    ensures
        lifecycle_of_flags(applied, locked) is None <==> (!applied && locked),
        lifecycle_of_flags(applied, locked) matches Some(l) ==> l.spec_enabled() == applied
            && l.spec_locked() == locked,
{
}

/// The health summary outranks or equals every member, and is a member unless the list is
/// empty.
pub proof fn law_health_summary_is_maximum(members: Seq<HealthStatus>)
    ensures
        forall|i: int|
            0 <= i < members.len() ==> health_priority(#[trigger] members[i]) <= health_priority(
                health_summary(members),
            ),
        members.len() > 0 ==> members.contains(health_summary(members)),
        members.len() == 0 ==> health_summary(members) == HealthStatus::Healthy,
    decreases members.len(),
{
    if members.len() > 0 {
        let init = members.drop_last();
        law_health_summary_is_maximum(init);
        assert forall|i: int|
            0 <= i < members.len() implies health_priority(#[trigger] members[i])
            <= health_priority(health_summary(members)) by {
            if i < members.len() - 1 {
                assert(members[i] == init[i]);
            }
        }
        if init.len() > 0 && health_summary(members) == health_summary(init) {
            let j = choose|j: int| 0 <= j < init.len() && init[j] == health_summary(init);
            assert(members[j] == init[j]);
        } else {
            assert(members[members.len() - 1] == members.last());
        }
    }
}

/// A list whose members all share one lifecycle summarizes to that lifecycle; a list with two
/// different lifecycles summarizes to Mixed.
pub proof fn law_lifecycle_summary_uniform_or_mixed(members: Seq<ParameterLifecycle>)
    ensures
        members.len() > 0 && (forall|i: int|
            0 <= i < members.len() ==> #[trigger] members[i] == members[0]) ==> lifecycle_summary(
            members,
        ) == summary_of_lifecycle(members[0]),
        (exists|i: int, j: int|
            0 <= i < members.len() && 0 <= j < members.len() && #[trigger] members[i]
                != #[trigger] members[j]) ==> lifecycle_summary(members) == LifecycleSummary::Mixed,
{
    if exists|i: int, j: int|
        0 <= i < members.len() && 0 <= j < members.len() && #[trigger] members[i]
            != #[trigger] members[j] {
        let (i, j) = choose|i: int, j: int|
            0 <= i < members.len() && 0 <= j < members.len() && #[trigger] members[i]
                != #[trigger] members[j];
        if members[i] == members[0] {
            assert(members[j] != members[0]);
        }
    }
}

/// The flags of a lifecycle.
pub open spec fn flags_of(l: ParameterLifecycle) -> (bool, bool) {
    (l.spec_enabled(), l.spec_locked())
}

/// The flags a stored parameter state takes: those of its lifecycle when one is stored; else
/// its legacy flags when they form a lifecycle; else none.
pub open spec fn stored_flags_spec(lifecycle: Option<ParameterLifecycle>, applied: bool, locked: bool) -> (bool, bool) {
    match lifecycle {
        Some(l) => flags_of(l),
        None => match lifecycle_of_flags(applied, locked) {
            Some(l) => flags_of(l),
            None => (false, false),
        },
    }
}

pub fn stored_flags(lifecycle: Option<ParameterLifecycle>, applied: bool, locked: bool) -> (r: (bool, bool))
    ensures
        r == stored_flags_spec(lifecycle, applied, locked),
{
    match lifecycle {
        Some(l) => (l.is_enabled(), l.is_locked()),
        None => match ParameterLifecycle::from_legacy_flags(applied, locked) {
            Ok(l) => (l.is_enabled(), l.is_locked()),
            Err(_) => (false, false),
        },
    }
}

/// The lifecycle of a flag pair; a pair that forms none reads as Disabled.
pub fn lifecycle_or_disabled(applied: bool, locked: bool) -> (r: ParameterLifecycle)
    ensures
        r == (match lifecycle_of_flags(applied, locked) {
            Some(l) => l,
            None => ParameterLifecycle::Disabled,
        }),
{
    match ParameterLifecycle::from_flags(applied, locked) {
        Ok(l) => l,
        Err(_) => ParameterLifecycle::Disabled,
    }
}

/// Whatever was stored, a read parameter state holds a flag pair that forms a lifecycle: a
/// lock without apply never survives the read.
pub proof fn law_stored_flags_form_a_lifecycle(lifecycle: Option<ParameterLifecycle>, applied: bool, locked: bool)
    ensures
        lifecycle_of_flags(stored_flags_spec(lifecycle, applied, locked).0, stored_flags_spec(lifecycle, applied, locked).1) is Some,
{
}

} // verus!
