//! The shared gate of Guard writes, as a state machine: non-queueing write ownership, the
//! recovery block, the single poll start, and short-lived batch previews.
//!
//! The application holds one coordinator behind its lock; each method here is one atomic
//! decision on that state.
use vstd::prelude::*;
use crate::batch::{BatchRequest, BatchScope, BatchAction};
use crate::text::{owned, str_eq};

verus! {

/// The recovery state the UI sees: only a stable code, never paths or file contents.
#[derive(Debug, Clone, PartialEq, Eq)]
pub struct GuardRecoveryStatus {
    pub blocked: bool,
    pub code: Option<String>,
}

/// A batch preview remembered until it expires.
#[derive(Debug, Clone)]
pub struct PreviewRecord {
    pub id: String,
    pub request: BatchRequest,
    pub revision: String,
    pub expires_at: u64,
}

#[derive(Debug, Clone)]
pub struct GuardCoordinator {
    pub write_held: bool,
    pub recovery: GuardRecoveryStatus,
    pub poll_started: bool,
    pub previews: Vec<PreviewRecord>,
}

/// A scope as plain values: its kind and its id.
pub open spec fn scope_view(s: BatchScope) -> (u8, Seq<char>) {
    match s {
        BatchScope::All => (0, Seq::empty()),
        BatchScope::Group { group_id } => (1, group_id@),
        BatchScope::Parameter { parameter_id } => (2, parameter_id@),
        BatchScope::Role { role_id } => (3, role_id@),
    }
}

pub struct RequestSpec {
    pub schema_version: u32,
    pub scope: (u8, Seq<char>),
    pub action: BatchAction,
}

pub open spec fn request_view(r: BatchRequest) -> RequestSpec {
    RequestSpec { schema_version: r.schema_version, scope: scope_view(r.scope), action: r.action }
}

pub struct PreviewSpec {
    pub id: Seq<char>,
    pub request: RequestSpec,
    pub revision: Seq<char>,
    pub expires_at: u64,
}

pub open spec fn preview_view(p: PreviewRecord) -> PreviewSpec {
    PreviewSpec {
        id: p.id@,
        request: request_view(p.request),
        revision: p.revision@,
        expires_at: p.expires_at,
    }
}

pub open spec fn previews_view(v: Seq<PreviewRecord>) -> Seq<PreviewSpec> {
    v.map_values(|p: PreviewRecord| preview_view(p))
}

/// The previews that are still live at `now`, in order.
pub open spec fn live_previews(v: Seq<PreviewSpec>, now: u64) -> Seq<PreviewSpec>
    decreases v.len(),
{
    if v.len() == 0 {
        v
    } else if v.last().expires_at > now {
        live_previews(v.drop_last(), now).push(v.last())
    } else {
        live_previews(v.drop_last(), now)
    }
}

/// The previews without the one of this id.
pub open spec fn without_preview(v: Seq<PreviewSpec>, id: Seq<char>) -> Seq<PreviewSpec>
    decreases v.len(),
{
    if v.len() == 0 {
        v
    } else if v.last().id == id {
        without_preview(v.drop_last(), id)
    } else {
        without_preview(v.drop_last(), id).push(v.last())
    }
}

/// The preview of this id, if any.
pub open spec fn preview_for(v: Seq<PreviewSpec>, id: Seq<char>) -> Option<PreviewSpec>
    decreases v.len(),
{
    if v.len() == 0 {
        None
    } else if v.last().id == id {
        Some(v.last())
    } else {
        preview_for(v.drop_last(), id)
    }
}

/// No two previews share an id.
pub open spec fn unique_ids(v: Seq<PreviewSpec>) -> bool {
    forall|i: int, j: int| 0 <= i < j < v.len() ==> #[trigger] v[i].id != #[trigger] v[j].id
}

pub const PREVIEW_TTL_SECS: u64 = 300;

/// The application clock in whole seconds since the Unix epoch (0 when the clock is before
/// the epoch). Nothing is claimed of the value.
#[verifier::external_body]
pub fn now_secs() -> (r: u64) {
    std::time::SystemTime::now().duration_since(std::time::UNIX_EPOCH).map(|d| d.as_secs()).unwrap_or(0)
}

fn scopes_equal(a: &BatchScope, b: &BatchScope) -> (r: bool)
    ensures
        r == (scope_view(*a) == scope_view(*b)),
{
    match (a, b) {
        (BatchScope::All, BatchScope::All) => true,
        (BatchScope::Group { group_id: x }, BatchScope::Group { group_id: y }) => str_eq(x.as_str(), y.as_str()),
        (BatchScope::Parameter { parameter_id: x }, BatchScope::Parameter { parameter_id: y }) => str_eq(
            x.as_str(),
            y.as_str(),
        ),
        (BatchScope::Role { role_id: x }, BatchScope::Role { role_id: y }) => str_eq(x.as_str(), y.as_str()),
        _ => false,
    }
}

fn requests_equal(a: &BatchRequest, b: &BatchRequest) -> (r: bool)
    ensures
        r == (request_view(*a) == request_view(*b)),
{
    a.schema_version == b.schema_version && scopes_equal(&a.scope, &b.scope) && a.action == b.action
}

fn copy_scope(s: &BatchScope) -> (r: BatchScope)
    ensures
        scope_view(r) == scope_view(*s),
{
    match s {
        BatchScope::All => BatchScope::All,
        BatchScope::Group { group_id } => BatchScope::Group { group_id: group_id.clone() },
        BatchScope::Parameter { parameter_id } => BatchScope::Parameter { parameter_id: parameter_id.clone() },
        BatchScope::Role { role_id } => BatchScope::Role { role_id: role_id.clone() },
    }
}

impl GuardCoordinator {
    pub fn new() -> (r: Self)
        ensures
            !r.write_held,
            !r.recovery.blocked && r.recovery.code is None,
            !r.poll_started,
            r.previews@.len() == 0,
    {
        GuardCoordinator {
            write_held: false,
            recovery: GuardRecoveryStatus { blocked: false, code: None },
            poll_started: false,
            previews: Vec::new(),
        }
    }

    /// Takes the write without queueing: a held write answers `guard_busy`.
    pub fn try_write(&mut self) -> (r: Result<(), String>)
        ensures
            old(self).write_held ==> (r matches Err(e) && e@ == "guard_busy"@ && *final(self) == *old(self)),
            !old(self).write_held ==> (r is Ok && final(self).write_held && final(self).recovery
                == old(self).recovery && final(self).poll_started == old(self).poll_started
                && final(self).previews == old(self).previews),
    {
        if self.write_held {
            return Err(owned("guard_busy"));
        }
        self.write_held = true;
        Ok(())
    }

    /// Gives the write back.
    pub fn release_write(&mut self)
        ensures
            !final(self).write_held,
            final(self).recovery == old(self).recovery,
            final(self).poll_started == old(self).poll_started,
            final(self).previews == old(self).previews,
    {
        self.write_held = false;
    }

    /// Ordinary writes: busy as `try_write`, and refused while recovery blocks.
    pub fn try_guard_write(&mut self) -> (r: Result<(), String>)
        ensures
            old(self).write_held ==> (r matches Err(e) && e@ == "guard_busy"@),
            !old(self).write_held && old(self).recovery.blocked ==> (r matches Err(e) && e@
                == "recovery_blocked"@),
            !old(self).write_held && !old(self).recovery.blocked ==> r is Ok,
            r is Ok <==> final(self).write_held && !old(self).write_held,
            r is Err ==> final(self).write_held == old(self).write_held,
            final(self).recovery == old(self).recovery,
            final(self).poll_started == old(self).poll_started,
            final(self).previews == old(self).previews,
    {
        self.try_write()?;
        if self.recovery_blocked() {
            self.release_write();
            return Err(owned("recovery_blocked"));
        }
        Ok(())
    }

    /// The poll's gate: it never queues and never writes while recovery blocks; both answer
    /// `None`.
    pub fn try_poll_write(&mut self) -> (r: Result<Option<()>, String>)
        ensures
            r matches Ok(x) && (x is Some <==> (!old(self).write_held && !old(self).recovery.blocked)),
            final(self).write_held == (old(self).write_held || !old(self).recovery.blocked),
            final(self).recovery == old(self).recovery,
            final(self).poll_started == old(self).poll_started,
            final(self).previews == old(self).previews,
    {
        if self.write_held {
            return Ok(None);
        }
        self.write_held = true;
        if self.recovery_blocked() {
            self.write_held = false;
            return Ok(None);
        }
        Ok(Some(()))
    }

    pub fn recovery_status(&self) -> (r: GuardRecoveryStatus)
        ensures
            r.blocked == self.recovery.blocked,
            crate::model::opt_view(r.code) == crate::model::opt_view(self.recovery.code),
    {
        GuardRecoveryStatus { blocked: self.recovery.blocked, code: crate::model::opt_clone(&self.recovery.code) }
    }

    pub fn recovery_blocked(&self) -> (r: bool)
        ensures
            r == self.recovery.blocked,
    {
        self.recovery.blocked
    }

    pub fn mark_recovery_blocked(&mut self, code: &str)
        ensures
            final(self).recovery.blocked,
            crate::model::opt_view(final(self).recovery.code) == Some(code@),
            final(self).write_held == old(self).write_held,
            final(self).poll_started == old(self).poll_started,
            final(self).previews == old(self).previews,
    {
        self.recovery.blocked = true;
        self.recovery.code = Some(owned(code));
    }

    pub fn clear_recovery(&mut self)
        ensures
            !final(self).recovery.blocked,
            final(self).recovery.code is None,
            final(self).write_held == old(self).write_held,
            final(self).poll_started == old(self).poll_started,
            final(self).previews == old(self).previews,
    {
        self.recovery.blocked = false;
        self.recovery.code = None;
    }

    /// Only the first claim starts the poll.
    pub fn claim_poll_start(&mut self) -> (r: bool)
        ensures
            r == !old(self).poll_started,
            final(self).poll_started,
            final(self).write_held == old(self).write_held,
            final(self).recovery == old(self).recovery,
            final(self).previews == old(self).previews,
    {
        let was = self.poll_started;
        self.poll_started = true;
        !was
    }

    fn drop_expired(&mut self, now: u64)
        requires
            unique_ids(previews_view(old(self).previews@)),
        ensures
            previews_view(final(self).previews@) == live_previews(previews_view(old(self).previews@), now),
            unique_ids(previews_view(final(self).previews@)),
            final(self).write_held == old(self).write_held,
            final(self).recovery == old(self).recovery,
            final(self).poll_started == old(self).poll_started,
    {
        let ghost v = previews_view(self.previews@);
        let mut kept: Vec<PreviewRecord> = Vec::new();
        let mut i: usize = 0;
        while i < self.previews.len()
            invariant
                i <= self.previews@.len(),
                v == previews_view(self.previews@),
                unique_ids(v),
                previews_view(kept@) == live_previews(v.subrange(0, i as int), now),
                forall|k: int| 0 <= k < kept@.len() ==> exists|j: int| 0 <= j < i && #[trigger] previews_view(kept@)[k] == v[j],
                unique_ids(previews_view(kept@)),
            decreases self.previews@.len() - i,
        {
            assert(v.subrange(0, i + 1).drop_last() =~= v.subrange(0, i as int));
            if self.previews[i].expires_at > now {
                let ghost before = kept@;
                let p = PreviewRecord {
                    id: self.previews[i].id.clone(),
                    request: BatchRequest {
                        schema_version: self.previews[i].request.schema_version,
                        scope: copy_scope(&self.previews[i].request.scope),
                        action: self.previews[i].request.action,
                    },
                    revision: self.previews[i].revision.clone(),
                    expires_at: self.previews[i].expires_at,
                };
                let ghost pv = preview_view(p);
                assert(pv == v[i as int]);
                kept.push(p);
                assert(previews_view(kept@) =~= previews_view(before).push(pv));
                assert forall|a: int, b: int| 0 <= a < b < kept@.len() implies #[trigger] previews_view(kept@)[a].id
                    != #[trigger] previews_view(kept@)[b].id by {
                    if b == kept@.len() - 1 {
                        let j = choose|j: int| 0 <= j < i && #[trigger] previews_view(before)[a] == v[j];
                        assert(previews_view(kept@)[a] == previews_view(before)[a]);
                    } else {
                        assert(previews_view(kept@)[a] == previews_view(before)[a]);
                        assert(previews_view(kept@)[b] == previews_view(before)[b]);
                    }
                }
                assert forall|k: int| 0 <= k < kept@.len() implies exists|j: int| 0 <= j < i + 1 && #[trigger] previews_view(kept@)[k] == v[j] by {
                    if k == kept@.len() - 1 {
                        assert(previews_view(kept@)[k] == v[i as int]);
                    } else {
                        assert(previews_view(kept@)[k] == previews_view(before)[k]);
                    }
                }
            }
            i += 1;
        }
        assert(v.subrange(0, v.len() as int) =~= v);
        self.previews = kept;
    }

    /// Remembers a preview for five minutes at `now`, replacing an earlier one of the same id
    /// and dropping the expired ones.
    pub fn remember_preview_at(&mut self, id: String, request: BatchRequest, revision: String, now: u64)
        requires
            unique_ids(previews_view(old(self).previews@)),
        ensures
            previews_view(final(self).previews@) == without_preview(
                live_previews(previews_view(old(self).previews@), now),
                id@,
            ).push(
                PreviewSpec {
                    id: id@,
                    request: request_view(request),
                    revision: revision@,
                    expires_at: now.saturating_add(PREVIEW_TTL_SECS),
                },
            ),
            unique_ids(previews_view(final(self).previews@)),
            final(self).write_held == old(self).write_held,
            final(self).recovery == old(self).recovery,
            final(self).poll_started == old(self).poll_started,
    {
        self.drop_expired(now);
        let ghost v = previews_view(self.previews@);
        let mut kept: Vec<PreviewRecord> = Vec::new();
        let mut i: usize = 0;
        while i < self.previews.len()
            invariant
                i <= self.previews@.len(),
                v == previews_view(self.previews@),
                unique_ids(v),
                previews_view(kept@) == without_preview(v.subrange(0, i as int), id@),
                forall|k: int| 0 <= k < kept@.len() ==> #[trigger] previews_view(kept@)[k].id != id@,
                forall|k: int| 0 <= k < kept@.len() ==> exists|j: int| 0 <= j < i && #[trigger] previews_view(kept@)[k] == v[j],
                unique_ids(previews_view(kept@)),
            decreases self.previews@.len() - i,
        {
            assert(v.subrange(0, i + 1).drop_last() =~= v.subrange(0, i as int));
            if !str_eq(self.previews[i].id.as_str(), id.as_str()) {
                let ghost before = kept@;
                let p = PreviewRecord {
                    id: self.previews[i].id.clone(),
                    request: BatchRequest {
                        schema_version: self.previews[i].request.schema_version,
                        scope: copy_scope(&self.previews[i].request.scope),
                        action: self.previews[i].request.action,
                    },
                    revision: self.previews[i].revision.clone(),
                    expires_at: self.previews[i].expires_at,
                };
                let ghost pv = preview_view(p);
                assert(pv == v[i as int]);
                kept.push(p);
                assert(previews_view(kept@) =~= previews_view(before).push(pv));
                assert forall|a: int, b: int| 0 <= a < b < kept@.len() implies #[trigger] previews_view(kept@)[a].id
                    != #[trigger] previews_view(kept@)[b].id by {
                    if b == kept@.len() - 1 {
                        let j = choose|j: int| 0 <= j < i && #[trigger] previews_view(before)[a] == v[j];
                        assert(previews_view(kept@)[a] == previews_view(before)[a]);
                    } else {
                        assert(previews_view(kept@)[a] == previews_view(before)[a]);
                        assert(previews_view(kept@)[b] == previews_view(before)[b]);
                    }
                }
                assert forall|k: int| 0 <= k < kept@.len() implies exists|j: int| 0 <= j < i + 1 && #[trigger] previews_view(kept@)[k] == v[j] by {
                    if k == kept@.len() - 1 {
                        assert(previews_view(kept@)[k] == v[i as int]);
                    } else {
                        assert(previews_view(kept@)[k] == previews_view(before)[k]);
                    }
                }
            }
            i += 1;
        }
        assert(v.subrange(0, v.len() as int) =~= v);
        let ghost before = kept@;
        let rec = PreviewRecord { id, request, revision, expires_at: now.saturating_add(PREVIEW_TTL_SECS) };
        let ghost rv = preview_view(rec);
        kept.push(rec);
        assert(previews_view(kept@) =~= previews_view(before).push(rv));
        assert forall|a: int, b: int| 0 <= a < b < kept@.len() implies #[trigger] previews_view(kept@)[a].id
            != #[trigger] previews_view(kept@)[b].id by {
            if b == kept@.len() - 1 {
                assert(previews_view(kept@)[a] == previews_view(before)[a]);
            } else {
                assert(previews_view(kept@)[a] == previews_view(before)[a]);
                assert(previews_view(kept@)[b] == previews_view(before)[b]);
            }
        }
        self.previews = kept;
    }

    /// Takes the preview of this id at `now`: it must be live and made for the same request
    /// and configuration revision. The preview is consumed either way, and expired ones go.
    pub fn take_preview_at(&mut self, id: &str, request: &BatchRequest, revision: &str, now: u64) -> (r: bool)
        requires
            unique_ids(previews_view(old(self).previews@)),
        ensures
            ({
                let live = live_previews(previews_view(old(self).previews@), now);
                &&& r == (preview_for(live, id@) matches Some(p) && p.expires_at > now && p.request
                    == request_view(*request) && p.revision == revision@)
                &&& previews_view(final(self).previews@) == without_preview(live, id@)
            }),
            unique_ids(previews_view(final(self).previews@)),
            final(self).write_held == old(self).write_held,
            final(self).recovery == old(self).recovery,
            final(self).poll_started == old(self).poll_started,
    {
        self.drop_expired(now);
        let ghost v = previews_view(self.previews@);
        let mut kept: Vec<PreviewRecord> = Vec::new();
        let mut found: bool = false;
        let mut i: usize = 0;
        while i < self.previews.len()
            invariant
                i <= self.previews@.len(),
                v == previews_view(self.previews@),
                unique_ids(v),
                previews_view(kept@) == without_preview(v.subrange(0, i as int), id@),
                found == (preview_for(v.subrange(0, i as int), id@) matches Some(p) && p.expires_at > now
                    && p.request == request_view(*request) && p.revision == revision@),
                forall|k: int| 0 <= k < kept@.len() ==> exists|j: int| 0 <= j < i && #[trigger] previews_view(kept@)[k] == v[j],
                unique_ids(previews_view(kept@)),
            decreases self.previews@.len() - i,
        {
            assert(v.subrange(0, i + 1).drop_last() =~= v.subrange(0, i as int));
            if str_eq(self.previews[i].id.as_str(), id) {
                found = self.previews[i].expires_at > now && requests_equal(&self.previews[i].request, request)
                    && str_eq(self.previews[i].revision.as_str(), revision);
            } else {
                let ghost before = kept@;
                let p = PreviewRecord {
                    id: self.previews[i].id.clone(),
                    request: BatchRequest {
                        schema_version: self.previews[i].request.schema_version,
                        scope: copy_scope(&self.previews[i].request.scope),
                        action: self.previews[i].request.action,
                    },
                    revision: self.previews[i].revision.clone(),
                    expires_at: self.previews[i].expires_at,
                };
                let ghost pv = preview_view(p);
                assert(pv == v[i as int]);
                kept.push(p);
                assert(previews_view(kept@) =~= previews_view(before).push(pv));
                assert forall|a: int, b: int| 0 <= a < b < kept@.len() implies #[trigger] previews_view(kept@)[a].id
                    != #[trigger] previews_view(kept@)[b].id by {
                    if b == kept@.len() - 1 {
                        let j = choose|j: int| 0 <= j < i && #[trigger] previews_view(before)[a] == v[j];
                        assert(previews_view(kept@)[a] == previews_view(before)[a]);
                    } else {
                        assert(previews_view(kept@)[a] == previews_view(before)[a]);
                        assert(previews_view(kept@)[b] == previews_view(before)[b]);
                    }
                }
                assert forall|k: int| 0 <= k < kept@.len() implies exists|j: int| 0 <= j < i + 1 && #[trigger] previews_view(kept@)[k] == v[j] by {
                    if k == kept@.len() - 1 {
                        assert(previews_view(kept@)[k] == v[i as int]);
                    } else {
                        assert(previews_view(kept@)[k] == previews_view(before)[k]);
                    }
                }
            }
            i += 1;
        }
        assert(v.subrange(0, v.len() as int) =~= v);
        self.previews = kept;
        found
    }

    /// `remember_preview_at` on the application clock.
    pub fn remember_preview(&mut self, id: String, request: BatchRequest, revision: String)
        requires
            unique_ids(previews_view(old(self).previews@)),
        ensures
            unique_ids(previews_view(final(self).previews@)),
            previews_view(final(self).previews@).len() > 0,
            previews_view(final(self).previews@).last().id == id@,
            previews_view(final(self).previews@).last().request == request_view(request),
            previews_view(final(self).previews@).last().revision == revision@,
    {
        let now = now_secs();
        self.remember_preview_at(id, request, revision, now);
    }

    /// `take_preview_at` on the application clock.
    pub fn take_preview(&mut self, id: &str, request: &BatchRequest, revision: &str) -> (r: bool)
        requires
            unique_ids(previews_view(old(self).previews@)),
        ensures
            unique_ids(previews_view(final(self).previews@)),
            preview_for(previews_view(final(self).previews@), id@) is None,
            r ==> exists|j: int|
                0 <= j < old(self).previews@.len() && #[trigger] previews_view(old(self).previews@)[j].id == id@
                    && previews_view(old(self).previews@)[j].request == request_view(*request)
                    && previews_view(old(self).previews@)[j].revision == revision@,
            forall|k: int|
                0 <= k < final(self).previews@.len() ==> exists|j: int|
                    0 <= j < old(self).previews@.len() && #[trigger] previews_view(old(self).previews@)[j]
                        == #[trigger] previews_view(final(self).previews@)[k] && previews_view(old(self).previews@)[j].id != id@,
            final(self).write_held == old(self).write_held,
            final(self).recovery == old(self).recovery,
            final(self).poll_started == old(self).poll_started,
    {
        let now = now_secs();
        let ghost v = previews_view(self.previews@);
        let r = self.take_preview_at(id, request, revision, now);
        proof {
            law_preview_taken_once(live_previews(v, now), id@);
            lemma_live_for_member(v, now, id@);
            lemma_taken_members(v, now, id@);
        }
        r
    }
}

/// The preview found for an id carries that id.
proof fn lemma_preview_for_id(v: Seq<PreviewSpec>, id: Seq<char>)
    ensures
        preview_for(v, id) matches Some(p) ==> p.id == id,
    decreases v.len(),
{
    if v.len() > 0 {
        lemma_preview_for_id(v.drop_last(), id);
    }
}

/// The live preview of an id is one of the previews, and carries that id.
proof fn lemma_live_for_member(v: Seq<PreviewSpec>, now: u64, id: Seq<char>)
    ensures
        preview_for(live_previews(v, now), id) matches Some(p) ==> p.id == id && exists|j: int|
            0 <= j < v.len() && #[trigger] v[j] == p,
    decreases v.len(),
{
    lemma_preview_for_id(live_previews(v, now), id);
    if v.len() > 0 {
        let d = v.drop_last();
        lemma_live_for_member(d, now, id);
        if v.last().expires_at > now {
            assert(live_previews(v, now).drop_last() =~= live_previews(d, now));
        }
        if let Some(p) = preview_for(live_previews(v, now), id) {
            if v.last().expires_at > now && v.last().id == id {
                assert(v[v.len() - 1] == p);
            } else {
                assert(preview_for(live_previews(d, now), id) == Some(p));
                let j = choose|j: int| 0 <= j < d.len() && #[trigger] d[j] == p;
                assert(v[j] == d[j]);
            }
        }
    }
}

/// What a take leaves is made of previews that were there, none of them with the taken id.
proof fn lemma_taken_members(v: Seq<PreviewSpec>, now: u64, id: Seq<char>)
    ensures
        forall|k: int|
            0 <= k < without_preview(live_previews(v, now), id).len() ==> exists|j: int|
                0 <= j < v.len() && #[trigger] v[j] == #[trigger] without_preview(live_previews(v, now), id)[k]
                    && v[j].id != id,
    decreases v.len(),
{
    if v.len() > 0 {
        let d = v.drop_last();
        lemma_taken_members(d, now, id);
        let w = without_preview(live_previews(d, now), id);
        let t = without_preview(live_previews(v, now), id);
        if v.last().expires_at > now {
            assert(live_previews(v, now).drop_last() =~= live_previews(d, now));
        }
        assert forall|k: int| 0 <= k < t.len() implies exists|j: int|
            0 <= j < v.len() && #[trigger] v[j] == #[trigger] t[k] && v[j].id != id by {
            if v.last().expires_at > now && v.last().id != id {
                assert(t == w.push(v.last()));
                if k == w.len() {
                    assert(v[v.len() - 1] == t[k]);
                } else {
                    assert(t[k] == w[k]);
                    let j = choose|j: int| 0 <= j < d.len() && #[trigger] d[j] == #[trigger] w[k] && d[j].id != id;
                    assert(v[j] == d[j]);
                }
            } else {
                assert(t == w);
                let j = choose|j: int| 0 <= j < d.len() && #[trigger] d[j] == #[trigger] w[k] && d[j].id != id;
                assert(v[j] == d[j]);
            }
        }
    }
}

/// A preview is taken at most once: after a take, the same id is gone.
pub proof fn law_preview_taken_once(v: Seq<PreviewSpec>, id: Seq<char>)
    ensures
        preview_for(without_preview(v, id), id) is None,
    decreases v.len(),
{
    if v.len() > 0 {
        law_preview_taken_once(v.drop_last(), id);
        if v.last().id != id {
            let w = without_preview(v.drop_last(), id);
            assert(without_preview(v, id) == w.push(v.last()));
            assert(w.push(v.last()).drop_last() =~= w);
            assert(w.push(v.last()).last() == v.last());
        }
    }
}

/// A preview made for one revision is never taken for another.
pub proof fn law_preview_requires_same_revision(
    v: Seq<PreviewSpec>,
    now: u64,
    id: Seq<char>,
    req: RequestSpec,
    revision: Seq<char>,
)
    requires
        preview_for(live_previews(v, now), id) matches Some(p) && p.revision != revision,
    ensures
        !(preview_for(live_previews(v, now), id) matches Some(p) && p.expires_at > now && p.request
            == req && p.revision == revision),
{
}

/// The previews right after remembering `id` at `now`, as `remember_preview_at` leaves them.
pub open spec fn remembered(v: Seq<PreviewSpec>, id: Seq<char>, req: RequestSpec, rev: Seq<char>, now: u64) -> Seq<PreviewSpec> {
    without_preview(live_previews(v, now), id).push(
        PreviewSpec { id, request: req, revision: rev, expires_at: now.saturating_add(PREVIEW_TTL_SECS) },
    )
}

/// What `take_preview_at` answers for previews `v` at `now`.
pub open spec fn take_answer(v: Seq<PreviewSpec>, id: Seq<char>, req: RequestSpec, rev: Seq<char>, now: u64) -> bool {
    preview_for(live_previews(v, now), id) matches Some(p) && p.expires_at > now && p.request == req && p.revision == rev
}

/// A preview taken before it expires is accepted exactly for the request and revision it was
/// remembered with.
pub proof fn law_take_after_remember(
    v: Seq<PreviewSpec>,
    id: Seq<char>,
    req: RequestSpec,
    rev: Seq<char>,
    now: u64,
    later: u64,
    req2: RequestSpec,
    rev2: Seq<char>,
)
    requires
        later < now.saturating_add(PREVIEW_TTL_SECS),
    ensures
        take_answer(remembered(v, id, req, rev, now), id, req2, rev2, later) == (req2 == req && rev2 == rev),
{
    let w = remembered(v, id, req, rev, now);
    assert(w.drop_last() == without_preview(live_previews(v, now), id));
    assert(live_previews(w, later) == live_previews(w.drop_last(), later).push(w.last()));
}

/// What is absent stays absent among the live previews.
proof fn lemma_absent_stays_absent(v: Seq<PreviewSpec>, id: Seq<char>, now: u64)
    requires
        preview_for(v, id) is None,
    ensures
        preview_for(live_previews(v, now), id) is None,
    decreases v.len(),
{
    if v.len() > 0 {
        lemma_absent_stays_absent(v.drop_last(), id, now);
        if v.last().expires_at > now {
            assert(live_previews(v, now).drop_last() =~= live_previews(v.drop_last(), now));
        }
    }
}

/// After a take, the same id is refused at any later time, whatever the request and revision,
/// until it is remembered again.
pub proof fn law_taken_preview_is_refused_later(
    v: Seq<PreviewSpec>,
    id: Seq<char>,
    now: u64,
    later: u64,
    req: RequestSpec,
    rev: Seq<char>,
)
    ensures
        !take_answer(without_preview(live_previews(v, now), id), id, req, rev, later),
{
    law_preview_taken_once(live_previews(v, now), id);
    lemma_absent_stays_absent(without_preview(live_previews(v, now), id), id, later);
}

} // verus!
