//! The merge of rollout observations against the role policies taken at audit start.
//!
//! The merge is deterministic and never picks a nearest or latest candidate when the
//! evidence conflicts: conflicting evidence stays visible as an ambiguous verdict.
use vstd::prelude::*;
use crate::audit::{
    verdict_over, ResultView,
    AgentAudit, AgentView, AuditLimits, AuditNotice, AuditSourceSupport, AuditVerdict, ManagedRoleSnapshot,
    ObservationView, ParentDispatchAudit, ParentView, ParsedRollout, RoleView, RolloutObservation,
    SessionObservation, SessionView, SpawnObservation, SpawnView, SubagentAuditResult, TimeState, TurnAudit,
    TurnObsView, TurnObservation, TurnView, hash_ok, identifier_ok, join_key_ok, noted, notice_codes,
    notices_copy, observations_view, push_notice, roles_view, valid_hash, valid_identifier, valid_join_key,
    worse, MAX_IDENTIFIER_BYTES, AUDIT_SCHEMA_VERSION,
};
use crate::model::opt_view;
use crate::text::str_eq;

verus! {

pub open spec fn bad_identifier() -> Seq<char> {
    "audit_bad_identifier"@
}

pub open spec fn ambiguous() -> Seq<char> {
    "audit_ambiguous"@
}

pub fn opt_str_eq(a: &Option<String>, b: &Option<String>) -> (r: bool)
    ensures
        r == (opt_view(*a) == opt_view(*b)),
{
    match (a, b) {
        (Some(x), Some(y)) => str_eq(x.as_str(), y.as_str()),
        (None, None) => true,
        _ => false,
    }
}

// ---------- role policies ----------

/// The position of the role with this id, or -1.
pub open spec fn find_role(entries: Seq<RoleView>, id: Seq<char>) -> int
    decreases entries.len(),
{
    if entries.len() == 0 {
        -1
    } else if entries.last().role_id == id {
        entries.len() - 1
    } else {
        find_role(entries.drop_last(), id)
    }
}

proof fn lemma_find_role_bounds(entries: Seq<RoleView>, id: Seq<char>)
    ensures
        -1 <= find_role(entries, id) < entries.len(),
        find_role(entries, id) >= 0 ==> entries[find_role(entries, id)].role_id == id,
    decreases entries.len(),
{
    if entries.len() > 0 && entries.last().role_id != id {
        lemma_find_role_bounds(entries.drop_last(), id);
    }
}

/// The role policies in force, the roles whose policy was refused, and the notices.
pub struct RoleTable {
    pub entries: Seq<RoleView>,
    pub invalid: Seq<Seq<char>>,
    pub notices: Seq<Seq<char>>,
}

/// One role taken into the table: a bad id is dropped; a bad hash, model or effort is
/// cleared and marks the role's policy invalid; a second, different policy for the same
/// role is ambiguous and also marks it invalid. The later policy replaces the earlier.
pub open spec fn role_step(st: RoleTable, role: RoleView) -> RoleTable {
    if !identifier_ok(role.role_id, MAX_IDENTIFIER_BYTES as int) {
        RoleTable { notices: noted(st.notices, bad_identifier()), ..st }
    } else {
        let bad_hash = role.policy_hash is Some && !hash_ok(role.policy_hash->0);
        let n1 = if bad_hash { noted(st.notices, "audit_bad_policy_hash"@) } else { st.notices };
        let bad_model = role.expected_model is Some && !identifier_ok(role.expected_model->0, MAX_IDENTIFIER_BYTES as int);
        let n2 = if bad_model { noted(n1, bad_identifier()) } else { n1 };
        let bad_effort = role.expected_effort is Some && !identifier_ok(role.expected_effort->0, MAX_IDENTIFIER_BYTES as int);
        let n3 = if bad_effort { noted(n2, bad_identifier()) } else { n2 };
        let safe = RoleView {
            policy_hash: if bad_hash { None } else { role.policy_hash },
            expected_model: if bad_model { None } else { role.expected_model },
            expected_effort: if bad_effort { None } else { role.expected_effort },
            ..role
        };
        let idx = find_role(st.entries, role.role_id);
        let conflict = idx >= 0 && st.entries[idx] != safe;
        RoleTable {
            entries: if idx >= 0 { st.entries.update(idx, safe) } else { st.entries.push(safe) },
            invalid: if bad_hash || bad_model || bad_effort || conflict { st.invalid.push(role.role_id) } else { st.invalid },
            notices: if conflict { noted(n3, ambiguous()) } else { n3 },
        }
    }
}

pub open spec fn role_table(notices: Seq<Seq<char>>, roles: Seq<RoleView>) -> RoleTable
    decreases roles.len(),
{
    if roles.len() == 0 {
        RoleTable { entries: Seq::empty(), invalid: Seq::empty(), notices }
    } else {
        role_step(role_table(notices, roles.drop_last()), roles.last())
    }
}

pub struct RoleTableExec {
    pub entries: Vec<ManagedRoleSnapshot>,
    pub invalid: Vec<String>,
    pub notices: Vec<AuditNotice>,
}

pub open spec fn role_table_view(t: RoleTableExec) -> RoleTable {
    RoleTable {
        entries: roles_view(t.entries@),
        invalid: crate::ownership::strings_view(t.invalid@),
        notices: notice_codes(t.notices@),
    }
}

pub fn find_role_exec(entries: &Vec<ManagedRoleSnapshot>, id: &str) -> (r: Option<usize>)
    ensures
        match r {
            Some(k) => find_role(roles_view(entries@), id@) == k as int,
            None => find_role(roles_view(entries@), id@) == -1,
        },
{
    let ghost ev = roles_view(entries@);
    let mut k = entries.len();
    assert(ev.subrange(0, k as int) =~= ev);
    while k > 0
        invariant
            k <= entries@.len(),
            ev == roles_view(entries@),
            find_role(ev, id@) == find_role(ev.subrange(0, k as int), id@),
        decreases k,
    {
        let ghost sub = ev.subrange(0, k as int);
        assert(sub.drop_last() =~= ev.subrange(0, k - 1));
        assert(sub.last() == ev[k - 1]);
        if str_eq(entries[k - 1].role_id.as_str(), id) {
            return Some(k - 1);
        }
        k -= 1;
    }
    None
}

fn same_role(a: &ManagedRoleSnapshot, b: &ManagedRoleSnapshot) -> (r: bool)
    ensures
        r == (a@ == b@),
{
    str_eq(a.role_id.as_str(), b.role_id.as_str()) && a.policy_revision == b.policy_revision
        && opt_str_eq(&a.policy_hash, &b.policy_hash) && opt_str_eq(&a.expected_model, &b.expected_model)
        && opt_str_eq(&a.expected_effort, &b.expected_effort) && a.policy_updated_at_ms == b.policy_updated_at_ms
        && a.managed == b.managed
}

fn role_step_exec(t: &mut RoleTableExec, role: &ManagedRoleSnapshot)
    ensures
        role_table_view(*final(t)) == role_step(role_table_view(*old(t)), role@),
{
    let ghost st = role_table_view(*t);
    if !valid_identifier(role.role_id.as_str(), MAX_IDENTIFIER_BYTES) {
        push_notice(&mut t.notices, "audit_bad_identifier");
        proof {
            reveal_strlit("audit_bad_identifier");
        }
        return;
    }
    proof {
        reveal_strlit("audit_bad_identifier");
        reveal_strlit("audit_bad_policy_hash");
        reveal_strlit("audit_ambiguous");
    }
    let mut safe = role.duplicate();
    let bad_hash = match &role.policy_hash {
        Some(h) => !valid_hash(h.as_str()),
        None => false,
    };
    if bad_hash {
        safe.policy_hash = None;
        push_notice(&mut t.notices, "audit_bad_policy_hash");
    }
    let bad_model = match &role.expected_model {
        Some(m) => !valid_identifier(m.as_str(), MAX_IDENTIFIER_BYTES),
        None => false,
    };
    if bad_model {
        safe.expected_model = None;
        push_notice(&mut t.notices, "audit_bad_identifier");
    }
    let bad_effort = match &role.expected_effort {
        Some(m) => !valid_identifier(m.as_str(), MAX_IDENTIFIER_BYTES),
        None => false,
    };
    if bad_effort {
        safe.expected_effort = None;
        push_notice(&mut t.notices, "audit_bad_identifier");
    }
    let idx = find_role_exec(&t.entries, role.role_id.as_str());
    proof {
        lemma_find_role_bounds(st.entries, role@.role_id);
    }
    let conflict = match idx {
        Some(k) => !same_role(&t.entries[k], &safe),
        None => false,
    };
    if conflict {
        push_notice(&mut t.notices, "audit_ambiguous");
    }
    if bad_hash || bad_model || bad_effort || conflict {
        let ghost before = t.invalid@;
        t.invalid.push(role.role_id.clone());
        assert(crate::ownership::strings_view(t.invalid@) =~= crate::ownership::strings_view(before).push(role@.role_id));
    }
    let ghost sv = safe@;
    let ghost before = t.entries@;
    match idx {
        Some(k) => {
            t.entries.set(k, safe);
            assert(roles_view(t.entries@) =~= roles_view(before).update(k as int, sv));
        },
        None => {
            t.entries.push(safe);
            assert(roles_view(t.entries@) =~= roles_view(before).push(sv));
        },
    }
}

/// The role table of the audit: the roles taken in order after the parser's notices.
pub fn build_role_table(notices: &Vec<AuditNotice>, roles: &[ManagedRoleSnapshot]) -> (r: RoleTableExec)
    ensures
        role_table_view(r) == role_table(notice_codes(notices@), roles_view(roles@)),
{
    let ghost rv = roles_view(roles@);
    let mut t = RoleTableExec { entries: Vec::new(), invalid: Vec::new(), notices: notices_copy(notices) };
    assert(roles_view(t.entries@) =~= Seq::<RoleView>::empty());
    assert(crate::ownership::strings_view(t.invalid@) =~= Seq::<Seq<char>>::empty());
    assert(role_table_view(t) == role_table(notice_codes(notices@), rv.subrange(0, 0)));
    let mut i: usize = 0;
    while i < roles.len()
        invariant
            i <= roles@.len(),
            rv == roles_view(roles@),
            role_table_view(t) == role_table(notice_codes(notices@), rv.subrange(0, i as int)),
        decreases roles@.len() - i,
    {
        assert(rv.subrange(0, i + 1).drop_last() =~= rv.subrange(0, i as int));
        assert(rv.subrange(0, i + 1).last() == roles@[i as int]@);
        role_step_exec(&mut t, &roles[i]);
        i += 1;
    }
    assert(rv.subrange(0, roles@.len() as int) =~= rv);
    t
}

// ---------- evidence per child ----------

pub struct TurnGroup {
    pub turn_id: Seq<char>,
    pub values: Seq<TurnObsView>,
}

pub struct ChildView {
    pub thread_id: Seq<char>,
    pub session: Option<SessionView>,
    pub session_conflict: bool,
    pub turns: Seq<TurnGroup>,
}

pub struct SpawnGroup {
    pub parent: Seq<char>,
    pub task: Seq<char>,
    pub values: Seq<SpawnView>,
}

pub struct Evidence {
    pub children: Seq<ChildView>,
    pub spawns: Seq<SpawnGroup>,
    pub notices: Seq<Seq<char>>,
}

pub open spec fn find_child(children: Seq<ChildView>, id: Seq<char>) -> int
    decreases children.len(),
{
    if children.len() == 0 {
        -1
    } else if children.last().thread_id == id {
        children.len() - 1
    } else {
        find_child(children.drop_last(), id)
    }
}

pub open spec fn find_group(turns: Seq<TurnGroup>, id: Seq<char>) -> int
    decreases turns.len(),
{
    if turns.len() == 0 {
        -1
    } else if turns.last().turn_id == id {
        turns.len() - 1
    } else {
        find_group(turns.drop_last(), id)
    }
}

pub open spec fn find_spawn(spawns: Seq<SpawnGroup>, parent: Seq<char>, task: Seq<char>) -> int
    decreases spawns.len(),
{
    if spawns.len() == 0 {
        -1
    } else if spawns.last().parent == parent && spawns.last().task == task {
        spawns.len() - 1
    } else {
        find_spawn(spawns.drop_last(), parent, task)
    }
}

proof fn lemma_find_child_bounds(children: Seq<ChildView>, id: Seq<char>)
    ensures
        -1 <= find_child(children, id) < children.len(),
        find_child(children, id) >= 0 ==> children[find_child(children, id)].thread_id == id,
    decreases children.len(),
{
    if children.len() > 0 && children.last().thread_id != id {
        lemma_find_child_bounds(children.drop_last(), id);
    }
}

proof fn lemma_find_group_bounds(turns: Seq<TurnGroup>, id: Seq<char>)
    ensures
        -1 <= find_group(turns, id) < turns.len(),
        find_group(turns, id) >= 0 ==> turns[find_group(turns, id)].turn_id == id,
    decreases turns.len(),
{
    if turns.len() > 0 && turns.last().turn_id != id {
        lemma_find_group_bounds(turns.drop_last(), id);
    }
}

proof fn lemma_find_spawn_bounds(spawns: Seq<SpawnGroup>, parent: Seq<char>, task: Seq<char>)
    ensures
        -1 <= find_spawn(spawns, parent, task) < spawns.len(),
        find_spawn(spawns, parent, task) >= 0 ==> spawns[find_spawn(spawns, parent, task)].parent == parent
            && spawns[find_spawn(spawns, parent, task)].task == task,
    decreases spawns.len(),
{
    if spawns.len() > 0 && !(spawns.last().parent == parent && spawns.last().task == task) {
        lemma_find_spawn_bounds(spawns.drop_last(), parent, task);
    }
}

pub open spec fn opt_or(a: Option<Seq<char>>, b: Option<Seq<char>>) -> Option<Seq<char>> {
    if a is Some { a } else { b }
}

pub open spec fn clash(a: Option<Seq<char>>, b: Option<Seq<char>>) -> bool {
    a is Some && b is Some && a != b
}

/// The launch marker and the child's own session record describe one child: they merge when
/// their identity agrees, the launch instant winning; two records of one kind must agree
/// on their time too.
pub open spec fn merged_session(prev: SessionView, inc: SessionView) -> Option<SessionView> {
    if prev.thread_id != inc.thread_id || clash(prev.parent_thread_id, inc.parent_thread_id)
        || clash(prev.join_key, inc.join_key) || clash(prev.agent_role, inc.agent_role) {
        None
    } else if prev.activity_start == inc.activity_start && (prev.started_at_ms != inc.started_at_ms
        || prev.time_state != inc.time_state) {
        None
    } else {
        let m = SessionView {
            parent_thread_id: opt_or(prev.parent_thread_id, inc.parent_thread_id),
            agent_role: opt_or(prev.agent_role, inc.agent_role),
            join_key: opt_or(prev.join_key, inc.join_key),
            ..prev
        };
        if inc.activity_start && !prev.activity_start {
            Some(SessionView { started_at_ms: inc.started_at_ms, time_state: inc.time_state, activity_start: true, ..m })
        } else {
            Some(m)
        }
    }
}

pub open spec fn new_child(id: Seq<char>) -> ChildView {
    ChildView { thread_id: id, session: None, session_conflict: false, turns: Seq::empty() }
}

pub open spec fn child_at(children: Seq<ChildView>, id: Seq<char>) -> ChildView {
    let k = find_child(children, id);
    if k >= 0 { children[k] } else { new_child(id) }
}

pub open spec fn put_child(children: Seq<ChildView>, c: ChildView) -> Seq<ChildView> {
    let k = find_child(children, c.thread_id);
    if k >= 0 { children.update(k, c) } else { children.push(c) }
}

/// One observation taken into the evidence.
pub open spec fn evidence_step(ev: Evidence, o: ObservationView) -> Evidence {
    match o {
        ObservationView::Session(s) => {
            if !identifier_ok(s.thread_id, MAX_IDENTIFIER_BYTES as int) {
                Evidence { notices: noted(ev.notices, bad_identifier()), ..ev }
            } else {
                let c = child_at(ev.children, s.thread_id);
                match c.session {
                    Some(prev) => match merged_session(prev, s) {
                        Some(m) => Evidence { children: put_child(ev.children, ChildView { session: Some(m), ..c }), ..ev },
                        None => Evidence {
                            children: put_child(ev.children, ChildView { session_conflict: true, ..c }),
                            notices: noted(ev.notices, ambiguous()),
                            ..ev
                        },
                    },
                    None => Evidence { children: put_child(ev.children, ChildView { session: Some(s), ..c }), ..ev },
                }
            }
        },
        ObservationView::Turn(t) => {
            if !identifier_ok(t.thread_id, MAX_IDENTIFIER_BYTES as int) || !identifier_ok(t.turn_id, MAX_IDENTIFIER_BYTES as int) {
                Evidence { notices: noted(ev.notices, bad_identifier()), ..ev }
            } else {
                let c = child_at(ev.children, t.thread_id);
                let g = find_group(c.turns, t.turn_id);
                let values = if g >= 0 { c.turns[g].values } else { Seq::empty() };
                if values.contains(t) {
                    Evidence { children: put_child(ev.children, c), ..ev }
                } else {
                    let group = TurnGroup { turn_id: t.turn_id, values: values.push(t) };
                    let turns = if g >= 0 { c.turns.update(g, group) } else { c.turns.push(group) };
                    Evidence {
                        children: put_child(ev.children, ChildView { turns, ..c }),
                        notices: if values.len() > 0 { noted(ev.notices, ambiguous()) } else { ev.notices },
                        ..ev
                    }
                }
            }
        },
        ObservationView::Spawn(p) => {
            if !identifier_ok(p.parent_thread_id, MAX_IDENTIFIER_BYTES as int) {
                Evidence { notices: noted(ev.notices, bad_identifier()), ..ev }
            } else if p.task_key is Some && p.task_key_valid {
                let key = p.task_key->0;
                if join_key_ok(key, MAX_IDENTIFIER_BYTES as int) {
                    let k = find_spawn(ev.spawns, p.parent_thread_id, key);
                    let spawns = if k >= 0 {
                        ev.spawns.update(k, SpawnGroup { values: ev.spawns[k].values.push(p), ..ev.spawns[k] })
                    } else {
                        ev.spawns.push(SpawnGroup { parent: p.parent_thread_id, task: key, values: seq![p] })
                    };
                    Evidence { spawns, ..ev }
                } else {
                    Evidence { notices: noted(ev.notices, bad_identifier()), ..ev }
                }
            } else {
                Evidence { notices: noted(ev.notices, "audit_missing_spawn"@), ..ev }
            }
        },
    }
}

pub open spec fn evidence(notices: Seq<Seq<char>>, obs: Seq<ObservationView>) -> Evidence
    decreases obs.len(),
{
    if obs.len() == 0 {
        Evidence { children: Seq::empty(), spawns: Seq::empty(), notices }
    } else {
        evidence_step(evidence(notices, obs.drop_last()), obs.last())
    }
}

pub struct TurnGroupExec {
    pub turn_id: String,
    pub values: Vec<TurnObservation>,
}

pub struct ChildEvidence {
    pub thread_id: String,
    pub session: Option<SessionObservation>,
    pub session_conflict: bool,
    pub turns: Vec<TurnGroupExec>,
}

pub struct SpawnGroupExec {
    pub parent: String,
    pub task: String,
    pub values: Vec<SpawnObservation>,
}

pub struct EvidenceExec {
    pub children: Vec<ChildEvidence>,
    pub spawns: Vec<SpawnGroupExec>,
    pub notices: Vec<AuditNotice>,
}

pub open spec fn turn_obs_view(v: Seq<TurnObservation>) -> Seq<TurnObsView> {
    v.map_values(|t: TurnObservation| t@)
}

pub open spec fn spawn_obs_view(v: Seq<SpawnObservation>) -> Seq<SpawnView> {
    v.map_values(|t: SpawnObservation| t@)
}

pub open spec fn group_view(g: TurnGroupExec) -> TurnGroup {
    TurnGroup { turn_id: g.turn_id@, values: turn_obs_view(g.values@) }
}

pub open spec fn groups_view(v: Seq<TurnGroupExec>) -> Seq<TurnGroup> {
    v.map_values(|g: TurnGroupExec| group_view(g))
}

pub open spec fn session_opt_view(o: Option<SessionObservation>) -> Option<SessionView> {
    match o {
        Some(s) => Some(s@),
        None => None,
    }
}

pub open spec fn child_view(c: ChildEvidence) -> ChildView {
    ChildView {
        thread_id: c.thread_id@,
        session: session_opt_view(c.session),
        session_conflict: c.session_conflict,
        turns: groups_view(c.turns@),
    }
}

pub open spec fn children_view(v: Seq<ChildEvidence>) -> Seq<ChildView> {
    v.map_values(|c: ChildEvidence| child_view(c))
}

pub open spec fn spawn_group_view(g: SpawnGroupExec) -> SpawnGroup {
    SpawnGroup { parent: g.parent@, task: g.task@, values: spawn_obs_view(g.values@) }
}

pub open spec fn spawn_groups_view(v: Seq<SpawnGroupExec>) -> Seq<SpawnGroup> {
    v.map_values(|g: SpawnGroupExec| spawn_group_view(g))
}

pub open spec fn evidence_view(e: EvidenceExec) -> Evidence {
    Evidence {
        children: children_view(e.children@),
        spawns: spawn_groups_view(e.spawns@),
        notices: notice_codes(e.notices@),
    }
}

fn find_child_exec(children: &Vec<ChildEvidence>, id: &str) -> (r: Option<usize>)
    ensures
        match r {
            Some(k) => find_child(children_view(children@), id@) == k as int,
            None => find_child(children_view(children@), id@) == -1,
        },
{
    let ghost ev = children_view(children@);
    let mut k = children.len();
    assert(ev.subrange(0, k as int) =~= ev);
    while k > 0
        invariant
            k <= children@.len(),
            ev == children_view(children@),
            find_child(ev, id@) == find_child(ev.subrange(0, k as int), id@),
        decreases k,
    {
        let ghost sub = ev.subrange(0, k as int);
        assert(sub.drop_last() =~= ev.subrange(0, k - 1));
        assert(sub.last() == ev[k - 1]);
        if str_eq(children[k - 1].thread_id.as_str(), id) {
            return Some(k - 1);
        }
        k -= 1;
    }
    None
}

fn find_group_exec(turns: &Vec<TurnGroupExec>, id: &str) -> (r: Option<usize>)
    ensures
        match r {
            Some(k) => find_group(groups_view(turns@), id@) == k as int,
            None => find_group(groups_view(turns@), id@) == -1,
        },
{
    let ghost ev = groups_view(turns@);
    let mut k = turns.len();
    assert(ev.subrange(0, k as int) =~= ev);
    while k > 0
        invariant
            k <= turns@.len(),
            ev == groups_view(turns@),
            find_group(ev, id@) == find_group(ev.subrange(0, k as int), id@),
        decreases k,
    {
        let ghost sub = ev.subrange(0, k as int);
        assert(sub.drop_last() =~= ev.subrange(0, k - 1));
        assert(sub.last() == ev[k - 1]);
        if str_eq(turns[k - 1].turn_id.as_str(), id) {
            return Some(k - 1);
        }
        k -= 1;
    }
    None
}

fn find_spawn_exec(spawns: &Vec<SpawnGroupExec>, parent: &str, task: &str) -> (r: Option<usize>)
    ensures
        match r {
            Some(k) => find_spawn(spawn_groups_view(spawns@), parent@, task@) == k as int,
            None => find_spawn(spawn_groups_view(spawns@), parent@, task@) == -1,
        },
{
    let ghost ev = spawn_groups_view(spawns@);
    let mut k = spawns.len();
    assert(ev.subrange(0, k as int) =~= ev);
    while k > 0
        invariant
            k <= spawns@.len(),
            ev == spawn_groups_view(spawns@),
            find_spawn(ev, parent@, task@) == find_spawn(ev.subrange(0, k as int), parent@, task@),
        decreases k,
    {
        let ghost sub = ev.subrange(0, k as int);
        assert(sub.drop_last() =~= ev.subrange(0, k - 1));
        assert(sub.last() == ev[k - 1]);
        if str_eq(spawns[k - 1].parent.as_str(), parent) && str_eq(spawns[k - 1].task.as_str(), task) {
            return Some(k - 1);
        }
        k -= 1;
    }
    None
}

fn opt_clone_or(a: &Option<String>, b: &Option<String>) -> (r: Option<String>)
    ensures
        opt_view(r) == opt_or(opt_view(*a), opt_view(*b)),
{
    match a {
        Some(x) => Some(x.clone()),
        None => crate::model::opt_clone(b),
    }
}

fn opt_clash(a: &Option<String>, b: &Option<String>) -> (r: bool)
    ensures
        r == clash(opt_view(*a), opt_view(*b)),
{
    a.is_some() && b.is_some() && !opt_str_eq(a, b)
}

fn merged_session_exec(prev: &SessionObservation, inc: &SessionObservation) -> (r: Option<SessionObservation>)
    ensures
        session_opt_view(r) == merged_session(prev@, inc@),
{
    if !str_eq(prev.thread_id.as_str(), inc.thread_id.as_str()) || opt_clash(&prev.parent_thread_id, &inc.parent_thread_id)
        || opt_clash(&prev.join_key, &inc.join_key) || opt_clash(&prev.agent_role, &inc.agent_role) {
        return None;
    }
    if prev.activity_start == inc.activity_start && (prev.started_at_ms != inc.started_at_ms
        || prev.time_state != inc.time_state) {
        return None;
    }
    let mut m = prev.duplicate();
    m.parent_thread_id = opt_clone_or(&prev.parent_thread_id, &inc.parent_thread_id);
    m.agent_role = opt_clone_or(&prev.agent_role, &inc.agent_role);
    m.join_key = opt_clone_or(&prev.join_key, &inc.join_key);
    if inc.activity_start && !prev.activity_start {
        m.started_at_ms = inc.started_at_ms;
        m.time_state = inc.time_state;
        m.activity_start = true;
    }
    Some(m)
}

fn same_turn_obs(a: &TurnObservation, b: &TurnObservation) -> (r: bool)
    ensures
        r == (a@ == b@),
{
    str_eq(a.thread_id.as_str(), b.thread_id.as_str()) && str_eq(a.turn_id.as_str(), b.turn_id.as_str())
        && opt_str_eq(&a.model, &b.model) && opt_str_eq(&a.effort, &b.effort)
        && opt_str_eq(&a.multi_agent_version, &b.multi_agent_version) && a.started_at_ms == b.started_at_ms
        && a.time_state == b.time_state
}

fn holds_turn(values: &Vec<TurnObservation>, t: &TurnObservation) -> (r: bool)
    ensures
        r == turn_obs_view(values@).contains(t@),
{
    let ghost vv = turn_obs_view(values@);
    let mut k: usize = 0;
    while k < values.len()
        invariant
            k <= values@.len(),
            vv == turn_obs_view(values@),
            forall|m: int| 0 <= m < k ==> #[trigger] vv[m] != t@,
        decreases values@.len() - k,
    {
        if same_turn_obs(&values[k], t) {
            assert(vv[k as int] == t@);
            return true;
        }
        k += 1;
    }
    false
}

fn take_child(children: &mut Vec<ChildEvidence>, k: Option<usize>, id: &str) -> (c: ChildEvidence)
    requires
        match k {
            Some(k) => k < old(children)@.len() && old(children)@[k as int].thread_id@ == id@,
            None => true,
        },
    ensures
        match k {
            Some(k) => final(children)@ == old(children)@.remove(k as int) && c == old(children)@[k as int],
            None => final(children)@ == old(children)@ && child_view(c) == new_child(id@),
        },
{
    match k {
        Some(k) => children.remove(k),
        None => {
            let c = ChildEvidence { thread_id: crate::text::owned(id), session: None, session_conflict: false, turns: Vec::new() };
            assert(groups_view(c.turns@) =~= Seq::<TurnGroup>::empty());
            c
        },
    }
}

fn put_back<T>(v: &mut Vec<T>, k: Option<usize>, x: T)
    requires
        match k {
            Some(k) => k <= old(v)@.len(),
            None => true,
        },
    ensures
        match k {
            Some(k) => final(v)@ == old(v)@.insert(k as int, x),
            None => final(v)@ == old(v)@.push(x),
        },
{
    match k {
        Some(k) => v.insert(k, x),
        None => v.push(x),
    }
}

proof fn lemma_children_put(orig: Seq<ChildEvidence>, k: Option<usize>, c: ChildEvidence, after: Seq<ChildEvidence>, id: Seq<char>)
    requires
        child_view(c).thread_id == id,
        match k {
            Some(k) => k < orig.len() && after == orig.remove(k as int).insert(k as int, c)
                && find_child(children_view(orig), id) == k,
            None => after == orig.push(c) && find_child(children_view(orig), id) == -1,
        },
    ensures
        children_view(after) == put_child(children_view(orig), child_view(c)),
{
    match k {
        Some(k) => {
            assert(orig.remove(k as int).insert(k as int, c) =~= orig.update(k as int, c));
            assert(children_view(after) =~= children_view(orig).update(k as int, child_view(c)));
        },
        None => {
            assert(children_view(after) =~= children_view(orig).push(child_view(c)));
        },
    }
}

fn evidence_step_exec(ev: &mut EvidenceExec, o: &RolloutObservation)
    ensures
        evidence_view(*final(ev)) == evidence_step(evidence_view(*old(ev)), o@),
{
    proof {
        reveal_strlit("audit_bad_identifier");
        reveal_strlit("audit_ambiguous");
        reveal_strlit("audit_missing_spawn");
    }
    let ghost start = evidence_view(*ev);
    match o {
        RolloutObservation::Session(s) => {
            if !valid_identifier(s.thread_id.as_str(), MAX_IDENTIFIER_BYTES) {
                push_notice(&mut ev.notices, "audit_bad_identifier");
                return;
            }
            let ghost orig = ev.children@;
            let k = find_child_exec(&ev.children, s.thread_id.as_str());
            proof {
                lemma_find_child_bounds(children_view(orig), s@.thread_id);
                if k is Some {
                    assert(children_view(orig)[k->0 as int] == child_view(orig[k->0 as int]));
                }
            }
            let mut c = take_child(&mut ev.children, k, s.thread_id.as_str());
            assert(child_view(c) == child_at(children_view(orig), s@.thread_id));
            let merged = match &c.session {
                Some(prev) => Some(merged_session_exec(prev, s)),
                None => None,
            };
            match merged {
                Some(Some(m)) => {
                    c.session = Some(m);
                },
                Some(None) => {
                    c.session_conflict = true;
                    push_notice(&mut ev.notices, "audit_ambiguous");
                },
                None => {
                    c.session = Some(s.duplicate());
                },
            }
            let ghost cg = c;
            put_back(&mut ev.children, k, c);
            proof {
                lemma_children_put(orig, k, cg, ev.children@, s@.thread_id);
            }
        },
        RolloutObservation::Turn(t) => {
            if !valid_identifier(t.thread_id.as_str(), MAX_IDENTIFIER_BYTES) || !valid_identifier(t.turn_id.as_str(), MAX_IDENTIFIER_BYTES) {
                push_notice(&mut ev.notices, "audit_bad_identifier");
                return;
            }
            let ghost orig = ev.children@;
            let k = find_child_exec(&ev.children, t.thread_id.as_str());
            proof {
                lemma_find_child_bounds(children_view(orig), t@.thread_id);
                if k is Some {
                    assert(children_view(orig)[k->0 as int] == child_view(orig[k->0 as int]));
                }
            }
            let mut c = take_child(&mut ev.children, k, t.thread_id.as_str());
            let ghost c0 = child_view(c);
            assert(c0 == child_at(children_view(orig), t@.thread_id));
            let g = find_group_exec(&c.turns, t.turn_id.as_str());
            proof {
                lemma_find_group_bounds(groups_view(c.turns@), t@.turn_id);
            }
            let present = match g {
                Some(g) => holds_turn(&c.turns[g].values, t),
                None => false,
            };
            if !present {
                let ghost torig = c.turns@;
                let mut grp = match g {
                    Some(g) => c.turns.remove(g),
                    None => TurnGroupExec { turn_id: t.turn_id.clone(), values: Vec::new() },
                };
                assert(turn_obs_view(grp.values@) == (if g is Some { c0.turns[g->0 as int].values } else { Seq::<TurnObsView>::empty() }));
                if grp.values.len() > 0 {
                    push_notice(&mut ev.notices, "audit_ambiguous");
                }
                let ghost vb = grp.values@;
                grp.values.push(t.duplicate());
                assert(turn_obs_view(grp.values@) =~= turn_obs_view(vb).push(t@));
                let ghost gg = grp;
                put_back(&mut c.turns, g, grp);
                proof {
                    match g {
                        Some(gi) => {
                            assert(torig.remove(gi as int).insert(gi as int, gg) =~= torig.update(gi as int, gg));
                            assert(groups_view(c.turns@) =~= groups_view(torig).update(gi as int, group_view(gg)));
                        },
                        None => {
                            assert(groups_view(c.turns@) =~= groups_view(torig).push(group_view(gg)));
                        },
                    }
                }
            }
            let ghost cg = c;
            put_back(&mut ev.children, k, c);
            proof {
                lemma_children_put(orig, k, cg, ev.children@, t@.thread_id);
            }
        },
        RolloutObservation::Spawn(p) => {
            if !valid_identifier(p.parent_thread_id.as_str(), MAX_IDENTIFIER_BYTES) {
                push_notice(&mut ev.notices, "audit_bad_identifier");
                return;
            }
            let key_opt: Option<&String> = match &p.task_key {
                Some(key) => if p.task_key_valid { Some(key) } else { None },
                None => None,
            };
            match key_opt {
                None => {
                    push_notice(&mut ev.notices, "audit_missing_spawn");
                },
                Some(key) => {
                    if valid_join_key(key.as_str(), MAX_IDENTIFIER_BYTES) {
                        let ghost sorig = ev.spawns@;
                        let k = find_spawn_exec(&ev.spawns, p.parent_thread_id.as_str(), key.as_str());
                        proof {
                            lemma_find_spawn_bounds(spawn_groups_view(sorig), p@.parent_thread_id, key@);
                        }
                        match k {
                            Some(k) => {
                                let mut grp = ev.spawns.remove(k);
                                assert(grp == sorig[k as int]);
                                let ghost vb = grp.values@;
                                grp.values.push(p.duplicate());
                                assert(spawn_obs_view(grp.values@) =~= spawn_obs_view(vb).push(p@));
                                let ghost gg = grp;
                                ev.spawns.insert(k, grp);
                                assert(sorig.remove(k as int).insert(k as int, gg) =~= sorig.update(k as int, gg));
                                assert(spawn_groups_view(ev.spawns@) =~= spawn_groups_view(sorig).update(k as int, spawn_group_view(gg)));
                            },
                            None => {
                                let mut vals: Vec<SpawnObservation> = Vec::new();
                                vals.push(p.duplicate());
                                let grp = SpawnGroupExec { parent: p.parent_thread_id.clone(), task: key.clone(), values: vals };
                                assert(spawn_obs_view(grp.values@) =~= seq![p@]);
                                ev.spawns.push(grp);
                                assert(spawn_groups_view(ev.spawns@) =~= spawn_groups_view(sorig).push(spawn_group_view(grp)));
                            },
                        }
                    } else {
                        push_notice(&mut ev.notices, "audit_bad_identifier");
                    }
                },
            }
        },
    }
}

/// The evidence of a parse: each observation taken in order after the given notices.
pub fn gather_evidence(notices: Vec<AuditNotice>, observations: &Vec<RolloutObservation>) -> (r: EvidenceExec)
    ensures
        evidence_view(r) == evidence(notice_codes(notices@), observations_view(observations@)),
{
    let ghost ov = observations_view(observations@);
    let ghost n0 = notice_codes(notices@);
    let mut ev = EvidenceExec { children: Vec::new(), spawns: Vec::new(), notices };
    assert(children_view(ev.children@) =~= Seq::<ChildView>::empty());
    assert(spawn_groups_view(ev.spawns@) =~= Seq::<SpawnGroup>::empty());
    assert(evidence_view(ev) == evidence(n0, ov.subrange(0, 0)));
    let mut i: usize = 0;
    while i < observations.len()
        invariant
            i <= observations@.len(),
            ov == observations_view(observations@),
            evidence_view(ev) == evidence(n0, ov.subrange(0, i as int)),
        decreases observations@.len() - i,
    {
        assert(ov.subrange(0, i + 1).drop_last() =~= ov.subrange(0, i as int));
        assert(ov.subrange(0, i + 1).last() == observations@[i as int]@);
        evidence_step_exec(&mut ev, &observations[i]);
        i += 1;
    }
    assert(ov.subrange(0, observations@.len() as int) =~= ov);
    ev
}

// ---------- spawn quantities and the children to audit ----------

/// How many children claim to come from this parent's task.
pub open spec fn child_key_count(children: Seq<ChildView>, parent: Seq<char>, task: Seq<char>) -> nat
    decreases children.len(),
{
    if children.len() == 0 {
        0
    } else {
        child_key_count(children.drop_last(), parent, task) + (if children.last().session matches Some(s)
            && s.parent_thread_id == Some(parent) && s.join_key == Some(task) { 1nat } else { 0nat })
    }
}

/// The spawns of a task and the children that claim it disagree in number.
pub open spec fn quantity_conflict(children: Seq<ChildView>, g: SpawnGroup) -> bool {
    let c = child_key_count(children, g.parent, g.task);
    c > 0 && c != g.values.len()
}

pub open spec fn any_quantity_conflict(ev: Evidence) -> bool {
    exists|k: int| 0 <= k < ev.spawns.len() && quantity_conflict(ev.children, #[trigger] ev.spawns[k])
}

fn child_key_count_exec(children: &Vec<ChildEvidence>, parent: &str, task: &str) -> (r: usize)
    ensures
        r == child_key_count(children_view(children@), parent@, task@),
{
    let ghost cv = children_view(children@);
    let mut n: usize = 0;
    let mut i: usize = 0;
    while i < children.len()
        invariant
            i <= children@.len(),
            cv == children_view(children@),
            n == child_key_count(cv.subrange(0, i as int), parent@, task@),
            n <= i,
        decreases children@.len() - i,
    {
        assert(cv.subrange(0, i + 1).drop_last() =~= cv.subrange(0, i as int));
        assert(cv.subrange(0, i + 1).last() == child_view(children@[i as int]));
        let hit = match &children[i].session {
            Some(s) => match (&s.parent_thread_id, &s.join_key) {
                (Some(p), Some(j)) => str_eq(p.as_str(), parent) && str_eq(j.as_str(), task),
                _ => false,
            },
            None => false,
        };
        if hit {
            n += 1;
        }
        i += 1;
    }
    assert(cv.subrange(0, children@.len() as int) =~= cv);
    n
}

/// For each spawn group, whether its quantity conflicts.
pub fn quantity_flags(ev: &EvidenceExec) -> (r: Vec<bool>)
    ensures
        r@.len() == ev.spawns@.len(),
        forall|k: int| 0 <= k < r@.len() ==> r@[k] == quantity_conflict(children_view(ev.children@), #[trigger] spawn_groups_view(ev.spawns@)[k]),
{
    let ghost sv = spawn_groups_view(ev.spawns@);
    let mut r: Vec<bool> = Vec::new();
    let mut k: usize = 0;
    while k < ev.spawns.len()
        invariant
            k <= ev.spawns@.len(),
            sv == spawn_groups_view(ev.spawns@),
            r@.len() == k,
            forall|m: int| 0 <= m < k ==> r@[m] == quantity_conflict(children_view(ev.children@), #[trigger] sv[m]),
        decreases ev.spawns@.len() - k,
    {
        let g = &ev.spawns[k];
        assert(sv[k as int] == spawn_group_view(*g));
        let c = child_key_count_exec(&ev.children, g.parent.as_str(), g.task.as_str());
        r.push(c > 0 && c != g.values.len());
        k += 1;
    }
    r
}

pub open spec fn has_parent(c: ChildView) -> bool {
    c.session matches Some(s) && s.parent_thread_id is Some
}

/// Only sessions with an explicit parent are child audits: the root thread's own records
/// never become an audited role.
pub open spec fn parented(v: Seq<ChildView>) -> Seq<ChildView>
    decreases v.len(),
{
    if v.len() == 0 {
        v
    } else if has_parent(v.last()) {
        parented(v.drop_last()).push(v.last())
    } else {
        parented(v.drop_last())
    }
}

pub open spec fn started_of(c: ChildView) -> Option<u64> {
    match c.session {
        Some(s) => s.started_at_ms,
        None => None,
    }
}

/// Newest start first (a child with no start last), then by thread id.
pub open spec fn child_before(a: ChildView, b: ChildView) -> bool {
    match (started_of(a), started_of(b)) {
        (Some(x), Some(y)) => x > y || (x == y && crate::text::seq_lt(a.thread_id, b.thread_id)),
        (Some(_), None) => true,
        (None, Some(_)) => false,
        (None, None) => crate::text::seq_lt(a.thread_id, b.thread_id),
    }
}

pub open spec fn child_order() -> spec_fn(ChildView, ChildView) -> bool {
    |a: ChildView, b: ChildView| child_before(a, b)
}

/// The children to audit, in audit order.
pub open spec fn eligible(children: Seq<ChildView>) -> Seq<ChildView> {
    crate::order::stable_sort(parented(children), child_order())
}

fn child_precedes(a: &ChildEvidence, b: &ChildEvidence) -> (r: bool)
    ensures
        r == child_before(child_view(*a), child_view(*b)),
{
    let sa = match &a.session {
        Some(s) => s.started_at_ms,
        None => None,
    };
    let sb = match &b.session {
        Some(s) => s.started_at_ms,
        None => None,
    };
    match (sa, sb) {
        (Some(x), Some(y)) => x > y || (x == y && crate::text::str_lt(a.thread_id.as_str(), b.thread_id.as_str())),
        (Some(_), None) => true,
        (None, Some(_)) => false,
        (None, None) => crate::text::str_lt(a.thread_id.as_str(), b.thread_id.as_str()),
    }
}

fn insert_child(out: &mut Vec<ChildEvidence>, m: ChildEvidence)
    ensures
        children_view(final(out)@) == crate::order::stable_insert(children_view(old(out)@), child_view(m), child_order()),
{
    let ghost s = children_view(out@);
    let mut p = out.len();
    while p > 0 && child_precedes(&m, &out[p - 1])
        invariant
            p <= out@.len(),
            s == children_view(out@),
            forall|k: int| p <= k < s.len() ==> (child_order())(child_view(m), #[trigger] s[k]),
        decreases p,
    {
        p -= 1;
    }
    proof {
        crate::order::lemma_stable_insert_at(s, child_view(m), child_order(), p as int);
    }
    let ghost mv = child_view(m);
    out.insert(p, m);
    assert(children_view(out@) =~= s.subrange(0, p as int).push(mv) + s.subrange(p as int, s.len() as int));
}

/// Takes the children with a parent, in audit order.
pub fn eligible_children(children: Vec<ChildEvidence>) -> (r: Vec<ChildEvidence>)
    ensures
        children_view(r@) == eligible(children_view(children@)),
{
    let ghost orig = children_view(children@);
    let mut rest = children;
    let mut sorted: Vec<ChildEvidence> = Vec::new();
    let ghost mut i: int = 0;
    assert(children_view(rest@) =~= orig.subrange(0, orig.len() as int));
    assert(children_view(sorted@) =~= crate::order::stable_sort(parented(orig.subrange(0, 0)), child_order()));
    while rest.len() > 0
        invariant
            0 <= i <= orig.len(),
            children_view(rest@) == orig.subrange(i, orig.len() as int),
            children_view(sorted@) == crate::order::stable_sort(parented(orig.subrange(0, i)), child_order()),
        decreases rest@.len(),
    {
        let ghost before = rest@;
        assert(children_view(before).len() == before.len());
        let c = rest.remove(0);
        assert(c == before[0]);
        assert(children_view(before)[0] == child_view(c));
        assert(orig.subrange(i, orig.len() as int)[0] == orig[i]);
        assert(child_view(c) == orig[i]);
        assert(rest@ =~= before.subrange(1, before.len() as int));
        assert(children_view(rest@) =~= children_view(before).subrange(1, before.len() as int));
        assert(children_view(rest@) =~= orig.subrange(i + 1, orig.len() as int));
        assert(orig.subrange(0, i + 1).drop_last() =~= orig.subrange(0, i));
        assert(orig.subrange(0, i + 1).last() == orig[i]);
        let ghost pv = parented(orig.subrange(0, i));
        if match &c.session {
            Some(s) => s.parent_thread_id.is_some(),
            None => false,
        } {
            assert(has_parent(orig[i]));
            assert(parented(orig.subrange(0, i + 1)) == pv.push(orig[i]));
            assert(pv.push(orig[i]).drop_last() =~= pv);
            insert_child(&mut sorted, c);
        } else {
            assert(!has_parent(orig[i]));
        }
        proof {
            i = i + 1;
        }
    }
    assert(orig.subrange(0, orig.len() as int) =~= orig);
    sorted
}

// ---------- one audited child ----------

pub open spec fn empty_parent_view(v: AuditVerdict) -> ParentView {
    ParentView { verdict: v, observed_agent_type: None, observed_fork_turns: None, override_model: None, override_effort: None }
}

/// The one spawn that pairs with a child: there must be exactly one candidate, spawned at a
/// valid instant no later than the child's valid start and at most `max` before it.
pub open spec fn unique_spawn(cands: Seq<SpawnView>, s: SessionView, max: u64) -> Option<SpawnView> {
    if cands.len() != 1 {
        None
    } else {
        match (cands[0].time_state, s.time_state) {
            (TimeState::Valid(spawned), TimeState::Valid(started)) => if spawned > started || started - spawned > max {
                None
            } else {
                Some(cands[0])
            },
            _ => None,
        }
    }
}

/// How the parent's spawn call compares with the role: the agent type must be the role, the
/// fork must be `none`, and a well-formed call must not override model or effort.
pub open spec fn dispatch_verdict(sp: SpawnView, role: Seq<char>) -> AuditVerdict {
    let v1 = if !sp.fields_valid { AuditVerdict::Ambiguous } else { AuditVerdict::Match };
    let v2 = if !sp.agent_type_present || sp.observed_agent_type is None || role.len() == 0 {
        worse(v1, AuditVerdict::Incomplete)
    } else if sp.observed_agent_type != Some(role) {
        worse(v1, AuditVerdict::Mismatch)
    } else {
        v1
    };
    let v3 = if !sp.fork_turns_present || sp.observed_fork_turns is None {
        worse(v2, AuditVerdict::Incomplete)
    } else if sp.observed_fork_turns != Some("none"@) {
        worse(v2, AuditVerdict::Mismatch)
    } else {
        v2
    };
    let v4 = if sp.fields_valid && sp.model_present { worse(v3, AuditVerdict::Mismatch) } else { v3 };
    if sp.fields_valid && sp.effort_present { worse(v4, AuditVerdict::Mismatch) } else { v4 }
}

/// The parent side of a child: the spawn it pairs with and how that spawn compares, with
/// the notices it adds.
pub open spec fn build_parent(child: ChildView, spawns: Seq<SpawnGroup>, flags: Seq<bool>, role: Seq<char>, max: u64, n: Seq<Seq<char>>) -> (ParentView, Seq<Seq<char>>) {
    match child.session {
        None => (empty_parent_view(AuditVerdict::Missing), noted(n, "audit_missing_parent"@)),
        Some(s) => if s.parent_thread_id is None || s.join_key is None {
            (empty_parent_view(AuditVerdict::Missing), noted(n, "audit_missing_parent"@))
        } else {
            let k = find_spawn(spawns, s.parent_thread_id->0, s.join_key->0);
            if k < 0 {
                (empty_parent_view(AuditVerdict::Missing), noted(n, "audit_missing_spawn"@))
            } else if flags[k] || child.session_conflict {
                (empty_parent_view(AuditVerdict::Ambiguous), n)
            } else {
                match unique_spawn(spawns[k].values, s, max) {
                    None => (empty_parent_view(AuditVerdict::Ambiguous), noted(n, ambiguous())),
                    Some(sp) => (ParentView {
                        verdict: dispatch_verdict(sp, role),
                        observed_agent_type: sp.observed_agent_type,
                        observed_fork_turns: sp.observed_fork_turns,
                        override_model: sp.override_model,
                        override_effort: sp.override_effort,
                    }, n),
                }
            }
        }
    }
}

/// The client-side verdict of one turn.
pub open spec fn client_verdict(g: TurnGroup, supported: bool, stale_or_invalid: bool, exp_model: Option<Seq<char>>, exp_effort: Option<Seq<char>>) -> AuditVerdict {
    let v = g.values[0];
    if g.values.len() != 1 {
        AuditVerdict::Ambiguous
    } else if !supported {
        AuditVerdict::Unsupported
    } else if stale_or_invalid {
        AuditVerdict::Incomplete
    } else if v.time_state is Invalid {
        AuditVerdict::Ambiguous
    } else if v.model is None || v.effort is None || v.multi_agent_version is None {
        AuditVerdict::Incomplete
    } else if v.multi_agent_version != Some("v2"@) {
        AuditVerdict::Unsupported
    } else if exp_model is None || exp_effort is None {
        AuditVerdict::Incomplete
    } else if v.model != exp_model || v.effort != exp_effort {
        AuditVerdict::Mismatch
    } else {
        AuditVerdict::Match
    }
}

/// The audit of one turn, before any outbound evidence: conflicting records show no values.
pub open spec fn turn_audit(g: TurnGroup, supported: bool, stale_or_invalid: bool, exp_model: Option<Seq<char>>, exp_effort: Option<Seq<char>>) -> TurnView {
    let conflict = g.values.len() != 1;
    let v = g.values[0];
    let c = client_verdict(g, supported, stale_or_invalid, exp_model, exp_effort);
    TurnView {
        turn_id: g.turn_id,
        started_at_ms: if conflict { None } else { v.started_at_ms },
        model: if conflict { None } else { v.model },
        effort: if conflict { None } else { v.effort },
        multi_agent_version: if conflict { None } else { v.multi_agent_version },
        client_verdict: c,
        outbound_requested_model: None,
        outbound_evidence_count: 0,
        outbound_verdict: AuditVerdict::Unsupported,
        verdict: worse(c, AuditVerdict::Unsupported),
    }
}

/// Earliest start first (a turn with no start last), then by turn id.
pub open spec fn turn_before(a: TurnView, b: TurnView) -> bool {
    match (a.started_at_ms, b.started_at_ms) {
        (Some(x), Some(y)) => x < y || (x == y && crate::text::seq_lt(a.turn_id, b.turn_id)),
        (Some(_), None) => true,
        (None, Some(_)) => false,
        (None, None) => crate::text::seq_lt(a.turn_id, b.turn_id),
    }
}

pub open spec fn turn_order() -> spec_fn(TurnView, TurnView) -> bool {
    |a: TurnView, b: TurnView| turn_before(a, b)
}

pub open spec fn role_of(child: ChildView) -> Seq<char> {
    match child.session {
        Some(s) => match s.agent_role {
            Some(r) => r,
            None => Seq::empty(),
        },
        None => Seq::empty(),
    }
}

/// The policy of the child's role changed after the child started.
pub open spec fn policy_stale(child: ChildView, table: RoleTable) -> bool {
    let ri = find_role(table.entries, role_of(child));
    ri >= 0 && table.entries[ri].policy_updated_at_ms is Some && started_of(child) is Some
        && table.entries[ri].policy_updated_at_ms->0 > started_of(child)->0
}

/// The audit of one child against the role table, with the notices it adds.
pub open spec fn build_agent(child: ChildView, spawns: Seq<SpawnGroup>, flags: Seq<bool>, table: RoleTable, max: u64, n: Seq<Seq<char>>) -> (AgentView, Seq<Seq<char>>) {
    let role_id = role_of(child);
    let ri = find_role(table.entries, role_id);
    let supported = ri >= 0 && table.entries[ri].managed;
    let role = table.entries[ri];
    let n1 = if !supported { noted(n, "audit_role_unmanaged"@) } else { n };
    let stale = policy_stale(child, table);
    let n2 = if stale { noted(n1, "audit_policy_stale"@) } else { n1 };
    let invalid = table.invalid.contains(role_id);
    let n3 = if invalid { noted(n2, "audit_policy_invalid"@) } else { n2 };
    let (parent, n4) = build_parent(child, spawns, flags, role_id, max, n3);
    let exp_model = if supported { role.expected_model } else { None };
    let exp_effort = if supported { role.expected_effort } else { None };
    let turns = crate::order::stable_sort(
        child.turns.map_values(|g: TurnGroup| turn_audit(g, supported, stale || invalid, exp_model, exp_effort)),
        turn_order(),
    );
    let v0 = verdict_over(parent.verdict, turns);
    let v1 = if turns.len() == 0 { worse(v0, AuditVerdict::Missing) } else { v0 };
    let v2 = if child.session_conflict { worse(v1, AuditVerdict::Ambiguous) } else { v1 };
    (AgentView {
        thread_id: child.thread_id,
        role_id,
        expected_policy_revision: if supported { role.policy_revision } else { None },
        expected_policy_hash: if supported { role.policy_hash } else { None },
        expected_model: exp_model,
        expected_effort: exp_effort,
        parent,
        turns,
        verdict: v2,
    }, if turns.len() == 0 { noted(n4, "audit_missing_turn"@) } else { n4 })
}

/// A parent side with no evidence beyond its verdict.
pub fn empty_parent(v: AuditVerdict) -> (r: ParentDispatchAudit)
    ensures
        r@ == empty_parent_view(v),
{
    ParentDispatchAudit { verdict: v, observed_agent_type: None, observed_fork_turns: None, override_model: None, override_effort: None }
}

fn dispatch_verdict_exec(sp: &SpawnObservation, role: &str) -> (r: AuditVerdict)
    ensures
        r == dispatch_verdict(sp@, role@),
{
    let mut v = if !sp.fields_valid { AuditVerdict::Ambiguous } else { AuditVerdict::Match };
    match &sp.observed_agent_type {
        Some(t) => {
            if !sp.agent_type_present || crate::text::chars_of(role).len() == 0 {
                v = v.worst(AuditVerdict::Incomplete);
            } else if !str_eq(t.as_str(), role) {
                v = v.worst(AuditVerdict::Mismatch);
            }
        },
        None => {
            v = v.worst(AuditVerdict::Incomplete);
        },
    }
    match &sp.observed_fork_turns {
        Some(f) => {
            proof {
                reveal_strlit("none");
            }
            if !sp.fork_turns_present {
                v = v.worst(AuditVerdict::Incomplete);
            } else if !str_eq(f.as_str(), "none") {
                v = v.worst(AuditVerdict::Mismatch);
            }
        },
        None => {
            v = v.worst(AuditVerdict::Incomplete);
        },
    }
    if sp.fields_valid && sp.model_present {
        v = v.worst(AuditVerdict::Mismatch);
    }
    if sp.fields_valid && sp.effort_present {
        v = v.worst(AuditVerdict::Mismatch);
    }
    v
}

fn build_parent_exec(
    child: &ChildEvidence,
    spawns: &Vec<SpawnGroupExec>,
    flags: &Vec<bool>,
    role: &str,
    max: u64,
    notices: &mut Vec<AuditNotice>,
) -> (r: ParentDispatchAudit)
    requires
        flags@.len() == spawns@.len(),
    ensures
        (r@, notice_codes(final(notices)@)) == build_parent(child_view(*child), spawn_groups_view(spawns@), flags@, role@, max, notice_codes(old(notices)@)),
{
    proof {
        reveal_strlit("audit_missing_parent");
        reveal_strlit("audit_missing_spawn");
        reveal_strlit("audit_ambiguous");
    }
    let s = match &child.session {
        None => {
            push_notice(notices, "audit_missing_parent");
            return empty_parent(AuditVerdict::Missing);
        },
        Some(s) => s,
    };
    let (p, j) = match (&s.parent_thread_id, &s.join_key) {
        (Some(p), Some(j)) => (p, j),
        _ => {
            push_notice(notices, "audit_missing_parent");
            return empty_parent(AuditVerdict::Missing);
        },
    };
    let k = match find_spawn_exec(spawns, p.as_str(), j.as_str()) {
        None => {
            push_notice(notices, "audit_missing_spawn");
            return empty_parent(AuditVerdict::Missing);
        },
        Some(k) => k,
    };
    proof {
        lemma_find_spawn_bounds(spawn_groups_view(spawns@), s@.parent_thread_id->0, s@.join_key->0);
    }
    if flags[k] || child.session_conflict {
        return empty_parent(AuditVerdict::Ambiguous);
    }
    let cands = &spawns[k].values;
    assert(spawn_obs_view(cands@) == spawn_groups_view(spawns@)[k as int].values);
    let mut pick: Option<&SpawnObservation> = None;
    if cands.len() == 1 {
        match (cands[0].time_state, s.time_state) {
            (TimeState::Valid(spawned), TimeState::Valid(started)) => {
                if !(spawned > started || started - spawned > max) {
                    pick = Some(&cands[0]);
                }
            },
            _ => {},
        }
    }
    match pick {
        None => {
            push_notice(notices, "audit_ambiguous");
            empty_parent(AuditVerdict::Ambiguous)
        },
        Some(sp) => {
            ParentDispatchAudit {
                verdict: dispatch_verdict_exec(sp, role),
                observed_agent_type: crate::model::opt_clone(&sp.observed_agent_type),
                observed_fork_turns: crate::model::opt_clone(&sp.observed_fork_turns),
                override_model: crate::model::opt_clone(&sp.override_model),
                override_effort: crate::model::opt_clone(&sp.override_effort),
            }
        },
    }
}

fn turn_audit_exec(g: &TurnGroupExec, supported: bool, stale_or_invalid: bool, exp_model: &Option<String>, exp_effort: &Option<String>) -> (r: TurnAudit)
    requires
        g.values@.len() > 0,
    ensures
        r@ == turn_audit(group_view(*g), supported, stale_or_invalid, opt_view(*exp_model), opt_view(*exp_effort)),
{
    proof {
        reveal_strlit("v2");
    }
    let conflict = g.values.len() != 1;
    let v = &g.values[0];
    assert(group_view(*g).values[0] == v@);
    let client = if conflict {
        AuditVerdict::Ambiguous
    } else if !supported {
        AuditVerdict::Unsupported
    } else if stale_or_invalid {
        AuditVerdict::Incomplete
    } else if v.time_state == TimeState::Invalid {
        AuditVerdict::Ambiguous
    } else if v.model.is_none() || v.effort.is_none() || v.multi_agent_version.is_none() {
        AuditVerdict::Incomplete
    } else if !(match &v.multi_agent_version {
        Some(x) => str_eq(x.as_str(), "v2"),
        None => false,
    }) {
        AuditVerdict::Unsupported
    } else if exp_model.is_none() || exp_effort.is_none() {
        AuditVerdict::Incomplete
    } else if !opt_str_eq(&v.model, exp_model) || !opt_str_eq(&v.effort, exp_effort) {
        AuditVerdict::Mismatch
    } else {
        AuditVerdict::Match
    };
    TurnAudit {
        turn_id: g.turn_id.clone(),
        started_at_ms: if conflict { None } else { v.started_at_ms },
        model: if conflict { None } else { crate::model::opt_clone(&v.model) },
        effort: if conflict { None } else { crate::model::opt_clone(&v.effort) },
        multi_agent_version: if conflict { None } else { crate::model::opt_clone(&v.multi_agent_version) },
        client_verdict: client,
        outbound_requested_model: None,
        outbound_evidence_count: 0,
        outbound_verdict: AuditVerdict::Unsupported,
        verdict: client.worst(AuditVerdict::Unsupported),
    }
}

fn turn_precedes(a: &TurnAudit, b: &TurnAudit) -> (r: bool)
    ensures
        r == turn_before(a@, b@),
{
    match (a.started_at_ms, b.started_at_ms) {
        (Some(x), Some(y)) => x < y || (x == y && crate::text::str_lt(a.turn_id.as_str(), b.turn_id.as_str())),
        (Some(_), None) => true,
        (None, Some(_)) => false,
        (None, None) => crate::text::str_lt(a.turn_id.as_str(), b.turn_id.as_str()),
    }
}

fn insert_turn(out: &mut Vec<TurnAudit>, m: TurnAudit)
    ensures
        crate::audit::turns_view(final(out)@) == crate::order::stable_insert(crate::audit::turns_view(old(out)@), m@, turn_order()),
{
    let ghost s = crate::audit::turns_view(out@);
    let mut p = out.len();
    while p > 0 && turn_precedes(&m, &out[p - 1])
        invariant
            p <= out@.len(),
            s == crate::audit::turns_view(out@),
            forall|k: int| p <= k < s.len() ==> (turn_order())(m@, #[trigger] s[k]),
        decreases p,
    {
        p -= 1;
    }
    proof {
        crate::order::lemma_stable_insert_at(s, m@, turn_order(), p as int);
    }
    let ghost mv = m@;
    out.insert(p, m);
    assert(crate::audit::turns_view(out@) =~= s.subrange(0, p as int).push(mv) + s.subrange(p as int, s.len() as int));
}

/// Every turn group of the evidence holds at least one record.
pub open spec fn groups_filled(turns: Seq<TurnGroup>) -> bool {
    forall|k: int| 0 <= k < turns.len() ==> (#[trigger] turns[k]).values.len() > 0
}

fn build_agent_exec(
    child: &ChildEvidence,
    spawns: &Vec<SpawnGroupExec>,
    flags: &Vec<bool>,
    table: &RoleTableExec,
    max: u64,
    notices: &mut Vec<AuditNotice>,
) -> (r: AgentAudit)
    requires
        flags@.len() == spawns@.len(),
        groups_filled(child_view(*child).turns),
    ensures
        (r@, notice_codes(final(notices)@)) == build_agent(child_view(*child), spawn_groups_view(spawns@), flags@, role_table_view(*table), max, notice_codes(old(notices)@)),
{
    proof {
        reveal_strlit("audit_role_unmanaged");
        reveal_strlit("audit_policy_stale");
        reveal_strlit("audit_policy_invalid");
        reveal_strlit("audit_missing_turn");
    }
    let ghost cv = child_view(*child);
    let ghost tv = role_table_view(*table);
    let role_id: String = match &child.session {
        Some(s) => match &s.agent_role {
            Some(r) => r.clone(),
            None => String::new(),
        },
        None => String::new(),
    };
    assert(role_id@ == role_of(cv));
    let ri = find_role_exec(&table.entries, role_id.as_str());
    proof {
        lemma_find_role_bounds(tv.entries, role_id@);
    }
    let supported = match ri {
        Some(k) => table.entries[k].managed,
        None => false,
    };
    if !supported {
        push_notice(notices, "audit_role_unmanaged");
    }
    let started = match &child.session {
        Some(s) => s.started_at_ms,
        None => None,
    };
    let stale = match ri {
        Some(k) => match (table.entries[k].policy_updated_at_ms, started) {
            (Some(u), Some(st)) => u > st,
            _ => false,
        },
        None => false,
    };
    if stale {
        push_notice(notices, "audit_policy_stale");
    }
    let invalid = crate::audit::contains_string(&table.invalid, role_id.as_str());
    if invalid {
        push_notice(notices, "audit_policy_invalid");
    }
    let parent = build_parent_exec(child, spawns, flags, role_id.as_str(), max, notices);
    let (exp_rev, exp_hash, exp_model, exp_effort) = match ri {
        Some(k) => if supported {
            let e = &table.entries[k];
            (e.policy_revision, crate::model::opt_clone(&e.policy_hash), crate::model::opt_clone(&e.expected_model), crate::model::opt_clone(&e.expected_effort))
        } else {
            (None, None, None, None)
        },
        None => (None, None, None, None),
    };
    let ghost gs = cv.turns;
    let ghost mapped = gs.map_values(|g: TurnGroup| turn_audit(g, supported, stale || invalid, opt_view(exp_model), opt_view(exp_effort)));
    let mut turns: Vec<TurnAudit> = Vec::new();
    let mut j: usize = 0;
    while j < child.turns.len()
        invariant
            j <= child.turns@.len(),
            cv == child_view(*child),
            gs == cv.turns,
            groups_filled(gs),
            mapped == gs.map_values(|g: TurnGroup| turn_audit(g, supported, stale || invalid, opt_view(exp_model), opt_view(exp_effort))),
            crate::audit::turns_view(turns@) == crate::order::stable_sort(mapped.subrange(0, j as int), turn_order()),
        decreases child.turns@.len() - j,
    {
        assert(gs[j as int] == group_view(child.turns@[j as int]));
        assert(gs[j as int].values.len() > 0);
        let t = turn_audit_exec(&child.turns[j], supported, stale || invalid, &exp_model, &exp_effort);
        assert(t@ == mapped[j as int]);
        proof {
            crate::order::lemma_stable_sort_step(mapped, j as int, turn_order());
        }
        insert_turn(&mut turns, t);
        j += 1;
    }
    assert(mapped.subrange(0, mapped.len() as int) =~= mapped);
    let ghost sorted = crate::audit::turns_view(turns@);
    let mut verdict = parent.verdict;
    let mut m: usize = 0;
    while m < turns.len()
        invariant
            m <= turns@.len(),
            sorted == crate::audit::turns_view(turns@),
            verdict == verdict_over(parent.verdict, sorted.subrange(0, m as int)),
        decreases turns@.len() - m,
    {
        assert(sorted.subrange(0, m + 1).drop_last() =~= sorted.subrange(0, m as int));
        assert(sorted[m as int] == turns@[m as int]@);
        verdict = verdict.worst(turns[m].verdict);
        m += 1;
    }
    assert(sorted.subrange(0, sorted.len() as int) =~= sorted);
    if turns.len() == 0 {
        push_notice(notices, "audit_missing_turn");
        verdict = verdict.worst(AuditVerdict::Missing);
    }
    if child.session_conflict {
        verdict = verdict.worst(AuditVerdict::Ambiguous);
    }
    AgentAudit {
        thread_id: child.thread_id.clone(),
        role_id,
        expected_policy_revision: exp_rev,
        expected_policy_hash: exp_hash,
        expected_model: exp_model,
        expected_effort: exp_effort,
        parent,
        turns,
        verdict,
    }
}

// ---------- the merge ----------

pub open spec fn children_filled(children: Seq<ChildView>) -> bool {
    forall|k: int| 0 <= k < children.len() ==> groups_filled(#[trigger] children[k].turns)
}

proof fn lemma_put_child_filled(children: Seq<ChildView>, c: ChildView)
    requires
        children_filled(children),
        groups_filled(c.turns),
    ensures
        children_filled(put_child(children, c)),
{
    lemma_find_child_bounds(children, c.thread_id);
}

proof fn lemma_evidence_filled(notices: Seq<Seq<char>>, obs: Seq<ObservationView>)
    ensures
        children_filled(evidence(notices, obs).children),
    decreases obs.len(),
{
    if obs.len() > 0 {
        lemma_evidence_filled(notices, obs.drop_last());
        let ev = evidence(notices, obs.drop_last());
        match obs.last() {
            ObservationView::Session(s) => {
                lemma_find_child_bounds(ev.children, s.thread_id);
                let c = child_at(ev.children, s.thread_id);
                assert(groups_filled(c.turns));
                if identifier_ok(s.thread_id, MAX_IDENTIFIER_BYTES as int) {
                    lemma_put_child_filled(ev.children, ChildView { session: Some(s), ..c });
                    lemma_put_child_filled(ev.children, ChildView { session_conflict: true, ..c });
                    if c.session is Some && merged_session(c.session->0, s) is Some {
                        lemma_put_child_filled(ev.children, ChildView { session: merged_session(c.session->0, s), ..c });
                    }
                }
            },
            ObservationView::Turn(t) => {
                lemma_find_child_bounds(ev.children, t.thread_id);
                let c = child_at(ev.children, t.thread_id);
                assert(groups_filled(c.turns));
                lemma_find_group_bounds(c.turns, t.turn_id);
                let g = find_group(c.turns, t.turn_id);
                let values = if g >= 0 { c.turns[g].values } else { Seq::empty() };
                let group = TurnGroup { turn_id: t.turn_id, values: values.push(t) };
                let turns = if g >= 0 { c.turns.update(g, group) } else { c.turns.push(group) };
                assert(groups_filled(turns));
                lemma_put_child_filled(ev.children, c);
                lemma_put_child_filled(ev.children, ChildView { turns, ..c });
            },
            ObservationView::Spawn(_) => {},
        }
    }
}

proof fn lemma_parented_filled(v: Seq<ChildView>)
    requires
        children_filled(v),
    ensures
        children_filled(parented(v)),
    decreases v.len(),
{
    if v.len() > 0 {
        assert(children_filled(v.drop_last()));
        lemma_parented_filled(v.drop_last());
    }
}

pub open spec fn quantity_flags_of(ev: Evidence) -> Seq<bool> {
    ev.spawns.map_values(|g: SpawnGroup| quantity_conflict(ev.children, g))
}

/// The audits of the selected children, in order, threading the notices.
pub open spec fn agents_fold(sel: Seq<ChildView>, spawns: Seq<SpawnGroup>, flags: Seq<bool>, table: RoleTable, max: u64, n: Seq<Seq<char>>) -> (Seq<AgentView>, Seq<Seq<char>>)
    decreases sel.len(),
{
    if sel.len() == 0 {
        (Seq::empty(), n)
    } else {
        let (a, n1) = agents_fold(sel.drop_last(), spawns, flags, table, max, n);
        let (x, n2) = build_agent(sel.last(), spawns, flags, table, max, n1);
        (a.push(x), n2)
    }
}

pub open spec fn downgraded(agents: Seq<AgentView>, v: AuditVerdict) -> Seq<AgentView> {
    agents.map_values(|a: AgentView| AgentView { verdict: worse(a.verdict, v), ..a })
}

/// A notice that means some evidence was dropped, so that nothing can be complete.
pub open spec fn evidence_dropped(n: Seq<Seq<char>>) -> bool {
    n.contains("audit_jsonl_invalid"@) || n.contains("audit_line_too_large"@) || n.contains("audit_read_error"@)
        || n.contains(bad_identifier()) || n.contains("audit_bad_timestamp"@)
}

pub struct ParsedView {
    pub observations: Seq<ObservationView>,
    pub notices: Seq<Seq<char>>,
    pub truncated: bool,
}

pub open spec fn parsed_view(p: ParsedRollout) -> ParsedView {
    ParsedView { observations: observations_view(p.observations@), notices: notice_codes(p.notices@), truncated: p.truncated }
}

/// The audit result of a parse against the role policies: roles, then observations, then
/// spawn quantities, then the newest `max_children` children with a parent; reaching a
/// bound, a truncated parse, an unknown schema or dropped evidence downgrades every agent.
pub open spec fn merged_rollout(parsed: ParsedView, roles: Seq<RoleView>, checked_at_ms: u64, limits: AuditLimits) -> ResultView {
    let t = role_table(parsed.notices, roles);
    let table = RoleTable { notices: Seq::empty(), ..t };
    let ev = evidence(t.notices, parsed.observations);
    let flags = quantity_flags_of(ev);
    let n0 = if any_quantity_conflict(ev) { noted(ev.notices, ambiguous()) } else { ev.notices };
    let el = eligible(ev.children);
    let take = if limits.max_children < el.len() { limits.max_children as int } else { el.len() as int };
    let (a0, n1) = agents_fold(el.take(take), ev.spawns, flags, table, limits.max_pair_delay_ms, n0);
    let over = (limits.max_children > 0 && el.len() >= limits.max_children) || (limits.max_children == 0 && el.len() > 0);
    let n2 = if over { noted(n1, "audit_truncated"@) } else { n1 };
    let a1 = if over { downgraded(a0, AuditVerdict::Incomplete) } else { a0 };
    let n3 = if parsed.truncated { noted(n2, "audit_truncated"@) } else { n2 };
    let a2 = if parsed.truncated { downgraded(a1, AuditVerdict::Incomplete) } else { a1 };
    let a3 = if n3.contains("audit_schema_unsupported"@) {
        downgraded(a2, AuditVerdict::Unsupported)
    } else if evidence_dropped(n3) {
        downgraded(a2, AuditVerdict::Incomplete)
    } else {
        a2
    };
    ResultView {
        schema_version: AUDIT_SCHEMA_VERSION,
        checked_at_ms,
        source_support: if parsed.observations.len() == 0 { AuditSourceSupport::Unsupported } else { AuditSourceSupport::RolloutOnly },
        agents: a3,
        notices: n3,
    }
}

pub fn downgrade_all(agents: &mut Vec<AgentAudit>, v: AuditVerdict)
    ensures
        crate::audit::agents_view(final(agents)@) == downgraded(crate::audit::agents_view(old(agents)@), v),
{
    let ghost orig = crate::audit::agents_view(agents@);
    let mut k: usize = 0;
    while k < agents.len()
        invariant
            k <= agents@.len() == orig.len(),
            crate::audit::agents_view(agents@) == downgraded(orig, v).subrange(0, k as int) + orig.subrange(k as int, orig.len() as int),
        decreases agents@.len() - k,
    {
        let ghost before = agents@;
        assert(crate::audit::agents_view(before)[k as int] == before[k as int]@);
        assert((downgraded(orig, v).subrange(0, k as int) + orig.subrange(k as int, orig.len() as int))[k as int] == orig[k as int]);
        let mut a = agents.remove(k);
        assert(a@ == orig[k as int]);
        a.verdict = a.verdict.worst(v);
        let ghost av = a@;
        agents.insert(k, a);
        assert(agents@ =~= before.update(k as int, a));
        assert(crate::audit::agents_view(agents@) =~= crate::audit::agents_view(before).update(k as int, av));
        assert(av == downgraded(orig, v)[k as int]);
        assert(crate::audit::agents_view(agents@) =~= downgraded(orig, v).subrange(0, k + 1) + orig.subrange(k + 1, orig.len() as int));
        k += 1;
    }
    assert(crate::audit::agents_view(agents@) =~= downgraded(orig, v));
}

fn has_notice(notices: &Vec<AuditNotice>, code: &str) -> (r: bool)
    ensures
        r == notice_codes(notices@).contains(code@),
{
    let ghost nv = notice_codes(notices@);
    let mut k: usize = 0;
    while k < notices.len()
        invariant
            k <= notices@.len(),
            nv == notice_codes(notices@),
            forall|m: int| 0 <= m < k ==> #[trigger] nv[m] != code@,
        decreases notices@.len() - k,
    {
        if str_eq(notices[k].code.as_str(), code) {
            assert(nv[k as int] == code@);
            return true;
        }
        k += 1;
    }
    false
}

/// Merges parsed rollout observations against the role policies taken at audit start, within
/// the given bounds.
pub fn merge_rollout_evidence_with_limits(
    parsed: &ParsedRollout,
    roles: &[ManagedRoleSnapshot],
    checked_at_ms: u64,
    limits: AuditLimits,
) -> (r: SubagentAuditResult)
    ensures
        r@ == merged_rollout(parsed_view(*parsed), roles_view(roles@), checked_at_ms, limits),
{
    proof {
        reveal_strlit("audit_ambiguous");
        reveal_strlit("audit_truncated");
        reveal_strlit("audit_schema_unsupported");
        reveal_strlit("audit_jsonl_invalid");
        reveal_strlit("audit_line_too_large");
        reveal_strlit("audit_read_error");
        reveal_strlit("audit_bad_identifier");
        reveal_strlit("audit_bad_timestamp");
    }
    let ghost pv = parsed_view(*parsed);
    let ghost t = role_table(pv.notices, roles_view(roles@));
    let table = build_role_table(&parsed.notices, roles);
    let RoleTableExec { entries, invalid, notices } = table;
    let table = RoleTableExec { entries, invalid, notices: Vec::new() };
    assert(notice_codes(table.notices@) =~= Seq::<Seq<char>>::empty());
    assert(role_table_view(table) == RoleTable { notices: Seq::empty(), ..t });
    let ev = gather_evidence(notices, &parsed.observations);
    let ghost evv = evidence_view(ev);
    proof {
        lemma_evidence_filled(t.notices, pv.observations);
    }
    let flags = quantity_flags(&ev);
    assert(flags@ =~= quantity_flags_of(evv));
    let EvidenceExec { children, spawns, notices } = ev;
    let mut notices = notices;
    let mut any = false;
    let mut k: usize = 0;
    while k < flags.len()
        invariant
            k <= flags@.len(),
            flags@ == quantity_flags_of(evv),
            any == exists|m: int| 0 <= m < k && quantity_conflict(evv.children, #[trigger] evv.spawns[m]),
        decreases flags@.len() - k,
    {
        if flags[k] {
            assert(quantity_conflict(evv.children, evv.spawns[k as int]));
            any = true;
        }
        k += 1;
    }
    if any {
        push_notice(&mut notices, "audit_ambiguous");
    }
    let el = eligible_children(children);
    let ghost elv = children_view(el@);
    proof {
        lemma_parented_filled(evv.children);
        crate::order::lemma_stable_sort_all(parented(evv.children), child_order(), |c: ChildView| groups_filled(c.turns));
    }
    let take = if limits.max_children < el.len() { limits.max_children } else { el.len() };
    let mut agents: Vec<AgentAudit> = Vec::new();
    let mut i: usize = 0;
    while i < take
        invariant
            i <= take <= el@.len(),
            elv == children_view(el@),
            flags@.len() == spawns@.len(),
            forall|m: int| 0 <= m < elv.len() ==> groups_filled(#[trigger] elv[m].turns),
            (crate::audit::agents_view(agents@), notice_codes(notices@)) == agents_fold(
                elv.take(i as int), spawn_groups_view(spawns@), flags@, role_table_view(table),
                limits.max_pair_delay_ms, if any_quantity_conflict(evv) { noted(evv.notices, ambiguous()) } else { evv.notices }),
        decreases take - i,
    {
        assert(elv.take(i + 1).drop_last() =~= elv.take(i as int));
        assert(elv.take(i + 1).last() == child_view(el@[i as int]));
        assert(groups_filled(elv[i as int].turns));
        let ghost before = agents@;
        let a = build_agent_exec(&el[i], &spawns, &flags, &table, limits.max_pair_delay_ms, &mut notices);
        agents.push(a);
        assert(crate::audit::agents_view(agents@) =~= crate::audit::agents_view(before).push(a@));
        i += 1;
    }
    let over = (limits.max_children > 0 && el.len() >= limits.max_children) || (limits.max_children == 0 && el.len() > 0);
    if over {
        push_notice(&mut notices, "audit_truncated");
        downgrade_all(&mut agents, AuditVerdict::Incomplete);
    }
    if parsed.truncated {
        push_notice(&mut notices, "audit_truncated");
        downgrade_all(&mut agents, AuditVerdict::Incomplete);
    }
    if has_notice(&notices, "audit_schema_unsupported") {
        downgrade_all(&mut agents, AuditVerdict::Unsupported);
    } else if has_notice(&notices, "audit_jsonl_invalid") || has_notice(&notices, "audit_line_too_large")
        || has_notice(&notices, "audit_read_error") || has_notice(&notices, "audit_bad_identifier")
        || has_notice(&notices, "audit_bad_timestamp") {
        downgrade_all(&mut agents, AuditVerdict::Incomplete);
    }
    SubagentAuditResult {
        schema_version: AUDIT_SCHEMA_VERSION,
        checked_at_ms,
        source_support: if parsed.observations.len() == 0 { AuditSourceSupport::Unsupported } else { AuditSourceSupport::RolloutOnly },
        agents,
        notices,
    }
}

/// The merge within the production bounds.
pub fn merge_rollout_evidence(parsed: &ParsedRollout, roles: &[ManagedRoleSnapshot], checked_at_ms: u64) -> (r: SubagentAuditResult)
    ensures
        r@ == merged_rollout(parsed_view(*parsed), roles_view(roles@), checked_at_ms, AuditLimits {
            max_date_directories: crate::audit::MAX_ROLLOUT_DATES,
            max_rollout_files: crate::audit::MAX_ROLLOUT_FILES,
            max_file_bytes: crate::audit::MAX_ROLLOUT_FILE_BYTES,
            max_line_bytes: crate::audit::MAX_ROLLOUT_LINE_BYTES,
            max_children: crate::audit::MAX_CHILDREN,
            max_pair_delay_ms: crate::audit::MAX_PAIR_DELAY_MS,
            max_identifier_bytes: MAX_IDENTIFIER_BYTES,
        }),
{
    merge_rollout_evidence_with_limits(parsed, roles, checked_at_ms, AuditLimits::default())
}

// ---------- laws of the audit ----------

proof fn lemma_verdict_over_rank(v: AuditVerdict, turns: Seq<TurnView>)
    ensures
        crate::audit::verdict_rank(verdict_over(v, turns)) >= crate::audit::verdict_rank(v),
    decreases turns.len(),
{
    if turns.len() > 0 {
        lemma_verdict_over_rank(v, turns.drop_last());
    }
}

/// The outbound evidence never makes an agent's verdict better than the rollout merge left
/// it: a downgrade from truncation, an unknown schema or dropped evidence survives it.
pub proof fn law_outbound_never_improves(r: ResultView, obs: Seq<crate::audit::OutboundView>)
    ensures
        crate::audit::outbound_merged(r, obs).agents.len() == r.agents.len(),
        forall|k: int| 0 <= k < r.agents.len() ==> crate::audit::verdict_rank(
            (#[trigger] crate::audit::outbound_merged(r, obs).agents[k]).verdict,
        ) >= crate::audit::verdict_rank(r.agents[k].verdict),
{
    let m = crate::audit::outbound_merged(r, obs);
    assert forall|k: int| 0 <= k < r.agents.len() implies crate::audit::verdict_rank(
        (#[trigger] m.agents[k]).verdict,
    ) >= crate::audit::verdict_rank(r.agents[k].verdict) by {
        let a = r.agents[k];
        let turns = a.turns.map_values(|t: TurnView| crate::audit::outbound_turn(obs, a.thread_id, a.expected_model, t));
        lemma_verdict_over_rank(worse(a.verdict, a.parent.verdict), turns);
    }
}

/// A truncated parse never yields a matching agent or a complete audit, before or after the
/// outbound evidence.
pub proof fn law_truncation_is_never_complete(
    parsed: ParsedView,
    roles: Seq<RoleView>,
    checked_at_ms: u64,
    limits: AuditLimits,
    obs: Seq<crate::audit::OutboundView>,
)
    requires
        parsed.truncated,
    ensures
        forall|k: int| 0 <= k < merged_rollout(parsed, roles, checked_at_ms, limits).agents.len()
            ==> (#[trigger] merged_rollout(parsed, roles, checked_at_ms, limits).agents[k]).verdict != AuditVerdict::Match,
        crate::audit::outbound_merged(merged_rollout(parsed, roles, checked_at_ms, limits), obs).source_support != AuditSourceSupport::Full,
{
    let r = merged_rollout(parsed, roles, checked_at_ms, limits);
    assert forall|k: int| 0 <= k < r.agents.len() implies crate::audit::verdict_rank((#[trigger] r.agents[k]).verdict) >= 3 by {
    }
    law_outbound_never_improves(r, obs);
    let m = crate::audit::outbound_merged(r, obs);
    if r.agents.len() > 0 {
        assert(crate::audit::verdict_rank(m.agents[0].verdict) >= 3);
        assert(!crate::audit::all_agents_match(m.agents));
    }
}

} // verus!
