//! Role state as the launcher stores it, and the role directory that `AGENTS.md` carries.
//!
//! A role's editable fields live in its TOML document; the stored state adds only the desired
//! lifecycle. Health and file presence are derived when read.
use vstd::prelude::*;
use crate::roles::{
    ManagedRoleRecord, RoleLifecycle, RoleHealth, RoleError, RoleErrorCode, RoleId, RecordSpec,
    CapabilitySnapshot, ManagedRole, ModelSpec, record_spec, records_view, reorder_error,
    reordered, record_for, record_check, capability_error, parse_role, snapshot_models_of, rv,
    code_err, dup_keys, record_ids, role_ids_view, RoleErr, MAX_MANAGED_ROLES,
};

verus! {

/// The stored state of a managed role: its record and desired lifecycle.
#[derive(Debug, Clone, PartialEq, Eq)]
pub struct ManagedRoleState {
    pub record: ManagedRoleRecord,
    pub lifecycle: RoleLifecycle,
}

pub struct StateSpec {
    pub record: RecordSpec,
    pub lifecycle: RoleLifecycle,
}

pub open spec fn state_spec(s: ManagedRoleState) -> StateSpec {
    StateSpec { record: record_spec(s.record), lifecycle: s.lifecycle }
}

pub open spec fn states_view(v: Seq<ManagedRoleState>) -> Seq<StateSpec> {
    v.map_values(|s: ManagedRoleState| state_spec(s))
}

pub open spec fn state_records(v: Seq<StateSpec>) -> Seq<RecordSpec> {
    v.map_values(|s: StateSpec| s.record)
}

/// The lifecycle of the first state with this id.
pub open spec fn lifecycle_for(v: Seq<StateSpec>, id: Seq<char>) -> Option<RoleLifecycle>
    decreases v.len(),
{
    if v.len() == 0 {
        None
    } else if v[0].record.id == id {
        Some(v[0].lifecycle)
    } else {
        lifecycle_for(v.drop_first(), id)
    }
}

/// The states in the requested order: each reordered record with its own lifecycle.
pub open spec fn reordered_states(v: Seq<StateSpec>, req: Seq<Seq<char>>) -> Seq<StateSpec> {
    Seq::new(
        req.len(),
        |i: int|
            StateSpec {
                record: reordered(state_records(v), req)[i],
                lifecycle: lifecycle_for(v, req[i])->0,
            },
    )
}

/// The health of a record: invalid when its document does not parse, an error without a
/// capability snapshot, unsupported when the snapshot refuses its model or effort, then
/// healthy or drifted by whether the file is present.
pub open spec fn role_health(r: RecordSpec, present: bool, caps: Option<Seq<ModelSpec>>) -> RoleHealth {
    match parse_role(r.expected_toml) {
        Err(_) => RoleHealth::Invalid,
        Ok(v) => match caps {
            None => RoleHealth::Error,
            Some(ms) => match capability_error(v.model, v.effort, ms) {
                Some(RoleErrorCode::UnsupportedModel) => RoleHealth::Unsupported,
                Some(RoleErrorCode::UnsupportedReasoningEffort) => RoleHealth::Unsupported,
                Some(RoleErrorCode::UnsupportedMultiAgentVersion) => RoleHealth::Unsupported,
                Some(_) => RoleHealth::Invalid,
                None => if present {
                    RoleHealth::Healthy
                } else {
                    RoleHealth::Drifted
                },
            },
        },
    }
}

pub fn derive_role_health(
    record: &ManagedRoleRecord,
    actual_file_present: bool,
    capabilities: Option<&CapabilitySnapshot>,
) -> (r: RoleHealth)
    ensures
        r == role_health(record_spec(*record), actual_file_present, snapshot_models_of(capabilities)),
{
    let view = match record.view() {
        Ok(view) => view,
        Err(_) => {
            return RoleHealth::Invalid;
        },
    };
    match capabilities {
        Some(snapshot) => {
            if let Err(error) = crate::roles::validate_role_capability(&view, snapshot) {
                return match error.code {
                    RoleErrorCode::UnsupportedModel => RoleHealth::Unsupported,
                    RoleErrorCode::UnsupportedReasoningEffort => RoleHealth::Unsupported,
                    RoleErrorCode::UnsupportedMultiAgentVersion => RoleHealth::Unsupported,
                    _ => RoleHealth::Invalid,
                };
            }
        },
        None => {
            return RoleHealth::Error;
        },
    }
    if actual_file_present {
        RoleHealth::Healthy
    } else {
        RoleHealth::Drifted
    }
}

fn find_state(states: &Vec<ManagedRoleState>, id: &RoleId) -> (r: Option<usize>)
    ensures
        lifecycle_for(states_view(states@), id@) is None ==> r is None,
        lifecycle_for(states_view(states@), id@) matches Some(l) ==> (r matches Some(k) && k
            < states@.len() && states@[k as int].lifecycle == l),
{
    let ghost v = states_view(states@);
    assert(v.subrange(0, v.len() as int) =~= v);
    let mut i: usize = 0;
    while i < states.len()
        invariant
            i <= states@.len(),
            v == states_view(states@),
            lifecycle_for(v, id@) == lifecycle_for(v.subrange(i as int, v.len() as int), id@),
        decreases states@.len() - i,
    {
        let ghost rest = v.subrange(i as int, v.len() as int);
        assert(rest.drop_first() =~= v.subrange(i + 1, v.len() as int));
        if states[i].record.id.same(id) {
            return Some(i);
        }
        i += 1;
    }
    None
}

proof fn lemma_lifecycle_for_some(v: Seq<StateSpec>, id: Seq<char>)
    requires
        record_for(state_records(v), id) is Some,
    ensures
        lifecycle_for(v, id) is Some,
    decreases v.len(),
{
    if v.len() > 0 && v[0].record.id != id {
        assert(state_records(v.drop_first()) =~= state_records(v).drop_first());
        lemma_lifecycle_for_some(v.drop_first(), id);
    }
}

impl ManagedRoleState {
    /// A new state starts disabled.
    pub fn new(record: ManagedRoleRecord) -> (r: Self)
        ensures
            state_spec(r) == (StateSpec { record: record_spec(record), lifecycle: RoleLifecycle::Disabled }),
    {
        ManagedRoleState { record, lifecycle: RoleLifecycle::Disabled }
    }

    /// Reorders the states as requested; a record and its lifecycle move together.
    pub fn reorder(states: &mut Vec<ManagedRoleState>, requested: &[RoleId]) -> (r: Result<
        (),
        RoleError,
    >)
        ensures
            reorder_error(state_records(states_view(old(states)@)), role_ids_view(requested@)) is Some
                ==> (r matches Err(e) && e@ == code_err(
                reorder_error(state_records(states_view(old(states)@)), role_ids_view(requested@))->0,
            ) && states_view(final(states)@) == states_view(old(states)@)),
            reorder_error(state_records(states_view(old(states)@)), role_ids_view(requested@)) is None
                ==> (r is Ok && states_view(final(states)@) == reordered_states(
                states_view(old(states)@),
                role_ids_view(requested@),
            )),
    {
        let ghost v = states_view(states@);
        let ghost req = role_ids_view(requested@);
        let mut records: Vec<ManagedRoleRecord> = Vec::new();
        let mut i: usize = 0;
        while i < states.len()
            invariant
                i <= states@.len(),
                v == states_view(states@),
                records_view(records@) == state_records(v).subrange(0, i as int),
            decreases states@.len() - i,
        {
            let ghost before = records@;
            let rec = states[i].record.duplicate();
            let ghost rv_ = record_spec(rec);
            records.push(rec);
            assert(records_view(records@) =~= records_view(before).push(rv_));
            assert(records_view(records@) =~= state_records(v).subrange(0, i + 1));
            i += 1;
        }
        assert(state_records(v).subrange(0, v.len() as int) =~= state_records(v));
        crate::roles::reorder_role_records(&mut records, requested)?;
        let ghost recs = state_records(v);
        assert(records_view(records@).len() == records@.len());
        assert(reordered(recs, req).len() == req.len());
        let mut out: Vec<ManagedRoleState> = Vec::new();
        let mut n: usize = 0;
        while n < records.len()
            invariant
                n <= records@.len() == req.len(),
                v == states_view(states@),
                recs == state_records(v),
                reorder_error(recs, req) is None,
                records_view(records@) == reordered(recs, req),
                states_view(out@) == reordered_states(v, req).subrange(0, n as int),
            decreases records@.len() - n,
        {
            proof {
                crate::roles::law_reorder_follows_request(recs, req);
                assert(record_for(recs, req[n as int]) is Some) by {
                    if record_for(recs, req[n as int]) is None {
                        assert(exists|i: int| 0 <= i < req.len() && record_for(recs, #[trigger] req[i]) is None);
                    }
                }
                lemma_lifecycle_for_some(v, req[n as int]);
                assert(record_ids(reordered(recs, req))[n as int] == req[n as int]);
            }
            let k = match find_state(states, &records[n].id) {
                Some(k) => k,
                None => {
                    return Err(RoleError::new(RoleErrorCode::InvalidRoleOrder));
                },
            };
            let st = ManagedRoleState { record: records[n].duplicate(), lifecycle: states[k].lifecycle };
            let ghost before = out@;
            let ghost sv = state_spec(st);
            out.push(st);
            assert(states_view(out@) =~= states_view(before).push(sv));
            assert(states_view(out@) =~= reordered_states(v, req).subrange(0, n + 1));
            n += 1;
        }
        assert(reordered_states(v, req).subrange(0, req.len() as int) =~= reordered_states(v, req));
        *states = out;
        Ok(())
    }

    pub fn id(&self) -> (r: &RoleId)
        ensures
            r@ == self.record.id@,
    {
        &self.record.id
    }

    pub fn validate(&self) -> (r: Result<(), RoleError>)
        ensures
            rv(r) == record_check(record_spec(self.record), None),
    {
        self.record.validate(None)
    }

    /// The managed role, with health derived from the file presence and the snapshot.
    pub fn into_managed(self, actual_file_present: bool, capabilities: Option<&CapabilitySnapshot>) -> (r:
        Result<ManagedRole, RoleError>)
        ensures
            parse_role(self.record.expected_toml@) matches Err(e) ==> (r matches Err(x) && x@ == e),
            parse_role(self.record.expected_toml@) is Ok ==> (r matches Ok(m) && record_spec(m.record)
                == record_spec(self.record) && m.view@ == parse_role(self.record.expected_toml@)->Ok_0
                && m.lifecycle == self.lifecycle && m.health == role_health(
                record_spec(self.record),
                actual_file_present,
                snapshot_models_of(capabilities),
            ) && m.actual_file_present == actual_file_present),
    {
        let health = derive_role_health(&self.record, actual_file_present, capabilities);
        ManagedRole::from_record(self.record, self.lifecycle, health, actual_file_present)
    }
}

/// A reorder moves each lifecycle with its own role: after an accepted reorder every state
/// holds the lifecycle that the state with its id held before.
pub proof fn law_reorder_keeps_lifecycles(v: Seq<StateSpec>, req: Seq<Seq<char>>)
    requires
        reorder_error(state_records(v), req) is None,
    ensures
        forall|i: int|
            0 <= i < req.len() ==> #[trigger] reordered_states(v, req)[i].record.id == req[i]
                && reordered_states(v, req)[i].lifecycle == lifecycle_for(v, req[i])->0,
{
    crate::roles::law_reorder_follows_request(state_records(v), req);
    assert forall|i: int| 0 <= i < req.len() implies #[trigger] reordered_states(v, req)[i].record.id
        == req[i] by {
        assert(record_ids(reordered(state_records(v), req))[i] == req[i]);
    }
}

/// The first record that does not check out, in order.
pub open spec fn first_record_error(recs: Seq<RecordSpec>) -> Result<(), RoleErr>
    decreases recs.len(),
{
    if recs.len() == 0 {
        Ok(())
    } else {
        match first_record_error(recs.drop_last()) {
            Err(e) => Err(e),
            Ok(()) => record_check(recs.last(), None),
        }
    }
}

/// Why stored states are refused: too many, a duplicate id, or the first invalid record.
pub open spec fn states_check(v: Seq<StateSpec>) -> Result<(), RoleErr> {
    if v.len() > MAX_MANAGED_ROLES {
        Err(code_err(RoleErrorCode::TooManyManagedRoles))
    } else if dup_keys(record_ids(state_records(v))) {
        Err(code_err(RoleErrorCode::DuplicateRoleId))
    } else {
        first_record_error(state_records(v))
    }
}

proof fn lemma_first_record_error_prefix(recs: Seq<RecordSpec>, k: int)
    requires
        0 <= k <= recs.len(),
        first_record_error(recs.subrange(0, k)) is Err,
    ensures
        first_record_error(recs) == first_record_error(recs.subrange(0, k)),
    decreases recs.len() - k,
{
    if k < recs.len() {
        assert(recs.subrange(0, k + 1).drop_last() =~= recs.subrange(0, k));
        lemma_first_record_error_prefix(recs, k + 1);
    } else {
        assert(recs.subrange(0, k) =~= recs);
    }
}

pub fn validate_role_states(states: &[ManagedRoleState]) -> (r: Result<(), RoleError>)
    ensures
        rv(r) == states_check(states_view(states@)),
{
    let ghost v = states_view(states@);
    let ghost recs = state_records(v);
    crate::roles::validate_managed_role_count(states.len())?;
    let mut ids: Vec<RoleId> = Vec::new();
    let mut i: usize = 0;
    while i < states.len()
        invariant
            i <= states@.len(),
            v == states_view(states@),
            recs == state_records(v),
            role_ids_view(ids@) == record_ids(recs).subrange(0, i as int),
        decreases states@.len() - i,
    {
        let ghost before = ids@;
        let id = states[i].record.id.duplicate();
        let ghost idv = id@;
        ids.push(id);
        assert(record_ids(recs)[i as int] == states@[i as int].record.id@);
        assert(role_ids_view(ids@) =~= role_ids_view(before).push(idv));
        assert(role_ids_view(ids@) =~= record_ids(recs).subrange(0, i + 1));
        i += 1;
    }
    assert(record_ids(recs).subrange(0, recs.len() as int) =~= record_ids(recs));
    proof {
        crate::roles::lemma_dup_keys_view(ids@);
    }
    crate::roles::validate_unique_role_ids(ids.as_slice())?;
    let mut j: usize = 0;
    while j < states.len()
        invariant
            j <= states@.len() <= MAX_MANAGED_ROLES,
            v == states_view(states@),
            recs == state_records(v),
            !dup_keys(record_ids(recs)),
            first_record_error(recs.subrange(0, j as int)) is Ok,
        decreases states@.len() - j,
    {
        assert(recs.subrange(0, j + 1).drop_last() =~= recs.subrange(0, j as int));
        assert(recs[j as int] == record_spec(states@[j as int].record));
        if let Err(e) = states[j].validate() {
            proof {
                lemma_first_record_error_prefix(recs, j + 1);
            }
            return Err(e);
        }
        j += 1;
    }
    assert(recs.subrange(0, recs.len() as int) =~= recs);
    Ok(())
}


// ---------- role directory ----------

pub const ROLE_DIRECTORY_BEGIN: &'static str = "<!-- dashi:begin subagent-role-directory -->";
pub const ROLE_DIRECTORY_END: &'static str = "<!-- dashi:end subagent-role-directory -->";
pub const ROLE_DIRECTORY_FILE: &'static str = "AGENTS.md";
pub const ROLE_DIRECTORY_MEMBER_ID: &'static str = "subagent-role-directory";
pub const ROLE_DIRECTORY_INTRO: &'static str = "Use the exact agent_type below and always set fork_turns=\"none\"; omit spawn model and reasoning overrides. Role files provide model and effort.";

/// The stable code of a role error, as a command reports it.
pub fn role_error_code(error: RoleError) -> (r: String)
    ensures
        r@ == crate::roles::role_error_text(error.code),
{
    owned_str(error.as_str())
}

fn owned_str(s: &str) -> (r: String)
    ensures
        r@ == s@,
{
    crate::text::owned(s)
}

/// Markdown characters that the directory escapes with a backslash.
pub open spec fn md_special(c: char) -> bool {
    c == '\\' || c == '*' || c == '_' || c == '[' || c == ']' || c == '<' || c == '>' || c == '|'
}

/// Tabs and line breaks become spaces, and Markdown characters are escaped.
pub open spec fn md_escape(s: Seq<char>) -> Seq<char>
    decreases s.len(),
{
    if s.len() == 0 {
        Seq::empty()
    } else {
        let c = s.last();
        md_escape(s.drop_last()) + if c == '\n' || c == '\r' || c == '\t' {
            seq![' ']
        } else if md_special(c) {
            seq!['\\', c]
        } else {
            seq![c]
        }
    }
}

/// A value as one line of Markdown: escaped, with its words one space apart.
pub open spec fn markdown_line(s: Seq<char>) -> Seq<char> {
    crate::text::squash_ws(md_escape(s))
}

pub fn markdown_single_line(value: &str) -> (r: String)
    ensures
        r@ == markdown_line(value@),
{
    let v = crate::text::chars_of(value);
    let mut e: Vec<char> = Vec::new();
    let mut i: usize = 0;
    while i < v.len()
        invariant
            i <= v@.len(),
            e@ == md_escape(v@.subrange(0, i as int)),
        decreases v@.len() - i,
    {
        assert(v@.subrange(0, i + 1).drop_last() =~= v@.subrange(0, i as int));
        let c = v[i];
        let ghost before = e@;
        if c == '\n' || c == '\r' || c == '\t' {
            e.push(' ');
            assert(e@ =~= before + seq![' ']);
        } else if c == '\\' || c == '*' || c == '_' || c == '[' || c == ']' || c == '<' || c == '>'
            || c == '|' {
            e.push('\\');
            e.push(c);
            assert(e@ =~= before + seq!['\\', c]);
        } else {
            e.push(c);
            assert(e@ =~= before + seq![c]);
        }
        i += 1;
    }
    assert(v@.subrange(0, v@.len() as int) =~= v@);
    let squashed = crate::text::squash_ws_chars(&e);
    crate::text::string_of(&squashed)
}

/// The records of the states whose ids are present, in state order.
pub open spec fn present_records(v: Seq<StateSpec>, present: Seq<Seq<char>>) -> Seq<RecordSpec>
    decreases v.len(),
{
    if v.len() == 0 {
        Seq::empty()
    } else if present.contains(v.last().record.id) {
        present_records(v.drop_last(), present).push(v.last().record)
    } else {
        present_records(v.drop_last(), present)
    }
}

/// One directory line for a record and its parsed view.
pub open spec fn directory_entry(r: RecordSpec, view: crate::roles::RoleViewSpec) -> Seq<char> {
    "- agent_type="@ + r.id + " - "@ + markdown_line(view.display_name) + ": "@ + markdown_line(
        view.purpose,
    ) + "; choose when "@ + markdown_line(r.selection_criteria) + "."@
}

pub open spec fn directory_entries(recs: Seq<RecordSpec>) -> Seq<Seq<char>> {
    recs.map_values(|r: RecordSpec| directory_entry(r, parse_role(r.expected_toml)->Ok_0))
}

/// The directory's lines: the opening marker, the usage line, one line per present role in
/// record order, and the closing marker.
pub open spec fn directory_lines(v: Seq<StateSpec>, present: Seq<Seq<char>>) -> Seq<Seq<char>> {
    seq![ROLE_DIRECTORY_BEGIN@, ROLE_DIRECTORY_INTRO@] + directory_entries(
        crate::order::stable_sort(present_records(v, present), crate::roles::record_order()),
    ) + seq![ROLE_DIRECTORY_END@]
}

/// The rendered directory block, or the stable code of the refused states.
pub open spec fn directory_block(v: Seq<StateSpec>, present: Seq<Seq<char>>) -> Result<
    Seq<char>,
    Seq<char>,
> {
    match states_check(v) {
        Err(e) => Err(crate::roles::role_error_text(e.0)),
        Ok(()) => Ok(crate::text::join_with(directory_lines(v, present), "\n"@)),
    }
}

pub open spec fn strings_of(v: Seq<String>) -> Seq<Seq<char>> {
    v.map_values(|s: String| s@)
}

pub open spec fn result_view(r: Result<String, String>) -> Result<Seq<char>, Seq<char>> {
    match r {
        Ok(s) => Ok(s@),
        Err(e) => Err(e@),
    }
}

proof fn lemma_first_record_error_all(recs: Seq<RecordSpec>)
    requires
        first_record_error(recs) is Ok,
    ensures
        forall|i: int| 0 <= i < recs.len() ==> #[trigger] parse_role(recs[i].expected_toml) is Ok,
    decreases recs.len(),
{
    if recs.len() > 0 {
        lemma_first_record_error_all(recs.drop_last());
        assert forall|i: int| 0 <= i < recs.len() implies #[trigger] parse_role(
            recs[i].expected_toml,
        ) is Ok by {
            if i < recs.len() - 1 {
                assert(recs.drop_last()[i] == recs[i]);
            }
        }
    }
}

proof fn lemma_present_records_subset(v: Seq<StateSpec>, present: Seq<Seq<char>>)
    ensures
        forall|r: RecordSpec| #[trigger] present_records(v, present).contains(r) ==> state_records(
            v,
        ).contains(r),
    decreases v.len(),
{
    if v.len() > 0 {
        lemma_present_records_subset(v.drop_last(), present);
        assert forall|r: RecordSpec| #[trigger] present_records(v, present).contains(r) implies state_records(
            v,
        ).contains(r) by {
            let p = present_records(v.drop_last(), present);
            if p.contains(r) {
                let k = choose|k: int| 0 <= k < state_records(v.drop_last()).len() && state_records(
                    v.drop_last(),
                )[k] == r;
                assert(state_records(v)[k] == r);
            } else {
                assert(r == v.last().record);
                assert(state_records(v)[v.len() - 1] == r);
            }
        }
    }
}

fn present_listed(present_ids: &[String], id: &RoleId) -> (r: bool)
    ensures
        r == strings_of(present_ids@).contains(id@),
{
    let mut i: usize = 0;
    while i < present_ids.len()
        invariant
            i <= present_ids@.len(),
            forall|k: int| 0 <= k < i ==> #[trigger] strings_of(present_ids@)[k] != id@,
        decreases present_ids@.len() - i,
    {
        if crate::text::str_eq(present_ids[i].as_str(), id.as_str()) {
            assert(strings_of(present_ids@)[i as int] == id@);
            return true;
        }
        i += 1;
    }
    false
}

fn push_str_line(r: &mut Vec<char>, s: &str)
    ensures
        final(r)@ == old(r)@ + s@,
{
    crate::text::push_str(r, s);
}

/// The directory lines, after the states were checked.
fn directory_lines_of(states: &[ManagedRoleState], present_ids: &[String]) -> (r: Vec<Vec<char>>)
    requires
        states_check(states_view(states@)) is Ok,
    ensures
        crate::text::chars_view(r@) == directory_lines(states_view(states@), strings_of(present_ids@)),
{
    let ghost v = states_view(states@);
    let ghost present = strings_of(present_ids@);
    let mut records: Vec<ManagedRoleRecord> = Vec::new();
    let mut i: usize = 0;
    while i < states.len()
        invariant
            i <= states@.len(),
            v == states_view(states@),
            present == strings_of(present_ids@),
            records_view(records@) == present_records(v.subrange(0, i as int), present),
        decreases states@.len() - i,
    {
        assert(v.subrange(0, i + 1).drop_last() =~= v.subrange(0, i as int));
        assert(v[i as int].record.id == states@[i as int].record.id@);
        if present_listed(present_ids, &states[i].record.id) {
            let ghost before = records@;
            let rec = states[i].record.duplicate();
            let ghost rv_ = record_spec(rec);
            records.push(rec);
            assert(records_view(records@) =~= records_view(before).push(rv_));
        }
        i += 1;
    }
    assert(v.subrange(0, v.len() as int) =~= v);
    crate::roles::sort_managed_role_records(records.as_mut_slice());
    let ghost sorted = records_view(records@);
    proof {
        lemma_first_record_error_all(state_records(v));
        lemma_present_records_subset(v, present);
        crate::order::lemma_stable_sort_multiset(present_records(v, present), crate::roles::record_order());
    }
    let mut lines: Vec<Vec<char>> = Vec::new();
    lines.push(crate::text::chars_of(ROLE_DIRECTORY_BEGIN));
    lines.push(crate::text::chars_of(ROLE_DIRECTORY_INTRO));
    let mut j: usize = 0;
    while j < records.len()
        invariant
            j <= records@.len(),
            sorted == records_view(records@),
            sorted == crate::order::stable_sort(present_records(v, present), crate::roles::record_order()),
            sorted.to_multiset() == present_records(v, present).to_multiset(),
            forall|r: RecordSpec| #[trigger] present_records(v, present).contains(r) ==> state_records(
                v,
            ).contains(r),
            forall|k: int| 0 <= k < state_records(v).len() ==> #[trigger] parse_role(
                state_records(v)[k].expected_toml,
            ) is Ok,
            crate::text::chars_view(lines@) == seq![ROLE_DIRECTORY_BEGIN@, ROLE_DIRECTORY_INTRO@]
                + directory_entries(sorted.subrange(0, j as int)),
        decreases records@.len() - j,
    {
        proof {
            broadcast use vstd::seq_lib::group_to_multiset_ensures;
            let x = sorted[j as int];
            assert(sorted.contains(x));
            assert(sorted.to_multiset().count(x) > 0);
            assert(present_records(v, present).to_multiset().count(x) > 0);
            assert(present_records(v, present).contains(x));
            let k = choose|k: int| 0 <= k < state_records(v).len() && state_records(v)[k] == sorted[j as int];
            assert(parse_role(state_records(v)[k].expected_toml) is Ok);
        }
        let record = &records[j];
        let view = match record.view() {
            Ok(view) => view,
            Err(_) => {
                assert(false);
                return lines;
            },
        };
        let mut line: Vec<char> = Vec::new();
        push_str_line(&mut line, "- agent_type=");
        push_str_line(&mut line, record.id.as_str());
        push_str_line(&mut line, " - ");
        push_str_line(&mut line, markdown_single_line(view.display_name.as_str()).as_str());
        push_str_line(&mut line, ": ");
        push_str_line(&mut line, markdown_single_line(view.purpose.as_str()).as_str());
        push_str_line(&mut line, "; choose when ");
        push_str_line(&mut line, markdown_single_line(record.selection_criteria.as_str()).as_str());
        push_str_line(&mut line, ".");
        let ghost before = lines@;
        let ghost lv = line@;
        assert(lv == directory_entry(sorted[j as int], parse_role(sorted[j as int].expected_toml)->Ok_0));
        lines.push(line);
        assert(directory_entries(sorted.subrange(0, j + 1)) =~= directory_entries(
            sorted.subrange(0, j as int),
        ).push(lv));
        assert(crate::text::chars_view(lines@) =~= crate::text::chars_view(before).push(lv));
        j += 1;
    }
    assert(sorted.subrange(0, sorted.len() as int) =~= sorted);
    let ghost before = lines@;
    lines.push(crate::text::chars_of(ROLE_DIRECTORY_END));
    assert(crate::text::chars_view(lines@) =~= crate::text::chars_view(before).push(ROLE_DIRECTORY_END@));
    lines
}

/// Renders the role directory block for the states whose role files are present.
pub fn render_role_directory(states: &[ManagedRoleState], present_ids: &[String]) -> (r: Result<
    String,
    String,
>)
    ensures
        result_view(r) == directory_block(states_view(states@), strings_of(present_ids@)),
{
    if let Err(error) = validate_role_states(states) {
        return Err(role_error_code(error));
    }
    let lines = directory_lines_of(states, present_ids);
    let newline = crate::text::chars_of("\n");
    proof {
        reveal_strlit("\n");
    }
    let joined = crate::text::join_chars(&lines, &newline);
    Ok(crate::text::string_of(&joined))
}

/// The body of the directory block without its markers, for planners that merge it with
/// other blocks of the same file.
pub open spec fn directory_content(v: Seq<StateSpec>, present: Seq<Seq<char>>) -> Result<
    Seq<char>,
    Seq<char>,
> {
    match states_check(v) {
        Err(e) => Err(crate::roles::role_error_text(e.0)),
        Ok(()) => Ok(
            crate::text::join_with(
                directory_lines(v, present).subrange(1, directory_lines(v, present).len() - 1),
                "\n"@,
            ),
        ),
    }
}

pub fn render_role_directory_content(states: &[ManagedRoleState], present_ids: &[String]) -> (r:
    Result<String, String>)
    ensures
        result_view(r) == directory_content(states_view(states@), strings_of(present_ids@)),
{
    if let Err(error) = validate_role_states(states) {
        return Err(role_error_code(error));
    }
    let lines = directory_lines_of(states, present_ids);
    let ghost all = crate::text::chars_view(lines@);
    let mut body: Vec<Vec<char>> = Vec::new();
    let mut i: usize = 1;
    assert(all.len() == lines@.len());
    while i < lines.len() - 1
        invariant
            1 <= i,
            i < lines@.len(),
            lines@.len() >= 3,
            all == crate::text::chars_view(lines@),
            all.len() >= 3,
            crate::text::chars_view(body@) == all.subrange(1, i as int),
        decreases lines@.len() - i,
    {
        let ghost before = body@;
        let line = crate::text::sub_chars(lines[i].as_slice(), 0, lines[i].len());
        let ghost lv = line@;
        assert(lv =~= all[i as int]);
        body.push(line);
        assert(crate::text::chars_view(body@) =~= crate::text::chars_view(before).push(lv));
        assert(crate::text::chars_view(body@) =~= all.subrange(1, i + 1));
        i += 1;
    }
    let newline = crate::text::chars_of("\n");
    let joined = crate::text::join_chars(&body, &newline);
    Ok(crate::text::string_of(&joined))
}

/// The directory block written into a document: appended when the document has no markers,
/// in place of the marked block when it has one pair in order, refused otherwise.
pub open spec fn replace_directory(doc: Seq<char>, block: Seq<char>) -> Result<Seq<char>, Seq<char>> {
    let bc = crate::text::occurrences(doc, ROLE_DIRECTORY_BEGIN@);
    let ec = crate::text::occurrences(doc, ROLE_DIRECTORY_END@);
    if bc > 1 || ec > 1 || bc != ec {
        Err("role_directory_markers_invalid"@)
    } else if bc == 0 {
        let sep = if doc.len() == 0 || doc.last() == '\n' {
            Seq::empty()
        } else {
            "\n"@
        };
        Ok(doc + sep + "\n"@ + block + "\n"@)
    } else {
        let b = crate::text::first_index(doc, ROLE_DIRECTORY_BEGIN@)->0;
        let e = crate::text::first_index(doc, ROLE_DIRECTORY_END@)->0;
        if e < b {
            Err("role_directory_markers_invalid"@)
        } else {
            Ok(doc.subrange(0, b) + block + doc.subrange(e + ROLE_DIRECTORY_END@.len(), doc.len() as int))
        }
    }
}

fn append_directory(doc: &Vec<char>, block: &str) -> (r: Vec<char>)
    ensures
        r@ == doc@ + (if doc@.len() == 0 || doc@.last() == '\n' {
            Seq::empty()
        } else {
            "\n"@
        }) + "\n"@ + block@ + "\n"@,
{
    proof {
        reveal_strlit("\n");
    }
    let mut out: Vec<char> = Vec::new();
    crate::text::push_all(&mut out, doc);
    if !(doc.len() == 0 || doc[doc.len() - 1] == '\n') {
        out.push('\n');
    }
    out.push('\n');
    crate::text::push_str(&mut out, block);
    out.push('\n');
    out
}

/// Writes a rendered directory block into a document (see `replace_directory`).
pub fn replace_directory_in(document: &str, block: &str) -> (r: Result<String, String>)
    ensures
        result_view(r) == replace_directory(document@, block@),
{
    let doc = crate::text::chars_of(document);
    let begin_marker = crate::text::chars_of(ROLE_DIRECTORY_BEGIN);
    let end_marker = crate::text::chars_of(ROLE_DIRECTORY_END);
    proof {
        lemma_marker_lengths();
        crate::text::lemma_occurrences_first(doc@, begin_marker@);
        crate::text::lemma_occurrences_first(doc@, end_marker@);
    }
    let begin_count = crate::text::occurrences_of(&doc, &begin_marker);
    let end_count = crate::text::occurrences_of(&doc, &end_marker);
    if begin_count > 1 || end_count > 1 || begin_count != end_count {
        return Err(owned_str("role_directory_markers_invalid"));
    }
    if begin_count == 0 {
        let out = append_directory(&doc, block);
        return Ok(crate::text::string_of(&out));
    }
    let b = match crate::text::first_index_of(&doc, &begin_marker) {
        Some(b) => b,
        None => {
            return Err(owned_str("role_directory_markers_invalid"));
        },
    };
    let e = match crate::text::first_index_of(&doc, &end_marker) {
        Some(e) => e,
        None => {
            return Err(owned_str("role_directory_markers_invalid"));
        },
    };
    if e < b {
        return Err(owned_str("role_directory_markers_invalid"));
    }
    assert(e + end_marker.len() <= doc.len());
    let stop = e + end_marker.len();
    let out = splice(&doc, b, stop, block);
    Ok(crate::text::string_of(&out))
}

proof fn lemma_marker_lengths()
    ensures
        ROLE_DIRECTORY_BEGIN@.len() > 0,
        ROLE_DIRECTORY_END@.len() > 0,
{
    reveal_strlit("<!-- dashi:begin subagent-role-directory -->");
    reveal_strlit("<!-- dashi:end subagent-role-directory -->");
}

fn splice(doc: &Vec<char>, from: usize, to: usize, block: &str) -> (r: Vec<char>)
    requires
        from <= to <= doc@.len(),
    ensures
        r@ == doc@.subrange(0, from as int) + block@ + doc@.subrange(to as int, doc@.len() as int),
{
    let head = crate::text::sub_chars(doc, 0, from);
    let tail = crate::text::sub_chars(doc, to, doc.len());
    let mut out: Vec<char> = Vec::new();
    crate::text::push_all(&mut out, &head);
    crate::text::push_str(&mut out, block);
    crate::text::push_all(&mut out, &tail);
    out
}

/// Renders the directory for the states and writes it into the document.
pub fn replace_role_directory_block(document: &str, states: &[ManagedRoleState], present_ids: &[String]) -> (r:
    Result<String, String>)
    ensures
        directory_block(states_view(states@), strings_of(present_ids@)) matches Err(e) ==> result_view(r)
            == Err::<Seq<char>, Seq<char>>(e),
        directory_block(states_view(states@), strings_of(present_ids@)) matches Ok(block) ==> result_view(r)
            == replace_directory(document@, block),
{
    let block = render_role_directory(states, present_ids)?;
    replace_directory_in(document, block.as_str())
}

/// Plans the default-role migration, reporting a refusal by its stable code.
pub fn plan_default_migration(
    stored_expected: Option<&str>,
    live_toml: Option<&str>,
    previous_lifecycle: RoleLifecycle,
    safe_default_toml: &str,
) -> (r: Result<crate::roles::RoleMigrationPlan, String>)
    ensures
        r matches Ok(p) && p@ == crate::roles::migration_plan(
            crate::model::opt_str_view(stored_expected),
            crate::model::opt_str_view(live_toml),
            previous_lifecycle,
            safe_default_toml@,
        ),
{
    match crate::roles::plan_default_role_migration(
        stored_expected,
        live_toml,
        previous_lifecycle,
        safe_default_toml,
    ) {
        Ok(plan) => Ok(plan),
        Err(error) => Err(role_error_code(error)),
    }
}

/// Resolves the default-role migration, reporting a refusal by its stable code.
pub fn resolve_default_migration(
    choice: crate::roles::RoleMigrationChoice,
    stored_expected: Option<&str>,
    live_toml: Option<&str>,
    safe_default_toml: &str,
    previous_lifecycle: RoleLifecycle,
    now_ms: u64,
) -> (r: Result<crate::roles::RoleMigrationResult, String>)
    ensures
        ({
            let spec_r = crate::roles::migration_resolution(
                choice,
                crate::model::opt_str_view(stored_expected),
                crate::model::opt_str_view(live_toml),
                safe_default_toml@,
                previous_lifecycle,
                now_ms,
            );
            &&& spec_r matches Ok(v) ==> (r matches Ok(x) && x@ == v)
            &&& spec_r matches Err(e) ==> (r matches Err(x) && x@ == crate::roles::role_error_text(e.0))
        }),
{
    match crate::roles::resolve_default_role_migration(
        choice,
        stored_expected,
        live_toml,
        safe_default_toml,
        previous_lifecycle,
        now_ms,
    ) {
        Ok(result) => Ok(result),
        Err(error) => Err(role_error_code(error)),
    }
}

} // verus!
