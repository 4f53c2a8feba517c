//! The bounded rollout parser: JSONL bytes in, allow-listed observations and stable notice
//! codes out. No message, prompt, path or parser text is ever kept.
use vstd::prelude::*;
use crate::audit::{
    identifier_ok, join_key_ok, noted, notice_codes, observations_view, push_notice, valid_identifier,
    valid_join_key, AuditLimits, AuditNotice, ObservationView, ParsedRollout, RolloutObservation, SessionObservation,
    SessionView, SpawnObservation, SpawnView, TimeState, TurnObsView, TurnObservation, AUDIT_SCHEMA_VERSION,
};
use crate::audit_time::{digits, rfc3339_ms, scaled};
use crate::json::{field, get_field, get_text, json_document, parse_json, text_field, JsonValue};
use crate::model::opt_view;
use crate::text::{chars_of, str_eq};

verus! {

/// The instant of an event: absent, valid, or present but unusable.
#[derive(Debug, Clone, Copy, PartialEq, Eq, Structural)]
pub enum EventTime {
    Missing,
    Valid(u64),
    Invalid,
}

pub open spec fn time_value(t: EventTime) -> Option<u64> {
    match t {
        EventTime::Valid(v) => Some(v),
        _ => None,
    }
}

pub open spec fn time_state(t: EventTime) -> TimeState {
    match t {
        EventTime::Missing => TimeState::Missing,
        EventTime::Valid(v) => TimeState::Valid(v),
        EventTime::Invalid => TimeState::Invalid,
    }
}

pub open spec fn all_digits(b: Seq<u8>) -> bool {
    forall|k: int| 0 <= k < b.len() ==> crate::audit_time::is_digit(#[trigger] b[k])
}

/// The instant of a timestamp text: a run of digits is an epoch number, anything else an
/// RFC 3339 text.
pub open spec fn timestamp_text(s: Seq<char>) -> Option<u64> {
    let b = vstd::utf8::encode_utf8(s);
    if all_digits(b) {
        match digits(b) {
            Some(v) => scaled(v),
            None => None,
        }
    } else {
        rfc3339_ms(b)
    }
}

/// The instant that a JSON value gives: a non-negative integer or a timestamp text.
pub open spec fn event_time_of(v: JsonValue) -> EventTime {
    match v {
        JsonValue::Number(Some(n)) => match scaled(n) {
            Some(t) => EventTime::Valid(t),
            None => EventTime::Invalid,
        },
        JsonValue::Str(s) => match timestamp_text(s@) {
            Some(t) => EventTime::Valid(t),
            None => EventTime::Invalid,
        },
        _ => EventTime::Invalid,
    }
}

pub open spec fn first_of(a: Option<JsonValue>, b: Option<JsonValue>) -> Option<JsonValue> {
    if a is Some { a } else { b }
}

/// The instant of a record: the first time key found, each looked up in `first` before
/// `second`.
pub open spec fn event_time_in(first: JsonValue, second: JsonValue) -> EventTime {
    let t0 = first_of(field(first, "timestamp_ms"@), field(second, "timestamp_ms"@));
    let t1 = first_of(field(first, "created_at_ms"@), field(second, "created_at_ms"@));
    let t2 = first_of(field(first, "event_time_ms"@), field(second, "event_time_ms"@));
    let t3 = first_of(field(first, "timestamp"@), field(second, "timestamp"@));
    if t0 is Some {
        event_time_of(t0->0)
    } else if t1 is Some {
        event_time_of(t1->0)
    } else if t2 is Some {
        event_time_of(t2->0)
    } else if t3 is Some {
        event_time_of(t3->0)
    } else {
        EventTime::Missing
    }
}

pub open spec fn is_object(v: JsonValue) -> bool {
    v is Object
}

/// The member with this key when it is an object.
pub open spec fn object_field(v: JsonValue, key: Seq<char>) -> Option<JsonValue> {
    match field(v, key) {
        Some(x) => if is_object(x) { Some(x) } else { None },
        None => None,
    }
}

/// The text at a path of object members.
pub open spec fn nested_text(v: JsonValue, path: Seq<Seq<char>>, key: Seq<char>) -> Option<Seq<char>>
    decreases path.len(),
{
    if path.len() == 0 {
        text_field(v, key)
    } else {
        match object_field(v, path[0]) {
            Some(o) => nested_text(o, path.drop_first(), key),
            None => None,
        }
    }
}

pub open spec fn or_text(a: Option<Seq<char>>, b: Option<Seq<char>>) -> Option<Seq<char>> {
    if a is Some { a } else { b }
}

pub open spec fn ident_only(a: Option<Seq<char>>, max: int) -> Option<Seq<char>> {
    match a {
        Some(v) => if identifier_ok(v, max) { Some(v) } else { None },
        None => None,
    }
}

pub open spec fn is_path_sep(c: char) -> bool {
    c == '/' || c == '\\'
}

/// The characters after the last separator.
pub open spec fn trailing_run(s: Seq<char>) -> Seq<char>
    decreases s.len(),
{
    if s.len() == 0 || is_path_sep(s.last()) {
        Seq::empty()
    } else {
        trailing_run(s.drop_last()).push(s.last())
    }
}

/// The last non-empty component of a path split at `/` and `\`.
pub open spec fn last_component(s: Seq<char>) -> Option<Seq<char>>
    decreases s.len(),
{
    if s.len() == 0 {
        None
    } else if is_path_sep(s.last()) {
        last_component(s.drop_last())
    } else {
        Some(trailing_run(s))
    }
}

/// The join key of an agent path: its last component, when that is a valid join key.
pub open spec fn join_key_of(path: Option<Seq<char>>, max: int) -> Option<Seq<char>> {
    match path {
        Some(p) => match last_component(p) {
            Some(c) => if join_key_ok(c, max) { Some(c) } else { None },
            None => None,
        },
        None => None,
    }
}

/// What an optional field of a spawn or turn holds: absent (or null), a valid value, or
/// present but invalid.
pub struct TextFieldView {
    pub present: bool,
    pub value: Option<Seq<char>>,
    pub valid: bool,
}

pub open spec fn text_of(v: Option<JsonValue>, ok: spec_fn(Seq<char>) -> bool) -> TextFieldView {
    match v {
        None => TextFieldView { present: false, value: None, valid: true },
        Some(JsonValue::Null) => TextFieldView { present: false, value: None, valid: true },
        Some(JsonValue::Str(s)) => TextFieldView { present: true, value: if ok(s@) { Some(s@) } else { None }, valid: ok(s@) },
        Some(_) => TextFieldView { present: true, value: None, valid: false },
    }
}

/// The parser's state between lines.
pub struct ParseState {
    pub observations: Seq<ObservationView>,
    pub notices: Seq<Seq<char>>,
    pub truncated: bool,
    pub current: Option<Seq<char>>,
}

pub open spec fn note(st: ParseState, code: Seq<char>) -> ParseState {
    ParseState { notices: noted(st.notices, code), ..st }
}

pub open spec fn note_time(st: ParseState, t: EventTime) -> ParseState {
    if t is Invalid { note(st, "audit_bad_timestamp"@) } else { st }
}

pub open spec fn observe(st: ParseState, o: ObservationView) -> ParseState {
    ParseState { observations: st.observations.push(o), ..st }
}

pub open spec fn session_source() -> Seq<Seq<char>> {
    seq!["source"@, "subagent"@]
}

pub open spec fn spawn_source() -> Seq<Seq<char>> {
    seq!["source"@, "subagent"@, "thread_spawn"@]
}

/// Reads a `session_meta` record.
pub open spec fn parse_session(st: ParseState, obj: JsonValue, max: int) -> ParseState {
    match object_field(obj, "payload"@) {
        None => note(st, "audit_incomplete"@),
        Some(p) => {
            let id = or_text(text_field(p, "id"@), text_field(obj, "thread_id"@));
            if !(id is Some && identifier_ok(id->0, max)) {
                note(st, "audit_bad_identifier"@)
            } else {
                let parent = ident_only(or_text(text_field(p, "parent_thread_id"@), or_text(
                    nested_text(p, session_source(), "parent_thread_id"@),
                    nested_text(p, spawn_source(), "parent_thread_id"@),
                )), max);
                let role = ident_only(or_text(text_field(p, "agent_role"@), or_text(
                    nested_text(p, session_source(), "agent_role"@),
                    or_text(nested_text(p, spawn_source(), "agent_role"@), or_text(
                        nested_text(p, session_source(), "role"@),
                        nested_text(p, spawn_source(), "role"@),
                    )),
                )), max);
                let path = or_text(text_field(p, "agent_path"@), or_text(
                    nested_text(p, session_source(), "agent_path"@),
                    nested_text(p, spawn_source(), "agent_path"@),
                ));
                let t = event_time_in(p, obj);
                let st1 = note_time(ParseState { current: id, ..st }, t);
                observe(st1, ObservationView::Session(SessionView {
                    thread_id: id->0,
                    parent_thread_id: parent,
                    agent_role: role,
                    started_at_ms: time_value(t),
                    join_key: join_key_of(path, max),
                    time_state: time_state(t),
                    activity_start: false,
                }))
            }
        },
    }
}

/// Reads an `event_msg` record: only a started sub-agent activity counts, as the launch of a
/// child of the current thread.
pub open spec fn parse_event_msg(st: ParseState, obj: JsonValue, max: int) -> ParseState {
    match object_field(obj, "payload"@) {
        None => note(st, "audit_incomplete"@),
        Some(p) => if text_field(p, "type"@) != Some("sub_agent_activity"@) || text_field(p, "kind"@) != Some("started"@) {
            st
        } else if st.current is None {
            note(st, "audit_missing_parent"@)
        } else {
            let thread = ident_only(text_field(p, "agent_thread_id"@), max);
            if thread is None {
                note(st, "audit_bad_identifier"@)
            } else {
                let path = text_field(p, "agent_path"@);
                let join_key = join_key_of(path, max);
                let st1 = if path is Some && join_key is None { note(st, "audit_bad_identifier"@) } else { st };
                let t = match field(p, "occurred_at_ms"@) {
                    Some(v) => event_time_of(v),
                    None => EventTime::Missing,
                };
                observe(note_time(st1, t), ObservationView::Session(SessionView {
                    thread_id: thread->0,
                    parent_thread_id: st.current,
                    agent_role: None,
                    started_at_ms: time_value(t),
                    join_key,
                    time_state: time_state(t),
                    activity_start: true,
                }))
            }
        },
    }
}

/// Reads a `turn_context` record.
pub open spec fn parse_turn(st: ParseState, obj: JsonValue, max: int) -> ParseState {
    match object_field(obj, "payload"@) {
        None => note(st, "audit_incomplete"@),
        Some(p) => {
            let thread = or_text(text_field(obj, "thread_id"@), or_text(text_field(p, "thread_id"@), st.current));
            if !(thread is Some && join_key_ok(thread->0, max)) {
                note(st, "audit_bad_identifier"@)
            } else {
                let turn = ident_only(text_field(p, "turn_id"@), max);
                if turn is None {
                    note(st, "audit_bad_identifier"@)
                } else {
                    let ok = |s: Seq<char>| identifier_ok(s, max);
                    let t = event_time_in(obj, p);
                    observe(note_time(st, t), ObservationView::Turn(TurnObsView {
                        thread_id: thread->0,
                        turn_id: turn->0,
                        model: text_of(field(p, "model"@), ok).value,
                        effort: text_of(field(p, "effort"@), ok).value,
                        multi_agent_version: text_of(field(p, "multi_agent_version"@), ok).value,
                        started_at_ms: time_value(t),
                        time_state: time_state(t),
                    }))
                }
            }
        },
    }
}

/// The arguments of a spawn call: an object, or a text holding one.
pub open spec fn spawn_arguments(payload: JsonValue) -> Result<JsonValue, Seq<char>> {
    match field(payload, "arguments"@) {
        Some(JsonValue::Object(m)) => Ok(JsonValue::Object(m)),
        Some(JsonValue::Str(s)) => match json_document(vstd::utf8::encode_utf8(s@)) {
            Some(JsonValue::Object(m)) => Ok(JsonValue::Object(m)),
            _ => Err("audit_ambiguous"@),
        },
        _ => Err("audit_incomplete"@),
    }
}

/// The spawn call that a parent made, from its arguments.
pub open spec fn spawn_view_of(parent: Seq<char>, args: JsonValue, t: EventTime, max: int) -> SpawnView {
    let ok = |s: Seq<char>| identifier_ok(s, max);
    let join = |s: Seq<char>| join_key_ok(s, max);
    let task = text_of(field(args, "task_name"@), join);
    let agent = text_of(field(args, "agent_type"@), ok);
    let fork = text_of(field(args, "fork_turns"@), ok);
    let model = text_of(field(args, "model"@), ok);
    let effort = text_of(field(args, "reasoning_effort"@), ok);
    SpawnView {
        parent_thread_id: parent,
        task_name_present: task.present,
        observed_agent_type: agent.value,
        observed_fork_turns: fork.value,
        override_model: model.value,
        override_effort: effort.value,
        spawned_at_ms: time_value(t),
        task_key: task.value,
        task_key_valid: task.valid,
        agent_type_present: agent.present,
        fork_turns_present: fork.present,
        model_present: model.present,
        effort_present: effort.present,
        fields_valid: task.valid && agent.valid && fork.valid && model.valid && effort.valid,
        time_state: time_state(t),
    }
}

/// Reads a `response_item` record: only a `spawn_agent` call counts.
pub open spec fn parse_response_item(st: ParseState, obj: JsonValue, max: int) -> ParseState {
    let payload = match object_field(obj, "payload"@) {
        Some(p) => p,
        None => obj,
    };
    let is_spawn = text_field(payload, "name"@) == Some("spawn_agent"@) || text_field(payload, "tool_name"@) == Some("spawn_agent"@)
        || text_field(payload, "action"@) == Some("spawn_agent"@);
    if !is_spawn {
        st
    } else {
        let parent = ident_only(or_text(text_field(obj, "thread_id"@), or_text(text_field(payload, "thread_id"@), st.current)), max);
        if parent is None {
            note(st, "audit_missing_parent"@)
        } else {
            match spawn_arguments(payload) {
                Err(code) => note(st, code),
                Ok(args) => {
                    let t = event_time_in(obj, payload);
                    observe(note_time(st, t), ObservationView::Spawn(spawn_view_of(parent->0, args, t, max)))
                },
            }
        }
    }
}

pub open spec fn ascii_space(b: u8) -> bool {
    b == 32 || b == 9 || b == 10 || b == 12 || b == 13
}

/// The bytes of a line without one trailing carriage return.
pub open spec fn without_cr(b: Seq<u8>) -> Seq<u8> {
    if b.len() > 0 && b.last() == 13 { b.drop_last() } else { b }
}

/// Reads one line: blank lines are skipped; a line that is no JSON object is invalid; a
/// record of another schema version stops the current thread; the record type decides the
/// rest.
pub open spec fn parse_line(st: ParseState, bytes: Seq<u8>, max: int) -> ParseState {
    let b = without_cr(bytes);
    if forall|k: int| 0 <= k < b.len() ==> ascii_space(#[trigger] b[k]) {
        st
    } else {
        match json_document(b) {
            None => note(st, "audit_jsonl_invalid"@),
            Some(v) => if !is_object(v) {
                note(st, "audit_jsonl_invalid"@)
            } else {
                let version = first_of(field(v, "schema_version"@), field(v, "schemaVersion"@));
                if version is Some && version->0 != JsonValue::Number(Some(AUDIT_SCHEMA_VERSION as u64)) {
                    note(ParseState { current: None, ..st }, "audit_schema_unsupported"@)
                } else {
                    let kind = or_text(text_field(v, "type"@), match object_field(v, "payload"@) {
                        Some(p) => text_field(p, "type"@),
                        None => None,
                    });
                    if kind == Some("session_meta"@) {
                        parse_session(st, v, max)
                    } else if kind == Some("turn_context"@) {
                        parse_turn(st, v, max)
                    } else if kind == Some("response_item"@) {
                        parse_response_item(st, v, max)
                    } else if kind == Some("event_msg"@) {
                        parse_event_msg(st, v, max)
                    } else {
                        st
                    }
                }
            },
        }
    }
}

// ---------- the parser ----------

pub struct TextField {
    pub present: bool,
    pub value: Option<String>,
    pub valid: bool,
}

pub open spec fn text_field_view(t: TextField) -> TextFieldView {
    TextFieldView { present: t.present, value: opt_view(t.value), valid: t.valid }
}

/// The rollout parser between lines.
pub struct RolloutParser {
    pub limits: AuditLimits,
    pub observations: Vec<RolloutObservation>,
    pub notices: Vec<AuditNotice>,
    pub truncated: bool,
    pub current: Option<String>,
}

pub open spec fn parser_view(p: RolloutParser) -> ParseState {
    ParseState {
        observations: observations_view(p.observations@),
        notices: notice_codes(p.notices@),
        truncated: p.truncated,
        current: opt_view(p.current),
    }
}

fn object_field_exec<'a>(v: &'a JsonValue, key: &str) -> (r: Option<&'a JsonValue>)
    ensures
        match r {
            Some(x) => object_field(*v, key@) == Some(*x),
            None => object_field(*v, key@) is None,
        },
{
    match get_field(v, key) {
        Some(x) => match x {
            JsonValue::Object(_) => Some(x),
            _ => None,
        },
        None => None,
    }
}

fn nested2<'a>(v: &'a JsonValue, a: &str, b: &str, key: &str) -> (r: Option<&'a str>)
    ensures
        crate::model::opt_str_view(r) == nested_text(*v, seq![a@, b@], key@),
{
    let ghost path = seq![a@, b@];
    proof {
        reveal_with_fuel(nested_text, 3);
    }
    assert(path.drop_first() =~= seq![b@]);
    assert(seq![b@].drop_first() =~= Seq::<Seq<char>>::empty());
    match object_field_exec(v, a) {
        None => None,
        Some(x) => match object_field_exec(x, b) {
            None => None,
            Some(y) => get_text(y, key),
        },
    }
}

fn nested3<'a>(v: &'a JsonValue, a: &str, b: &str, c: &str, key: &str) -> (r: Option<&'a str>)
    ensures
        crate::model::opt_str_view(r) == nested_text(*v, seq![a@, b@, c@], key@),
{
    let ghost path = seq![a@, b@, c@];
    proof {
        reveal_with_fuel(nested_text, 4);
    }
    assert(path.drop_first() =~= seq![b@, c@]);
    assert(seq![b@, c@].drop_first() =~= seq![c@]);
    assert(seq![c@].drop_first() =~= Seq::<Seq<char>>::empty());
    match object_field_exec(v, a) {
        None => None,
        Some(x) => match object_field_exec(x, b) {
            None => None,
            Some(y) => match object_field_exec(y, c) {
                None => None,
                Some(z) => get_text(z, key),
            },
        },
    }
}

fn or_str<'a>(a: Option<&'a str>, b: Option<&'a str>) -> (r: Option<&'a str>)
    ensures
        crate::model::opt_str_view(r) == or_text(crate::model::opt_str_view(a), crate::model::opt_str_view(b)),
{
    match a {
        Some(x) => Some(x),
        None => b,
    }
}

fn ident_owned(a: Option<&str>, max: usize) -> (r: Option<String>)
    ensures
        opt_view(r) == ident_only(crate::model::opt_str_view(a), max as int),
{
    match a {
        Some(v) => if valid_identifier(v, max) { Some(crate::text::owned(v)) } else { None },
        None => None,
    }
}

pub fn timestamp_text_exec(value: &str) -> (r: Option<u64>)
    ensures
        r == timestamp_text(value@),
{
    let b = value.as_bytes();
    assert(b@ == vstd::utf8::encode_utf8(value@));
    let mut k: usize = 0;
    while k < b.len()
        invariant
            k <= b@.len(),
            b@ == vstd::utf8::encode_utf8(value@),
            forall|m: int| 0 <= m < k ==> crate::audit_time::is_digit(#[trigger] b@[m]),
        decreases b@.len() - k,
    {
        if !(48 <= b[k] && b[k] <= 57) {
            assert(!crate::audit_time::is_digit(b@[k as int]));
            return crate::audit_time::parse_rfc3339_ms(value);
        }
        k += 1;
    }
    match crate::audit_time::parse_digits(b) {
        Some(v) => crate::audit_time::scale_timestamp(v),
        None => None,
    }
}

pub fn event_time_exec(v: &JsonValue) -> (r: EventTime)
    ensures
        r == event_time_of(*v),
{
    match v {
        JsonValue::Number(Some(n)) => match crate::audit_time::scale_timestamp(*n) {
            Some(t) => EventTime::Valid(t),
            None => EventTime::Invalid,
        },
        JsonValue::Str(s) => match timestamp_text_exec(s.as_str()) {
            Some(t) => EventTime::Valid(t),
            None => EventTime::Invalid,
        },
        _ => EventTime::Invalid,
    }
}

fn lookup_either<'a>(first: &'a JsonValue, second: &'a JsonValue, key: &str) -> (r: Option<&'a JsonValue>)
    ensures
        match r {
            Some(x) => first_of(field(*first, key@), field(*second, key@)) == Some(*x),
            None => first_of(field(*first, key@), field(*second, key@)) is None,
        },
{
    match get_field(first, key) {
        Some(x) => Some(x),
        None => get_field(second, key),
    }
}

fn event_time_in_exec(first: &JsonValue, second: &JsonValue) -> (r: EventTime)
    ensures
        r == event_time_in(*first, *second),
{
    if let Some(v) = lookup_either(first, second, "timestamp_ms") {
        return event_time_exec(v);
    }
    if let Some(v) = lookup_either(first, second, "created_at_ms") {
        return event_time_exec(v);
    }
    if let Some(v) = lookup_either(first, second, "event_time_ms") {
        return event_time_exec(v);
    }
    if let Some(v) = lookup_either(first, second, "timestamp") {
        return event_time_exec(v);
    }
    EventTime::Missing
}

fn last_component_exec(path: &str) -> (r: Option<String>)
    ensures
        opt_view(r) == last_component(path@),
{
    let v = chars_of(path);
    let ghost s = v@;
    let mut e = v.len();
    assert(s.subrange(0, e as int) =~= s);
    while e > 0 && (v[e - 1] == '/' || v[e - 1] == '\\')
        invariant
            e <= s.len(),
            s == v@,
            last_component(s) == last_component(s.subrange(0, e as int)),
        decreases e,
    {
        assert(s.subrange(0, e as int).drop_last() =~= s.subrange(0, e - 1));
        e -= 1;
    }
    if e == 0 {
        return None;
    }
    let mut b = e;
    assert(s.subrange(b as int, e as int) =~= Seq::<char>::empty());
    while b > 0 && !(v[b - 1] == '/' || v[b - 1] == '\\')
        invariant
            b <= e <= s.len(),
            s == v@,
            trailing_run(s.subrange(0, e as int)) == trailing_run(s.subrange(0, b as int)) + s.subrange(b as int, e as int),
        decreases b,
    {
        let ghost t = s.subrange(0, b as int);
        assert(t.drop_last() =~= s.subrange(0, b - 1));
        assert(trailing_run(t) == trailing_run(s.subrange(0, b - 1)).push(s[b - 1]));
        assert(trailing_run(s.subrange(0, b - 1)).push(s[b - 1]) + s.subrange(b as int, e as int)
            =~= trailing_run(s.subrange(0, b - 1)) + s.subrange(b - 1, e as int));
        b -= 1;
    }
    assert(trailing_run(s.subrange(0, b as int)) =~= Seq::<char>::empty());
    let mut out: Vec<char> = Vec::new();
    let mut k = b;
    while k < e
        invariant
            b <= k <= e <= s.len(),
            s == v@,
            out@ == s.subrange(b as int, k as int),
        decreases e - k,
    {
        out.push(v[k]);
        assert(out@ =~= s.subrange(b as int, k + 1));
        k += 1;
    }
    Some(crate::text::string_of(&out))
}

fn join_key_of_exec(path: Option<&str>, max: usize) -> (r: Option<String>)
    ensures
        opt_view(r) == join_key_of(crate::model::opt_str_view(path), max as int),
{
    match path {
        Some(p) => match last_component_exec(p) {
            Some(c) => if valid_join_key(c.as_str(), max) { Some(c) } else { None },
            None => None,
        },
        None => None,
    }
}

fn text_of_exec(v: Option<&JsonValue>, join: bool, max: usize) -> (r: TextField)
    ensures
        text_field_view(r) == text_of(match v {
            Some(x) => Some(*x),
            None => None,
        }, if join { |s: Seq<char>| join_key_ok(s, max as int) } else { |s: Seq<char>| identifier_ok(s, max as int) }),
{
    match v {
        None => TextField { present: false, value: None, valid: true },
        Some(JsonValue::Null) => TextField { present: false, value: None, valid: true },
        Some(JsonValue::Str(s)) => {
            let ok = if join { valid_join_key(s.as_str(), max) } else { valid_identifier(s.as_str(), max) };
            TextField { present: true, value: if ok { Some(s.clone()) } else { None }, valid: ok }
        },
        Some(_) => TextField { present: true, value: None, valid: false },
    }
}

fn note_exec(st: &mut RolloutParser, code: &str)
    ensures
        parser_view(*final(st)) == note(parser_view(*old(st)), code@),
        final(st).limits == old(st).limits,
{
    push_notice(&mut st.notices, code);
}

fn note_time_exec(st: &mut RolloutParser, t: EventTime)
    ensures
        parser_view(*final(st)) == note_time(parser_view(*old(st)), t),
        final(st).limits == old(st).limits,
{
    proof {
        reveal_strlit("audit_bad_timestamp");
    }
    if t == EventTime::Invalid {
        note_exec(st, "audit_bad_timestamp");
    }
}

fn observe_exec(st: &mut RolloutParser, o: RolloutObservation)
    ensures
        parser_view(*final(st)) == observe(parser_view(*old(st)), o@),
        final(st).limits == old(st).limits,
{
    let ghost before = st.observations@;
    st.observations.push(o);
    assert(observations_view(st.observations@) =~= observations_view(before).push(o@));
}

fn time_state_exec(t: EventTime) -> (r: TimeState)
    ensures
        r == time_state(t),
{
    match t {
        EventTime::Missing => TimeState::Missing,
        EventTime::Valid(v) => TimeState::Valid(v),
        EventTime::Invalid => TimeState::Invalid,
    }
}

fn time_value_exec(t: EventTime) -> (r: Option<u64>)
    ensures
        r == time_value(t),
{
    match t {
        EventTime::Valid(v) => Some(v),
        _ => None,
    }
}

fn parse_session_exec(st: &mut RolloutParser, obj: &JsonValue)
    ensures
        parser_view(*final(st)) == parse_session(parser_view(*old(st)), *obj, old(st).limits.max_identifier_bytes as int),
        final(st).limits == old(st).limits,
{
    proof {
        reveal_strlit("audit_incomplete");
        reveal_strlit("audit_bad_identifier");
    }
    let max = st.limits.max_identifier_bytes;
    let p = match object_field_exec(obj, "payload") {
        None => {
            note_exec(st, "audit_incomplete");
            return;
        },
        Some(p) => p,
    };
    let id = match or_str(get_text(p, "id"), get_text(obj, "thread_id")) {
        Some(id) => if valid_identifier(id, max) { id } else {
            note_exec(st, "audit_bad_identifier");
            return;
        },
        None => {
            note_exec(st, "audit_bad_identifier");
            return;
        },
    };
    let parent = ident_owned(or_str(get_text(p, "parent_thread_id"), or_str(
        nested2(p, "source", "subagent", "parent_thread_id"),
        nested3(p, "source", "subagent", "thread_spawn", "parent_thread_id"),
    )), max);
    let role = ident_owned(or_str(get_text(p, "agent_role"), or_str(
        nested2(p, "source", "subagent", "agent_role"),
        or_str(nested3(p, "source", "subagent", "thread_spawn", "agent_role"), or_str(
            nested2(p, "source", "subagent", "role"),
            nested3(p, "source", "subagent", "thread_spawn", "role"),
        )),
    )), max);
    let path = or_str(get_text(p, "agent_path"), or_str(
        nested2(p, "source", "subagent", "agent_path"),
        nested3(p, "source", "subagent", "thread_spawn", "agent_path"),
    ));
    let join_key = join_key_of_exec(path, max);
    let t = event_time_in_exec(p, obj);
    st.current = Some(crate::text::owned(id));
    note_time_exec(st, t);
    observe_exec(st, RolloutObservation::Session(SessionObservation {
        thread_id: crate::text::owned(id),
        parent_thread_id: parent,
        agent_role: role,
        started_at_ms: time_value_exec(t),
        join_key,
        time_state: time_state_exec(t),
        activity_start: false,
    }));
}

fn parse_event_msg_exec(st: &mut RolloutParser, obj: &JsonValue)
    ensures
        parser_view(*final(st)) == parse_event_msg(parser_view(*old(st)), *obj, old(st).limits.max_identifier_bytes as int),
        final(st).limits == old(st).limits,
{
    proof {
        reveal_strlit("audit_incomplete");
        reveal_strlit("audit_bad_identifier");
        reveal_strlit("audit_missing_parent");
        reveal_strlit("sub_agent_activity");
        reveal_strlit("started");
    }
    let max = st.limits.max_identifier_bytes;
    let p = match object_field_exec(obj, "payload") {
        None => {
            note_exec(st, "audit_incomplete");
            return;
        },
        Some(p) => p,
    };
    let is_activity = match get_text(p, "type") {
        Some(t) => str_eq(t, "sub_agent_activity"),
        None => false,
    };
    let is_started = match get_text(p, "kind") {
        Some(k) => str_eq(k, "started"),
        None => false,
    };
    if !is_activity || !is_started {
        return;
    }
    let parent = match &st.current {
        None => {
            note_exec(st, "audit_missing_parent");
            return;
        },
        Some(c) => c.clone(),
    };
    let thread = match ident_owned(get_text(p, "agent_thread_id"), max) {
        None => {
            note_exec(st, "audit_bad_identifier");
            return;
        },
        Some(t) => t,
    };
    let path = get_text(p, "agent_path");
    let join_key = join_key_of_exec(path, max);
    if path.is_some() && join_key.is_none() {
        note_exec(st, "audit_bad_identifier");
    }
    let t = match get_field(p, "occurred_at_ms") {
        Some(v) => event_time_exec(v),
        None => EventTime::Missing,
    };
    note_time_exec(st, t);
    observe_exec(st, RolloutObservation::Session(SessionObservation {
        thread_id: thread,
        parent_thread_id: Some(parent),
        agent_role: None,
        started_at_ms: time_value_exec(t),
        join_key,
        time_state: time_state_exec(t),
        activity_start: true,
    }));
}

fn parse_turn_exec(st: &mut RolloutParser, obj: &JsonValue)
    ensures
        parser_view(*final(st)) == parse_turn(parser_view(*old(st)), *obj, old(st).limits.max_identifier_bytes as int),
        final(st).limits == old(st).limits,
{
    proof {
        reveal_strlit("audit_incomplete");
        reveal_strlit("audit_bad_identifier");
    }
    let max = st.limits.max_identifier_bytes;
    let p = match object_field_exec(obj, "payload") {
        None => {
            note_exec(st, "audit_incomplete");
            return;
        },
        Some(p) => p,
    };
    let current: Option<String> = crate::model::opt_clone(&st.current);
    let cur: Option<&str> = match &current {
        Some(c) => Some(c.as_str()),
        None => None,
    };
    let thread = match or_str(get_text(obj, "thread_id"), or_str(get_text(p, "thread_id"), cur)) {
        Some(t) => if valid_join_key(t, max) { crate::text::owned(t) } else {
            note_exec(st, "audit_bad_identifier");
            return;
        },
        None => {
            note_exec(st, "audit_bad_identifier");
            return;
        },
    };
    let turn = match ident_owned(get_text(p, "turn_id"), max) {
        None => {
            note_exec(st, "audit_bad_identifier");
            return;
        },
        Some(t) => t,
    };
    let model = text_of_exec(get_field(p, "model"), false, max);
    let effort = text_of_exec(get_field(p, "effort"), false, max);
    let version = text_of_exec(get_field(p, "multi_agent_version"), false, max);
    let t = event_time_in_exec(obj, p);
    note_time_exec(st, t);
    observe_exec(st, RolloutObservation::Turn(TurnObservation {
        thread_id: thread,
        turn_id: turn,
        model: model.value,
        effort: effort.value,
        multi_agent_version: version.value,
        started_at_ms: time_value_exec(t),
        time_state: time_state_exec(t),
    }));
}

fn spawn_observation_exec(parent: String, args: &JsonValue, t: EventTime, max: usize) -> (r: SpawnObservation)
    ensures
        r@ == spawn_view_of(parent@, *args, t, max as int),
{
    let task = text_of_exec(get_field(args, "task_name"), true, max);
    let agent = text_of_exec(get_field(args, "agent_type"), false, max);
    let fork = text_of_exec(get_field(args, "fork_turns"), false, max);
    let model = text_of_exec(get_field(args, "model"), false, max);
    let effort = text_of_exec(get_field(args, "reasoning_effort"), false, max);
    let fields_valid = task.valid && agent.valid && fork.valid && model.valid && effort.valid;
    SpawnObservation {
        parent_thread_id: parent,
        task_name_present: task.present,
        observed_agent_type: agent.value,
        observed_fork_turns: fork.value,
        override_model: model.value,
        override_effort: effort.value,
        spawned_at_ms: time_value_exec(t),
        task_key: task.value,
        task_key_valid: task.valid,
        agent_type_present: agent.present,
        fork_turns_present: fork.present,
        model_present: model.present,
        effort_present: effort.present,
        fields_valid,
        time_state: time_state_exec(t),
    }
}

fn text_is(v: &JsonValue, key: &str, want: &str) -> (r: bool)
    ensures
        r == (text_field(*v, key@) == Some(want@)),
{
    match get_text(v, key) {
        Some(x) => str_eq(x, want),
        None => false,
    }
}

/// The arguments text parsed as JSON, when the arguments are a text.
fn parsed_arguments(raw: Option<&JsonValue>) -> (r: Option<JsonValue>)
    ensures
        match raw {
            Some(JsonValue::Str(text)) => r == json_document(vstd::utf8::encode_utf8(text@)),
            _ => r is None,
        },
{
    match raw {
        Some(JsonValue::Str(text)) => {
            let bytes = text.as_str().as_bytes();
            parse_json(bytes)
        },
        _ => None,
    }
}

fn pick_arguments<'a>(raw: Option<&'a JsonValue>, parsed: &'a Option<JsonValue>) -> (r: Result<&'a JsonValue, &'static str>)
    requires
        match raw {
            Some(JsonValue::Str(text)) => *parsed == json_document(vstd::utf8::encode_utf8(text@)),
            _ => true,
        },
    ensures
        match (match raw {
            Some(x) => Some(*x),
            None => None,
        }) {
            Some(JsonValue::Object(m)) => r == Ok::<&JsonValue, &'static str>(raw->0),
            Some(JsonValue::Str(text)) => match json_document(vstd::utf8::encode_utf8(text@)) {
                Some(JsonValue::Object(m)) => r matches Ok(x) && *x == JsonValue::Object(m),
                _ => r matches Err(c) && c@ == "audit_ambiguous"@,
            },
            _ => r matches Err(c) && c@ == "audit_incomplete"@,
        },
{
    match raw {
        Some(a) => match a {
            JsonValue::Object(_) => Ok(a),
            JsonValue::Str(_) => match parsed {
                Some(x) => match x {
                    JsonValue::Object(_) => Ok(x),
                    _ => Err("audit_ambiguous"),
                },
                None => Err("audit_ambiguous"),
            },
            _ => Err("audit_incomplete"),
        },
        None => Err("audit_incomplete"),
    }
}

fn parse_response_item_exec(st: &mut RolloutParser, obj: &JsonValue)
    ensures
        parser_view(*final(st)) == parse_response_item(parser_view(*old(st)), *obj, old(st).limits.max_identifier_bytes as int),
        final(st).limits == old(st).limits,
{
    proof {
        reveal_strlit("audit_missing_parent");
    }
    let max = st.limits.max_identifier_bytes;
    let payload = match object_field_exec(obj, "payload") {
        Some(p) => p,
        None => obj,
    };
    if !(text_is(payload, "name", "spawn_agent") || text_is(payload, "tool_name", "spawn_agent") || text_is(payload, "action", "spawn_agent")) {
        return;
    }
    let current: Option<String> = crate::model::opt_clone(&st.current);
    let cur: Option<&str> = match &current {
        Some(c) => Some(c.as_str()),
        None => None,
    };
    let parent = match ident_owned(or_str(get_text(obj, "thread_id"), or_str(get_text(payload, "thread_id"), cur)), max) {
        None => {
            note_exec(st, "audit_missing_parent");
            return;
        },
        Some(p) => p,
    };
    let raw = get_field(payload, "arguments");
    let parsed = parsed_arguments(raw);
    let args = match pick_arguments(raw, &parsed) {
        Err(code) => {
            note_exec(st, code);
            return;
        },
        Ok(a) => a,
    };
    let t = event_time_in_exec(obj, payload);
    note_time_exec(st, t);
    let o = spawn_observation_exec(parent, args, t, max);
    observe_exec(st, RolloutObservation::Spawn(o));
}

/// Reads one line of the rollout.
pub fn parse_line_exec(st: &mut RolloutParser, bytes: &[u8])
    ensures
        parser_view(*final(st)) == parse_line(parser_view(*old(st)), bytes@, old(st).limits.max_identifier_bytes as int),
        final(st).limits == old(st).limits,
{
    proof {
        reveal_strlit("audit_jsonl_invalid");
        reveal_strlit("audit_schema_unsupported");
        reveal_strlit("session_meta");
        reveal_strlit("turn_context");
        reveal_strlit("response_item");
        reveal_strlit("event_msg");
    }
    let n = if bytes.len() > 0 && bytes[bytes.len() - 1] == 13 { bytes.len() - 1 } else { bytes.len() };
    let b = vstd::slice::slice_subrange(bytes, 0, n);
    assert(b@ == without_cr(bytes@));
    let mut k: usize = 0;
    let mut blank = true;
    while k < b.len()
        invariant
            k <= b@.len(),
            blank == forall|m: int| 0 <= m < k ==> ascii_space(#[trigger] b@[m]),
        decreases b@.len() - k,
    {
        let c = b[k];
        if !(c == 32 || c == 9 || c == 10 || c == 12 || c == 13) {
            blank = false;
        }
        k += 1;
    }
    if blank {
        return;
    }
    let v = match parse_json(b) {
        None => {
            note_exec(st, "audit_jsonl_invalid");
            return;
        },
        Some(v) => v,
    };
    match &v {
        JsonValue::Object(_) => {},
        _ => {
            note_exec(st, "audit_jsonl_invalid");
            return;
        },
    }
    let version = match get_field(&v, "schema_version") {
        Some(x) => Some(x),
        None => get_field(&v, "schemaVersion"),
    };
    assert(version matches Some(x) ==> first_of(field(v, "schema_version"@), field(v, "schemaVersion"@)) == Some(*x));
    assert(version is None ==> first_of(field(v, "schema_version"@), field(v, "schemaVersion"@)) is None);
    match version {
        Some(x) => {
            let ok = match x {
                JsonValue::Number(Some(n)) => *n == 1,
                _ => false,
            };
            if !ok {
                st.current = None;
                note_exec(st, "audit_schema_unsupported");
                return;
            }
        },
        None => {},
    }
    let kind = or_str(get_text(&v, "type"), match object_field_exec(&v, "payload") {
        Some(p) => get_text(p, "type"),
        None => None,
    });
    let is = |want: &str| -> (r: bool)
        ensures
            r == (crate::model::opt_str_view(kind) == Some(want@)),
    {
        match kind {
            Some(k) => str_eq(k, want),
            None => false,
        }
    };
    if is("session_meta") {
        parse_session_exec(st, &v);
    } else if is("turn_context") {
        parse_turn_exec(st, &v);
    } else if is("response_item") {
        parse_response_item_exec(st, &v);
    } else if is("event_msg") {
        parse_event_msg_exec(st, &v);
    }
}

// ---------- the byte stream ----------

/// What the reader gave after the bytes it delivered: the end, a failure, or (once the file
/// budget was reached) at least one more byte.
#[derive(Debug, Clone, Copy, PartialEq, Eq, Structural)]
pub enum ReadEnd {
    Eof,
    Error,
    More,
}

/// The byte string cut at each newline.
pub open spec fn split_lines(s: Seq<u8>) -> Seq<Seq<u8>>
    decreases s.len(),
{
    if s.len() == 0 {
        seq![Seq::empty()]
    } else {
        let rest = split_lines(s.drop_last());
        if s.last() == 10 {
            rest.push(Seq::empty())
        } else {
            rest.update(rest.len() - 1, rest.last().push(s.last()))
        }
    }
}

pub proof fn lemma_split_lines_len(s: Seq<u8>)
    ensures
        split_lines(s).len() >= 1,
    decreases s.len(),
{
    if s.len() > 0 {
        lemma_split_lines_len(s.drop_last());
    }
}

/// One line taken: a line longer than the line budget is refused whole.
pub open spec fn take_line(st: ParseState, line: Seq<u8>, limits: AuditLimits) -> ParseState {
    if line.len() > limits.max_line_bytes {
        note(st, "audit_line_too_large"@)
    } else {
        parse_line(st, line, limits.max_identifier_bytes as int)
    }
}

pub open spec fn take_lines(st: ParseState, lines: Seq<Seq<u8>>, limits: AuditLimits) -> ParseState
    decreases lines.len(),
{
    if lines.len() == 0 {
        st
    } else {
        take_line(take_lines(st, lines.drop_last(), limits), lines.last(), limits)
    }
}

/// The notices of how the reading ended: reaching the file budget exactly truncates, so does
/// a byte beyond it, and a failed read is noted.
pub open spec fn end_notes(st: ParseState, read: int, end: ReadEnd, limits: AuditLimits) -> ParseState {
    if read >= limits.max_file_bytes {
        let st1 = if limits.max_file_bytes > 0 && read == limits.max_file_bytes {
            ParseState { truncated: true, ..note(st, "audit_truncated"@) }
        } else {
            st
        };
        match end {
            ReadEnd::Eof => st1,
            ReadEnd::More => ParseState { truncated: true, ..note(st1, "audit_truncated"@) },
            ReadEnd::Error => note(st1, "audit_read_error"@),
        }
    } else {
        match end {
            ReadEnd::Error => note(st, "audit_read_error"@),
            _ => st,
        }
    }
}

pub open spec fn start_state() -> ParseState {
    ParseState { observations: Seq::empty(), notices: Seq::empty(), truncated: false, current: None }
}

/// The parse of a rollout stream: its complete lines in order, then how reading ended, then
/// the last, unterminated line if there is one.
pub open spec fn rollout_parse(data: Seq<u8>, end: ReadEnd, limits: AuditLimits) -> ParseState {
    let lines = split_lines(data);
    let st = end_notes(take_lines(start_state(), lines.drop_last(), limits), data.len() as int, end, limits);
    if lines.last().len() > 0 {
        take_line(st, lines.last(), limits)
    } else {
        st
    }
}

pub open spec fn parsed_state(p: ParsedRollout) -> (Seq<ObservationView>, Seq<Seq<char>>, bool) {
    (observations_view(p.observations@), notice_codes(p.notices@), p.truncated)
}

pub open spec fn state_parts(st: ParseState) -> (Seq<ObservationView>, Seq<Seq<char>>, bool) {
    (st.observations, st.notices, st.truncated)
}

fn take_line_exec(st: &mut RolloutParser, line: &[u8])
    ensures
        parser_view(*final(st)) == take_line(parser_view(*old(st)), line@, old(st).limits),
        final(st).limits == old(st).limits,
{
    proof {
        reveal_strlit("audit_line_too_large");
    }
    if line.len() > st.limits.max_line_bytes {
        note_exec(st, "audit_line_too_large");
    } else {
        parse_line_exec(st, line);
    }
}

/// Parses the bytes read from one rollout stream and how the reading ended. The bytes stop at
/// the file budget, and only a reader that reached it can have more.
pub fn parse_rollout_jsonl(data: &[u8], end: ReadEnd, limits: AuditLimits) -> (r: ParsedRollout)
    requires
        data@.len() <= limits.max_file_bytes,
        end is More ==> data@.len() == limits.max_file_bytes,
    ensures
        parsed_state(r) == state_parts(rollout_parse(data@, end, limits)),
{
    proof {
        reveal_strlit("audit_truncated");
        reveal_strlit("audit_read_error");
    }
    let ghost d = data@;
    let mut st = RolloutParser { limits, observations: Vec::new(), notices: Vec::new(), truncated: false, current: None };
    assert(observations_view(st.observations@) =~= Seq::<ObservationView>::empty());
    assert(notice_codes(st.notices@) =~= Seq::<Seq<char>>::empty());
    let mut start: usize = 0;
    let mut i: usize = 0;
    assert(d.subrange(0, 0) =~= Seq::<u8>::empty());
    assert(split_lines(Seq::<u8>::empty()).drop_last() =~= Seq::<Seq<u8>>::empty());
    while i < data.len()
        invariant
            start <= i <= d.len(),
            d == data@,
            st.limits == limits,
            split_lines(d.subrange(0, i as int)).last() == d.subrange(start as int, i as int),
            parser_view(st) == take_lines(start_state(), split_lines(d.subrange(0, i as int)).drop_last(), limits),
        decreases d.len() - i,
    {
        let ghost pre = d.subrange(0, i as int);
        let ghost segs = split_lines(pre);
        proof {
            lemma_split_lines_len(pre);
            assert(d.subrange(0, i + 1).drop_last() =~= pre);
            assert(d.subrange(0, i + 1).last() == d[i as int]);
        }
        if data[i] == 10 {
            let line = vstd::slice::slice_subrange(data, start, i);
            take_line_exec(&mut st, line);
            proof {
                let nsegs = segs.push(Seq::<u8>::empty());
                assert(split_lines(d.subrange(0, i + 1)) == nsegs);
                assert(nsegs.drop_last() =~= segs);
                assert(segs =~= segs.drop_last().push(segs.last()));
                assert(nsegs.last() =~= d.subrange(i + 1, i + 1));
            }
            start = i + 1;
        } else {
            proof {
                let nsegs = segs.update(segs.len() - 1, segs.last().push(d[i as int]));
                assert(split_lines(d.subrange(0, i + 1)) == nsegs);
                assert(nsegs.drop_last() =~= segs.drop_last());
                assert(nsegs.last() =~= d.subrange(start as int, i + 1));
            }
        }
        i += 1;
    }
    assert(d.subrange(0, d.len() as int) =~= d);
    let read = data.len();
    if read >= limits.max_file_bytes {
        if limits.max_file_bytes > 0 && read == limits.max_file_bytes {
            note_exec(&mut st, "audit_truncated");
            st.truncated = true;
        }
        match end {
            ReadEnd::Eof => {},
            ReadEnd::More => {
                note_exec(&mut st, "audit_truncated");
                st.truncated = true;
            },
            ReadEnd::Error => {
                note_exec(&mut st, "audit_read_error");
            },
        }
    } else {
        match end {
            ReadEnd::Error => {
                note_exec(&mut st, "audit_read_error");
            },
            _ => {},
        }
    }
    if start < data.len() {
        let line = vstd::slice::slice_subrange(data, start, data.len());
        take_line_exec(&mut st, line);
    }
    ParsedRollout { observations: st.observations, notices: st.notices, truncated: st.truncated }
}

/// The parse of a whole byte string read through a reader of it: reaching the file budget
/// is itself a truncation, since one more byte could not be ruled out without reading it.
pub open spec fn rollout_bytes(bytes: Seq<u8>, limits: AuditLimits) -> (Seq<ObservationView>, Seq<Seq<char>>, bool) {
    let data = if bytes.len() > limits.max_file_bytes { bytes.take(limits.max_file_bytes as int) } else { bytes };
    let end = if bytes.len() > limits.max_file_bytes { ReadEnd::More } else { ReadEnd::Eof };
    let st = rollout_parse(data, end, limits);
    if limits.max_file_bytes > 0 && bytes.len() >= limits.max_file_bytes {
        (st.observations, noted(st.notices, "audit_truncated"@), true)
    } else {
        state_parts(st)
    }
}

pub fn parse_rollout_bytes(bytes: &[u8], limits: AuditLimits) -> (r: ParsedRollout)
    ensures
        parsed_state(r) == rollout_bytes(bytes@, limits),
{
    proof {
        reveal_strlit("audit_truncated");
    }
    let reached = limits.max_file_bytes > 0 && bytes.len() >= limits.max_file_bytes;
    let (data, end) = if bytes.len() > limits.max_file_bytes {
        (vstd::slice::slice_subrange(bytes, 0, limits.max_file_bytes), ReadEnd::More)
    } else {
        (bytes, ReadEnd::Eof)
    };
    assert(bytes.len() > limits.max_file_bytes ==> data@ =~= bytes@.take(limits.max_file_bytes as int));
    let mut parsed = parse_rollout_jsonl(data, end, limits);
    if reached {
        parsed.truncated = true;
        push_notice(&mut parsed.notices, "audit_truncated");
    }
    parsed
}

/// One rollout file: its date directory and file name, used only to order the files, and
/// its bytes.
#[derive(Debug, Clone, PartialEq, Eq)]
pub struct RolloutFile {
    pub date_key: String,
    pub file_key: String,
    pub bytes: Vec<u8>,
}

pub struct FileView {
    pub date_key: Seq<char>,
    pub file_key: Seq<char>,
    pub bytes: Seq<u8>,
}

pub open spec fn file_view(f: RolloutFile) -> FileView {
    FileView { date_key: f.date_key@, file_key: f.file_key@, bytes: f.bytes@ }
}

pub open spec fn files_view(v: Seq<RolloutFile>) -> Seq<FileView> {
    v.map_values(|f: RolloutFile| file_view(f))
}

/// Newest date first, then newest file name first.
pub open spec fn file_before(a: FileView, b: FileView) -> bool {
    crate::text::seq_lt(b.date_key, a.date_key) || (a.date_key == b.date_key && crate::text::seq_lt(b.file_key, a.file_key))
}

pub open spec fn file_order() -> spec_fn(FileView, FileView) -> bool {
    |a: FileView, b: FileView| file_before(a, b)
}

/// The notices after noting each code of `more` in turn.
pub open spec fn noted_all(n: Seq<Seq<char>>, more: Seq<Seq<char>>) -> Seq<Seq<char>>
    decreases more.len(),
{
    if more.len() == 0 {
        n
    } else {
        noted(noted_all(n, more.drop_last()), more.last())
    }
}

pub struct FilesState {
    pub observations: Seq<ObservationView>,
    pub notices: Seq<Seq<char>>,
    pub truncated: bool,
    pub dates: Seq<Seq<char>>,
    pub count: nat,
    pub stopped: bool,
}

/// One file taken in order: a budget of files or of date directories already reached stops
/// the scan as truncated.
pub open spec fn files_step(st: FilesState, f: FileView, limits: AuditLimits) -> FilesState {
    if st.stopped {
        st
    } else if st.count >= limits.max_rollout_files {
        FilesState { stopped: true, truncated: true, notices: noted(st.notices, "audit_truncated"@), ..st }
    } else if !st.dates.contains(f.date_key) && st.dates.len() >= limits.max_date_directories {
        FilesState { stopped: true, truncated: true, notices: noted(st.notices, "audit_truncated"@), ..st }
    } else {
        let item = rollout_bytes(f.bytes, limits);
        FilesState {
            observations: st.observations + item.0,
            notices: noted_all(st.notices, item.1),
            truncated: st.truncated || item.2,
            dates: if st.dates.contains(f.date_key) { st.dates } else { st.dates.push(f.date_key) },
            count: st.count + 1,
            stopped: false,
        }
    }
}

pub open spec fn files_fold(files: Seq<FileView>, limits: AuditLimits) -> FilesState
    decreases files.len(),
{
    if files.len() == 0 {
        FilesState { observations: Seq::empty(), notices: Seq::empty(), truncated: false, dates: Seq::empty(), count: 0, stopped: false }
    } else {
        files_step(files_fold(files.drop_last(), limits), files.last(), limits)
    }
}

/// The parse of rollout files newest first, within the budgets of files and of date
/// directories; reaching either budget is a truncation.
pub open spec fn rollout_files(files: Seq<FileView>, limits: AuditLimits) -> (Seq<ObservationView>, Seq<Seq<char>>, bool) {
    let st = files_fold(crate::order::stable_sort(files, file_order()), limits);
    if (limits.max_rollout_files > 0 && st.count >= limits.max_rollout_files) || (limits.max_date_directories > 0
        && st.dates.len() >= limits.max_date_directories) {
        (st.observations, noted(st.notices, "audit_truncated"@), true)
    } else {
        (st.observations, st.notices, st.truncated)
    }
}

fn file_precedes(a: &RolloutFile, b: &RolloutFile) -> (r: bool)
    ensures
        r == file_before(file_view(*a), file_view(*b)),
{
    crate::text::str_lt(b.date_key.as_str(), a.date_key.as_str()) || (str_eq(a.date_key.as_str(), b.date_key.as_str())
        && crate::text::str_lt(b.file_key.as_str(), a.file_key.as_str()))
}

fn insert_file(out: &mut Vec<RolloutFile>, m: RolloutFile)
    ensures
        files_view(final(out)@) == crate::order::stable_insert(files_view(old(out)@), file_view(m), file_order()),
{
    let ghost s = files_view(out@);
    let mut p = out.len();
    while p > 0 && file_precedes(&m, &out[p - 1])
        invariant
            p <= out@.len(),
            s == files_view(out@),
            forall|k: int| p <= k < s.len() ==> (file_order())(file_view(m), #[trigger] s[k]),
        decreases p,
    {
        p -= 1;
    }
    proof {
        crate::order::lemma_stable_insert_at(s, file_view(m), file_order(), p as int);
    }
    let ghost mv = file_view(m);
    out.insert(p, m);
    assert(files_view(out@) =~= s.subrange(0, p as int).push(mv) + s.subrange(p as int, s.len() as int));
}

fn push_all_notices(n: &mut Vec<AuditNotice>, more: &Vec<AuditNotice>)
    ensures
        notice_codes(final(n)@) == noted_all(notice_codes(old(n)@), notice_codes(more@)),
{
    let ghost start = notice_codes(n@);
    let ghost mv = notice_codes(more@);
    let mut k: usize = 0;
    while k < more.len()
        invariant
            k <= more@.len(),
            mv == notice_codes(more@),
            notice_codes(n@) == noted_all(start, mv.subrange(0, k as int)),
        decreases more@.len() - k,
    {
        assert(mv.subrange(0, k + 1).drop_last() =~= mv.subrange(0, k as int));
        push_notice(n, more[k].code.as_str());
        k += 1;
    }
    assert(mv.subrange(0, mv.len() as int) =~= mv);
}

pub fn parse_rollout_files(files: Vec<RolloutFile>, limits: AuditLimits) -> (r: ParsedRollout)
    ensures
        parsed_state(r) == rollout_files(files_view(files@), limits),
{
    proof {
        reveal_strlit("audit_truncated");
    }
    let ghost fv = files_view(files@);
    let mut rest = files;
    let mut sorted: Vec<RolloutFile> = Vec::new();
    let ghost mut j: int = 0;
    assert(files_view(rest@) =~= fv.subrange(0, fv.len() as int));
    while rest.len() > 0
        invariant
            0 <= j <= fv.len(),
            files_view(rest@) == fv.subrange(j, fv.len() as int),
            files_view(sorted@) == crate::order::stable_sort(fv.subrange(0, j), file_order()),
        decreases rest@.len(),
    {
        let ghost before = rest@;
        assert(files_view(before).len() == before.len());
        let f = rest.remove(0);
        assert(files_view(before)[0] == file_view(f));
        assert(fv.subrange(j, fv.len() as int)[0] == fv[j]);
        assert(rest@ =~= before.subrange(1, before.len() as int));
        assert(files_view(rest@) =~= files_view(before).subrange(1, before.len() as int));
        assert(files_view(rest@) =~= fv.subrange(j + 1, fv.len() as int));
        proof {
            crate::order::lemma_stable_sort_step(fv, j, file_order());
        }
        insert_file(&mut sorted, f);
        proof {
            j = j + 1;
        }
    }
    assert(fv.subrange(0, fv.len() as int) =~= fv);
    let ghost sv = files_view(sorted@);
    let mut observations: Vec<RolloutObservation> = Vec::new();
    let mut notices: Vec<AuditNotice> = Vec::new();
    let mut truncated = false;
    let mut dates: Vec<String> = Vec::new();
    let mut count: usize = 0;
    let mut stopped = false;
    let mut k: usize = 0;
    while k < sorted.len()
        invariant
            k <= sorted@.len(),
            sv == files_view(sorted@),
            count <= k,
            ({
                let st = files_fold(sv.subrange(0, k as int), limits);
                &&& observations_view(observations@) == st.observations
                &&& notice_codes(notices@) == st.notices
                &&& truncated == st.truncated
                &&& crate::ownership::strings_view(dates@) == st.dates
                &&& count == st.count
                &&& stopped == st.stopped
            }),
        decreases sorted@.len() - k,
    {
        assert(sv.subrange(0, k + 1).drop_last() =~= sv.subrange(0, k as int));
        assert(sv.subrange(0, k + 1).last() == file_view(sorted@[k as int]));
        if !stopped {
            let f = &sorted[k];
            let known = crate::audit::contains_string(&dates, f.date_key.as_str());
            if count >= limits.max_rollout_files {
                stopped = true;
                truncated = true;
                push_notice(&mut notices, "audit_truncated");
            } else if !known && dates.len() >= limits.max_date_directories {
                stopped = true;
                truncated = true;
                push_notice(&mut notices, "audit_truncated");
            } else {
                let item = parse_rollout_bytes(f.bytes.as_slice(), limits);
                let ghost before = observations@;
                let mut obs = item.observations;
                observations.append(&mut obs);
                assert(observations_view(observations@) =~= observations_view(before) + observations_view(item.observations@));
                push_all_notices(&mut notices, &item.notices);
                truncated = truncated || item.truncated;
                if !known {
                    let ghost db = dates@;
                    dates.push(f.date_key.clone());
                    assert(crate::ownership::strings_view(dates@) =~= crate::ownership::strings_view(db).push(f.date_key@));
                }
                count += 1;
            }
        }
        k += 1;
    }
    assert(sv.subrange(0, sv.len() as int) =~= sv);
    if (limits.max_rollout_files > 0 && count >= limits.max_rollout_files) || (limits.max_date_directories > 0
        && dates.len() >= limits.max_date_directories) {
        truncated = true;
        push_notice(&mut notices, "audit_truncated");
    }
    ParsedRollout { observations, notices, truncated }
}

} // verus!
