//! Reading the machine reports of the Codex executable: the doctor report must be
//! machine-readable and say that the configuration loaded, and the model report gives the
//! model capabilities that role edits are checked against.
use vstd::prelude::*;
use crate::json::{get_member, member, opt_value, JsonValue};
use crate::roles::{
    code_err, identity_error, model_capability_error, models_view, role_error_text, snapshot_models, strings_view,
    CapabilitySnapshot, ModelCapability, ModelSpec, RoleErrorCode, SnapshotSpec,
};
use crate::text::owned;

verus! {

pub open spec fn invalid_doctor() -> Seq<char> {
    "capability_invalid_doctor_report"@
}

pub open spec fn config_unavailable() -> Seq<char> {
    "capability_config_unavailable"@
}

/// The first of two faults.
pub open spec fn either(a: Option<Seq<char>>, b: Option<Seq<char>>) -> Option<Seq<char>> {
    if a is Some { a } else { b }
}

/// A load flag, where present, must be a boolean, and `false` means the configuration did not
/// load.
pub open spec fn flag_fault(v: Option<JsonValue>) -> Option<Seq<char>> {
    match v {
        None => None,
        Some(JsonValue::Bool(true)) => None,
        Some(JsonValue::Bool(false)) => Some(config_unavailable()),
        Some(_) => Some(invalid_doctor()),
    }
}

/// A warning list, where present, must be an array.
pub open spec fn list_fault(v: Option<JsonValue>) -> Option<Seq<char>> {
    match v {
        Some(JsonValue::Array(_)) => None,
        None => None,
        Some(_) => Some(invalid_doctor()),
    }
}

/// The `config` member, where present, is an object whose load flags are checked, or null.
pub open spec fn config_fault(v: Option<JsonValue>) -> Option<Seq<char>> {
    match v {
        None => None,
        Some(JsonValue::Object(c)) => either(
            flag_fault(member(c@, "loaded"@)),
            either(flag_fault(member(c@, "config_loaded"@)), flag_fault(member(c@, "configLoaded"@))),
        ),
        Some(JsonValue::Null) => None,
        Some(_) => Some(invalid_doctor()),
    }
}

/// What is wrong with a doctor report, checked in this order: it must be an object; its
/// top-level load flags; its `config` member; its role warning lists.
pub open spec fn doctor_fault(v: JsonValue) -> Option<Seq<char>> {
    match v {
        JsonValue::Object(m) => either(
            either(flag_fault(member(m@, "config_loaded"@)), flag_fault(member(m@, "configLoaded"@))),
            either(
                config_fault(member(m@, "config"@)),
                either(list_fault(member(m@, "role_warnings"@)), list_fault(member(m@, "roleWarnings"@))),
            ),
        ),
        _ => Some(invalid_doctor()),
    }
}

fn flag_check(v: Option<&JsonValue>) -> (r: Result<(), String>)
    ensures
        match flag_fault(opt_value(v)) {
            None => r is Ok,
            Some(e) => r matches Err(x) && x@ == e,
        },
{
    match v {
        None => Ok(()),
        Some(JsonValue::Bool(true)) => Ok(()),
        Some(JsonValue::Bool(false)) => Err(owned("capability_config_unavailable")),
        Some(_) => Err(owned("capability_invalid_doctor_report")),
    }
}

fn list_check(v: Option<&JsonValue>) -> (r: Result<(), String>)
    ensures
        match list_fault(opt_value(v)) {
            None => r is Ok,
            Some(e) => r matches Err(x) && x@ == e,
        },
{
    match v {
        Some(JsonValue::Array(_)) => Ok(()),
        None => Ok(()),
        Some(_) => Err(owned("capability_invalid_doctor_report")),
    }
}

/// Checks that a doctor report is machine-readable and that the configuration loaded.
pub fn validate_doctor_shape(value: &JsonValue) -> (r: Result<(), String>)
    ensures
        match doctor_fault(*value) {
            None => r is Ok,
            Some(e) => r matches Err(x) && x@ == e,
        },
{
    match value {
        JsonValue::Object(m) => {
            flag_check(get_member(m, "config_loaded"))?;
            flag_check(get_member(m, "configLoaded"))?;
            match get_member(m, "config") {
                None => {},
                Some(JsonValue::Object(c)) => {
                    flag_check(get_member(c, "loaded"))?;
                    flag_check(get_member(c, "config_loaded"))?;
                    flag_check(get_member(c, "configLoaded"))?;
                },
                Some(JsonValue::Null) => {},
                Some(_) => {
                    return Err(owned("capability_invalid_doctor_report"));
                },
            }
            list_check(get_member(m, "role_warnings"))?;
            list_check(get_member(m, "roleWarnings"))
        },
        _ => Err(owned("capability_invalid_doctor_report")),
    }
}

/// The model list of a model report: the value itself when it is an array; else its `models`
/// member when that is an array; else the first member, in order, that holds one.
pub open spec fn models_in(v: JsonValue) -> Option<Seq<JsonValue>>
    decreases v, 1nat,
{
    match v {
        JsonValue::Array(a) => Some(a@),
        JsonValue::Object(m) => match member(m@, "models"@) {
            Some(JsonValue::Array(a)) => Some(a@),
            _ => {
                proof {
                    assert(decreases_to!(v => m));
                    assert(decreases_to!(m => m@));
                }
                models_in_members(m@)
            },
        },
        _ => None,
    }
}

/// The model list of the first member that holds one.
pub open spec fn models_in_members(s: Seq<(String, JsonValue)>) -> Option<Seq<JsonValue>>
    decreases s, 0nat,
{
    if s.len() == 0 {
        None
    } else {
        proof {
            assert(decreases_to!(s => s[0]));
            assert(decreases_to!(s[0] => s[0].1));
            assert(decreases_to!(s => s.subrange(1, s.len() as int)));
        }
        match models_in(s[0].1) {
            Some(x) => Some(x),
            None => models_in_members(s.subrange(1, s.len() as int)),
        }
    }
}

fn find_models<'a>(value: &'a JsonValue) -> (r: Option<&'a Vec<JsonValue>>)
    ensures
        match r {
            Some(a) => models_in(*value) == Some(a@),
            None => models_in(*value) is None,
        },
    decreases value,
{
    match value {
        JsonValue::Array(a) => Some(a),
        JsonValue::Object(m) => {
            match get_member(m, "models") {
                Some(JsonValue::Array(a)) => {
                    return Some(a);
                },
                _ => {},
            }
            let ghost s = m@;
            assert(s.subrange(0, s.len() as int) =~= s);
            let mut i: usize = 0;
            while i < m.len()
                invariant
                    i <= s.len(),
                    s == m@,
                    *value == JsonValue::Object(*m),
                    models_in(*value) == models_in_members(s.subrange(i as int, s.len() as int)),
                decreases s.len() - i,
            {
                let ghost rest = s.subrange(i as int, s.len() as int);
                assert(rest[0] == s[i as int]);
                assert(rest.subrange(1, rest.len() as int) =~= s.subrange(i + 1, s.len() as int));
                proof {
                    assert(decreases_to!(*value => *m));
                    assert(decreases_to!(*m => m@));
                    assert(decreases_to!(m@ => m@[i as int]));
                    assert(decreases_to!(m@[i as int] => m@[i as int].1));
                }
                match find_models(&m[i].1) {
                    Some(a) => {
                        return Some(a);
                    },
                    None => {},
                }
                i += 1;
            }
            None
        },
        _ => None,
    }
}

pub open spec fn model_invalid() -> Seq<char> {
    "capability_model_invalid"@
}

pub open spec fn models_missing() -> Seq<char> {
    "capability_models_missing"@
}

pub open spec fn invalid_json() -> Seq<char> {
    "capability_invalid_json"@
}

/// The member under the first key when present, else the one under the second.
pub open spec fn either_member(m: Seq<(String, JsonValue)>, a: Seq<char>, b: Seq<char>) -> Option<JsonValue> {
    if member(m, a) is Some { member(m, a) } else { member(m, b) }
}

pub open spec fn as_text(v: Option<JsonValue>) -> Option<Seq<char>> {
    match v {
        Some(JsonValue::Str(s)) => Some(s@),
        _ => None,
    }
}

/// A reasoning level is its name, or an object whose `effort` names it.
pub open spec fn level_effort(l: JsonValue) -> Option<Seq<char>> {
    match l {
        JsonValue::Str(s) => Some(s@),
        _ => as_text(crate::json::field(l, "effort"@)),
    }
}

pub open spec fn efforts_of(levels: Seq<JsonValue>) -> Option<Seq<Seq<char>>>
    decreases levels.len(),
{
    if levels.len() == 0 {
        Some(Seq::empty())
    } else {
        match (efforts_of(levels.drop_last()), level_effort(levels.last())) {
            (Some(e), Some(x)) => Some(e.push(x)),
            _ => None,
        }
    }
}

/// The machine fields of a model entry, each under its snake or camel case key.
pub open spec fn model_fields(v: JsonValue) -> Option<ModelSpec> {
    match v {
        JsonValue::Object(m) => {
            let slug = as_text(either_member(m@, "slug"@, "id"@));
            let version = as_text(either_member(m@, "multi_agent_version"@, "multiAgentVersion"@));
            match (slug, version, either_member(m@, "supported_reasoning_levels"@, "supportedReasoningLevels"@)) {
                (Some(sl), Some(ver), Some(JsonValue::Array(ls))) => match efforts_of(ls@) {
                    Some(e) => Some(ModelSpec { slug: sl, version: ver, levels: e }),
                    None => None,
                },
                _ => None,
            }
        },
        _ => None,
    }
}

/// A model entry read as a capability, or the code of what is wrong with it.
pub open spec fn model_result(v: JsonValue) -> Result<ModelSpec, Seq<char>> {
    match model_fields(v) {
        None => Err(model_invalid()),
        Some(ms) => match model_capability_error(ms) {
            Some(c) => Err(role_error_text(c)),
            None => Ok(ms),
        },
    }
}

/// The entries read in order; the first bad one decides.
pub open spec fn models_result(vs: Seq<JsonValue>) -> Result<Seq<ModelSpec>, Seq<char>>
    decreases vs.len(),
{
    if vs.len() == 0 {
        Ok(Seq::empty())
    } else {
        match models_result(vs.drop_last()) {
            Err(e) => Err(e),
            Ok(ms) => match model_result(vs.last()) {
                Err(e) => Err(e),
                Ok(m) => Ok(ms.push(m)),
            },
        }
    }
}

/// The capability snapshot that two parsed reports give, or the code of the first problem.
pub open spec fn reports_result(doctor: Option<JsonValue>, models: Option<JsonValue>, identity: Seq<char>, fetched_at_ms: u64) -> Result<SnapshotSpec, Seq<char>> {
    match (doctor, models) {
        (Some(d), Some(mv)) => match doctor_fault(d) {
            Some(e) => Err(e),
            None => match models_in(mv) {
                None => Err(models_missing()),
                Some(list) => match models_result(list) {
                    Err(e) => Err(e),
                    Ok(ms) => if ms.len() == 0 {
                        Err(models_missing())
                    } else if identity_error(identity) is Some {
                        Err(role_error_text(RoleErrorCode::InvalidText))
                    } else {
                        Ok(SnapshotSpec { models: snapshot_models(ms), executable_identity: identity, fetched_at_ms })
                    },
                },
            },
        },
        _ => Err(invalid_json()),
    }
}

pub open spec fn snapshot_result(r: Result<CapabilitySnapshot, String>) -> Result<SnapshotSpec, Seq<char>> {
    match r {
        Ok(s) => Ok(s@),
        Err(e) => Err(e@),
    }
}

fn effort_of(level: &JsonValue) -> (r: Option<String>)
    ensures
        crate::model::opt_view(r) == level_effort(*level),
{
    match level {
        JsonValue::Str(s) => Some(s.clone()),
        _ => match crate::json::get_text(level, "effort") {
            Some(t) => Some(owned(t)),
            None => None,
        },
    }
}

fn member_either<'a>(m: &'a Vec<(String, JsonValue)>, a: &str, b: &str) -> (r: Option<&'a JsonValue>)
    ensures
        opt_value(r) == either_member(m@, a@, b@),
{
    match get_member(m, a) {
        Some(v) => Some(v),
        None => get_member(m, b),
    }
}

fn text_of(v: Option<&JsonValue>) -> (r: Option<String>)
    ensures
        crate::model::opt_view(r) == as_text(opt_value(v)),
{
    match v {
        Some(JsonValue::Str(s)) => Some(s.clone()),
        _ => None,
    }
}

/// Reads one model entry of the model report.
pub fn parse_model(value: &JsonValue) -> (r: Result<ModelCapability, String>)
    ensures
        match model_result(*value) {
            Ok(m) => r matches Ok(c) && c@ == m,
            Err(e) => r matches Err(x) && x@ == e,
        },
{
    let m = match value {
        JsonValue::Object(m) => m,
        _ => {
            return Err(owned("capability_model_invalid"));
        },
    };
    let slug = match text_of(member_either(m, "slug", "id")) {
        Some(t) => t,
        None => {
            return Err(owned("capability_model_invalid"));
        },
    };
    let version = match text_of(member_either(m, "multi_agent_version", "multiAgentVersion")) {
        Some(t) => t,
        None => {
            return Err(owned("capability_model_invalid"));
        },
    };
    let levels = match member_either(m, "supported_reasoning_levels", "supportedReasoningLevels") {
        Some(JsonValue::Array(ls)) => ls,
        _ => {
            return Err(owned("capability_model_invalid"));
        },
    };
    let mut efforts: Vec<String> = Vec::new();
    assert(levels@.subrange(0, 0) =~= Seq::<JsonValue>::empty());
    assert(strings_view(efforts@) =~= Seq::<Seq<char>>::empty());
    let mut i: usize = 0;
    while i < levels.len()
        invariant
            i <= levels@.len(),
            efforts_of(levels@.subrange(0, i as int)) == Some(strings_view(efforts@)),
            efforts_of(levels@) is None ==> model_fields(*value) is None,
        decreases levels@.len() - i,
    {
        assert(levels@.subrange(0, i + 1).drop_last() =~= levels@.subrange(0, i as int));
        assert(levels@.subrange(0, i + 1).last() == levels@[i as int]);
        match effort_of(&levels[i]) {
            Some(e) => {
                let ghost before = efforts@;
                efforts.push(e);
                assert(strings_view(efforts@) =~= strings_view(before).push(efforts@.last()@));
            },
            None => {
                proof {
                    lemma_efforts_none_extends(levels@, i as int + 1);
                }
                return Err(owned("capability_model_invalid"));
            },
        }
        i += 1;
    }
    assert(levels@.subrange(0, levels@.len() as int) =~= levels@);
    match ModelCapability::new(slug.as_str(), version.as_str(), efforts) {
        Ok(c) => Ok(c),
        Err(e) => Err(owned(e.as_str())),
    }
}

proof fn lemma_efforts_none_extends(levels: Seq<JsonValue>, k: int)
    requires
        0 <= k <= levels.len(),
        efforts_of(levels.subrange(0, k)) is None,
    ensures
        efforts_of(levels) is None,
    decreases levels.len() - k,
{
    if k < levels.len() {
        assert(levels.subrange(0, k + 1).drop_last() =~= levels.subrange(0, k));
        lemma_efforts_none_extends(levels, k + 1);
    } else {
        assert(levels.subrange(0, k) =~= levels);
    }
}

proof fn lemma_models_err_extends(vs: Seq<JsonValue>, k: int)
    requires
        0 <= k <= vs.len(),
        models_result(vs.subrange(0, k)) is Err,
    ensures
        models_result(vs) == models_result(vs.subrange(0, k)),
    decreases vs.len() - k,
{
    if k < vs.len() {
        assert(vs.subrange(0, k + 1).drop_last() =~= vs.subrange(0, k));
        lemma_models_err_extends(vs, k + 1);
    } else {
        assert(vs.subrange(0, k) =~= vs);
    }
}

/// The capability snapshot of two parsed reports (`None` where a report was not JSON).
pub fn snapshot_from_reports(doctor: Option<JsonValue>, models: Option<JsonValue>, executable_identity: String, fetched_at_ms: u64) -> (r: Result<CapabilitySnapshot, String>)
    ensures
        snapshot_result(r) == reports_result(doctor, models, executable_identity@, fetched_at_ms),
{
    let (d, mv) = match (doctor, models) {
        (Some(d), Some(mv)) => (d, mv),
        _ => {
            return Err(owned("capability_invalid_json"));
        },
    };
    validate_doctor_shape(&d)?;
    let list = match find_models(&mv) {
        Some(list) => list,
        None => {
            return Err(owned("capability_models_missing"));
        },
    };
    let mut capabilities: Vec<ModelCapability> = Vec::new();
    assert(list@.subrange(0, 0) =~= Seq::<JsonValue>::empty());
    assert(models_view(capabilities@) =~= Seq::<ModelSpec>::empty());
    let mut i: usize = 0;
    while i < list.len()
        invariant
            i <= list@.len(),
            models_result(list@.subrange(0, i as int)) == Ok::<Seq<ModelSpec>, Seq<char>>(models_view(capabilities@)),
            models_result(list@) is Err ==> reports_result(doctor, models, executable_identity@, fetched_at_ms)
                == Err::<SnapshotSpec, Seq<char>>(models_result(list@)->Err_0),
        decreases list@.len() - i,
    {
        assert(list@.subrange(0, i + 1).drop_last() =~= list@.subrange(0, i as int));
        assert(list@.subrange(0, i + 1).last() == list@[i as int]);
        match parse_model(&list[i]) {
            Ok(c) => {
                let ghost before = capabilities@;
                capabilities.push(c);
                assert(models_view(capabilities@) =~= models_view(before).push(c@));
            },
            Err(e) => {
                proof {
                    lemma_models_err_extends(list@, i as int + 1);
                }
                return Err(e);
            },
        }
        i += 1;
    }
    assert(list@.subrange(0, list@.len() as int) =~= list@);
    if capabilities.len() == 0 {
        return Err(owned("capability_models_missing"));
    }
    proof {
        lemma_checked_models_have_no_error(models_view(capabilities@), list@);
    }
    match CapabilitySnapshot::new(capabilities, executable_identity.as_str(), fetched_at_ms) {
        Ok(snapshot) => Ok(snapshot),
        Err(e) => Err(owned(e.as_str())),
    }
}

proof fn lemma_checked_models_have_no_error(ms: Seq<ModelSpec>, vs: Seq<JsonValue>)
    requires
        models_result(vs) == Ok::<Seq<ModelSpec>, Seq<char>>(ms),
    ensures
        crate::roles::models_error(ms) is None,
    decreases vs.len(),
{
    if vs.len() > 0 {
        let prefix = models_result(vs.drop_last());
        let ps = prefix->Ok_0;
        lemma_checked_models_have_no_error(ps, vs.drop_last());
        assert(ms.drop_last() =~= ps);
    }
}

/// Reads the doctor and model reports into a capability snapshot.
pub fn parse_reports(doctor_bytes: &[u8], models_bytes: &[u8], executable_identity: String, fetched_at_ms: u64) -> (r: Result<CapabilitySnapshot, String>)
    ensures
        snapshot_result(r) == reports_result(
            crate::json::json_document(doctor_bytes@),
            crate::json::json_document(models_bytes@),
            executable_identity@,
            fetched_at_ms,
        ),
{
    let doctor = crate::json::parse_json(doctor_bytes);
    let models = crate::json::parse_json(models_bytes);
    snapshot_from_reports(doctor, models, executable_identity, fetched_at_ms)
}

/// A report command counts only when it exited successfully.
pub fn ensure_success(success: bool) -> (r: Result<(), String>)
    ensures
        success <==> r is Ok,
        r matches Err(e) ==> e@ == "capability_command_failed"@,
{
    if success { Ok(()) } else { Err(owned("capability_command_failed")) }
}

} // verus!
