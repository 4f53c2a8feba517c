//! The rules of the guard commands: which edits of a parameter's value and lifecycle are
//! allowed, and how guarded files and custom parameters are added, renamed and removed.
//! Loading and saving the configuration is the caller's.
use vstd::prelude::*;
use crate::engine::GuardValue;
use crate::guard::GuardFile;
use crate::model::GuardParam;
use crate::text::{chars_of, owned, push_str, str_eq, string_of, trim};
use crate::validate::{check_text, custom_id, file_path_error, text_result};

verus! {

/// A value may be set only with the type of its parameter; parameters of other types are not
/// editable.
pub open spec fn value_type_error(value_type: Seq<char>, value: GuardValue) -> Option<Seq<char>> {
    let fits = if value_type == "bool"@ {
        Some(value is Bool)
    } else if value_type == "int"@ {
        Some(value is Int)
    } else if value_type == "string"@ || value_type == "text"@ {
        Some(value is Str)
    } else {
        None
    };
    match fits {
        None => Some("Parameter type "@ + value_type + " is not editable"@),
        Some(true) => None,
        Some(false) => Some("Value type mismatch"@),
    }
}

pub fn check_value_type(value_type: &str, value: &GuardValue) -> (r: Result<(), String>)
    ensures
        text_result(r) == check_text(value_type_error(value_type@, *value)),
{
    let fits = if str_eq(value_type, "bool") {
        matches!(value, GuardValue::Bool(_))
    } else if str_eq(value_type, "int") {
        matches!(value, GuardValue::Int(_))
    } else if str_eq(value_type, "string") || str_eq(value_type, "text") {
        matches!(value, GuardValue::Str(_))
    } else {
        let mut v = chars_of("Parameter type ");
        push_str(&mut v, value_type);
        push_str(&mut v, " is not editable");
        return Err(string_of(&v));
    };
    if fits {
        Ok(())
    } else {
        Err(owned("Value type mismatch"))
    }
}

/// A locked parameter's value cannot change.
pub fn check_value_edit(locked: bool) -> (r: Result<(), String>)
    ensures
        text_result(r) == (if locked { Err("Parameter is locked; unlock it before modifying"@) } else { Ok::<(), Seq<char>>(()) }),
{
    if locked { Err(owned("Parameter is locked; unlock it before modifying")) } else { Ok(()) }
}

/// A locked parameter must be unlocked before it is disabled.
pub fn check_disable(locked: bool) -> (r: Result<(), String>)
    ensures
        text_result(r) == (if locked { Err("Unlock the parameter before disabling it"@) } else { Ok::<(), Seq<char>>(()) }),
{
    if locked { Err(owned("Unlock the parameter before disabling it")) } else { Ok(()) }
}

/// Only an applied parameter can be locked.
pub fn check_lock(lock: bool, applied: bool) -> (r: Result<(), String>)
    ensures
        text_result(r) == (if lock && !applied { Err("Apply the parameter before locking it"@) } else { Ok::<(), Seq<char>>(()) }),
{
    if lock && !applied { Err(owned("Apply the parameter before locking it")) } else { Ok(()) }
}

/// Locking restores a parameter whose check found it drifted or missing.
pub fn needs_restore(status: &str) -> (r: bool)
    ensures
        r == (status@ == "drift"@ || status@ == "missing"@),
{
    str_eq(status, "drift") || str_eq(status, "missing")
}

/// What `char::is_alphanumeric` gives for a character (Unicode `Alphabetic` or `Numeric`).
pub uninterp spec fn alphanumeric(c: char) -> bool;

/// `char::is_alphanumeric`.
#[verifier::external_body]
fn is_alphanumeric(c: char) -> (r: bool)
    ensures
        r == alphanumeric(c),
{
    c.is_alphanumeric()
}

pub open spec fn lead_dashes(s: Seq<char>) -> nat
    decreases s.len(),
{
    if s.len() > 0 && s[0] == '-' { 1 + lead_dashes(s.drop_first()) } else { 0 }
}

pub open spec fn trail_dashes(s: Seq<char>) -> nat
    decreases s.len(),
{
    if s.len() > 0 && s.last() == '-' { 1 + trail_dashes(s.drop_last()) } else { 0 }
}

proof fn lemma_dash_bounds(s: Seq<char>)
    ensures
        lead_dashes(s) <= s.len(),
        trail_dashes(s) <= s.len(),
    decreases s.len(),
{
    if s.len() > 0 {
        lemma_dash_bounds(s.drop_first());
        lemma_dash_bounds(s.drop_last());
    }
}

/// `str::trim_matches('-')`.
pub open spec fn trim_dashes(s: Seq<char>) -> Seq<char> {
    let a = s.subrange(lead_dashes(s) as int, s.len() as int);
    a.subrange(0, a.len() - trail_dashes(a))
}

/// The slug of a file name: lowercased, every character that is not alphanumeric turned into
/// a dash, and the dashes at either end dropped.
pub open spec fn file_slug(name: Seq<char>) -> Seq<char> {
    trim_dashes(crate::text::lowercase(name).map_values(|c: char| if alphanumeric(c) { c } else { '-' }))
}

fn trim_dashes_of(v: &[char]) -> (r: Vec<char>)
    ensures
        r@ == trim_dashes(v@),
{
    let ghost s = v@;
    let mut k: usize = 0;
    assert(s.subrange(0, s.len() as int) =~= s);
    while k < v.len() && v[k] == '-'
        invariant
            k <= s.len(),
            s == v@,
            lead_dashes(s) == k + lead_dashes(s.subrange(k as int, s.len() as int)),
        decreases s.len() - k,
    {
        assert(s.subrange(k as int, s.len() as int).drop_first() =~= s.subrange(k + 1, s.len() as int));
        k += 1;
    }
    let a = crate::text::sub_chars(v, k, v.len());
    let ghost av = a@;
    let mut e: usize = a.len();
    assert(av.subrange(0, av.len() as int) =~= av);
    while e > 0 && a[e - 1] == '-'
        invariant
            e <= av.len(),
            av == a@,
            trail_dashes(av) == (av.len() - e) + trail_dashes(av.subrange(0, e as int)),
        decreases e,
    {
        assert(av.subrange(0, e as int).drop_last() =~= av.subrange(0, e - 1));
        e -= 1;
    }
    crate::text::sub_chars(&a, 0, e)
}

pub fn file_slug_of(name: &str) -> (r: String)
    ensures
        r@ == file_slug(name@),
{
    let lower = crate::text::to_lowercase(name);
    let cs = chars_of(lower.as_str());
    let mut mapped: Vec<char> = Vec::new();
    let mut i: usize = 0;
    while i < cs.len()
        invariant
            i <= cs@.len(),
            mapped@ == cs@.subrange(0, i as int).map_values(|c: char| if alphanumeric(c) { c } else { '-' }),
        decreases cs@.len() - i,
    {
        let c = cs[i];
        mapped.push(if is_alphanumeric(c) { c } else { '-' });
        assert(mapped@ =~= cs@.subrange(0, i + 1).map_values(|c: char| if alphanumeric(c) { c } else { '-' }));
        i += 1;
    }
    assert(cs@.subrange(0, cs@.len() as int) =~= cs@);
    string_of(&trim_dashes_of(&mapped))
}

pub open spec fn has_file_id(files: Seq<GuardFile>, id: Seq<char>) -> bool {
    exists|k: int| 0 <= k < files.len() && (#[trigger] files[k]).id@ == id
}

pub open spec fn has_file_path(files: Seq<GuardFile>, path: Seq<char>) -> bool {
    exists|k: int| 0 <= k < files.len() && (#[trigger] files[k]).file@ == path
}

fn any_id(files: &[GuardFile], id: &str) -> (r: bool)
    ensures
        r == has_file_id(files@, id@),
{
    let mut k: usize = 0;
    while k < files.len()
        invariant
            k <= files@.len(),
            forall|m: int| 0 <= m < k ==> (#[trigger] files@[m]).id@ != id@,
        decreases files@.len() - k,
    {
        if str_eq(files[k].id.as_str(), id) {
            return true;
        }
        k += 1;
    }
    false
}

fn any_path(files: &[GuardFile], path: &str) -> (r: bool)
    ensures
        r == has_file_path(files@, path@),
{
    let mut k: usize = 0;
    while k < files.len()
        invariant
            k <= files@.len(),
            forall|m: int| 0 <= m < k ==> (#[trigger] files@[m]).file@ != path@,
        decreases files@.len() - k,
    {
        if str_eq(files[k].file.as_str(), path) {
            return true;
        }
        k += 1;
    }
    false
}

fn with_text(prefix: &str, s: &str) -> (r: String)
    ensures
        r@ == prefix@ + s@,
{
    let mut v = chars_of(prefix);
    push_str(&mut v, s);
    string_of(&v)
}

/// The custom file a new guarded file becomes: its id from its name's slug, its trimmed name
/// and path; refused when the name has no letter or digit, when its id or path is taken, or
/// when the file is not valid.
pub fn plan_add_file(files: &[GuardFile], name: &str, file: &str, format: crate::model::GuardFileFormat) -> (r: Result<GuardFile, String>)
    ensures
        ({
            let slug = file_slug(name@);
            let id = custom_id(slug);
            let path = trim(file@);
            if slug.len() == 0 {
                r matches Err(e) && e@ == "File name must contain at least one letter or digit"@
            } else if has_file_id(files@, id) {
                r matches Err(e) && e@ == "A file with the same name already exists: "@ + name@
            } else if has_file_path(files@, path) {
                r matches Err(e) && e@ == "Path already in guard list: "@ + path
            } else if crate::text::is_blank(trim(name@)) {
                r matches Err(e) && e@ == "File name cannot be empty"@
            } else if file_path_error(path) is Some {
                r matches Err(e) && Some(e@) == file_path_error(path)
            } else {
                r matches Ok(g) && g.id@ == id && g.name@ == trim(name@) && g.file@ == path && g.format == format && !g.builtin
                    && g.detection is None
            }
        }),
{
    let slug = file_slug_of(name);
    if slug.as_str().as_bytes().len() == 0 {
        proof {
            vstd::utf8::encode_utf8_decode_utf8(slug@);
        }
        return Err(owned("File name must contain at least one letter or digit"));
    }
    proof {
        vstd::utf8::encode_utf8_decode_utf8(slug@);
    }
    let id = crate::validate::normalize_custom_id(slug.as_str());
    if any_id(files, id.as_str()) {
        return Err(with_text("A file with the same name already exists: ", name));
    }
    let trimmed = crate::text::trim_str(file);
    if any_path(files, trimmed.as_str()) {
        return Err(with_text("Path already in guard list: ", trimmed.as_str()));
    }
    let gf = GuardFile {
        id,
        name: crate::text::trim_str(name),
        file: trimmed,
        format,
        builtin: false,
        detection: None,
    };
    match crate::validate::validate_guard_file(&gf) {
        Ok(()) => Ok(gf),
        Err(e) => Err(e),
    }
}

/// The first file with this id.
pub open spec fn file_index(files: Seq<GuardFile>, id: Seq<char>) -> Option<int>
    decreases files.len(),
{
    if files.len() == 0 {
        None
    } else {
        match file_index(files.drop_last(), id) {
            Some(k) => Some(k),
            None => if files.last().id@ == id { Some(files.len() - 1) } else { None },
        }
    }
}

proof fn lemma_file_index_prefix(files: Seq<GuardFile>, id: Seq<char>, k: int)
    requires
        0 <= k <= files.len(),
        file_index(files.subrange(0, k), id) is Some,
    ensures
        file_index(files, id) == file_index(files.subrange(0, k), id),
    decreases files.len() - k,
{
    if k < files.len() {
        assert(files.subrange(0, k + 1).drop_last() =~= files.subrange(0, k));
        lemma_file_index_prefix(files, id, k + 1);
    } else {
        assert(files.subrange(0, k) =~= files);
    }
}

fn position_of(files: &[GuardFile], id: &str) -> (r: Option<usize>)
    ensures
        match r {
            Some(k) => k < files@.len() && file_index(files@, id@) == Some(k as int),
            None => file_index(files@, id@) is None,
        },
{
    let mut k: usize = 0;
    assert(files@.subrange(0, 0) =~= Seq::<GuardFile>::empty());
    while k < files.len()
        invariant
            k <= files@.len(),
            file_index(files@.subrange(0, k as int), id@) is None,
        decreases files@.len() - k,
    {
        assert(files@.subrange(0, k + 1).drop_last() =~= files@.subrange(0, k as int));
        assert(files@.subrange(0, k + 1).last() == files@[k as int]);
        if str_eq(files[k].id.as_str(), id) {
            proof {
                lemma_file_index_prefix(files@, id@, k + 1);
            }
            return Some(k);
        }
        k += 1;
    }
    assert(files@.subrange(0, files@.len() as int) =~= files@);
    None
}

/// Another file than the one with this id has the path.
pub open spec fn path_taken_by_other(files: Seq<GuardFile>, id: Seq<char>, path: Seq<char>) -> bool {
    exists|k: int| 0 <= k < files.len() && (#[trigger] files[k]).id@ != id && files[k].file@ == path
}

fn other_has_path(files: &[GuardFile], id: &str, path: &str) -> (r: bool)
    ensures
        r == path_taken_by_other(files@, id@, path@),
{
    let mut k: usize = 0;
    while k < files.len()
        invariant
            k <= files@.len(),
            forall|m: int| 0 <= m < k ==> !((#[trigger] files@[m]).id@ != id@ && files@[m].file@ == path@),
        decreases files@.len() - k,
    {
        if !str_eq(files[k].id.as_str(), id) && str_eq(files[k].file.as_str(), path) {
            return true;
        }
        k += 1;
    }
    false
}

fn copy_detection(d: &Option<crate::guard::DetectRecord>) -> (r: Option<crate::guard::DetectRecord>)
    ensures
        r == *d,
{
    match d {
        Some(x) => Some(crate::guard::DetectRecord {
            path: match &x.path {
                Some(p) => Some(p.clone()),
                None => None,
            },
            at: x.at,
        }),
        None => None,
    }
}

/// A guarded file renamed or moved: its new trimmed name and path; a new path drops the old
/// detection. Refused for an unknown id, a path another file has, or an invalid file. The
/// result is the file's position and its new form.
pub fn plan_update_file(files: &[GuardFile], id: &str, name: &str, file: &str) -> (r: Result<(usize, GuardFile), String>)
    ensures
        match file_index(files@, id@) {
            None => r matches Err(e) && e@ == "File not found: "@ + id@,
            Some(k) => {
                let old = files@[k];
                let path = trim(file@);
                if old.file@ != path && path_taken_by_other(files@, id@, path) {
                    r matches Err(e) && e@ == "Path already in guard list: "@ + path
                } else if crate::text::is_blank(trim(name@)) {
                    r matches Err(e) && e@ == "File name cannot be empty"@
                } else if file_path_error(path) is Some {
                    r matches Err(e) && Some(e@) == file_path_error(path)
                } else {
                    r matches Ok((p, g)) && p == k && g.id == old.id && g.name@ == trim(name@) && g.file@ == path
                        && g.format == old.format && g.builtin == old.builtin
                        && g.detection == (if old.file@ != path { None } else { old.detection })
                }
            },
        },
{
    let k = match position_of(files, id) {
        None => {
            return Err(with_text("File not found: ", id));
        },
        Some(k) => k,
    };
    let old = &files[k];
    let new_file = crate::text::trim_str(file);
    let moved = !str_eq(old.file.as_str(), new_file.as_str());
    if moved && other_has_path(files, id, new_file.as_str()) {
        return Err(with_text("Path already in guard list: ", new_file.as_str()));
    }
    let g = GuardFile {
        id: old.id.clone(),
        name: crate::text::trim_str(name),
        file: new_file,
        format: old.format,
        builtin: old.builtin,
        detection: if moved { None } else { copy_detection(&old.detection) },
    };
    match crate::validate::validate_guard_file(&g) {
        Ok(()) => Ok((k, g)),
        Err(e) => Err(e),
    }
}

/// Custom parameters of a moved file follow it: each one on the old path gets the new one.
/// Whether any did is returned.
pub fn relink_custom_params(params: &mut Vec<GuardParam>, old_file: &str, new_file: &str) -> (r: bool)
    ensures
        final(params)@.len() == old(params)@.len(),
        forall|k: int| 0 <= k < old(params)@.len() ==> (#[trigger] final(params)@[k]) == (if old(params)@[k].custom && old(params)@[k].file@ == old_file@ {
            GuardParam { file: final(params)@[k].file, ..old(params)@[k] }
        } else {
            old(params)@[k]
        }),
        forall|k: int| 0 <= k < old(params)@.len() && old(params)@[k].custom && old(params)@[k].file@ == old_file@ ==> (#[trigger] final(params)@[k]).file@ == new_file@,
        r == exists|k: int| 0 <= k < old(params)@.len() && (#[trigger] old(params)@[k]).custom && old(params)@[k].file@ == old_file@,
{
    let ghost before = params@;
    let mut changed = false;
    let mut k: usize = 0;
    while k < params.len()
        invariant
            k <= params@.len(),
            params@.len() == before.len(),
            forall|m: int| k <= m < before.len() ==> #[trigger] params@[m] == before[m],
            forall|m: int| 0 <= m < k ==> (#[trigger] params@[m]) == (if before[m].custom && before[m].file@ == old_file@ {
                GuardParam { file: params@[m].file, ..before[m] }
            } else {
                before[m]
            }),
            forall|m: int| 0 <= m < k && before[m].custom && before[m].file@ == old_file@ ==> (#[trigger] params@[m]).file@ == new_file@,
            changed == exists|m: int| 0 <= m < k && (#[trigger] before[m]).custom && before[m].file@ == old_file@,
        decreases params@.len() - k,
    {
        if params[k].custom && str_eq(params[k].file.as_str(), old_file) {
            let mut p = params.remove(k);
            p.file = owned(new_file);
            params.insert(k, p);
            changed = true;
        }
        k += 1;
    }
    changed
}

/// A guarded file can be removed when it exists and is not built in; its position is returned.
pub fn plan_remove_file(files: &[GuardFile], id: &str) -> (r: Result<usize, String>)
    ensures
        match file_index(files@, id@) {
            None => r matches Err(e) && e@ == "File not found: "@ + id@,
            Some(k) => if files@[k].builtin {
                r matches Err(e) && e@ == "Built-in files cannot be removed"@
            } else {
                r == Ok::<usize, String>(k as usize)
            },
        },
{
    match position_of(files, id) {
        None => Err(with_text("File not found: ", id)),
        Some(k) => if files[k].builtin { Err(owned("Built-in files cannot be removed")) } else { Ok(k) },
    }
}

/// The parameters that go with a removed file: its custom parameters.
pub open spec fn goes_with(p: GuardParam, file: Seq<char>) -> bool {
    p.custom && p.file@ == file
}

/// Drops the custom parameters of a removed file and gives their ids, in order.
pub fn drop_file_params(params: &mut Vec<GuardParam>, file: &str) -> (r: Vec<String>)
    ensures
        final(params)@ == old(params)@.filter(|p: GuardParam| !goes_with(p, file@)),
        crate::roles::strings_view(r@) == old(params)@.filter(|p: GuardParam| goes_with(p, file@)).map_values(|p: GuardParam| p.id@),
{
    let ghost before = params@;
    let mut kept: Vec<GuardParam> = Vec::new();
    let mut ids: Vec<String> = Vec::new();
    let mut k: usize = 0;
    while k < params.len()
        invariant
            k <= params@.len(),
            params@ == before,
            kept@ == before.subrange(0, k as int).filter(|p: GuardParam| !goes_with(p, file@)),
            crate::roles::strings_view(ids@) == before.subrange(0, k as int).filter(|p: GuardParam| goes_with(p, file@)).map_values(|p: GuardParam| p.id@),
        decreases params@.len() - k,
    {
        proof {
            reveal(Seq::filter);
            assert(before.subrange(0, k + 1).drop_last() =~= before.subrange(0, k as int));
            assert(before.subrange(0, k + 1).last() == before[k as int]);
        }
        let ghost ids_before = crate::roles::strings_view(ids@);
        let ghost gone_before = before.subrange(0, k as int).filter(|p: GuardParam| goes_with(p, file@));
        if params[k].custom && str_eq(params[k].file.as_str(), file) {
            ids.push(params[k].id.clone());
            assert(crate::roles::strings_view(ids@) =~= ids_before.push(before[k as int].id@));
            assert(gone_before.push(before[k as int]).map_values(|p: GuardParam| p.id@) =~= gone_before.map_values(|p: GuardParam| p.id@).push(before[k as int].id@));
        } else {
            kept.push(params[k].duplicate());
        }
        k += 1;
    }
    assert(before.subrange(0, before.len() as int) =~= before);
    *params = kept;
    ids
}

/// The first parameter with this id.
pub open spec fn param_index(params: Seq<GuardParam>, id: Seq<char>) -> Option<int>
    decreases params.len(),
{
    if params.len() == 0 {
        None
    } else {
        match param_index(params.drop_last(), id) {
            Some(k) => Some(k),
            None => if params.last().id@ == id { Some(params.len() - 1) } else { None },
        }
    }
}

proof fn lemma_param_index_prefix(params: Seq<GuardParam>, id: Seq<char>, k: int)
    requires
        0 <= k <= params.len(),
        param_index(params.subrange(0, k), id) is Some,
    ensures
        param_index(params, id) == param_index(params.subrange(0, k), id),
    decreases params.len() - k,
{
    if k < params.len() {
        assert(params.subrange(0, k + 1).drop_last() =~= params.subrange(0, k));
        lemma_param_index_prefix(params, id, k + 1);
    } else {
        assert(params.subrange(0, k) =~= params);
    }
}

/// A custom parameter saved on disk replaces the first one with its id, or is added last.
pub fn upsert_custom_param(disk: &mut Vec<GuardParam>, param: GuardParam)
    ensures
        match param_index(old(disk)@, param.id@) {
            Some(k) => final(disk)@ == old(disk)@.update(k, param),
            None => final(disk)@ == old(disk)@.push(param),
        },
{
    let ghost before = disk@;
    let mut k: usize = 0;
    assert(before.subrange(0, 0) =~= Seq::<GuardParam>::empty());
    while k < disk.len()
        invariant
            k <= disk@.len(),
            disk@ == before,
            before == old(disk)@,
            param_index(before.subrange(0, k as int), param.id@) is None,
        decreases disk@.len() - k,
    {
        assert(before.subrange(0, k + 1).drop_last() =~= before.subrange(0, k as int));
        assert(before.subrange(0, k + 1).last() == before[k as int]);
        if str_eq(disk[k].id.as_str(), param.id.as_str()) {
            proof {
                assert(param_index(before.subrange(0, k + 1), param.id@) == Some(k as int));
                lemma_param_index_prefix(before, param.id@, k + 1);
            }
            disk.set(k, param);
            return;
        }
        k += 1;
    }
    assert(before.subrange(0, before.len() as int) =~= before);
    disk.push(param);
}

/// The schema without the parameters that carry this id.
pub open spec fn without_id(params: Seq<GuardParam>, id: Seq<char>) -> Seq<GuardParam> {
    params.filter(|p: GuardParam| p.id@ != id)
}

/// Removes the custom parameter with this id (with its `custom.` prefix added when missing)
/// from the disk schema; refused when there is none. The normalized id is returned.
pub fn remove_custom_param(disk: &mut Vec<GuardParam>, id: &str) -> (r: Result<String, String>)
    ensures
        ({
            let nid = custom_id(id@);
            let kept = without_id(old(disk)@, nid);
            if kept.len() == old(disk)@.len() {
                r matches Err(e) && e@ == "Custom parameter not found: "@ + nid && final(disk)@ == old(disk)@
            } else {
                r matches Ok(x) && x@ == nid && final(disk)@ == kept
            }
        }),
{
    let nid = crate::validate::normalize_custom_id(id);
    let ghost before = disk@;
    let mut kept: Vec<GuardParam> = Vec::new();
    let mut k: usize = 0;
    while k < disk.len()
        invariant
            k <= disk@.len(),
            disk@ == before,
            nid@ == custom_id(id@),
            kept@ == without_id(before.subrange(0, k as int), nid@),
        decreases disk@.len() - k,
    {
        proof {
            reveal(Seq::filter);
            assert(before.subrange(0, k + 1).drop_last() =~= before.subrange(0, k as int));
            assert(before.subrange(0, k + 1).last() == before[k as int]);
        }
        if !str_eq(disk[k].id.as_str(), nid.as_str()) {
            kept.push(disk[k].duplicate());
        }
        k += 1;
    }
    assert(before.subrange(0, before.len() as int) =~= before);
    assert(kept@ == without_id(before, nid@));
    if kept.len() == disk.len() {
        return Err(with_text("Custom parameter not found: ", nid.as_str()));
    }
    *disk = kept;
    Ok(nid)
}


/// A path with its backslashes turned into forward slashes.
pub open spec fn forward_slashes(s: Seq<char>) -> Seq<char> {
    s.map_values(|c: char| if c == '\\' { '/' } else { c })
}

/// A picked file, given by its path below the Codex home, becomes that path with forward
/// slashes, refused as the guarded-file path check refuses it.
pub fn picked_relative_path(rel: &str) -> (r: Result<String, String>)
    ensures
        match file_path_error(forward_slashes(rel@)) {
            None => r matches Ok(x) && x@ == forward_slashes(rel@),
            Some(e) => r matches Err(m) && m@ == e,
        },
{
    let v = chars_of(rel);
    let mut out: Vec<char> = Vec::new();
    let mut k: usize = 0;
    while k < v.len()
        invariant
            k <= v@.len(),
            v@ == rel@,
            out@ == forward_slashes(v@.subrange(0, k as int)),
        decreases v@.len() - k,
    {
        let c = v[k];
        if c == '\\' {
            out.push('/');
        } else {
            out.push(c);
        }
        assert(forward_slashes(v@.subrange(0, k + 1)) =~= forward_slashes(v@.subrange(0, k as int)).push(
            if c == '\\' { '/' } else { c },
        ));
        k += 1;
    }
    assert(v@.subrange(0, v@.len() as int) =~= v@);
    let s = string_of(&out);
    match crate::validate::validate_file_path(s.as_str()) {
        Ok(()) => Ok(s),
        Err(e) => Err(e),
    }
}

/// Whether the periodic check looks at a parameter: it is locked and its file is listed.
pub open spec fn watched(p: GuardParam, files: Seq<GuardFile>, locked: Seq<Seq<char>>) -> bool {
    has_file_path(files, p.file@) && locked.contains(p.id@)
}

/// The ids of the parameters that the periodic check compares with their files, in schema
/// order: those that are locked and whose file is in the list of guarded files.
pub fn watched_params(schema: &[GuardParam], files: &[GuardFile], locked: &Vec<String>) -> (r: Vec<String>)
    ensures
        crate::roles::strings_view(r@) == schema@.filter(
            |p: GuardParam| watched(p, files@, crate::ownership::strings_view(locked@)),
        ).map_values(|p: GuardParam| p.id@),
{
    let ghost lv = crate::ownership::strings_view(locked@);
    let mut ids: Vec<String> = Vec::new();
    let mut k: usize = 0;
    while k < schema.len()
        invariant
            k <= schema@.len(),
            lv == crate::ownership::strings_view(locked@),
            crate::roles::strings_view(ids@) == schema@.subrange(0, k as int).filter(
                |p: GuardParam| watched(p, files@, lv),
            ).map_values(|p: GuardParam| p.id@),
        decreases schema@.len() - k,
    {
        proof {
            reveal(Seq::filter);
            assert(schema@.subrange(0, k + 1).drop_last() =~= schema@.subrange(0, k as int));
            assert(schema@.subrange(0, k + 1).last() == schema@[k as int]);
        }
        let ghost ids_before = crate::roles::strings_view(ids@);
        let ghost picked = schema@.subrange(0, k as int).filter(|p: GuardParam| watched(p, files@, lv));
        if any_path(files, schema[k].file.as_str()) && crate::audit::contains_string(locked, schema[k].id.as_str()) {
            ids.push(schema[k].id.clone());
            assert(crate::roles::strings_view(ids@) =~= ids_before.push(schema@[k as int].id@));
            assert(picked.push(schema@[k as int]).map_values(|p: GuardParam| p.id@) =~= picked.map_values(
                |p: GuardParam| p.id@,
            ).push(schema@[k as int].id@));
        }
        k += 1;
    }
    assert(schema@.subrange(0, schema@.len() as int) =~= schema@);
    ids
}

} // verus!
