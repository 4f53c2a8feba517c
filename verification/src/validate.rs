//! Input checks of custom parameters and guarded files.
use vstd::prelude::*;
use crate::model::GuardFileFormat;
use crate::text::{owned, str_eq, starts_with, is_blank, chars_of};

verus! {

pub const CUSTOM_ID_PREFIX: &'static str = "custom.";

/// Custom parameter ids carry the `custom.` prefix exactly once.
pub open spec fn custom_id(id: Seq<char>) -> Seq<char> {
    if starts_with(id, CUSTOM_ID_PREFIX@) {
        id
    } else {
        CUSTOM_ID_PREFIX@ + id
    }
}

pub fn normalize_custom_id(id: &str) -> (r: String)
    ensures
        r@ == custom_id(id@),
{
    let v = chars_of(id);
    let p = chars_of(CUSTOM_ID_PREFIX);
    if crate::text::starts_with_chars(&v, &p) {
        owned(id)
    } else {
        let r = crate::text::concat_chars(&p, &v);
        crate::text::string_of(&r)
    }
}

/// Normalising twice is normalising once.
pub proof fn law_custom_id_idempotent(id: Seq<char>)
    ensures
        custom_id(custom_id(id)) == custom_id(id),
{
    if !starts_with(id, CUSTOM_ID_PREFIX@) {
        assert((CUSTOM_ID_PREFIX@ + id).subrange(0, CUSTOM_ID_PREFIX@.len() as int) =~= CUSTOM_ID_PREFIX@);
    }
}

/// Why a relative file path is refused: blank, absolute, or holding a `..` part.
pub open spec fn file_path_error(rel: Seq<char>) -> Option<Seq<char>> {
    if is_blank(rel) {
        Some("File path cannot be empty"@)
    } else if rel.len() > 0 && (rel[0] == '/' || rel[0] == '\\') {
        Some("File path must be relative to ~/.codex and cannot start with /"@)
    } else if exists|i: int| 0 <= i < crate::journal::path_parts(rel).len() && #[trigger] crate::journal::path_parts(rel)[i] == ".."@ {
        Some("File path cannot contain .. and must stay inside ~/.codex"@)
    } else {
        None
    }
}

pub open spec fn check_text(e: Option<Seq<char>>) -> Result<(), Seq<char>> {
    match e {
        Some(m) => Err(m),
        None => Ok(()),
    }
}

pub open spec fn text_result(r: Result<(), String>) -> Result<(), Seq<char>> {
    match r {
        Ok(()) => Ok(()),
        Err(e) => Err(e@),
    }
}

fn has_dotdot_part(v: &[char]) -> (r: bool)
    ensures
        r == exists|i: int| 0 <= i < crate::journal::path_parts(v@).len() && #[trigger] crate::journal::path_parts(v@)[i] == ".."@,
{
    let dots = chars_of("..");
    let mut current: Vec<char> = Vec::new();
    let mut i: usize = 0;
    while i < v.len()
        invariant
            i <= v@.len(),
            dots@ == ".."@,
            crate::journal::path_parts(v@.subrange(0, i as int)).len() >= 1,
            current@ == crate::journal::path_parts(v@.subrange(0, i as int)).last(),
            forall|k: int| 0 <= k < crate::journal::path_parts(v@.subrange(0, i as int)).len() - 1
                ==> #[trigger] crate::journal::path_parts(v@.subrange(0, i as int))[k] != ".."@,
        decreases v@.len() - i,
    {
        let ghost pre = v@.subrange(0, i as int);
        let ghost next = v@.subrange(0, i + 1);
        assert(next.drop_last() =~= pre);
        let c = v[i];
        if c == '/' || c == '\\' {
            if crate::text::chars_eq(&current, &dots) {
                proof {
                    let k = crate::journal::path_parts(pre).len() - 1;
                    assert(crate::journal::path_parts(next) == crate::journal::path_parts(pre).push(Seq::<char>::empty()));
                    lemma_part_persists(v@, i + 1, k);
                }
                return true;
            }
            current = Vec::new();
        } else {
            current.push(c);
        }
        i += 1;
    }
    assert(v@.subrange(0, v@.len() as int) =~= v@);
    crate::text::chars_eq(&current, &dots)
}

/// A part finished by a prefix is a part of the whole path.
proof fn lemma_part_persists(s: Seq<char>, n: int, k: int)
    requires
        0 < n <= s.len(),
        0 <= k < crate::journal::path_parts(s.subrange(0, n)).len() - 1,
    ensures
        crate::journal::path_parts(s)[k] == crate::journal::path_parts(s.subrange(0, n))[k],
        k < crate::journal::path_parts(s).len(),
    decreases s.len() - n,
{
    if n == s.len() {
        assert(s.subrange(0, n) =~= s);
    } else {
        let pre = s.subrange(0, n);
        let next = s.subrange(0, n + 1);
        assert(next.drop_last() =~= pre);
        lemma_part_persists(s, n + 1, k);
    }
}

pub fn validate_file_path(rel: &str) -> (r: Result<(), String>)
    ensures
        text_result(r) == check_text(file_path_error(rel@)),
{
    let v = chars_of(rel);
    if crate::text::is_blank_chars(&v) {
        return Err(owned("File path cannot be empty"));
    }
    if v.len() > 0 && (v[0] == '/' || v[0] == '\\') {
        return Err(owned("File path must be relative to ~/.codex and cannot start with /"));
    }
    if has_dotdot_part(&v) {
        return Err(owned("File path cannot contain .. and must stay inside ~/.codex"));
    }
    Ok(())
}

/// A guarded file needs a name and a valid relative path.
pub fn validate_guard_file(f: &crate::guard::GuardFile) -> (r: Result<(), String>)
    ensures
        is_blank(f.name@) ==> text_result(r) == Err::<(), Seq<char>>("File name cannot be empty"@),
        !is_blank(f.name@) ==> text_result(r) == check_text(file_path_error(f.file@)),
{
    if crate::text::is_blank_chars(&chars_of(f.name.as_str())) {
        return Err(owned("File name cannot be empty"));
    }
    validate_file_path(f.file.as_str())
}

pub open spec fn known_apply_mode(mode: Seq<char>) -> bool {
    mode == "toml_key"@ || mode == "toml_absent"@ || mode == "file_overwrite"@ || mode == "markdown_block"@
}

pub fn validate_apply_mode(mode: &str) -> (r: Result<(), String>)
    ensures
        known_apply_mode(mode@) ==> r is Ok,
        !known_apply_mode(mode@) ==> text_result(r) == Err::<(), Seq<char>>("Unsupported apply_mode: "@ + mode@),
{
    if str_eq(mode, "toml_key") || str_eq(mode, "toml_absent") || str_eq(mode, "file_overwrite") || str_eq(mode, "markdown_block") {
        return Ok(());
    }
    let mut v: Vec<char> = Vec::new();
    crate::text::push_str(&mut v, "Unsupported apply_mode: ");
    crate::text::push_str(&mut v, mode);
    Err(crate::text::string_of(&v))
}

pub open spec fn known_value_type(t: Seq<char>) -> bool {
    t == "bool"@ || t == "int"@ || t == "string"@ || t == "text"@ || t == "none"@
}

pub fn validate_value_type(value_type: &str) -> (r: Result<(), String>)
    ensures
        known_value_type(value_type@) ==> r is Ok,
        !known_value_type(value_type@) ==> text_result(r) == Err::<(), Seq<char>>("Unsupported value_type: "@ + value_type@),
{
    if str_eq(value_type, "bool") || str_eq(value_type, "int") || str_eq(value_type, "string") || str_eq(value_type, "text")
        || str_eq(value_type, "none") {
        return Ok(());
    }
    let mut v: Vec<char> = Vec::new();
    crate::text::push_str(&mut v, "Unsupported value_type: ");
    crate::text::push_str(&mut v, value_type);
    Err(crate::text::string_of(&v))
}

/// Which apply modes a file format admits: TOML keys for TOML, blocks for Markdown, and
/// whole-file overwrite for every format.
pub open spec fn mode_fits(format: GuardFileFormat, mode: Seq<char>) -> bool {
    (format == GuardFileFormat::Toml && (mode == "toml_key"@ || mode == "toml_absent"@))
        || (format == GuardFileFormat::Markdown && mode == "markdown_block"@) || mode == "file_overwrite"@
}

pub fn validate_param_for_file(apply_mode: &str, format: GuardFileFormat) -> (r: Result<(), String>)
    ensures
        mode_fits(format, apply_mode@) ==> r is Ok,
        !mode_fits(format, apply_mode@) ==> text_result(r) == Err::<(), Seq<char>>(
            "Apply mode "@ + apply_mode@ + " is incompatible with file format "@ + crate::model::format_name(format),
        ),
{
    let fits = (format == GuardFileFormat::Toml && (str_eq(apply_mode, "toml_key") || str_eq(apply_mode, "toml_absent")))
        || (format == GuardFileFormat::Markdown && str_eq(apply_mode, "markdown_block")) || str_eq(apply_mode, "file_overwrite");
    if fits {
        return Ok(());
    }
    let mut v: Vec<char> = Vec::new();
    crate::text::push_str(&mut v, "Apply mode ");
    crate::text::push_str(&mut v, apply_mode);
    crate::text::push_str(&mut v, " is incompatible with file format ");
    crate::text::push_str(&mut v, format.as_str());
    Err(crate::text::string_of(&v))
}

/// The first problem of a parameter's fields, in the order they are checked.
pub open spec fn param_fields_error(
    file: Seq<char>,
    apply_mode: Seq<char>,
    value_type: Seq<char>,
    label: Seq<char>,
    path: Seq<char>,
) -> Option<Seq<char>> {
    if file_path_error(file) is Some {
        file_path_error(file)
    } else if !known_apply_mode(apply_mode) {
        Some("Unsupported apply_mode: "@ + apply_mode)
    } else if !known_value_type(value_type) {
        Some("Unsupported value_type: "@ + value_type)
    } else if is_blank(label) {
        Some("label cannot be empty"@)
    } else if (apply_mode == "toml_key"@ || apply_mode == "toml_absent"@) && is_blank(path) {
        Some(apply_mode + " mode requires a path"@)
    } else if apply_mode == "toml_key"@ && value_type == "none"@ {
        Some("value_type of toml_key mode cannot be none"@)
    } else {
        None
    }
}

/// Checks a parameter's path, apply mode, value type, label and TOML path.
pub fn validate_param_fields(file: &str, apply_mode: &str, value_type: &str, label: &str, path: &str) -> (r:
    Result<(), String>)
    ensures
        text_result(r) == check_text(param_fields_error(file@, apply_mode@, value_type@, label@, path@)),
{
    validate_file_path(file)?;
    validate_apply_mode(apply_mode)?;
    validate_value_type(value_type)?;
    if crate::text::is_blank_chars(&chars_of(label)) {
        return Err(owned("label cannot be empty"));
    }
    if (str_eq(apply_mode, "toml_key") || str_eq(apply_mode, "toml_absent")) && crate::text::is_blank_chars(&chars_of(path)) {
        let mut v: Vec<char> = Vec::new();
        crate::text::push_str(&mut v, apply_mode);
        crate::text::push_str(&mut v, " mode requires a path");
        return Err(crate::text::string_of(&v));
    }
    if str_eq(apply_mode, "toml_key") && str_eq(value_type, "none") {
        return Err(owned("value_type of toml_key mode cannot be none"));
    }
    Ok(())
}


/// File format names of the legacy file list: `toml`, `json` or `md`.
pub open spec fn known_format_name(f: Seq<char>) -> bool {
    f == "toml"@ || f == "json"@ || f == "md"@
}

pub fn validate_format(format: &str) -> (r: Result<(), String>)
    ensures
        known_format_name(format@) ==> r is Ok,
        !known_format_name(format@) ==> text_result(r) == Err::<(), Seq<char>>("Unsupported file format: "@ + format@),
{
    if str_eq(format, "toml") || str_eq(format, "json") || str_eq(format, "md") {
        return Ok(());
    }
    let mut v: Vec<char> = Vec::new();
    crate::text::push_str(&mut v, "Unsupported file format: ");
    crate::text::push_str(&mut v, format);
    Err(crate::text::string_of(&v))
}

} // verus!
