//! Path and ownership checks of the Guard configuration, run before any Guard write.
//!
//! What the file system says of each guarded path (its resolved real path, or why it cannot
//! be used) is gathered by the caller and passed in; every decision is made here.
use vstd::prelude::*;
use crate::journal::path_parts;
use crate::text::{chars_of, owned, str_eq, trim, is_ws, lowercase};
use crate::guard::GuardFile;
use crate::model::GuardParam;

verus! {

#[derive(Debug, Clone, Copy, PartialEq, Eq, Structural)]
pub enum OwnershipCode {
    InvalidPath,
    NonCanonicalPath,
    PathOutsideRoot,
    PathSymlink,
    PathTargetDirectory,
    PathProbeFailed,
    InvalidParamId,
    DuplicateFileId,
    DuplicateFilePath,
    ParentFilePathConflict,
    DuplicateParamId,
    UnknownFile,
    DuplicateTomlPath,
    TomlParentChildConflict,
    TomlAbsentConflict,
    FileOverwriteConflict,
    ExternalKeyOwned,
}

pub open spec fn ownership_text(c: OwnershipCode) -> Seq<char> {
    match c {
        OwnershipCode::InvalidPath => "ownership.invalid_path"@,
        OwnershipCode::NonCanonicalPath => "ownership.non_canonical_path"@,
        OwnershipCode::PathOutsideRoot => "ownership.path_outside_root"@,
        OwnershipCode::PathSymlink => "ownership.path_symlink"@,
        OwnershipCode::PathTargetDirectory => "ownership.path_target_directory"@,
        OwnershipCode::PathProbeFailed => "ownership.path_probe_failed"@,
        OwnershipCode::InvalidParamId => "ownership.invalid_param_id"@,
        OwnershipCode::DuplicateFileId => "ownership.duplicate_file_id"@,
        OwnershipCode::DuplicateFilePath => "ownership.duplicate_file_path"@,
        OwnershipCode::ParentFilePathConflict => "ownership.parent_file_path_conflict"@,
        OwnershipCode::DuplicateParamId => "ownership.duplicate_param_id"@,
        OwnershipCode::UnknownFile => "ownership.unknown_file"@,
        OwnershipCode::DuplicateTomlPath => "ownership.duplicate_toml_path"@,
        OwnershipCode::TomlParentChildConflict => "ownership.toml_parent_child_conflict"@,
        OwnershipCode::TomlAbsentConflict => "ownership.toml_absent_conflict"@,
        OwnershipCode::FileOverwriteConflict => "ownership.file_overwrite_conflict"@,
        OwnershipCode::ExternalKeyOwned => "ownership.external_key_owned"@,
    }
}

impl OwnershipCode {
    pub fn as_str(self) -> (r: &'static str)
        ensures
            r@ == ownership_text(self),
    {
        match self {
            OwnershipCode::InvalidPath => "ownership.invalid_path",
            OwnershipCode::NonCanonicalPath => "ownership.non_canonical_path",
            OwnershipCode::PathOutsideRoot => "ownership.path_outside_root",
            OwnershipCode::PathSymlink => "ownership.path_symlink",
            OwnershipCode::PathTargetDirectory => "ownership.path_target_directory",
            OwnershipCode::PathProbeFailed => "ownership.path_probe_failed",
            OwnershipCode::InvalidParamId => "ownership.invalid_param_id",
            OwnershipCode::DuplicateFileId => "ownership.duplicate_file_id",
            OwnershipCode::DuplicateFilePath => "ownership.duplicate_file_path",
            OwnershipCode::ParentFilePathConflict => "ownership.parent_file_path_conflict",
            OwnershipCode::DuplicateParamId => "ownership.duplicate_param_id",
            OwnershipCode::UnknownFile => "ownership.unknown_file",
            OwnershipCode::DuplicateTomlPath => "ownership.duplicate_toml_path",
            OwnershipCode::TomlParentChildConflict => "ownership.toml_parent_child_conflict",
            OwnershipCode::TomlAbsentConflict => "ownership.toml_absent_conflict",
            OwnershipCode::FileOverwriteConflict => "ownership.file_overwrite_conflict",
            OwnershipCode::ExternalKeyOwned => "ownership.external_key_owned",
        }
    }
}

#[derive(Debug, Clone, Copy, PartialEq, Eq, Structural)]
pub struct OwnershipError {
    pub code: OwnershipCode,
}

impl OwnershipError {
    pub fn new(code: OwnershipCode) -> (r: Self)
        ensures
            r.code == code,
    {
        OwnershipError { code }
    }

    /// The stable code, as the error's message.
    pub fn message(&self) -> (r: String)
        ensures
            r@ == ownership_text(self.code),
    {
        owned(self.code.as_str())
    }
}

pub open spec fn ores<T>(r: Result<T, OwnershipError>) -> Result<(), OwnershipCode> {
    match r {
        Ok(_) => Ok(()),
        Err(e) => Err(e.code),
    }
}

// ---------- relative paths ----------

/// The parts that a normalised path keeps: every part but empty ones and `.`.
pub open spec fn kept_parts(parts: Seq<Seq<char>>) -> Seq<Seq<char>>
    decreases parts.len(),
{
    if parts.len() == 0 {
        parts
    } else if parts.last().len() == 0 || parts.last() == "."@ {
        kept_parts(parts.drop_last())
    } else {
        kept_parts(parts.drop_last()).push(parts.last())
    }
}

/// A relative guard path in its one spelling: trimmed, `/`-separated, without empty or `.`
/// parts; empty, NUL-holding, absolute, drive-prefixed and `..` paths are refused.
pub open spec fn normalized_path(raw: Seq<char>) -> Result<Seq<char>, OwnershipCode> {
    let t = trim(raw);
    let parts = path_parts(t);
    if t.len() == 0 || t.contains('\0') {
        Err(OwnershipCode::InvalidPath)
    } else if t[0] == '/' || t[0] == '\\' || parts[0].contains(':') {
        Err(OwnershipCode::InvalidPath)
    } else if parts.contains(".."@) {
        Err(OwnershipCode::InvalidPath)
    } else if kept_parts(parts).len() == 0 {
        Err(OwnershipCode::InvalidPath)
    } else {
        Ok(crate::text::join_with(kept_parts(parts), "/"@))
    }
}

pub open spec fn path_result(r: Result<String, OwnershipError>) -> Result<Seq<char>, OwnershipCode> {
    match r {
        Ok(s) => Ok(s@),
        Err(e) => Err(e.code),
    }
}

/// Splits at `/` and `\`, as `path_parts` does.
fn split_path(v: &[char]) -> (r: Vec<Vec<char>>)
    ensures
        crate::text::chars_view(r@) == path_parts(v@),
{
    let mut parts: Vec<Vec<char>> = Vec::new();
    parts.push(Vec::new());
    let mut i: usize = 0;
    assert(crate::text::chars_view(parts@) =~= path_parts(v@.subrange(0, 0)));
    while i < v.len()
        invariant
            i <= v@.len(),
            parts@.len() >= 1,
            crate::text::chars_view(parts@) == path_parts(v@.subrange(0, i as int)),
        decreases v@.len() - i,
    {
        let ghost before = parts@;
        assert(v@.subrange(0, i + 1).drop_last() =~= v@.subrange(0, i as int));
        let c = v[i];
        if c == '/' || c == '\\' {
            parts.push(Vec::new());
            assert(crate::text::chars_view(parts@) =~= crate::text::chars_view(before).push(Seq::<char>::empty()));
        } else {
            let n = parts.len() - 1;
            let mut last = parts.pop().unwrap();
            let ghost lastv = last@;
            last.push(c);
            parts.push(last);
            assert(crate::text::chars_view(parts@) =~= crate::text::chars_view(before).update(
                n as int,
                lastv.push(c),
            ));
        }
        i += 1;
    }
    assert(v@.subrange(0, v@.len() as int) =~= v@);
    parts
}

fn any_part_is(parts: &Vec<Vec<char>>, target: &[char]) -> (r: bool)
    ensures
        r == crate::text::chars_view(parts@).contains(target@),
{
    let mut i: usize = 0;
    while i < parts.len()
        invariant
            i <= parts@.len(),
            forall|k: int| 0 <= k < i ==> #[trigger] crate::text::chars_view(parts@)[k] != target@,
        decreases parts@.len() - i,
    {
        if crate::text::chars_eq(parts[i].as_slice(), target) {
            assert(crate::text::chars_view(parts@)[i as int] == target@);
            return true;
        }
        i += 1;
    }
    false
}

fn keep_parts(parts: &Vec<Vec<char>>) -> (r: Vec<Vec<char>>)
    ensures
        crate::text::chars_view(r@) == kept_parts(crate::text::chars_view(parts@)),
{
    let ghost p = crate::text::chars_view(parts@);
    let dot = chars_of(".");
    let mut r: Vec<Vec<char>> = Vec::new();
    let mut i: usize = 0;
    while i < parts.len()
        invariant
            i <= parts@.len(),
            p == crate::text::chars_view(parts@),
            dot@ == "."@,
            crate::text::chars_view(r@) == kept_parts(p.subrange(0, i as int)),
        decreases parts@.len() - i,
    {
        assert(p.subrange(0, i + 1).drop_last() =~= p.subrange(0, i as int));
        if parts[i].len() != 0 && !crate::text::chars_eq(parts[i].as_slice(), &dot) {
            let ghost before = r@;
            let c = crate::text::sub_chars(parts[i].as_slice(), 0, parts[i].len());
            let ghost cv = c@;
            r.push(c);
            assert(cv =~= p[i as int]);
            assert(crate::text::chars_view(r@) =~= crate::text::chars_view(before).push(cv));
        }
        i += 1;
    }
    assert(p.subrange(0, p.len() as int) =~= p);
    r
}

pub fn normalize_relative_path(raw: &str) -> (r: Result<String, OwnershipError>)
    ensures
        path_result(r) == normalized_path(raw@),
{
    let t = crate::text::trim_chars(&chars_of(raw));
    if t.len() == 0 || crate::text::has_char(&t, '\0') {
        return Err(OwnershipError::new(OwnershipCode::InvalidPath));
    }
    let parts = split_path(&t);
    proof {
        crate::journal::lemma_path_parts_len_pub(t@);
    }
    if t[0] == '/' || t[0] == '\\' || crate::text::has_char(parts[0].as_slice(), ':') {
        return Err(OwnershipError::new(OwnershipCode::InvalidPath));
    }
    if any_part_is(&parts, &chars_of("..")) {
        return Err(OwnershipError::new(OwnershipCode::InvalidPath));
    }
    let kept = keep_parts(&parts);
    if kept.len() == 0 {
        return Err(OwnershipError::new(OwnershipCode::InvalidPath));
    }
    let joined = crate::text::join_chars(&kept, &chars_of("/"));
    Ok(crate::text::string_of(&joined))
}

/// The trimmed parts of a dotted key.
pub open spec fn key_parts(path: Seq<char>) -> Seq<Seq<char>> {
    crate::text::split_on(path, '.').map_values(|p: Seq<char>| trim(p))
}

/// A dotted TOML key in its one spelling: parts trimmed, none empty or holding a path
/// separator.
pub open spec fn normalized_toml_key(path: Seq<char>) -> Result<Seq<char>, OwnershipCode> {
    let parts = key_parts(path);
    if crate::text::is_blank(path) {
        Err(OwnershipCode::InvalidPath)
    } else if exists|i: int| 0 <= i < parts.len() && (#[trigger] parts[i].len() == 0 || parts[i] == "."@
        || parts[i] == ".."@ || parts[i].contains('/') || parts[i].contains('\\')) {
        Err(OwnershipCode::InvalidPath)
    } else {
        Ok(crate::text::join_with(parts, "."@))
    }
}

fn part_bad(p: &[char]) -> (r: bool)
    ensures
        r == (p@.len() == 0 || p@ == "."@ || p@ == ".."@ || p@.contains('/') || p@.contains('\\')),
{
    p.len() == 0 || crate::text::chars_eq(p, &chars_of(".")) || crate::text::chars_eq(p, &chars_of(".."))
        || crate::text::has_char(p, '/') || crate::text::has_char(p, '\\')
}

pub fn normalize_toml_path(path: &str) -> (r: Result<String, OwnershipError>)
    ensures
        path_result(r) == normalized_toml_key(path@),
{
    let v = chars_of(path);
    if crate::text::is_blank_chars(&v) {
        return Err(OwnershipError::new(OwnershipCode::InvalidPath));
    }
    let raw_parts = crate::text::split_chars(&v, '.');
    let ghost want = key_parts(v@);
    let mut parts: Vec<Vec<char>> = Vec::new();
    let mut i: usize = 0;
    while i < raw_parts.len()
        invariant
            i <= raw_parts@.len(),
            v@ == path@,
            !crate::text::is_blank(v@),
            crate::text::chars_view(raw_parts@) == crate::text::split_on(v@, '.'),
            want == key_parts(v@),
            want.len() == raw_parts@.len(),
            crate::text::chars_view(parts@) == want.subrange(0, i as int),
            forall|k: int| 0 <= k < i ==> !(#[trigger] want[k].len() == 0 || want[k] == "."@ || want[k] == ".."@
                || want[k].contains('/') || want[k].contains('\\')),
        decreases raw_parts@.len() - i,
    {
        let t = crate::text::trim_chars(raw_parts[i].as_slice());
        assert(t@ == want[i as int]);
        if part_bad(&t) {
            assert(want[i as int].len() == 0 || want[i as int] == "."@ || want[i as int] == ".."@
                || want[i as int].contains('/') || want[i as int].contains('\\'));
            return Err(OwnershipError::new(OwnershipCode::InvalidPath));
        }
        let ghost before = parts@;
        let ghost tv = t@;
        parts.push(t);
        assert(crate::text::chars_view(parts@) =~= crate::text::chars_view(before).push(tv));
        assert(crate::text::chars_view(parts@) =~= want.subrange(0, i + 1));
        i += 1;
    }
    assert(want.subrange(0, want.len() as int) =~= want);
    assert(!(exists|k: int| 0 <= k < want.len() && (#[trigger] want[k].len() == 0 || want[k] == "."@
        || want[k] == ".."@ || want[k].contains('/') || want[k].contains('\\'))));
    let sep = chars_of(".");
    let joined = crate::text::join_chars(&parts, &sep);
    assert(joined@ == crate::text::join_with(want, "."@));
    assert(want == key_parts(path@));
    assert(normalized_toml_key(path@) == Ok::<Seq<char>, OwnershipCode>(crate::text::join_with(want, "."@)));
    Ok(crate::text::string_of(&joined))
}

// ---------- identifiers ----------

/// A parameter or file id: not empty, with no whitespace, NUL, `<` or `>`.
pub open spec fn param_id_ok(id: Seq<char>) -> bool {
    id.len() > 0 && forall|k: int| 0 <= k < id.len() ==> !bad_id_char(#[trigger] id[k])
}

pub open spec fn bad_id_char(c: char) -> bool {
    is_ws(c) || c == '\0' || c == '<' || c == '>'
}

pub fn valid_param_id(id: &str) -> (r: bool)
    ensures
        r == param_id_ok(id@),
{
    let v = chars_of(id);
    if v.len() == 0 {
        return false;
    }
    let mut k: usize = 0;
    while k < v.len()
        invariant
            k <= v@.len(),
            v@ == id@,
            forall|j: int| 0 <= j < k ==> !bad_id_char(#[trigger] v@[j]),
        decreases v@.len() - k,
    {
        let c = v[k];
        if crate::text::char_is_ws(c) || c == '\0' || c == '<' || c == '>' {
            return false;
        }
        k += 1;
    }
    true
}

// ---------- ownership of files and parameters ----------

/// The `/`-separated parts of a normalised path.
pub open spec fn slash_parts(p: Seq<char>) -> Seq<Seq<char>> {
    crate::text::split_on(p, '/')
}

/// `parent` is a proper prefix of `child`, part by part.
pub open spec fn is_path_prefix(parent: Seq<Seq<char>>, child: Seq<Seq<char>>) -> bool {
    parent.len() < child.len() && child.subrange(0, parent.len() as int) == parent
}

/// What the file system gave for each file: its real path, or why it cannot be used.
pub open spec fn resolved_view(v: Seq<Result<String, OwnershipCode>>) -> Seq<Result<Seq<char>, OwnershipCode>> {
    v.map_values(|r: Result<String, OwnershipCode>| match r {
        Ok(s) => Ok(s@),
        Err(c) => Err(c),
    })
}

/// Why file `i` cannot be guarded next to the files before it, if it cannot.
pub open spec fn file_fault(files: Seq<GuardFile>, resolved: Seq<Result<Seq<char>, OwnershipCode>>, i: int) -> Option<OwnershipCode> {
    let f = files[i];
    if !param_id_ok(f.id@) {
        Some(OwnershipCode::InvalidParamId)
    } else if exists|j: int| 0 <= j < i && #[trigger] lowercase(files[j].id@) == lowercase(f.id@) {
        Some(OwnershipCode::DuplicateFileId)
    } else if normalized_path(f.file@) is Err {
        Some(normalized_path(f.file@)->Err_0)
    } else if normalized_path(f.file@) != Ok::<Seq<char>, OwnershipCode>(f.file@) {
        Some(OwnershipCode::NonCanonicalPath)
    } else if resolved[i] is Err {
        Some(resolved[i]->Err_0)
    } else if exists|j: int| 0 <= j < i && #[trigger] files[j].file@ == f.file@ {
        Some(OwnershipCode::DuplicateFilePath)
    } else if exists|j: int| 0 <= j < i && (is_path_prefix(slash_parts(#[trigger] files[j].file@), slash_parts(f.file@))
        || is_path_prefix(slash_parts(f.file@), slash_parts(files[j].file@))) {
        Some(OwnershipCode::ParentFilePathConflict)
    } else if exists|j: int| 0 <= j < i && #[trigger] resolved[j] == resolved[i] {
        Some(OwnershipCode::DuplicateFilePath)
    } else {
        None
    }
}

/// The first fault among the first `n` files.
pub open spec fn files_fault(files: Seq<GuardFile>, resolved: Seq<Result<Seq<char>, OwnershipCode>>, n: int) -> Option<OwnershipCode>
    decreases n,
{
    if n <= 0 {
        None
    } else {
        match files_fault(files, resolved, n - 1) {
            Some(c) => Some(c),
            None => file_fault(files, resolved, n - 1),
        }
    }
}

/// Why the id of parameter `i` is refused, if it is.
pub open spec fn id_fault(params: Seq<GuardParam>, i: int) -> Option<OwnershipCode> {
    if !param_id_ok(params[i].id@) {
        Some(OwnershipCode::InvalidParamId)
    } else if exists|j: int| 0 <= j < i && #[trigger] lowercase(params[j].id@) == lowercase(params[i].id@) {
        Some(OwnershipCode::DuplicateParamId)
    } else {
        None
    }
}

pub open spec fn ids_fault(params: Seq<GuardParam>, n: int) -> Option<OwnershipCode>
    decreases n,
{
    if n <= 0 {
        None
    } else {
        match ids_fault(params, n - 1) {
            Some(c) => Some(c),
            None => id_fault(params, n - 1),
        }
    }
}

pub open spec fn is_toml_mode(mode: Seq<char>) -> bool {
    mode == "toml_key"@ || mode == "toml_absent"@
}

/// A key owned by another tool: one of the owned roots, or a key beneath one.
pub open spec fn externally_owned(roots: Seq<Seq<char>>, key: Seq<char>) -> bool {
    exists|k: int| 0 <= k < roots.len() && (key == #[trigger] roots[k] || (key.len() > roots[k].len()
        && key.subrange(0, roots[k].len() as int) == roots[k] && key[roots[k].len() as int] == '.'))
}

/// The dotted parts of the normalised key of a TOML parameter.
pub open spec fn key_segments(p: GuardParam) -> Seq<Seq<char>> {
    crate::text::split_on(normalized_toml_key(p.path@)->Ok_0, '.')
}

/// The conflict between TOML parameter `i` (with parts `seg`) and an earlier parameter `j`.
pub open spec fn toml_clash(params: Seq<GuardParam>, i: int, seg: Seq<Seq<char>>, j: int) -> Option<OwnershipCode> {
    let q = params[j];
    let absent = params[i].apply_mode@ == "toml_absent"@ || q.apply_mode@ == "toml_absent"@;
    if !(q.file@ == params[i].file@ && is_toml_mode(q.apply_mode@) && normalized_toml_key(q.path@) is Ok) {
        None
    } else if key_segments(q) == seg {
        Some(if absent { OwnershipCode::TomlAbsentConflict } else { OwnershipCode::DuplicateTomlPath })
    } else if is_path_prefix(key_segments(q), seg) || is_path_prefix(seg, key_segments(q)) {
        Some(if absent { OwnershipCode::TomlAbsentConflict } else { OwnershipCode::TomlParentChildConflict })
    } else {
        None
    }
}

/// The first clash with the parameters before `n`.
pub open spec fn first_toml_clash(params: Seq<GuardParam>, i: int, seg: Seq<Seq<char>>, n: int) -> Option<OwnershipCode>
    decreases n,
{
    if n <= 0 {
        None
    } else {
        match first_toml_clash(params, i, seg, n - 1) {
            Some(c) => Some(c),
            None => toml_clash(params, i, seg, n - 1),
        }
    }
}

/// Why parameter `i` cannot be guarded next to the files and the parameters before it.
pub open spec fn param_fault(files: Seq<GuardFile>, params: Seq<GuardParam>, roots: Seq<Seq<char>>, i: int) -> Option<OwnershipCode> {
    let p = params[i];
    if normalized_path(p.file@) is Err {
        Some(normalized_path(p.file@)->Err_0)
    } else if normalized_path(p.file@) != Ok::<Seq<char>, OwnershipCode>(p.file@) {
        Some(OwnershipCode::NonCanonicalPath)
    } else if !(exists|j: int| 0 <= j < files.len() && #[trigger] files[j].file@ == p.file@) {
        Some(OwnershipCode::UnknownFile)
    } else if p.file_id@.len() > 0 && (match crate::guard::file_for(crate::guard::files_view(files), p.file_id@) {
        None => true,
        Some(f) => f.file != p.file@,
    }) {
        Some(OwnershipCode::UnknownFile)
    } else if exists|j: int| 0 <= j < i && #[trigger] params[j].file@ == p.file@ && params[j].apply_mode@ == "file_overwrite"@ {
        Some(OwnershipCode::FileOverwriteConflict)
    } else if !is_toml_mode(p.apply_mode@) {
        None
    } else if normalized_toml_key(p.path@) is Err {
        Some(normalized_toml_key(p.path@)->Err_0)
    } else if p.file@ == "config.toml"@ && externally_owned(roots, normalized_toml_key(p.path@)->Ok_0) {
        Some(OwnershipCode::ExternalKeyOwned)
    } else {
        first_toml_clash(params, i, key_segments(p), i)
    }
}

pub open spec fn params_fault(files: Seq<GuardFile>, params: Seq<GuardParam>, roots: Seq<Seq<char>>, n: int) -> Option<OwnershipCode>
    decreases n,
{
    if n <= 0 {
        None
    } else {
        match params_fault(files, params, roots, n - 1) {
            Some(c) => Some(c),
            None => param_fault(files, params, roots, n - 1),
        }
    }
}

/// The verdict on a whole configuration: the first fault of the files, in order; else the
/// first refused parameter id; else the first fault of the parameters.
pub open spec fn ownership_verdict(
    files: Seq<GuardFile>,
    resolved: Seq<Result<Seq<char>, OwnershipCode>>,
    params: Seq<GuardParam>,
    roots: Seq<Seq<char>>,
) -> Result<(), OwnershipCode> {
    match files_fault(files, resolved, files.len() as int) {
        Some(c) => Err(c),
        None => match ids_fault(params, params.len() as int) {
            Some(c) => Err(c),
            None => match params_fault(files, params, roots, params.len() as int) {
                Some(c) => Err(c),
                None => Ok(()),
            },
        },
    }
}

pub open spec fn strings_view(v: Seq<String>) -> Seq<Seq<char>> {
    v.map_values(|s: String| s@)
}

proof fn lemma_files_fault_stays(files: Seq<GuardFile>, resolved: Seq<Result<Seq<char>, OwnershipCode>>, m: int, n: int)
    requires
        0 <= m <= n,
        files_fault(files, resolved, m) is Some,
    ensures
        files_fault(files, resolved, n) == files_fault(files, resolved, m),
    decreases n - m,
{
    if n > m {
        lemma_files_fault_stays(files, resolved, m, n - 1);
    }
}

proof fn lemma_ids_fault_stays(params: Seq<GuardParam>, m: int, n: int)
    requires
        0 <= m <= n,
        ids_fault(params, m) is Some,
    ensures
        ids_fault(params, n) == ids_fault(params, m),
    decreases n - m,
{
    if n > m {
        lemma_ids_fault_stays(params, m, n - 1);
    }
}

proof fn lemma_params_fault_stays(files: Seq<GuardFile>, params: Seq<GuardParam>, roots: Seq<Seq<char>>, m: int, n: int)
    requires
        0 <= m <= n,
        params_fault(files, params, roots, m) is Some,
    ensures
        params_fault(files, params, roots, n) == params_fault(files, params, roots, m),
    decreases n - m,
{
    if n > m {
        lemma_params_fault_stays(files, params, roots, m, n - 1);
    }
}

proof fn lemma_toml_clash_stays(params: Seq<GuardParam>, i: int, seg: Seq<Seq<char>>, m: int, n: int)
    requires
        0 <= m <= n,
        first_toml_clash(params, i, seg, m) is Some,
    ensures
        first_toml_clash(params, i, seg, n) == first_toml_clash(params, i, seg, m),
    decreases n - m,
{
    if n > m {
        lemma_toml_clash_stays(params, i, seg, m, n - 1);
    }
}

fn file_id_taken(files: &[GuardFile], i: usize) -> (r: bool)
    requires
        i < files@.len(),
    ensures
        r == exists|j: int| 0 <= j < i && #[trigger] lowercase(files@[j].id@) == lowercase(files@[i as int].id@),
{
    let lid = crate::text::to_lowercase(files[i].id.as_str());
    let mut j: usize = 0;
    while j < i
        invariant
            j <= i < files@.len(),
            lid@ == lowercase(files@[i as int].id@),
            forall|k: int| 0 <= k < j ==> #[trigger] lowercase(files@[k].id@) != lowercase(files@[i as int].id@),
        decreases i - j,
    {
        let lj = crate::text::to_lowercase(files[j].id.as_str());
        if str_eq(lj.as_str(), lid.as_str()) {
            return true;
        }
        j += 1;
    }
    false
}

fn param_id_taken(params: &[GuardParam], i: usize) -> (r: bool)
    requires
        i < params@.len(),
    ensures
        r == exists|j: int| 0 <= j < i && #[trigger] lowercase(params@[j].id@) == lowercase(params@[i as int].id@),
{
    let lid = crate::text::to_lowercase(params[i].id.as_str());
    let mut j: usize = 0;
    while j < i
        invariant
            j <= i < params@.len(),
            lid@ == lowercase(params@[i as int].id@),
            forall|k: int| 0 <= k < j ==> #[trigger] lowercase(params@[k].id@) != lowercase(params@[i as int].id@),
        decreases i - j,
    {
        let lj = crate::text::to_lowercase(params[j].id.as_str());
        if str_eq(lj.as_str(), lid.as_str()) {
            return true;
        }
        j += 1;
    }
    false
}

fn file_path_taken(files: &[GuardFile], n: usize, file: &str) -> (r: bool)
    requires
        n <= files@.len(),
    ensures
        r == exists|j: int| 0 <= j < n && #[trigger] files@[j].file@ == file@,
{
    let mut j: usize = 0;
    while j < n
        invariant
            j <= n <= files@.len(),
            forall|k: int| 0 <= k < j ==> #[trigger] files@[k].file@ != file@,
        decreases n - j,
    {
        if str_eq(files[j].file.as_str(), file) {
            return true;
        }
        j += 1;
    }
    false
}

fn parts_prefix(a: &Vec<Vec<char>>, b: &Vec<Vec<char>>) -> (r: bool)
    ensures
        r == is_path_prefix(crate::text::chars_view(a@), crate::text::chars_view(b@)),
{
    let ghost va = crate::text::chars_view(a@);
    let ghost vb = crate::text::chars_view(b@);
    if a.len() >= b.len() {
        return false;
    }
    let mut k: usize = 0;
    while k < a.len()
        invariant
            k <= a@.len() < b@.len(),
            va == crate::text::chars_view(a@),
            vb == crate::text::chars_view(b@),
            forall|m: int| 0 <= m < k ==> #[trigger] va[m] == vb[m],
        decreases a@.len() - k,
    {
        if !crate::text::chars_eq(a[k].as_slice(), b[k].as_slice()) {
            assert(vb.subrange(0, va.len() as int)[k as int] != va[k as int]);
            return false;
        }
        k += 1;
    }
    assert(vb.subrange(0, va.len() as int) =~= va);
    true
}

fn parent_path_taken(files: &[GuardFile], i: usize) -> (r: bool)
    requires
        i < files@.len(),
    ensures
        r == exists|j: int| 0 <= j < i && (is_path_prefix(slash_parts(#[trigger] files@[j].file@), slash_parts(files@[i as int].file@))
            || is_path_prefix(slash_parts(files@[i as int].file@), slash_parts(files@[j].file@))),
{
    let mine = crate::text::split_chars(&chars_of(files[i].file.as_str()), '/');
    let mut j: usize = 0;
    while j < i
        invariant
            j <= i < files@.len(),
            crate::text::chars_view(mine@) == slash_parts(files@[i as int].file@),
            forall|k: int| 0 <= k < j ==> !(is_path_prefix(slash_parts(#[trigger] files@[k].file@), slash_parts(files@[i as int].file@))
                || is_path_prefix(slash_parts(files@[i as int].file@), slash_parts(files@[k].file@))),
        decreases i - j,
    {
        let theirs = crate::text::split_chars(&chars_of(files[j].file.as_str()), '/');
        if parts_prefix(&theirs, &mine) || parts_prefix(&mine, &theirs) {
            return true;
        }
        j += 1;
    }
    false
}

fn real_path_taken(resolved: &[Result<String, OwnershipCode>], i: usize, target: &str) -> (r: bool)
    requires
        i < resolved@.len(),
    ensures
        r == exists|j: int| 0 <= j < i && #[trigger] resolved_view(resolved@)[j] == Ok::<Seq<char>, OwnershipCode>(target@),
{
    let ghost rv = resolved_view(resolved@);
    let mut j: usize = 0;
    while j < i
        invariant
            j <= i < resolved@.len(),
            rv == resolved_view(resolved@),
            forall|k: int| 0 <= k < j ==> #[trigger] rv[k] != Ok::<Seq<char>, OwnershipCode>(target@),
        decreases i - j,
    {
        match &resolved[j] {
            Ok(s) => {
                if str_eq(s.as_str(), target) {
                    assert(rv[j as int] == Ok::<Seq<char>, OwnershipCode>(target@));
                    return true;
                }
            },
            Err(_) => {},
        }
        j += 1;
    }
    false
}

fn file_fault_at(files: &[GuardFile], resolved: &[Result<String, OwnershipCode>], i: usize) -> (r: Option<OwnershipCode>)
    requires
        i < files@.len(),
        resolved@.len() == files@.len(),
    ensures
        r == file_fault(files@, resolved_view(resolved@), i as int),
{
    let ghost rv = resolved_view(resolved@);
    let f = &files[i];
    if !valid_param_id(f.id.as_str()) {
        return Some(OwnershipCode::InvalidParamId);
    }
    if file_id_taken(files, i) {
        return Some(OwnershipCode::DuplicateFileId);
    }
    match normalize_relative_path(f.file.as_str()) {
        Err(e) => {
            return Some(e.code);
        },
        Ok(n) => {
            if !str_eq(n.as_str(), f.file.as_str()) {
                return Some(OwnershipCode::NonCanonicalPath);
            }
        },
    }
    let target = match &resolved[i] {
        Err(c) => {
            return Some(*c);
        },
        Ok(s) => s,
    };
    assert(rv[i as int] == Ok::<Seq<char>, OwnershipCode>(target@));
    if file_path_taken(files, i, f.file.as_str()) {
        return Some(OwnershipCode::DuplicateFilePath);
    }
    if parent_path_taken(files, i) {
        return Some(OwnershipCode::ParentFilePathConflict);
    }
    if real_path_taken(resolved, i, target.as_str()) {
        return Some(OwnershipCode::DuplicateFilePath);
    }
    None
}

fn id_fault_at(params: &[GuardParam], i: usize) -> (r: Option<OwnershipCode>)
    requires
        i < params@.len(),
    ensures
        r == id_fault(params@, i as int),
{
    if !valid_param_id(params[i].id.as_str()) {
        return Some(OwnershipCode::InvalidParamId);
    }
    if param_id_taken(params, i) {
        return Some(OwnershipCode::DuplicateParamId);
    }
    None
}

/// Checks the ids of a set of stored parameters: each valid, none repeated up to case.
pub fn validate_param_ids(params: &[GuardParam]) -> (r: Result<(), OwnershipError>)
    ensures
        ores(r) == (match ids_fault(params@, params@.len() as int) {
            Some(c) => Err(c),
            None => Ok(()),
        }),
{
    let mut i: usize = 0;
    while i < params.len()
        invariant
            i <= params@.len(),
            ids_fault(params@, i as int) is None,
        decreases params@.len() - i,
    {
        match id_fault_at(params, i) {
            Some(c) => {
                proof {
                    lemma_ids_fault_stays(params@, i + 1, params@.len() as int);
                }
                return Err(OwnershipError::new(c));
            },
            None => {},
        }
        i += 1;
    }
    Ok(())
}

fn is_toml_mode_str(mode: &str) -> (r: bool)
    ensures
        r == is_toml_mode(mode@),
{
    str_eq(mode, "toml_key") || str_eq(mode, "toml_absent")
}

fn overwrite_before(params: &[GuardParam], i: usize) -> (r: bool)
    requires
        i < params@.len(),
    ensures
        r == exists|j: int| 0 <= j < i && #[trigger] params@[j].file@ == params@[i as int].file@
            && params@[j].apply_mode@ == "file_overwrite"@,
{
    let mut j: usize = 0;
    while j < i
        invariant
            j <= i < params@.len(),
            forall|k: int| 0 <= k < j ==> !(#[trigger] params@[k].file@ == params@[i as int].file@
                && params@[k].apply_mode@ == "file_overwrite"@),
        decreases i - j,
    {
        if str_eq(params[j].file.as_str(), params[i].file.as_str()) && str_eq(params[j].apply_mode.as_str(), "file_overwrite") {
            return true;
        }
        j += 1;
    }
    false
}

fn owned_key(roots: &[String], key: &str) -> (r: bool)
    ensures
        r == externally_owned(strings_view(roots@), key@),
{
    let ghost rs = strings_view(roots@);
    let kv = chars_of(key);
    let mut k: usize = 0;
    while k < roots.len()
        invariant
            k <= roots@.len(),
            rs == strings_view(roots@),
            kv@ == key@,
            forall|m: int| 0 <= m < k ==> !(key@ == #[trigger] rs[m] || (key@.len() > rs[m].len()
                && key@.subrange(0, rs[m].len() as int) == rs[m] && key@[rs[m].len() as int] == '.')),
        decreases roots@.len() - k,
    {
        let rv = chars_of(roots[k].as_str());
        assert(rv@ == rs[k as int]);
        if crate::text::chars_eq(&kv, &rv) {
            return true;
        }
        if kv.len() > rv.len() && crate::text::starts_with_chars(&kv, &rv) && kv[rv.len()] == '.' {
            return true;
        }
        k += 1;
    }
    false
}

fn parts_eq(a: &Vec<Vec<char>>, b: &Vec<Vec<char>>) -> (r: bool)
    ensures
        r == (crate::text::chars_view(a@) == crate::text::chars_view(b@)),
{
    let ghost va = crate::text::chars_view(a@);
    let ghost vb = crate::text::chars_view(b@);
    assert(va.len() == a@.len() && vb.len() == b@.len());
    if a.len() != b.len() {
        return false;
    }
    let mut k: usize = 0;
    while k < a.len()
        invariant
            k <= a@.len() == b@.len(),
            va == crate::text::chars_view(a@),
            vb == crate::text::chars_view(b@),
            forall|m: int| 0 <= m < k ==> #[trigger] va[m] == vb[m],
        decreases a@.len() - k,
    {
        if !crate::text::chars_eq(a[k].as_slice(), b[k].as_slice()) {
            assert(va[k as int] != vb[k as int]);
            return false;
        }
        k += 1;
    }
    assert(va =~= vb);
    true
}

fn toml_clash_at(params: &[GuardParam], i: usize, seg: &Vec<Vec<char>>, j: usize) -> (r: Option<OwnershipCode>)
    requires
        i < params@.len(),
        j < params@.len(),
    ensures
        r == toml_clash(params@, i as int, crate::text::chars_view(seg@), j as int),
{
    let q = &params[j];
    if !(str_eq(q.file.as_str(), params[i].file.as_str()) && is_toml_mode_str(q.apply_mode.as_str())) {
        return None;
    }
    let qk = match normalize_toml_path(q.path.as_str()) {
        Err(_) => {
            return None;
        },
        Ok(k) => k,
    };
    let qseg = crate::text::split_chars(&chars_of(qk.as_str()), '.');
    let absent = str_eq(params[i].apply_mode.as_str(), "toml_absent") || str_eq(q.apply_mode.as_str(), "toml_absent");
    if parts_eq(&qseg, seg) {
        return Some(if absent { OwnershipCode::TomlAbsentConflict } else { OwnershipCode::DuplicateTomlPath });
    }
    if parts_prefix(&qseg, seg) || parts_prefix(seg, &qseg) {
        return Some(if absent { OwnershipCode::TomlAbsentConflict } else { OwnershipCode::TomlParentChildConflict });
    }
    None
}

fn param_fault_at(files: &[GuardFile], params: &[GuardParam], roots: &[String], i: usize) -> (r: Option<OwnershipCode>)
    requires
        i < params@.len(),
    ensures
        r == param_fault(files@, params@, strings_view(roots@), i as int),
{
    let p = &params[i];
    match normalize_relative_path(p.file.as_str()) {
        Err(e) => {
            return Some(e.code);
        },
        Ok(n) => {
            if !str_eq(n.as_str(), p.file.as_str()) {
                return Some(OwnershipCode::NonCanonicalPath);
            }
        },
    }
    if !file_path_taken(files, files.len(), p.file.as_str()) {
        return Some(OwnershipCode::UnknownFile);
    }
    if chars_of(p.file_id.as_str()).len() > 0 {
        match crate::guard::find_file(files, p.file_id.as_str()) {
            None => {
                return Some(OwnershipCode::UnknownFile);
            },
            Some(f) => {
                if !str_eq(f.file.as_str(), p.file.as_str()) {
                    return Some(OwnershipCode::UnknownFile);
                }
            },
        }
    }
    if overwrite_before(params, i) {
        return Some(OwnershipCode::FileOverwriteConflict);
    }
    if !is_toml_mode_str(p.apply_mode.as_str()) {
        return None;
    }
    let key = match normalize_toml_path(p.path.as_str()) {
        Err(e) => {
            return Some(e.code);
        },
        Ok(k) => k,
    };
    if str_eq(p.file.as_str(), "config.toml") && owned_key(roots, key.as_str()) {
        return Some(OwnershipCode::ExternalKeyOwned);
    }
    let seg = crate::text::split_chars(&chars_of(key.as_str()), '.');
    let ghost sv = crate::text::chars_view(seg@);
    assert(sv == key_segments(params@[i as int]));
    let mut j: usize = 0;
    while j < i
        invariant
            j <= i < params@.len(),
            sv == crate::text::chars_view(seg@),
            param_fault(files@, params@, strings_view(roots@), i as int) == first_toml_clash(params@, i as int, sv, i as int),
            first_toml_clash(params@, i as int, sv, j as int) is None,
        decreases i - j,
    {
        let c = toml_clash_at(params, i, &seg, j);
        if c.is_some() {
            assert(first_toml_clash(params@, i as int, sv, j + 1) == c);
            proof {
                lemma_toml_clash_stays(params@, i as int, sv, j + 1, i as int);
            }
            return c;
        }
        j += 1;
    }
    None
}

/// Checks the files, the parameter ids and the physical TOML ownership of a Guard
/// configuration before any write. `resolved` holds, for each file, its real path under the
/// Codex home or why the file system refused it; `owned_roots` are the TOML keys of
/// `config.toml` that another tool owns, with everything beneath them.
pub fn validate_ownership(
    files: &[GuardFile],
    resolved: &[Result<String, OwnershipCode>],
    params: &[GuardParam],
    owned_roots: &[String],
) -> (r: Result<(), OwnershipError>)
    requires
        resolved@.len() == files@.len(),
    ensures
        ores(r) == ownership_verdict(files@, resolved_view(resolved@), params@, strings_view(owned_roots@)),
{
    let ghost rv = resolved_view(resolved@);
    let mut i: usize = 0;
    while i < files.len()
        invariant
            i <= files@.len() == resolved@.len(),
            rv == resolved_view(resolved@),
            files_fault(files@, rv, i as int) is None,
        decreases files@.len() - i,
    {
        match file_fault_at(files, resolved, i) {
            Some(c) => {
                proof {
                    lemma_files_fault_stays(files@, rv, i + 1, files@.len() as int);
                }
                return Err(OwnershipError::new(c));
            },
            None => {},
        }
        i += 1;
    }
    match validate_param_ids(params) {
        Err(e) => {
            return Err(e);
        },
        Ok(()) => {},
    }
    let mut i: usize = 0;
    while i < params.len()
        invariant
            i <= params@.len(),
            rv == resolved_view(resolved@),
            files_fault(files@, rv, files@.len() as int) is None,
            ids_fault(params@, params@.len() as int) is None,
            params_fault(files@, params@, strings_view(owned_roots@), i as int) is None,
        decreases params@.len() - i,
    {
        match param_fault_at(files, params, owned_roots, i) {
            Some(c) => {
                assert(params_fault(files@, params@, strings_view(owned_roots@), i + 1) == Some(c));
                proof {
                    lemma_params_fault_stays(files@, params@, strings_view(owned_roots@), i + 1, params@.len() as int);
                }
                return Err(OwnershipError::new(c));
            },
            None => {},
        }
        i += 1;
    }
    Ok(())
}

/// The target of a single write in its one spelling: the caller resolves it under the Codex
/// home before writing.
pub fn validate_target_path(relative: &str) -> (r: Result<String, OwnershipError>)
    ensures
        path_result(r) == (match normalized_path(relative@) {
            Err(c) => Err(c),
            Ok(n) => if n == relative@ { Ok(n) } else { Err(OwnershipCode::NonCanonicalPath) },
        }),
{
    let n = normalize_relative_path(relative)?;
    if !str_eq(n.as_str(), relative) {
        return Err(OwnershipError::new(OwnershipCode::NonCanonicalPath));
    }
    Ok(n)
}

} // verus!
