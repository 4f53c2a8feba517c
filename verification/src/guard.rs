//! Guarded files, parameter groups and their canonical ids.
use vstd::prelude::*;
use crate::model::GuardFileFormat;
use crate::text::{owned, str_eq, starts_with};

verus! {

/// One path detection: the path found relative to the Codex home (`None`: not found) and when.
#[derive(Debug, Clone, PartialEq, Eq)]
pub struct DetectRecord {
    pub path: Option<String>,
    pub at: u64,
}

/// A guarded target file.
#[derive(Debug, Clone)]
pub struct GuardFile {
    pub id: String,
    pub name: String,
    /// Relative to the Codex home.
    pub file: String,
    pub format: GuardFileFormat,
    pub builtin: bool,
    pub detection: Option<DetectRecord>,
}

pub struct FileSpec {
    pub id: Seq<char>,
    pub name: Seq<char>,
    pub file: Seq<char>,
    pub format: GuardFileFormat,
    pub builtin: bool,
}

pub open spec fn file_spec(f: GuardFile) -> FileSpec {
    FileSpec { id: f.id@, name: f.name@, file: f.file@, format: f.format, builtin: f.builtin }
}

pub open spec fn files_view(v: Seq<GuardFile>) -> Seq<FileSpec> {
    v.map_values(|f: GuardFile| file_spec(f))
}

/// The three built-in files: `config.toml`, `AGENTS.md` and `agents/default.toml`.
pub open spec fn builtin_file_specs() -> Seq<FileSpec> {
    seq![
        FileSpec {
            id: "builtin.config-toml"@,
            name: "config.toml"@,
            file: "config.toml"@,
            format: GuardFileFormat::Toml,
            builtin: true,
        },
        FileSpec {
            id: "builtin.agents-md"@,
            name: "AGENTS.md"@,
            file: "AGENTS.md"@,
            format: GuardFileFormat::Markdown,
            builtin: true,
        },
        FileSpec {
            id: "builtin.default-toml"@,
            name: "default.toml"@,
            file: "agents/default.toml"@,
            format: GuardFileFormat::Toml,
            builtin: true,
        },
    ]
}

pub fn builtin_files() -> (r: Vec<GuardFile>)
    ensures
        files_view(r@) == builtin_file_specs(),
        forall|i: int| 0 <= i < r@.len() ==> (#[trigger] r@[i]).detection is None,
{
    let mut v: Vec<GuardFile> = Vec::new();
    v.push(GuardFile {
        id: owned("builtin.config-toml"),
        name: owned("config.toml"),
        file: owned("config.toml"),
        format: GuardFileFormat::Toml,
        builtin: true,
        detection: None,
    });
    v.push(GuardFile {
        id: owned("builtin.agents-md"),
        name: owned("AGENTS.md"),
        file: owned("AGENTS.md"),
        format: GuardFileFormat::Markdown,
        builtin: true,
        detection: None,
    });
    v.push(GuardFile {
        id: owned("builtin.default-toml"),
        name: owned("default.toml"),
        file: owned("agents/default.toml"),
        format: GuardFileFormat::Toml,
        builtin: true,
        detection: None,
    });
    assert(files_view(v@) =~= builtin_file_specs());
    v
}

/// The first file with this id.
pub open spec fn file_for(v: Seq<FileSpec>, id: Seq<char>) -> Option<FileSpec>
    decreases v.len(),
{
    if v.len() == 0 {
        None
    } else if v[0].id == id {
        Some(v[0])
    } else {
        file_for(v.drop_first(), id)
    }
}

pub fn find_file(files: &[GuardFile], id: &str) -> (r: Option<GuardFile>)
    ensures
        match file_for(files_view(files@), id@) {
            None => r is None,
            Some(f) => r matches Some(x) && file_spec(x) == f,
        },
{
    let ghost v = files_view(files@);
    assert(v.subrange(0, v.len() as int) =~= v);
    let mut i: usize = 0;
    while i < files.len()
        invariant
            i <= files@.len(),
            v == files_view(files@),
            file_for(v, id@) == file_for(v.subrange(i as int, v.len() as int), id@),
        decreases files@.len() - i,
    {
        let ghost rest = v.subrange(i as int, v.len() as int);
        assert(rest.drop_first() =~= v.subrange(i + 1, v.len() as int));
        if str_eq(files[i].id.as_str(), id) {
            let f = &files[i];
            return Some(
                GuardFile {
                    id: f.id.clone(),
                    name: f.name.clone(),
                    file: f.file.clone(),
                    format: f.format,
                    builtin: f.builtin,
                    detection: match &f.detection {
                        Some(d) => Some(DetectRecord { path: crate::model::opt_clone(&d.path), at: d.at }),
                        None => None,
                    },
                },
            );
        }
        i += 1;
    }
    None
}

/// A logical group of parameters.
#[derive(Debug, Clone)]
pub struct GuardGroup {
    pub id: String,
    pub name: String,
    pub builtin: bool,
    pub order: u32,
}

pub struct GroupSpec {
    pub id: Seq<char>,
    pub name: Seq<char>,
    pub builtin: bool,
    pub order: u32,
}

pub open spec fn group_spec(g: GuardGroup) -> GroupSpec {
    GroupSpec { id: g.id@, name: g.name@, builtin: g.builtin, order: g.order }
}

pub open spec fn groups_view(v: Seq<GuardGroup>) -> Seq<GroupSpec> {
    v.map_values(|g: GuardGroup| group_spec(g))
}

pub open spec fn builtin_group_specs() -> Seq<GroupSpec> {
    seq![
        GroupSpec { id: "subagent-optimization"@, name: "Subagent optimization"@, builtin: true, order: 0 },
        GroupSpec { id: "general"@, name: "General"@, builtin: true, order: 1 },
    ]
}

pub fn builtin_groups() -> (r: Vec<GuardGroup>)
    ensures
        groups_view(r@) == builtin_group_specs(),
{
    let mut v: Vec<GuardGroup> = Vec::new();
    v.push(GuardGroup {
        id: owned("subagent-optimization"),
        name: owned("Subagent optimization"),
        builtin: true,
        order: 0,
    });
    v.push(GuardGroup { id: owned("general"), name: owned("General"), builtin: true, order: 1 });
    assert(groups_view(v@) =~= builtin_group_specs());
    v
}

/// The group of a parameter: custom parameters keep theirs (or `uncategorized`); built-in
/// ones follow a fixed mapping, with legacy `subagent-operations` folded into
/// `subagent-optimization`.
pub open spec fn canonical_group(param_id: Seq<char>, raw: Option<Seq<char>>, custom: bool) -> Seq<char> {
    if custom {
        match raw {
            Some(g) => g,
            None => "uncategorized"@,
        }
    } else if param_id == "features.image_generation"@ {
        "general"@
    } else if starts_with(param_id, "features.multi_agent_v2."@) || param_id == "agents-v1-remove"@
        || param_id == "agents-md-subagent-section"@ || raw == Some("subagent-operations"@) {
        "subagent-optimization"@
    } else {
        match raw {
            Some(g) => g,
            None => "general"@,
        }
    }
}

pub fn canonical_group_id(param_id: &str, raw_group: Option<&str>, custom: bool) -> (r: String)
    ensures
        r@ == canonical_group(param_id@, crate::model::opt_str_view(raw_group), custom),
{
    if custom {
        return match raw_group {
            Some(g) => owned(g),
            None => owned("uncategorized"),
        };
    }
    if str_eq(param_id, "features.image_generation") {
        return owned("general");
    }
    let legacy = match raw_group {
        Some(g) => str_eq(g, "subagent-operations"),
        None => false,
    };
    if crate::text::starts_with_chars(&crate::text::chars_of(param_id), &crate::text::chars_of("features.multi_agent_v2."))
        || str_eq(param_id, "agents-v1-remove") || str_eq(param_id, "agents-md-subagent-section")
        || legacy {
        return owned("subagent-optimization");
    }
    match raw_group {
        Some(g) => owned(g),
        None => owned("general"),
    }
}

/// A stored group id, with the legacy `subagent-operations` renamed.
pub open spec fn canonical_config_group(id: Seq<char>) -> Seq<char> {
    if id == "subagent-operations"@ {
        "subagent-optimization"@
    } else {
        id
    }
}

pub fn canonical_config_group_id(id: &str) -> (r: String)
    ensures
        r@ == canonical_config_group(id@),
{
    if str_eq(id, "subagent-operations") {
        owned("subagent-optimization")
    } else {
        owned(id)
    }
}

/// Canonicalising a group id twice is canonicalising it once.
pub proof fn law_canonical_config_group_idempotent(id: Seq<char>)
    ensures
        canonical_config_group(canonical_config_group(id)) == canonical_config_group(id),
{
    reveal_strlit("subagent-operations");
    reveal_strlit("subagent-optimization");
    if id == "subagent-operations"@ {
        assert("subagent-optimization"@ != "subagent-operations"@) by {
            assert("subagent-optimization"@[11] != "subagent-operations"@[11]);
        }
    }
}

/// `s` lowercased in ASCII.
pub open spec fn lower_ascii(s: Seq<char>) -> Seq<char> {
    s.map_values(|c: char| if 'A' <= c <= 'Z' { (((c as u32) + 32) as u8) as char } else { c })
}

/// The extension of the last path component: the text after its last `.`, when that dot is
/// not its first character (`Path::extension`).
pub open spec fn path_extension(file: Seq<char>) -> Option<Seq<char>> {
    let name = crate::text::after_last(file, '/');
    let stem_and_ext = crate::text::after_last(name, '.');
    if stem_and_ext.len() == name.len() || stem_and_ext.len() + 1 == name.len() {
        None
    } else {
        Some(stem_and_ext)
    }
}

/// The formats a file can have: a known built-in, its extension, or any format.
pub open spec fn file_formats(id: Seq<char>, file: Seq<char>) -> Seq<GuardFileFormat> {
    if id == "builtin.config-toml"@ || id == "builtin.default-toml"@ {
        seq![GuardFileFormat::Toml]
    } else if id == "builtin.agents-md"@ {
        seq![GuardFileFormat::Markdown]
    } else {
        match path_extension(file) {
            Some(e) => if lower_ascii(e) == "toml"@ {
                seq![GuardFileFormat::Toml]
            } else if lower_ascii(e) == "json"@ {
                seq![GuardFileFormat::Json]
            } else if lower_ascii(e) == "md"@ || lower_ascii(e) == "markdown"@ {
                seq![GuardFileFormat::Markdown]
            } else {
                seq![GuardFileFormat::Toml, GuardFileFormat::Json, GuardFileFormat::Markdown, GuardFileFormat::PlainText]
            },
            None => seq![GuardFileFormat::Toml, GuardFileFormat::Json, GuardFileFormat::Markdown, GuardFileFormat::PlainText],
        }
    }
}

fn lower_ascii_chars(v: &[char]) -> (r: Vec<char>)
    ensures
        r@ == lower_ascii(v@),
{
    let mut r: Vec<char> = Vec::new();
    let mut i: usize = 0;
    while i < v.len()
        invariant
            i <= v@.len(),
            r@ == lower_ascii(v@.subrange(0, i as int)),
        decreases v@.len() - i,
    {
        let c = v[i];
        let d = if 'A' <= c && c <= 'Z' {
            ((c as u32) + 32) as u8 as char
        } else {
            c
        };
        r.push(d);
        assert(r@ =~= lower_ascii(v@.subrange(0, i + 1)));
        i += 1;
    }
    assert(v@.subrange(0, v@.len() as int) =~= v@);
    r
}

pub fn infer_file_formats(id: &str, file: &str, builtin: bool) -> (r: Vec<GuardFileFormat>)
    ensures
        r@ == file_formats(id@, file@),
{
    if str_eq(id, "builtin.config-toml") || str_eq(id, "builtin.default-toml") {
        return vec![GuardFileFormat::Toml];
    }
    if str_eq(id, "builtin.agents-md") {
        return vec![GuardFileFormat::Markdown];
    }
    let all = vec![GuardFileFormat::Toml, GuardFileFormat::Json, GuardFileFormat::Markdown, GuardFileFormat::PlainText];
    let f = crate::text::chars_of(file);
    let name = crate::text::after_last_chars(&f, '/');
    let tail = crate::text::after_last_chars(&name, '.');
    if tail.len() == name.len() || tail.len() == name.len() - 1 {
        assert(all@ =~= file_formats(id@, file@));
        return all;
    }
    let ext = crate::text::string_of(&lower_ascii_chars(&tail));
    if str_eq(ext.as_str(), "toml") {
        vec![GuardFileFormat::Toml]
    } else if str_eq(ext.as_str(), "json") {
        vec![GuardFileFormat::Json]
    } else if str_eq(ext.as_str(), "md") || str_eq(ext.as_str(), "markdown") {
        vec![GuardFileFormat::Markdown]
    } else {
        assert(all@ =~= file_formats(id@, file@));
        all
    }
}

/// The localized text: English when the language is `en` and an English text exists, else
/// the primary text.
pub open spec fn pick_text(primary: Seq<char>, en: Seq<char>, lang: Seq<char>) -> Seq<char> {
    if lang == "en"@ && en.len() > 0 {
        en
    } else {
        primary
    }
}

pub fn pick_i18n<'a>(primary: &'a str, en: &'a str, lang: &str) -> (r: &'a str)
    ensures
        r@ == pick_text(primary@, en@, lang@),
{
    if str_eq(lang, "en") && crate::text::chars_of(en).len() > 0 {
        en
    } else {
        primary
    }
}

/// Groups after normalisation: the built-ins first, in their order, each keeping a stored
/// copy's place but the built-in name and order; then the stored custom groups, first copy
/// of each id only.
pub open spec fn normalized_groups(stored: Seq<GroupSpec>) -> Seq<GroupSpec> {
    builtin_group_specs().map_values(|b: GroupSpec| GroupSpec { name: b.name, builtin: true, order: b.order, ..b })
        + custom_groups(stored, seq![builtin_group_specs()[0].id, builtin_group_specs()[1].id])
}

/// The stored groups whose ids are neither built-in nor seen before, in order.
pub open spec fn custom_groups(stored: Seq<GroupSpec>, seen: Seq<Seq<char>>) -> Seq<GroupSpec>
    decreases stored.len(),
{
    if stored.len() == 0 {
        Seq::empty()
    } else if seen.contains(stored[0].id) {
        custom_groups(stored.drop_first(), seen)
    } else {
        seq![stored[0]] + custom_groups(stored.drop_first(), seen.push(stored[0].id))
    }
}

fn id_in(ids: &Vec<String>, id: &str) -> (r: bool)
    ensures
        r == crate::roles::strings_view(ids@).contains(id@),
{
    let mut i: usize = 0;
    while i < ids.len()
        invariant
            i <= ids@.len(),
            forall|k: int| 0 <= k < i ==> #[trigger] crate::roles::strings_view(ids@)[k] != id@,
        decreases ids@.len() - i,
    {
        if str_eq(ids[i].as_str(), id) {
            assert(crate::roles::strings_view(ids@)[i as int] == id@);
            return true;
        }
        i += 1;
    }
    false
}

/// Adds the immutable built-in groups and keeps the custom groups in their order.
pub fn normalize_groups(groups: &Vec<GuardGroup>) -> (r: Vec<GuardGroup>)
    ensures
        groups_view(r@) == normalized_groups(groups_view(groups@)),
{
    let builtins = builtin_groups();
    let mut out: Vec<GuardGroup> = Vec::new();
    let mut i: usize = 0;
    while i < builtins.len()
        invariant
            i <= builtins@.len(),
            groups_view(builtins@) == builtin_group_specs(),
            groups_view(out@) == builtin_group_specs().map_values(
                |b: GroupSpec| GroupSpec { name: b.name, builtin: true, order: b.order, ..b },
            ).subrange(0, i as int),
        decreases builtins@.len() - i,
    {
        let g = GuardGroup {
            id: builtins[i].id.clone(),
            name: builtins[i].name.clone(),
            builtin: true,
            order: builtins[i].order,
        };
        let ghost before = out@;
        let ghost gv = group_spec(g);
        out.push(g);
        assert(groups_view(out@) =~= groups_view(before).push(gv));
        assert(groups_view(out@) =~= builtin_group_specs().map_values(
            |b: GroupSpec| GroupSpec { name: b.name, builtin: true, order: b.order, ..b },
        ).subrange(0, i + 1));
        i += 1;
    }
    let mut seen: Vec<String> = Vec::new();
    seen.push(owned("subagent-optimization"));
    seen.push(owned("general"));
    let ghost stored = groups_view(groups@);
    let ghost prefix = groups_view(out@);
    let mut j: usize = 0;
    assert(stored.subrange(0, 0) + custom_groups(stored.subrange(0, stored.len() as int), crate::roles::strings_view(seen@)) =~= custom_groups(stored, seq![builtin_group_specs()[0].id, builtin_group_specs()[1].id])) by {
        assert(stored.subrange(0, stored.len() as int) =~= stored);
        assert(crate::roles::strings_view(seen@) =~= seq![builtin_group_specs()[0].id, builtin_group_specs()[1].id]);
    }
    while j < groups.len()
        invariant
            j <= groups@.len(),
            stored == groups_view(groups@),
            prefix == builtin_group_specs().map_values(|b: GroupSpec| GroupSpec { name: b.name, builtin: true, order: b.order, ..b }),
            groups_view(out@) + custom_groups(stored.subrange(j as int, stored.len() as int), crate::roles::strings_view(seen@))
                == prefix + custom_groups(stored, seq![builtin_group_specs()[0].id, builtin_group_specs()[1].id]),
        decreases groups@.len() - j,
    {
        let ghost rest = stored.subrange(j as int, stored.len() as int);
        assert(rest.drop_first() =~= stored.subrange(j + 1, stored.len() as int));
        assert(rest[0] == group_spec(groups@[j as int]));
        if !id_in(&seen, groups[j].id.as_str()) {
            let ghost before = out@;
            let ghost seen0 = seen@;
            let g = GuardGroup {
                id: groups[j].id.clone(),
                name: groups[j].name.clone(),
                builtin: groups[j].builtin,
                order: groups[j].order,
            };
            let ghost gv = group_spec(g);
            out.push(g);
            seen.push(groups[j].id.clone());
            assert(groups_view(out@) =~= groups_view(before).push(gv));
            assert(crate::roles::strings_view(seen@) =~= crate::roles::strings_view(seen0).push(gv.id));
            assert(groups_view(out@) + custom_groups(stored.subrange(j + 1, stored.len() as int), crate::roles::strings_view(seen@))
                =~= groups_view(before) + custom_groups(rest, crate::roles::strings_view(seen0)));
        }
        j += 1;
    }
    assert(stored.subrange(stored.len() as int, stored.len() as int) =~= Seq::<GroupSpec>::empty());
    assert(groups_view(out@) + custom_groups(Seq::<GroupSpec>::empty(), crate::roles::strings_view(seen@)) =~= groups_view(out@));
    out
}

/// The format a stored name stands for: a wire name, or `md` for Markdown.
pub open spec fn format_of_name(name: Seq<char>) -> Option<GuardFileFormat> {
    if name == "toml"@ {
        Some(GuardFileFormat::Toml)
    } else if name == "json"@ {
        Some(GuardFileFormat::Json)
    } else if name == "markdown"@ || name == "md"@ {
        Some(GuardFileFormat::Markdown)
    } else if name == "plain_text"@ {
        Some(GuardFileFormat::PlainText)
    } else {
        None
    }
}

pub fn format_from_name(name: &str) -> (r: Option<GuardFileFormat>)
    ensures
        r == format_of_name(name@),
{
    if str_eq(name, "toml") {
        Some(GuardFileFormat::Toml)
    } else if str_eq(name, "json") {
        Some(GuardFileFormat::Json)
    } else if str_eq(name, "markdown") || str_eq(name, "md") {
        Some(GuardFileFormat::Markdown)
    } else if str_eq(name, "plain_text") {
        Some(GuardFileFormat::PlainText)
    } else {
        None
    }
}

/// A guarded file as stored, before its format is known.
#[derive(Debug, Clone)]
pub struct GuardFileWire {
    pub id: String,
    pub name: String,
    pub file: String,
    /// The stored format, when it is stored as a string.
    pub format: Option<String>,
    pub builtin: bool,
    pub detection: Option<DetectRecord>,
}

/// A stored file whose format needs the user's choice.
#[derive(Debug, Clone, PartialEq, Eq)]
pub struct PendingFormatMigration {
    pub id: String,
    pub name: String,
    pub file: String,
    pub builtin: bool,
    pub detection: Option<DetectRecord>,
    pub raw_format: Option<String>,
    pub candidates: Vec<GuardFileFormat>,
}

/// The format a stored file takes: the one its name gives, else the one its id and extension
/// allow when they allow exactly one; else none, and the choice waits for the user.
pub open spec fn resolved_format(w: GuardFileWire) -> Option<GuardFileFormat> {
    let named = match w.format {
        Some(f) => format_of_name(f@),
        None => None,
    };
    if named is Some {
        named
    } else if file_formats(w.id@, w.file@).len() == 1 {
        Some(file_formats(w.id@, w.file@)[0])
    } else {
        None
    }
}

impl GuardFileWire {
    pub fn resolve_format(self) -> (r: Result<Result<GuardFile, PendingFormatMigration>, String>)
        ensures
            r matches Ok(inner) && match resolved_format(self) {
                Some(f) => inner matches Ok(g) && g.id == self.id && g.name == self.name && g.file == self.file
                    && g.format == f && g.builtin == self.builtin && g.detection == self.detection,
                None => inner matches Err(p) && p.id == self.id && p.name == self.name && p.file == self.file
                    && p.builtin == self.builtin && p.detection == self.detection && p.raw_format == self.format
                    && p.candidates@ == file_formats(self.id@, self.file@),
            },
    {
        let named = match &self.format {
            Some(f) => format_from_name(f.as_str()),
            None => None,
        };
        if let Some(format) = named {
            return Ok(Ok(GuardFile {
                id: self.id,
                name: self.name,
                file: self.file,
                format,
                builtin: self.builtin,
                detection: self.detection,
            }));
        }
        let candidates = infer_file_formats(self.id.as_str(), self.file.as_str(), self.builtin);
        if candidates.len() == 1 {
            return Ok(Ok(GuardFile {
                id: self.id,
                name: self.name,
                file: self.file,
                format: candidates[0],
                builtin: self.builtin,
                detection: self.detection,
            }));
        }
        Ok(Err(PendingFormatMigration {
            id: self.id,
            name: self.name,
            file: self.file,
            builtin: self.builtin,
            detection: self.detection,
            raw_format: self.format,
            candidates,
        }))
    }
}

/// The newest state schema this version reads.
pub const CODEX_GUARD_SCHEMA_VERSION: u16 = 1;

/// A stored state is read when its schema version, missing meaning 0, is not newer than
/// this version's.
pub fn check_state_version(version: Option<u16>) -> (r: Result<(), String>)
    ensures
        r is Ok <==> (match version { Some(v) => v <= CODEX_GUARD_SCHEMA_VERSION, None => true }),
        r matches Err(e) ==> e@ == "unsupported codex guard schema version"@,
{
    let v = match version {
        Some(v) => v,
        None => 0,
    };
    if v > CODEX_GUARD_SCHEMA_VERSION {
        return Err(owned("unsupported codex guard schema version"));
    }
    Ok(())
}

/// A legacy parameter state that is locked but not applied, and has no lifecycle yet, waits
/// for a lifecycle migration.
pub fn legacy_state_needs_migration(has_lifecycle: bool, applied: Option<bool>, locked: Option<bool>) -> (r: bool)
    ensures
        r == (!has_lifecycle && applied == Some(false) && locked == Some(true)),
{
    !has_lifecycle && applied == Some(false) && locked == Some(true)
}

} // verus!
