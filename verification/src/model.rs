//! Guard domain model: physical file formats and structured validation diagnostics.
use vstd::prelude::*;

verus! {

/// Physical parse format of a guarded file. Wire names are stable snake_case strings.
#[derive(Debug, Clone, Copy, PartialEq, Eq, Hash, Structural)]
pub enum GuardFileFormat {
    Toml,
    Json,
    Markdown,
    PlainText,
}

pub open spec fn format_name(f: GuardFileFormat) -> Seq<char> {
    match f {
        GuardFileFormat::Toml => "toml"@,
        GuardFileFormat::Json => "json"@,
        GuardFileFormat::Markdown => "markdown"@,
        GuardFileFormat::PlainText => "plain_text"@,
    }
}

impl GuardFileFormat {
    pub fn as_str(self) -> (r: &'static str)
        ensures
            r@ == format_name(self),
    {
        match self {
            GuardFileFormat::Toml => "toml",
            GuardFileFormat::Json => "json",
            GuardFileFormat::Markdown => "markdown",
            GuardFileFormat::PlainText => "plain_text",
        }
    }
}

/// Stable diagnostic codes; they never carry parser text.
#[derive(Debug, Clone, Copy, PartialEq, Eq, Structural)]
pub enum DiagnosticCode {
    InvalidUtf8,
    NulByte,
    TomlInvalid,
    JsonInvalid,
    JsonDuplicateKey,
    MarkdownMalformedMarker,
    MarkdownDuplicateMarker,
    MarkdownCrossingMarker,
    MarkdownUnmatchedMarker,
    MarkdownUnclosedMarker,
    PlanEmptyMembers,
    PlanUnknownMode,
    PlanModeIncompatible,
    PlanInvalidPath,
    PlanExpectedTypeMismatch,
    PlanConflict,
}

pub open spec fn diagnostic_code_name(c: DiagnosticCode) -> Seq<char> {
    match c {
        DiagnosticCode::InvalidUtf8 => "invalid_utf8"@,
        DiagnosticCode::NulByte => "nul_byte"@,
        DiagnosticCode::TomlInvalid => "toml_invalid"@,
        DiagnosticCode::JsonInvalid => "json_invalid"@,
        DiagnosticCode::JsonDuplicateKey => "json_duplicate_key"@,
        DiagnosticCode::MarkdownMalformedMarker => "markdown_malformed_marker"@,
        DiagnosticCode::MarkdownDuplicateMarker => "markdown_duplicate_marker"@,
        DiagnosticCode::MarkdownCrossingMarker => "markdown_crossing_marker"@,
        DiagnosticCode::MarkdownUnmatchedMarker => "markdown_unmatched_marker"@,
        DiagnosticCode::MarkdownUnclosedMarker => "markdown_unclosed_marker"@,
        DiagnosticCode::PlanEmptyMembers => "plan_empty_members"@,
        DiagnosticCode::PlanUnknownMode => "plan_unknown_mode"@,
        DiagnosticCode::PlanModeIncompatible => "plan_mode_incompatible"@,
        DiagnosticCode::PlanInvalidPath => "plan_invalid_path"@,
        DiagnosticCode::PlanExpectedTypeMismatch => "plan_expected_type_mismatch"@,
        DiagnosticCode::PlanConflict => "plan_conflict"@,
    }
}

impl DiagnosticCode {
    pub fn as_str(self) -> (r: &'static str)
        ensures
            r@ == diagnostic_code_name(self),
    {
        match self {
            DiagnosticCode::InvalidUtf8 => "invalid_utf8",
            DiagnosticCode::NulByte => "nul_byte",
            DiagnosticCode::TomlInvalid => "toml_invalid",
            DiagnosticCode::JsonInvalid => "json_invalid",
            DiagnosticCode::JsonDuplicateKey => "json_duplicate_key",
            DiagnosticCode::MarkdownMalformedMarker => "markdown_malformed_marker",
            DiagnosticCode::MarkdownDuplicateMarker => "markdown_duplicate_marker",
            DiagnosticCode::MarkdownCrossingMarker => "markdown_crossing_marker",
            DiagnosticCode::MarkdownUnmatchedMarker => "markdown_unmatched_marker",
            DiagnosticCode::MarkdownUnclosedMarker => "markdown_unclosed_marker",
            DiagnosticCode::PlanEmptyMembers => "plan_empty_members",
            DiagnosticCode::PlanUnknownMode => "plan_unknown_mode",
            DiagnosticCode::PlanModeIncompatible => "plan_mode_incompatible",
            DiagnosticCode::PlanInvalidPath => "plan_invalid_path",
            DiagnosticCode::PlanExpectedTypeMismatch => "plan_expected_type_mismatch",
            DiagnosticCode::PlanConflict => "plan_conflict",
        }
    }
}

#[derive(Debug, Clone, Copy, PartialEq, Eq, Structural)]
pub enum DiagnosticSeverity {
    Error,
}

#[derive(Debug, Clone, Copy, PartialEq, Eq, Structural)]
pub struct DiagnosticParams {
    pub expected_format: Option<GuardFileFormat>,
}

/// A structured diagnostic for the UI and audit layers; parser text and source excerpts never
/// enter it.
#[derive(Debug, Clone, PartialEq, Eq)]
pub struct ValidationDiagnostic {
    pub code: DiagnosticCode,
    pub severity: DiagnosticSeverity,
    pub scope_id: String,
    pub relative_file: Option<String>,
    pub field: Option<String>,
    pub line: Option<u32>,
    pub column: Option<u32>,
    pub params: DiagnosticParams,
}

pub open spec fn opt_view(o: Option<String>) -> Option<Seq<char>> {
    match o {
        Some(s) => Some(s@),
        None => None,
    }
}

pub open spec fn opt_str_view(o: Option<&str>) -> Option<Seq<char>> {
    match o {
        Some(s) => Some(s@),
        None => None,
    }
}

/// An owned copy of an optional string slice.
pub fn opt_owned(o: Option<&str>) -> (r: Option<String>)
    ensures
        opt_view(r) == opt_str_view(o),
{
    match o {
        Some(s) => Some(crate::text::owned(s)),
        None => None,
    }
}

/// A copy of an optional string.
pub fn opt_clone(o: &Option<String>) -> (r: Option<String>)
    ensures
        opt_view(r) == opt_view(*o),
{
    match o {
        Some(s) => Some(s.clone()),
        None => None,
    }
}

impl ValidationDiagnostic {
    pub fn new(
        scope_id: &str,
        relative_file: Option<&str>,
        code: DiagnosticCode,
        line: Option<u32>,
        column: Option<u32>,
    ) -> (r: Self)
        ensures
            r.code == code,
            r.severity == DiagnosticSeverity::Error,
            r.scope_id@ == scope_id@,
            opt_view(r.relative_file) == opt_str_view(relative_file),
            r.field is None,
            r.line == line,
            r.column == column,
            r.params.expected_format is None,
    {
        ValidationDiagnostic {
            code,
            severity: DiagnosticSeverity::Error,
            scope_id: crate::text::owned(scope_id),
            relative_file: opt_owned(relative_file),
            field: None,
            line,
            column,
            params: DiagnosticParams { expected_format: None },
        }
    }
}

/// A guarded parameter as the Guard logic reads it: where it lives, how it is applied and
/// its labels, and its recommended values as the engine reads them.
#[derive(Debug, Clone)]
pub struct GuardParam {
    pub id: String,
    pub label: String,
    pub label_en: String,
    pub description: String,
    pub description_en: String,
    /// Relative to the Codex home, such as `config.toml` or `agents/default.toml`.
    pub file: String,
    /// The stable identity of the physical file; empty in older schemas.
    pub file_id: String,
    pub group_id: Option<String>,
    /// `toml_key`, `toml_absent`, `file_overwrite` or `markdown_block`.
    pub apply_mode: String,
    /// The dotted TOML path, for the TOML modes.
    pub path: String,
    /// `bool`, `int`, `string`, `text` or `none`.
    pub value_type: String,
    /// The recommended value.
    pub default: crate::engine::GuardValue,
    /// The recommended value in English, where the content itself differs by language; `None`
    /// for a JSON `null`.
    pub default_en: Option<crate::engine::GuardValue>,
    pub custom: bool,
}

/// The file identity of a parameter: its own, or one derived from its path.
pub open spec fn effective_file(file_id: Seq<char>, file: Seq<char>) -> Seq<char> {
    if file_id.len() == 0 {
        "path:"@ + file
    } else {
        file_id
    }
}

impl GuardParam {
    pub fn duplicate(&self) -> (r: Self)
        ensures
            r == *self,
    {
        GuardParam {
            id: self.id.clone(),
            label: self.label.clone(),
            label_en: self.label_en.clone(),
            description: self.description.clone(),
            description_en: self.description_en.clone(),
            file: self.file.clone(),
            file_id: self.file_id.clone(),
            group_id: match &self.group_id {
                Some(g) => Some(g.clone()),
                None => None,
            },
            apply_mode: self.apply_mode.clone(),
            path: self.path.clone(),
            value_type: self.value_type.clone(),
            default: self.default.duplicate(),
            default_en: match &self.default_en {
                Some(v) => Some(v.duplicate()),
                None => None,
            },
            custom: self.custom,
        }
    }

    pub fn effective_file_id(&self) -> (r: String)
        ensures
            r@ == effective_file(self.file_id@, self.file@),
    {
        if crate::text::chars_of(self.file_id.as_str()).len() == 0 {
            let mut r = crate::text::chars_of("path:");
            crate::text::push_str(&mut r, self.file.as_str());
            crate::text::string_of(&r)
        } else {
            self.file_id.clone()
        }
    }

    /// The label in the given interface language.
    pub fn localized_label(&self, lang: &str) -> (r: &str)
        ensures
            r@ == crate::guard::pick_text(self.label@, self.label_en@, lang@),
    {
        crate::guard::pick_i18n(self.label.as_str(), self.label_en.as_str(), lang)
    }

    /// The description in the given interface language.
    pub fn localized_description(&self, lang: &str) -> (r: &str)
        ensures
            r@ == crate::guard::pick_text(self.description@, self.description_en@, lang@),
    {
        crate::guard::pick_i18n(self.description.as_str(), self.description_en.as_str(), lang)
    }
}

} // verus!
