//! Pure domain logic for structured Codex subagent roles.
//!
//! This module reads no files and runs no Codex process; discovery summaries never carry role
//! instructions. Command and transaction layers use these values at their boundaries.
use vstd::prelude::*;
use crate::text::{chars_of, owned, str_eq, is_blank, trim, seq_lt};
use crate::toml_doc::{lookup_entry, toml_root_entries};
use crate::order::{stable_sort, stable_insert};

verus! {

pub const DEFAULT_ROLE_ID: &'static str = "default";
pub const MAX_MANAGED_ROLES: usize = 32;
pub const ROLE_LIMIT_WARNING_THRESHOLD: usize = 28;
pub const ROLE_ID_MAX_BYTES: usize = 63;
pub const DISPLAY_NAME_MAX_CHARS: usize = 80;
pub const PURPOSE_MAX_CHARS: usize = 500;
pub const SELECTION_CRITERIA_MAX_CHARS: usize = 500;
pub const INSTRUCTIONS_MAX_BYTES: usize = 65536;
pub const ROLE_DIRECTORY: &'static str = "agents";
pub const ROLE_EXTENSION: &'static str = ".toml";
pub const DEFAULT_SELECTION_CRITERIA: &'static str = "default role";

/// Stable, localisable error identity. It carries no input value, path, parser output or role
/// instruction.
#[derive(Debug, Clone, Copy, PartialEq, Eq, Structural)]
pub enum RoleErrorCode {
    InvalidRoleId,
    InvalidRoleFileName,
    DuplicateRoleId,
    DefaultRoleProtected,
    TooManyManagedRoles,
    InvalidText,
    TextTooLong,
    MissingRoleField,
    InvalidRoleFieldType,
    UnknownRoleField,
    InvalidRoleToml,
    InvalidRoleOrder,
    InvalidRoleLifecycle,
    UnsupportedModel,
    UnsupportedReasoningEffort,
    UnsupportedMultiAgentVersion,
    CapabilityUnavailable,
    MigrationSourceUnavailable,
    MigrationSourceInvalid,
    SafeDefaultInvalid,
    InvalidMigrationChoice,
}

/// A role error: a code and, for field errors, a known schema field name.
#[derive(Debug, Clone, PartialEq, Eq)]
pub struct RoleError {
    pub code: RoleErrorCode,
    /// A known schema field name only; never a user supplied value.
    pub field: Option<String>,
}

/// Spec form of a role error.
pub type RoleErr = (RoleErrorCode, Option<Seq<char>>);

impl View for RoleError {
    type V = RoleErr;

    open spec fn view(&self) -> RoleErr {
        (self.code, crate::model::opt_view(self.field))
    }
}

pub open spec fn code_err(code: RoleErrorCode) -> RoleErr {
    (code, None)
}

pub open spec fn field_err(code: RoleErrorCode, field: Seq<char>) -> RoleErr {
    (code, Some(field))
}

/// The view of a role result.
pub open spec fn rv<T: View>(r: Result<T, RoleError>) -> Result<T::V, RoleErr> {
    match r {
        Ok(v) => Ok(v@),
        Err(e) => Err(e@),
    }
}

pub open spec fn role_error_text(code: RoleErrorCode) -> Seq<char> {
    match code {
        RoleErrorCode::InvalidRoleId => "role.invalid_id"@,
        RoleErrorCode::InvalidRoleFileName => "role.invalid_file_name"@,
        RoleErrorCode::DuplicateRoleId => "role.duplicate_id"@,
        RoleErrorCode::DefaultRoleProtected => "role.default_protected"@,
        RoleErrorCode::TooManyManagedRoles => "role.too_many_managed"@,
        RoleErrorCode::InvalidText => "role.invalid_text"@,
        RoleErrorCode::TextTooLong => "role.text_too_long"@,
        RoleErrorCode::MissingRoleField => "role.missing_field"@,
        RoleErrorCode::InvalidRoleFieldType => "role.invalid_field_type"@,
        RoleErrorCode::UnknownRoleField => "role.unknown_field"@,
        RoleErrorCode::InvalidRoleToml => "role.invalid_toml"@,
        RoleErrorCode::InvalidRoleOrder => "role.invalid_order"@,
        RoleErrorCode::InvalidRoleLifecycle => "role.invalid_lifecycle"@,
        RoleErrorCode::UnsupportedModel => "role.unsupported_model"@,
        RoleErrorCode::UnsupportedReasoningEffort => "role.unsupported_reasoning_effort"@,
        RoleErrorCode::UnsupportedMultiAgentVersion => "role.unsupported_multi_agent_version"@,
        RoleErrorCode::CapabilityUnavailable => "role.capability_unavailable"@,
        RoleErrorCode::MigrationSourceUnavailable => "role.migration_source_unavailable"@,
        RoleErrorCode::MigrationSourceInvalid => "role.migration_source_invalid"@,
        RoleErrorCode::SafeDefaultInvalid => "role.safe_default_invalid"@,
        RoleErrorCode::InvalidMigrationChoice => "role.invalid_migration_choice"@,
    }
}

impl RoleError {
    pub fn new(code: RoleErrorCode) -> (r: Self)
        ensures
            r@ == code_err(code),
    {
        RoleError { code, field: None }
    }

    pub fn with_field(code: RoleErrorCode, field: &str) -> (r: Self)
        ensures
            r@ == field_err(code, field@),
    {
        RoleError { code, field: Some(owned(field)) }
    }

    /// The stable message key of the error.
    pub fn as_str(&self) -> (r: &'static str)
        ensures
            r@ == role_error_text(self.code),
    {
        match self.code {
            RoleErrorCode::InvalidRoleId => "role.invalid_id",
            RoleErrorCode::InvalidRoleFileName => "role.invalid_file_name",
            RoleErrorCode::DuplicateRoleId => "role.duplicate_id",
            RoleErrorCode::DefaultRoleProtected => "role.default_protected",
            RoleErrorCode::TooManyManagedRoles => "role.too_many_managed",
            RoleErrorCode::InvalidText => "role.invalid_text",
            RoleErrorCode::TextTooLong => "role.text_too_long",
            RoleErrorCode::MissingRoleField => "role.missing_field",
            RoleErrorCode::InvalidRoleFieldType => "role.invalid_field_type",
            RoleErrorCode::UnknownRoleField => "role.unknown_field",
            RoleErrorCode::InvalidRoleToml => "role.invalid_toml",
            RoleErrorCode::InvalidRoleOrder => "role.invalid_order",
            RoleErrorCode::InvalidRoleLifecycle => "role.invalid_lifecycle",
            RoleErrorCode::UnsupportedModel => "role.unsupported_model",
            RoleErrorCode::UnsupportedReasoningEffort => "role.unsupported_reasoning_effort",
            RoleErrorCode::UnsupportedMultiAgentVersion => "role.unsupported_multi_agent_version",
            RoleErrorCode::CapabilityUnavailable => "role.capability_unavailable",
            RoleErrorCode::MigrationSourceUnavailable => "role.migration_source_unavailable",
            RoleErrorCode::MigrationSourceInvalid => "role.migration_source_invalid",
            RoleErrorCode::SafeDefaultInvalid => "role.safe_default_invalid",
            RoleErrorCode::InvalidMigrationChoice => "role.invalid_migration_choice",
        }
    }
}

pub open spec fn is_lower(c: char) -> bool {
    'a' <= c <= 'z'
}

pub open spec fn is_digit(c: char) -> bool {
    '0' <= c <= '9'
}

/// A role id: 1 to 63 ASCII characters, a lowercase letter first, then lowercase letters,
/// digits and `-`.
pub open spec fn valid_role_id(s: Seq<char>) -> bool {
    1 <= s.len() <= ROLE_ID_MAX_BYTES && is_lower(s[0]) && forall|i: int|
        0 <= i < s.len() ==> is_lower(#[trigger] s[i]) || is_digit(s[i]) || s[i] == '-'
}

/// Role ids are the Codex `agent_type` and the filename stem.
#[derive(Debug, PartialEq, Eq, Hash, PartialOrd, Ord)]
pub struct RoleId(String);

impl View for RoleId {
    type V = Seq<char>;

    closed spec fn view(&self) -> Seq<char> {
        self.0@
    }
}

impl RoleId {
    #[verifier::type_invariant]
    spec fn well_formed(self) -> bool {
        valid_role_id(self.0@)
    }

    /// Every role id is valid.
    pub fn check_valid(&self)
        ensures
            valid_role_id(self@),
    {
        proof {
            use_type_invariant(self);
        }
    }

    pub fn new(raw: &str) -> (r: Result<Self, RoleError>)
        ensures
            valid_role_id(raw@) ==> (r matches Ok(id) && id@ == raw@),
            !valid_role_id(raw@) ==> (r matches Err(e) && e@ == code_err(
                RoleErrorCode::InvalidRoleId,
            )),
    {
        let v = chars_of(raw);
        if v.len() == 0 || v.len() > ROLE_ID_MAX_BYTES {
            return Err(RoleError::new(RoleErrorCode::InvalidRoleId));
        }
        if !('a' <= v[0] && v[0] <= 'z') {
            return Err(RoleError::new(RoleErrorCode::InvalidRoleId));
        }
        let mut i: usize = 0;
        while i < v.len()
            invariant
                i <= v@.len(),
                v@ == raw@,
                forall|k: int|
                    0 <= k < i ==> is_lower(#[trigger] v@[k]) || is_digit(v@[k]) || v@[k] == '-',
            decreases v@.len() - i,
        {
            let c = v[i];
            if !(('a' <= c && c <= 'z') || ('0' <= c && c <= '9') || c == '-') {
                assert(!(is_lower(v@[i as int]) || is_digit(v@[i as int]) || v@[i as int] == '-'));
                return Err(RoleError::new(RoleErrorCode::InvalidRoleId));
            }
            i += 1;
        }
        Ok(RoleId(owned(raw)))
    }

    pub fn as_str(&self) -> (r: &str)
        ensures
            r@ == self@,
    {
        self.0.as_str()
    }

    pub fn into_inner(self) -> (r: String)
        ensures
            r@ == self@,
    {
        self.0
    }

    pub open spec fn spec_is_default(&self) -> bool {
        self@ == DEFAULT_ROLE_ID@
    }

    pub fn is_default(&self) -> (r: bool)
        ensures
            r == self.spec_is_default(),
    {
        str_eq(self.0.as_str(), DEFAULT_ROLE_ID)
    }

    /// An equal copy of the id.
    pub fn duplicate(&self) -> (r: Self)
        ensures
            r@ == self@,
    {
        proof {
            use_type_invariant(self);
        }
        RoleId(self.0.clone())
    }

    /// Whether two ids are the same id.
    pub fn same(&self, other: &RoleId) -> (r: bool)
        ensures
            r == (self@ == other@),
    {
        str_eq(self.0.as_str(), other.0.as_str())
    }
}

impl Clone for RoleId {
    fn clone(&self) -> (r: Self)
        ensures
            r@ == self@,
    {
        self.duplicate()
    }
}

pub fn validate_role_id(raw: &str) -> (r: Result<RoleId, RoleError>)
    ensures
        valid_role_id(raw@) ==> (r matches Ok(id) && id@ == raw@),
        !valid_role_id(raw@) ==> (r matches Err(e) && e@ == code_err(RoleErrorCode::InvalidRoleId)),
{
    RoleId::new(raw)
}

/// ASCII lowercase of a character sequence.
pub open spec fn ascii_lower(s: Seq<char>) -> Seq<char> {
    s.map_values(
        |c: char|
            if 'A' <= c <= 'Z' {
                ((c as u8 + 32) as u8) as char
            } else {
                c
            },
    )
}

/// Case-insensitive identity key of a role id.
pub open spec fn role_key(id: Seq<char>) -> Seq<char> {
    ascii_lower(id)
}

fn role_id_key(id: &RoleId) -> (r: Vec<char>)
    ensures
        r@ == role_key(id@),
{
    let v = chars_of(id.as_str());
    let mut r: Vec<char> = Vec::new();
    let mut i: usize = 0;
    while i < v.len()
        invariant
            i <= v@.len(),
            r@ == ascii_lower(v@.subrange(0, i as int)),
        decreases v@.len() - i,
    {
        let c = v[i];
        let l = if 'A' <= c && c <= 'Z' {
            (c as u8 + 32) as char
        } else {
            c
        };
        r.push(l);
        i += 1;
        assert(r@ =~= ascii_lower(v@.subrange(0, i as int)));
    }
    assert(v@.subrange(0, v@.len() as int) =~= v@);
    r
}

/// Some two ids share a case-insensitive key.
pub open spec fn has_duplicate_key(ids: Seq<RoleId>) -> bool {
    exists|i: int, j: int|
        0 <= i < j < ids.len() && role_key(#[trigger] ids[i]@) == role_key(#[trigger] ids[j]@)
}

pub fn validate_unique_role_ids(ids: &[RoleId]) -> (r: Result<(), RoleError>)
    ensures
        has_duplicate_key(ids@) ==> (r matches Err(e) && e@ == code_err(
            RoleErrorCode::DuplicateRoleId,
        )),
        !has_duplicate_key(ids@) ==> r is Ok,
{
    let mut j: usize = 0;
    while j < ids.len()
        invariant
            j <= ids@.len(),
            forall|a: int, b: int|
                0 <= a < b < j ==> role_key(#[trigger] ids@[a]@) != role_key(#[trigger] ids@[b]@),
        decreases ids@.len() - j,
    {
        let kj = role_id_key(&ids[j]);
        let mut i: usize = 0;
        while i < j
            invariant
                i <= j < ids@.len(),
                kj@ == role_key(ids@[j as int]@),
                forall|a: int| 0 <= a < i ==> role_key(#[trigger] ids@[a]@) != kj@,
            decreases j - i,
        {
            let ki = role_id_key(&ids[i]);
            if crate::text::chars_eq(&ki, &kj) {
                assert(role_key(ids@[i as int]@) == role_key(ids@[j as int]@));
                return Err(RoleError::new(RoleErrorCode::DuplicateRoleId));
            }
            i += 1;
        }
        j += 1;
    }
    Ok(())
}

/// Some existing id shares the candidate's case-insensitive key.
pub open spec fn key_taken(candidate: Seq<char>, existing: Seq<RoleId>) -> bool {
    exists|i: int| 0 <= i < existing.len() && role_key(#[trigger] existing[i]@) == role_key(candidate)
}

pub fn ensure_role_id_available(candidate: &RoleId, existing: &[RoleId]) -> (r: Result<
    (),
    RoleError,
>)
    ensures
        key_taken(candidate@, existing@) ==> (r matches Err(e) && e@ == code_err(
            RoleErrorCode::DuplicateRoleId,
        )),
        !key_taken(candidate@, existing@) ==> r is Ok,
{
    let kc = role_id_key(candidate);
    let mut i: usize = 0;
    while i < existing.len()
        invariant
            i <= existing@.len(),
            kc@ == role_key(candidate@),
            forall|a: int| 0 <= a < i ==> role_key(#[trigger] existing@[a]@) != kc@,
        decreases existing@.len() - i,
    {
        let ki = role_id_key(&existing[i]);
        if crate::text::chars_eq(&ki, &kc) {
            return Err(RoleError::new(RoleErrorCode::DuplicateRoleId));
        }
        i += 1;
    }
    Ok(())
}

/// Validates a new, non-default role id that no existing role uses.
pub fn validate_new_role_id(raw: &str, existing: &[RoleId]) -> (r: Result<RoleId, RoleError>)
    ensures
        !valid_role_id(raw@) ==> (r matches Err(e) && e@ == code_err(RoleErrorCode::InvalidRoleId)),
        valid_role_id(raw@) && raw@ == DEFAULT_ROLE_ID@ ==> (r matches Err(e) && e@ == code_err(
            RoleErrorCode::DefaultRoleProtected,
        )),
        valid_role_id(raw@) && raw@ != DEFAULT_ROLE_ID@ && key_taken(raw@, existing@) ==> (r matches Err(e)
            && e@ == code_err(RoleErrorCode::DuplicateRoleId)),
        valid_role_id(raw@) && raw@ != DEFAULT_ROLE_ID@ && !key_taken(raw@, existing@) ==> (r matches Ok(
            id,
        ) && id@ == raw@),
{
    let id = RoleId::new(raw)?;
    if id.is_default() {
        return Err(RoleError::new(RoleErrorCode::DefaultRoleProtected));
    }
    ensure_role_id_available(&id, existing)?;
    Ok(id)
}

pub open spec fn role_file_name_spec(id: Seq<char>) -> Seq<char> {
    id + ROLE_EXTENSION@
}

pub open spec fn role_relative_path_spec(id: Seq<char>) -> Seq<char> {
    ROLE_DIRECTORY@ + "/"@ + role_file_name_spec(id)
}

pub fn role_file_name(id: &RoleId) -> (r: String)
    ensures
        r@ == role_file_name_spec(id@),
{
    let mut v = chars_of(id.as_str());
    crate::text::push_str(&mut v, ROLE_EXTENSION);
    crate::text::string_of(&v)
}

pub fn role_relative_path(id: &RoleId) -> (r: String)
    ensures
        r@ == role_relative_path_spec(id@),
{
    let mut v = chars_of(ROLE_DIRECTORY);
    crate::text::push_str(&mut v, "/");
    let name = role_file_name(id);
    crate::text::push_str(&mut v, name.as_str());
    crate::text::string_of(&v)
}

/// Validates a filename expected directly under `agents/`: it must be `<id>.toml`.
pub fn validate_role_file_name(id: &RoleId, file_name: &str) -> (r: Result<(), RoleError>)
    ensures
        file_name@ == role_file_name_spec(id@) ==> r is Ok,
        file_name@ != role_file_name_spec(id@) ==> (r matches Err(e) && e@ == code_err(
            RoleErrorCode::InvalidRoleFileName,
        )),
{
    let expected = role_file_name(id);
    if !str_eq(file_name, expected.as_str()) {
        return Err(RoleError::new(RoleErrorCode::InvalidRoleFileName));
    }
    Ok(())
}

pub fn validate_role_filename(id: &RoleId, file_name: &str) -> (r: Result<(), RoleError>)
    ensures
        file_name@ == role_file_name_spec(id@) ==> r is Ok,
        file_name@ != role_file_name_spec(id@) ==> (r matches Err(e) && e@ == code_err(
            RoleErrorCode::InvalidRoleFileName,
        )),
{
    validate_role_file_name(id, file_name)
}

/// Validates a Codex-relative path: it must be `agents/<id>.toml`.
pub fn validate_role_relative_path(id: &RoleId, relative_path: &str) -> (r: Result<(), RoleError>)
    ensures
        relative_path@ == role_relative_path_spec(id@) ==> r is Ok,
        relative_path@ != role_relative_path_spec(id@) ==> (r matches Err(e) && e@ == code_err(
            RoleErrorCode::InvalidRoleFileName,
        )),
{
    let expected = role_relative_path(id);
    if !str_eq(relative_path, expected.as_str()) {
        return Err(RoleError::new(RoleErrorCode::InvalidRoleFileName));
    }
    Ok(())
}

pub open spec fn file_name_stem(file_name: Seq<char>) -> Seq<char> {
    file_name.subrange(0, file_name.len() - ROLE_EXTENSION@.len())
}

/// The role id of a file name `<id>.toml`, if it is one.
pub open spec fn role_id_of_file_name(file_name: Seq<char>) -> Option<Seq<char>> {
    if !file_name.contains('/') && !file_name.contains('\\') && crate::text::ends_with(
        file_name,
        ROLE_EXTENSION@,
    ) && valid_role_id(file_name_stem(file_name)) {
        Some(file_name_stem(file_name))
    } else {
        None
    }
}

pub fn role_id_from_file_name(file_name: &str) -> (r: Result<RoleId, RoleError>)
    ensures
        match role_id_of_file_name(file_name@) {
            Some(id) => r matches Ok(v) && v@ == id,
            None => r matches Err(e) && e@ == code_err(RoleErrorCode::InvalidRoleFileName),
        },
{
    let v = chars_of(file_name);
    let ext = chars_of(ROLE_EXTENSION);
    if crate::text::has_char(&v, '/') || crate::text::has_char(&v, '\\')
        || !crate::text::ends_with_chars(&v, &ext) {
        return Err(RoleError::new(RoleErrorCode::InvalidRoleFileName));
    }
    let stem = crate::text::sub_chars(&v, 0, v.len() - ext.len());
    let stem_str = crate::text::string_of(&stem);
    match RoleId::new(stem_str.as_str()) {
        Ok(id) => Ok(id),
        Err(_) => Err(RoleError::new(RoleErrorCode::InvalidRoleFileName)),
    }
}

pub fn validate_managed_role_count(count: usize) -> (r: Result<(), RoleError>)
    ensures
        count > MAX_MANAGED_ROLES ==> (r matches Err(e) && e@ == code_err(
            RoleErrorCode::TooManyManagedRoles,
        )),
        count <= MAX_MANAGED_ROLES ==> r is Ok,
{
    if count > MAX_MANAGED_ROLES {
        Err(RoleError::new(RoleErrorCode::TooManyManagedRoles))
    } else {
        Ok(())
    }
}

pub fn validate_role_count(count: usize) -> (r: Result<(), RoleError>)
    ensures
        count > MAX_MANAGED_ROLES ==> (r matches Err(e) && e@ == code_err(
            RoleErrorCode::TooManyManagedRoles,
        )),
        count <= MAX_MANAGED_ROLES ==> r is Ok,
{
    validate_managed_role_count(count)
}

pub fn role_count_near_limit(count: usize) -> (r: bool)
    ensures
        r == (ROLE_LIMIT_WARNING_THRESHOLD <= count <= MAX_MANAGED_ROLES),
{
    ROLE_LIMIT_WARNING_THRESHOLD <= count && count <= MAX_MANAGED_ROLES
}

pub fn can_add_managed_role(count: usize) -> (r: Result<(), RoleError>)
    ensures
        count >= MAX_MANAGED_ROLES ==> (r matches Err(e) && e@ == code_err(
            RoleErrorCode::TooManyManagedRoles,
        )),
        count < MAX_MANAGED_ROLES ==> r is Ok,
{
    let next = if count == usize::MAX {
        usize::MAX
    } else {
        count + 1
    };
    validate_managed_role_count(next)
}

#[derive(Debug, Clone, Copy, PartialEq, Eq, Structural)]
pub enum TextOrigin {
    Builtin,
    User,
}

#[derive(Debug, Clone, Copy, PartialEq, Eq, Structural)]
pub enum RoleLifecycle {
    Disabled,
    Applied,
    Locked,
}

#[derive(Debug, Clone, Copy, PartialEq, Eq, Structural)]
pub enum RoleLifecycleAction {
    Apply,
    Lock,
    Unlock,
    Disable,
}

pub open spec fn role_transition(l: RoleLifecycle, a: RoleLifecycleAction) -> RoleLifecycle {
    match a {
        RoleLifecycleAction::Apply => if l is Locked {
            RoleLifecycle::Locked
        } else {
            RoleLifecycle::Applied
        },
        RoleLifecycleAction::Lock => RoleLifecycle::Locked,
        RoleLifecycleAction::Unlock => if l is Locked {
            RoleLifecycle::Applied
        } else {
            l
        },
        RoleLifecycleAction::Disable => RoleLifecycle::Disabled,
    }
}

impl RoleLifecycle {
    pub fn transition(self, action: RoleLifecycleAction) -> (r: Result<Self, RoleError>)
        ensures
            r matches Ok(l) && l == role_transition(self, action),
    {
        Ok(
            match action {
                RoleLifecycleAction::Apply => match self {
                    RoleLifecycle::Disabled | RoleLifecycle::Applied => RoleLifecycle::Applied,
                    RoleLifecycle::Locked => RoleLifecycle::Locked,
                },
                RoleLifecycleAction::Lock => RoleLifecycle::Locked,
                RoleLifecycleAction::Unlock => match self {
                    RoleLifecycle::Locked => RoleLifecycle::Applied,
                    RoleLifecycle::Disabled => RoleLifecycle::Disabled,
                    RoleLifecycle::Applied => RoleLifecycle::Applied,
                },
                RoleLifecycleAction::Disable => RoleLifecycle::Disabled,
            },
        )
    }

    pub fn from_flags(applied: bool, locked: bool) -> (r: Result<Self, RoleError>)
        ensures
            !applied && !locked ==> (r matches Ok(l) && l == RoleLifecycle::Disabled),
            applied && !locked ==> (r matches Ok(l) && l == RoleLifecycle::Applied),
            applied && locked ==> (r matches Ok(l) && l == RoleLifecycle::Locked),
            !applied && locked ==> (r matches Err(e) && e@ == code_err(
                RoleErrorCode::InvalidRoleLifecycle,
            )),
    {
        match (applied, locked) {
            (false, false) => Ok(RoleLifecycle::Disabled),
            (true, false) => Ok(RoleLifecycle::Applied),
            (true, true) => Ok(RoleLifecycle::Locked),
            (false, true) => Err(RoleError::new(RoleErrorCode::InvalidRoleLifecycle)),
        }
    }

    pub fn is_enabled(self) -> (r: bool)
        ensures
            r == !(self is Disabled),
    {
        !matches!(self, RoleLifecycle::Disabled)
    }

    pub fn is_locked(self) -> (r: bool)
        ensures
            r == (self is Locked),
    {
        matches!(self, RoleLifecycle::Locked)
    }
}

#[derive(Debug, Clone, Copy, PartialEq, Eq, Structural)]
pub enum RoleHealth {
    Healthy,
    Drifted,
    Invalid,
    Unsupported,
    Error,
}

#[derive(Debug, Clone, Copy, PartialEq, Eq, Structural)]
pub enum RoleAction {
    Rename,
    CopyInto,
    StopManaging,
    Delete,
}

/// The default role cannot be renamed, overwritten, released or deleted.
pub fn validate_default_action(id: &RoleId, action: RoleAction) -> (r: Result<(), RoleError>)
    ensures
        id.spec_is_default() ==> (r matches Err(e) && e@ == code_err(
            RoleErrorCode::DefaultRoleProtected,
        )),
        !id.spec_is_default() ==> r is Ok,
{
    if id.is_default() && matches!(
        action,
        RoleAction::CopyInto | RoleAction::StopManaging | RoleAction::Delete | RoleAction::Rename
    ) {
        Err(RoleError::new(RoleErrorCode::DefaultRoleProtected))
    } else {
        Ok(())
    }
}

/// Copying needs two different roles, and the destination may not be the default role.
/// Copying content from default into another role is allowed.
pub fn validate_copy_roles(source: &RoleId, target: &RoleId) -> (r: Result<(), RoleError>)
    ensures
        source@ == target@ ==> (r matches Err(e) && e@ == code_err(RoleErrorCode::InvalidRoleId)),
        source@ != target@ && target.spec_is_default() ==> (r matches Err(e) && e@ == code_err(
            RoleErrorCode::DefaultRoleProtected,
        )),
        source@ != target@ && !target.spec_is_default() ==> r is Ok,
{
    if source.same(target) {
        return Err(RoleError::new(RoleErrorCode::InvalidRoleId));
    }
    validate_default_action(target, RoleAction::CopyInto)
}

// ---------- role documents ----------

#[derive(Debug, Clone, Copy, PartialEq, Eq, Structural)]
pub enum RoleWarningCode {
    UnknownField,
}

/// A warning about a role document; the field is a safe key name or absent.
#[derive(Debug, Clone, PartialEq, Eq)]
pub struct RoleWarning {
    pub code: RoleWarningCode,
    pub field: Option<String>,
}

pub type WarningV = (RoleWarningCode, Option<Seq<char>>);

impl View for RoleWarning {
    type V = WarningV;

    open spec fn view(&self) -> WarningV {
        (self.code, crate::model::opt_view(self.field))
    }
}

pub open spec fn warnings_view(v: Seq<RoleWarning>) -> Seq<WarningV> {
    v.map_values(|w: RoleWarning| w@)
}

/// The editable values of a role document.
#[derive(Debug, Clone, PartialEq, Eq)]
pub struct ManagedRoleView {
    pub display_name: String,
    pub purpose: String,
    pub model: String,
    pub effort: String,
    pub instructions: String,
    pub warnings: Vec<RoleWarning>,
}

pub struct RoleViewSpec {
    pub display_name: Seq<char>,
    pub purpose: Seq<char>,
    pub model: Seq<char>,
    pub effort: Seq<char>,
    pub instructions: Seq<char>,
    pub warnings: Seq<WarningV>,
}

impl View for ManagedRoleView {
    type V = RoleViewSpec;

    open spec fn view(&self) -> RoleViewSpec {
        RoleViewSpec {
            display_name: self.display_name@,
            purpose: self.purpose@,
            model: self.model@,
            effort: self.effort@,
            instructions: self.instructions@,
            warnings: warnings_view(self.warnings@),
        }
    }
}

/// A parsed role document: its view and its warnings.
#[derive(Debug, Clone, PartialEq, Eq)]
pub struct ParsedRoleToml {
    pub view: ManagedRoleView,
    pub warnings: Vec<RoleWarning>,
}

impl View for ParsedRoleToml {
    type V = RoleViewSpec;

    /// The view; `warnings` always equals the view's warnings.
    open spec fn view(&self) -> RoleViewSpec {
        self.view@
    }
}

pub open spec fn parsed_consistent(p: ParsedRoleToml) -> bool {
    warnings_view(p.warnings@) == p.view@.warnings
}

fn copy_warnings(v: &Vec<RoleWarning>) -> (r: Vec<RoleWarning>)
    ensures
        warnings_view(r@) == warnings_view(v@),
{
    let mut r: Vec<RoleWarning> = Vec::new();
    let mut i: usize = 0;
    while i < v.len()
        invariant
            i <= v@.len(),
            warnings_view(r@) == warnings_view(v@.subrange(0, i as int)),
        decreases v@.len() - i,
    {
        let w = RoleWarning { code: v[i].code, field: crate::model::opt_clone(&v[i].field) };
        assert(w@ == v@[i as int]@);
        let ghost old_r = r@;
        r.push(w);
        proof {
            assert(warnings_view(r@) =~= warnings_view(old_r).push(v@[i as int]@));
            assert(v@.subrange(0, i + 1) =~= v@.subrange(0, i as int).push(v@[i as int]));
            assert(warnings_view(v@.subrange(0, i + 1)) =~= warnings_view(
                v@.subrange(0, i as int),
            ).push(v@[i as int]@));
        }
        i += 1;
    }
    assert(v@.subrange(0, v@.len() as int) =~= v@);
    r
}

/// The known keys of a role document.
pub open spec fn known_role_key(k: Seq<char>) -> bool {
    k == "name"@ || k == "description"@ || k == "model"@ || k == "model_reasoning_effort"@ || k
        == "developer_instructions"@
}

fn is_known_role_key(k: &str) -> (r: bool)
    ensures
        r == known_role_key(k@),
{
    str_eq(k, "name") || str_eq(k, "description") || str_eq(k, "model") || str_eq(
        k,
        "model_reasoning_effort",
    ) || str_eq(k, "developer_instructions")
}

pub open spec fn is_field_char(c: char) -> bool {
    ('a' <= c <= 'z') || ('A' <= c <= 'Z') || ('0' <= c <= '9') || c == '_' || c == '-' || c
        == '.'
}

/// A key name that is safe to report: 1 to 64 characters from `[A-Za-z0-9_.-]`.
pub open spec fn safe_field(k: Seq<char>) -> Option<Seq<char>> {
    if 1 <= k.len() <= 64 && forall|i: int| 0 <= i < k.len() ==> is_field_char(#[trigger] k[i]) {
        Some(k)
    } else {
        None
    }
}

fn safe_field_name(field: &str) -> (r: Option<String>)
    ensures
        crate::model::opt_view(r) == safe_field(field@),
{
    let v = chars_of(field);
    if v.len() == 0 || v.len() > 64 {
        return None;
    }
    let mut i: usize = 0;
    while i < v.len()
        invariant
            i <= v@.len(),
            v@ == field@,
            forall|k: int| 0 <= k < i ==> is_field_char(#[trigger] v@[k]),
        decreases v@.len() - i,
    {
        let c = v[i];
        if !(('a' <= c && c <= 'z') || ('A' <= c && c <= 'Z') || ('0' <= c && c <= '9') || c
            == '_' || c == '-' || c == '.') {
            assert(!is_field_char(v@[i as int]));
            return None;
        }
        i += 1;
    }
    Some(owned(field))
}

/// Warnings for the root keys that are not known, in document order.
pub open spec fn unknown_key_warnings(e: Seq<(Seq<char>, Option<Seq<char>>)>) -> Seq<WarningV>
    decreases e.len(),
{
    if e.len() == 0 {
        Seq::empty()
    } else if known_role_key(e.last().0) {
        unknown_key_warnings(e.drop_last())
    } else {
        unknown_key_warnings(e.drop_last()).push(
            (RoleWarningCode::UnknownField, safe_field(e.last().0)),
        )
    }
}

/// `Option<String>` order: absent first, then by string.
pub open spec fn opt_seq_lt(a: Option<Seq<char>>, b: Option<Seq<char>>) -> bool {
    match (a, b) {
        (None, Some(_)) => true,
        (Some(x), Some(y)) => seq_lt(x, y),
        _ => false,
    }
}

pub open spec fn warning_order() -> spec_fn(WarningV, WarningV) -> bool {
    |a: WarningV, b: WarningV| opt_seq_lt(a.1, b.1)
}

/// The warnings of a root table, sorted by field.
pub open spec fn role_warnings(e: Seq<(Seq<char>, Option<Seq<char>>)>) -> Seq<WarningV> {
    stable_sort(unknown_key_warnings(e), warning_order())
}

fn opt_string_lt(a: &Option<String>, b: &Option<String>) -> (r: bool)
    ensures
        r == opt_seq_lt(crate::model::opt_view(*a), crate::model::opt_view(*b)),
{
    match (a, b) {
        (None, Some(_)) => true,
        (Some(x), Some(y)) => crate::text::str_lt(x.as_str(), y.as_str()),
        _ => false,
    }
}

fn insert_warning(out: &mut Vec<RoleWarning>, w: RoleWarning)
    ensures
        warnings_view(final(out)@) == stable_insert(warnings_view(old(out)@), w@, warning_order()),
{
    let ghost s = warnings_view(out@);
    let mut p = out.len();
    while p > 0 && opt_string_lt(&w.field, &out[p - 1].field)
        invariant
            p <= out@.len(),
            s == warnings_view(out@),
            forall|k: int| p <= k < s.len() ==> (warning_order())(w@, #[trigger] s[k]),
        decreases p,
    {
        p -= 1;
    }
    proof {
        crate::order::lemma_stable_insert_at(s, w@, warning_order(), p as int);
    }
    let ghost wv = w@;
    out.insert(p, w);
    assert(warnings_view(out@) =~= s.subrange(0, p as int).push(wv) + s.subrange(
        p as int,
        s.len() as int,
    ));
}

fn collect_warnings(entries: &Vec<crate::toml_doc::TomlEntry>) -> (r: Vec<RoleWarning>)
    ensures
        warnings_view(r@) == role_warnings(crate::toml_doc::entries_view(entries@)),
{
    let ghost e = crate::toml_doc::entries_view(entries@);
    let mut unsorted: Vec<RoleWarning> = Vec::new();
    let mut i: usize = 0;
    while i < entries.len()
        invariant
            i <= entries@.len(),
            e == crate::toml_doc::entries_view(entries@),
            warnings_view(unsorted@) == unknown_key_warnings(e.subrange(0, i as int)),
        decreases entries@.len() - i,
    {
        proof {
            assert(e.subrange(0, i + 1).drop_last() =~= e.subrange(0, i as int));
        }
        if !is_known_role_key(entries[i].key.as_str()) {
            let w = RoleWarning {
                code: RoleWarningCode::UnknownField,
                field: safe_field_name(entries[i].key.as_str()),
            };
            unsorted.push(w);
            assert(warnings_view(unsorted@) =~= unknown_key_warnings(e.subrange(0, i + 1)));
        }
        i += 1;
    }
    assert(e.subrange(0, e.len() as int) =~= e);
    let ghost u = warnings_view(unsorted@);
    let mut sorted: Vec<RoleWarning> = Vec::new();
    let mut j: usize = 0;
    while j < unsorted.len()
        invariant
            j <= unsorted@.len(),
            u == warnings_view(unsorted@),
            warnings_view(sorted@) == stable_sort(u.subrange(0, j as int), warning_order()),
        decreases unsorted@.len() - j,
    {
        proof {
            crate::order::lemma_stable_sort_step(u, j as int, warning_order());
        }
        let w = RoleWarning {
            code: unsorted[j].code,
            field: crate::model::opt_clone(&unsorted[j].field),
        };
        insert_warning(&mut sorted, w);
        j += 1;
    }
    assert(u.subrange(0, u.len() as int) =~= u);
    sorted
}

/// First text error of a bounded text field.
pub open spec fn text_error(v: Seq<char>, min: nat, max: nat, allow_newline: bool) -> Option<
    RoleErrorCode,
> {
    if v.contains('\0') || is_blank(v) {
        Some(RoleErrorCode::InvalidText)
    } else if !allow_newline && (v.contains('\n') || v.contains('\r')) {
        Some(RoleErrorCode::InvalidText)
    } else if v.len() < min || v.len() > max {
        Some(RoleErrorCode::TextTooLong)
    } else {
        None
    }
}

pub open spec fn instructions_error(v: Seq<char>) -> Option<RoleErrorCode> {
    if v.contains('\0') || is_blank(v) {
        Some(RoleErrorCode::InvalidText)
    } else if vstd::utf8::encode_utf8(v).len() > INSTRUCTIONS_MAX_BYTES {
        Some(RoleErrorCode::TextTooLong)
    } else {
        None
    }
}

pub open spec fn check(e: Option<RoleErrorCode>) -> Result<(), RoleErr> {
    match e {
        Some(c) => Err(code_err(c)),
        None => Ok(()),
    }
}

fn validate_bounded_text(value: &str, min_chars: usize, max_chars: usize, allow_newline: bool) -> (r:
    Result<(), RoleError>)
    ensures
        rv(r) == check(text_error(value@, min_chars as nat, max_chars as nat, allow_newline)),
{
    let v = chars_of(value);
    if crate::text::has_char(&v, '\0') || crate::text::is_blank_chars(&v) {
        return Err(RoleError::new(RoleErrorCode::InvalidText));
    }
    if !allow_newline && (crate::text::has_char(&v, '\n') || crate::text::has_char(&v, '\r')) {
        return Err(RoleError::new(RoleErrorCode::InvalidText));
    }
    if v.len() < min_chars || v.len() > max_chars {
        return Err(RoleError::new(RoleErrorCode::TextTooLong));
    }
    Ok(())
}

pub open spec fn display_name_error(v: Seq<char>) -> Option<RoleErrorCode> {
    text_error(v, 1, DISPLAY_NAME_MAX_CHARS as nat, false)
}

pub open spec fn purpose_error(v: Seq<char>) -> Option<RoleErrorCode> {
    text_error(v, 1, PURPOSE_MAX_CHARS as nat, true)
}

pub open spec fn selection_criteria_error(v: Seq<char>) -> Option<RoleErrorCode> {
    text_error(v, 1, SELECTION_CRITERIA_MAX_CHARS as nat, true)
}

pub open spec fn model_error(v: Seq<char>) -> Option<RoleErrorCode> {
    text_error(v, 1, 256, false)
}

pub open spec fn effort_error(v: Seq<char>) -> Option<RoleErrorCode> {
    text_error(v, 1, 64, false)
}

fn validate_display_name(value: &str) -> (r: Result<(), RoleError>)
    ensures
        rv(r) == check(display_name_error(value@)),
{
    validate_bounded_text(value, 1, DISPLAY_NAME_MAX_CHARS, false)
}

fn validate_purpose(value: &str) -> (r: Result<(), RoleError>)
    ensures
        rv(r) == check(purpose_error(value@)),
{
    validate_bounded_text(value, 1, PURPOSE_MAX_CHARS, true)
}

fn validate_selection_criteria(value: &str) -> (r: Result<(), RoleError>)
    ensures
        rv(r) == check(selection_criteria_error(value@)),
{
    validate_bounded_text(value, 1, SELECTION_CRITERIA_MAX_CHARS, true)
}

fn validate_model(value: &str) -> (r: Result<(), RoleError>)
    ensures
        rv(r) == check(model_error(value@)),
{
    validate_bounded_text(value, 1, 256, false)
}

fn validate_effort(value: &str) -> (r: Result<(), RoleError>)
    ensures
        rv(r) == check(effort_error(value@)),
{
    validate_bounded_text(value, 1, 64, false)
}

fn validate_instructions(value: &str) -> (r: Result<(), RoleError>)
    ensures
        rv(r) == check(instructions_error(value@)),
{
    let v = chars_of(value);
    if crate::text::has_char(&v, '\0') || crate::text::is_blank_chars(&v) {
        return Err(RoleError::new(RoleErrorCode::InvalidText));
    }
    if value.as_bytes().len() > INSTRUCTIONS_MAX_BYTES {
        return Err(RoleError::new(RoleErrorCode::TextTooLong));
    }
    Ok(())
}

/// A required string field of the root table, trimmed.
pub open spec fn required_field(e: Seq<(Seq<char>, Option<Seq<char>>)>, key: Seq<char>) -> Result<
    Seq<char>,
    RoleErr,
> {
    match lookup_entry(e, key) {
        None => Err(field_err(RoleErrorCode::MissingRoleField, key)),
        Some(None) => Err(field_err(RoleErrorCode::InvalidRoleFieldType, key)),
        Some(Some(v)) => if v.contains('\0') {
            Err(field_err(RoleErrorCode::InvalidText, key))
        } else {
            Ok(trim(v))
        },
    }
}

/// The role document that a root table describes.
pub open spec fn role_from_entries(e: Seq<(Seq<char>, Option<Seq<char>>)>) -> Result<
    RoleViewSpec,
    RoleErr,
> {
    match required_field(e, "name"@) {
        Err(x) => Err(x),
        Ok(name) => match required_field(e, "description"@) {
            Err(x) => Err(x),
            Ok(purpose) => match required_field(e, "model"@) {
                Err(x) => Err(x),
                Ok(model) => match required_field(e, "model_reasoning_effort"@) {
                    Err(x) => Err(x),
                    Ok(effort) => match required_field(e, "developer_instructions"@) {
                        Err(x) => Err(x),
                        Ok(instructions) => if display_name_error(name) is Some {
                            Err(code_err(display_name_error(name)->0))
                        } else if purpose_error(purpose) is Some {
                            Err(code_err(purpose_error(purpose)->0))
                        } else if model_error(model) is Some {
                            Err(code_err(model_error(model)->0))
                        } else if effort_error(effort) is Some {
                            Err(code_err(effort_error(effort)->0))
                        } else if instructions_error(instructions) is Some {
                            Err(code_err(instructions_error(instructions)->0))
                        } else {
                            Ok(
                                RoleViewSpec {
                                    display_name: name,
                                    purpose,
                                    model,
                                    effort,
                                    instructions,
                                    warnings: role_warnings(e),
                                },
                            )
                        },
                    },
                },
            },
        },
    }
}

/// The role document that `text` holds.
pub open spec fn parse_role(text: Seq<char>) -> Result<RoleViewSpec, RoleErr> {
    if text.contains('\0') {
        Err(code_err(RoleErrorCode::InvalidText))
    } else {
        match toml_root_entries(text) {
            None => Err(code_err(RoleErrorCode::InvalidRoleToml)),
            Some(e) => role_from_entries(e),
        }
    }
}

fn find_entry<'a>(entries: &'a Vec<crate::toml_doc::TomlEntry>, key: &str) -> (r: Option<
    &'a crate::toml_doc::TomlEntry,
>)
    ensures
        match lookup_entry(crate::toml_doc::entries_view(entries@), key@) {
            None => r is None,
            Some(t) => r matches Some(x) && crate::model::opt_view(x.text) == t,
        },
{
    let ghost e = crate::toml_doc::entries_view(entries@);
    let mut i: usize = 0;
    assert(e.subrange(0, e.len() as int) =~= e);
    while i < entries.len()
        invariant
            i <= entries@.len(),
            e == crate::toml_doc::entries_view(entries@),
            lookup_entry(e, key@) == lookup_entry(e.subrange(i as int, e.len() as int), key@),
        decreases entries@.len() - i,
    {
        let ghost rest = e.subrange(i as int, e.len() as int);
        assert(rest.drop_first() =~= e.subrange(i + 1, e.len() as int));
        assert(rest[0] == crate::toml_doc::entry_view(entries@[i as int]));
        if str_eq(entries[i].key.as_str(), key) {
            return Some(&entries[i]);
        }
        i += 1;
    }
    assert(e.subrange(e.len() as int, e.len() as int).len() == 0);
    None
}

fn required_string(entries: &Vec<crate::toml_doc::TomlEntry>, field: &str) -> (r: Result<
    String,
    RoleError,
>)
    ensures
        rv(r) == required_field(crate::toml_doc::entries_view(entries@), field@),
{
    match find_entry(entries, field) {
        None => Err(RoleError::with_field(RoleErrorCode::MissingRoleField, field)),
        Some(entry) => match &entry.text {
            None => Err(RoleError::with_field(RoleErrorCode::InvalidRoleFieldType, field)),
            Some(value) => {
                let v = chars_of(value.as_str());
                if crate::text::has_char(&v, '\0') {
                    return Err(RoleError::with_field(RoleErrorCode::InvalidText, field));
                }
                Ok(crate::text::trim_str(value.as_str()))
            },
        },
    }
}

/// Parses a role document, warning (not failing) on unknown root keys.
pub fn parse_role_toml(text: &str) -> (r: Result<ParsedRoleToml, RoleError>)
    ensures
        rv(r) == parse_role(text@),
        r matches Ok(p) ==> parsed_consistent(p),
{
    let t = chars_of(text);
    if crate::text::has_char(&t, '\0') {
        return Err(RoleError::new(RoleErrorCode::InvalidText));
    }
    let entries = match crate::toml_doc::toml_entries(text) {
        Some(e) => e,
        None => {
            return Err(RoleError::new(RoleErrorCode::InvalidRoleToml));
        },
    };
    let display_name = required_string(&entries, "name")?;
    let purpose = required_string(&entries, "description")?;
    let model = required_string(&entries, "model")?;
    let effort = required_string(&entries, "model_reasoning_effort")?;
    let instructions = required_string(&entries, "developer_instructions")?;
    validate_display_name(display_name.as_str())?;
    validate_purpose(purpose.as_str())?;
    validate_model(model.as_str())?;
    validate_effort(effort.as_str())?;
    validate_instructions(instructions.as_str())?;
    let warnings = collect_warnings(&entries);
    let view_warnings = copy_warnings(&warnings);
    Ok(
        ParsedRoleToml {
            view: ManagedRoleView {
                display_name,
                purpose,
                model,
                effort,
                instructions,
                warnings: view_warnings,
            },
            warnings,
        },
    )
}

/// Parses a role document from bytes, which must be UTF-8.
pub fn parse_role_toml_bytes(bytes: &[u8]) -> (r: Result<ParsedRoleToml, RoleError>)
    ensures
        !vstd::utf8::valid_utf8(bytes@) ==> (r matches Err(e) && e@ == code_err(
            RoleErrorCode::InvalidText,
        )),
        vstd::utf8::valid_utf8(bytes@) ==> rv(r) == parse_role(vstd::utf8::decode_utf8(bytes@)),
        r matches Ok(p) ==> parsed_consistent(p),
{
    match crate::text::utf8_text(bytes) {
        Ok(text) => parse_role_toml(text.as_str()),
        Err(_) => Err(RoleError::new(RoleErrorCode::InvalidText)),
    }
}

// ---------- capabilities ----------

/// What one model supports, as the capability probe reports it.
#[derive(Debug, Clone, PartialEq, Eq)]
pub struct ModelCapability {
    pub slug: String,
    pub multi_agent_version: String,
    pub supported_reasoning_levels: Vec<String>,
}

pub struct ModelSpec {
    pub slug: Seq<char>,
    pub version: Seq<char>,
    pub levels: Seq<Seq<char>>,
}

pub open spec fn strings_view(v: Seq<String>) -> Seq<Seq<char>> {
    v.map_values(|s: String| s@)
}

impl View for ModelCapability {
    type V = ModelSpec;

    open spec fn view(&self) -> ModelSpec {
        ModelSpec {
            slug: self.slug@,
            version: self.multi_agent_version@,
            levels: strings_view(self.supported_reasoning_levels@),
        }
    }
}

pub open spec fn models_view(v: Seq<ModelCapability>) -> Seq<ModelSpec> {
    v.map_values(|m: ModelCapability| m@)
}

/// First error of a list of reasoning levels: an invalid effort, or an effort listed twice.
pub open spec fn levels_error(l: Seq<Seq<char>>) -> Option<RoleErrorCode>
    decreases l.len(),
{
    if l.len() == 0 {
        None
    } else if levels_error(l.drop_last()) is Some {
        levels_error(l.drop_last())
    } else if effort_error(l.last()) is Some {
        effort_error(l.last())
    } else if l.drop_last().contains(l.last()) {
        Some(RoleErrorCode::UnsupportedReasoningEffort)
    } else {
        None
    }
}

pub open spec fn model_capability_error(m: ModelSpec) -> Option<RoleErrorCode> {
    if model_error(m.slug) is Some {
        model_error(m.slug)
    } else if text_error(m.version, 1, 32, false) is Some {
        text_error(m.version, 1, 32, false)
    } else {
        levels_error(m.levels)
    }
}

pub fn copy_strings(v: &Vec<String>) -> (r: Vec<String>)
    ensures
        strings_view(r@) == strings_view(v@),
{
    let mut r: Vec<String> = Vec::new();
    let mut i: usize = 0;
    while i < v.len()
        invariant
            i <= v@.len(),
            strings_view(r@) == strings_view(v@.subrange(0, i as int)),
        decreases v@.len() - i,
    {
        let ghost old_r = r@;
        r.push(v[i].clone());
        proof {
            assert(strings_view(r@) =~= strings_view(old_r).push(v@[i as int]@));
            assert(v@.subrange(0, i + 1) =~= v@.subrange(0, i as int).push(v@[i as int]));
            assert(strings_view(v@.subrange(0, i + 1)) =~= strings_view(
                v@.subrange(0, i as int),
            ).push(v@[i as int]@));
        }
        i += 1;
    }
    assert(v@.subrange(0, v@.len() as int) =~= v@);
    r
}

fn contains_string(v: &Vec<String>, upto: usize, s: &str) -> (r: bool)
    requires
        upto <= v@.len(),
    ensures
        r == strings_view(v@.subrange(0, upto as int)).contains(s@),
{
    let mut i: usize = 0;
    while i < upto
        invariant
            i <= upto <= v@.len(),
            forall|k: int| 0 <= k < i ==> v@[k]@ != s@,
        decreases upto - i,
    {
        if str_eq(v[i].as_str(), s) {
            assert(strings_view(v@.subrange(0, upto as int))[i as int] == s@);
            return true;
        }
        i += 1;
    }
    proof {
        if strings_view(v@.subrange(0, upto as int)).contains(s@) {
            let k = choose|k: int|
                0 <= k < upto && strings_view(v@.subrange(0, upto as int))[k] == s@;
            assert(v@[k]@ == s@);
        }
    }
    false
}

proof fn lemma_levels_error_prefix(l: Seq<Seq<char>>, k: int)
    requires
        0 <= k <= l.len(),
        levels_error(l.subrange(0, k)) is Some,
    ensures
        levels_error(l) == levels_error(l.subrange(0, k)),
    decreases l.len() - k,
{
    if k < l.len() {
        assert(l.subrange(0, k + 1).drop_last() =~= l.subrange(0, k));
        lemma_levels_error_prefix(l, k + 1);
    } else {
        assert(l.subrange(0, k) =~= l);
    }
}

proof fn lemma_models_error_prefix(ms: Seq<ModelSpec>, k: int)
    requires
        0 <= k <= ms.len(),
        models_error(ms.subrange(0, k)) is Some,
    ensures
        models_error(ms) == models_error(ms.subrange(0, k)),
    decreases ms.len() - k,
{
    if k < ms.len() {
        assert(ms.subrange(0, k + 1).drop_last() =~= ms.subrange(0, k));
        lemma_models_error_prefix(ms, k + 1);
    } else {
        assert(ms.subrange(0, k) =~= ms);
    }
}

fn validate_levels(levels: &Vec<String>) -> (r: Result<(), RoleError>)
    ensures
        rv(r) == check(levels_error(strings_view(levels@))),
{
    let ghost l = strings_view(levels@);
    let mut i: usize = 0;
    while i < levels.len()
        invariant
            i <= levels@.len(),
            l == strings_view(levels@),
            levels_error(l.subrange(0, i as int)) is None,
        decreases levels@.len() - i,
    {
        let ghost next = l.subrange(0, i + 1);
        assert(next.drop_last() =~= l.subrange(0, i as int));
        assert(next.last() == levels@[i as int]@);
        if let Err(e) = validate_effort(levels[i].as_str()) {
            proof {
                lemma_levels_error_prefix(l, i + 1);
            }
            return Err(e);
        }
        assert(strings_view(levels@.subrange(0, i as int)) =~= l.subrange(0, i as int));
        if contains_string(levels, i, levels[i].as_str()) {
            proof {
                lemma_levels_error_prefix(l, i + 1);
            }
            return Err(RoleError::new(RoleErrorCode::UnsupportedReasoningEffort));
        }
        i += 1;
    }
    assert(l.subrange(0, l.len() as int) =~= l);
    Ok(())
}

fn validate_model_capability(capability: &ModelCapability) -> (r: Result<(), RoleError>)
    ensures
        rv(r) == check(model_capability_error(capability@)),
{
    validate_model(capability.slug.as_str())?;
    validate_bounded_text(capability.multi_agent_version.as_str(), 1, 32, false)?;
    validate_levels(&capability.supported_reasoning_levels)
}

impl ModelCapability {
    pub fn new(slug: &str, multi_agent_version: &str, supported_reasoning_levels: Vec<String>) -> (r:
        Result<Self, RoleError>)
        ensures
            ({
                let m = ModelSpec {
                    slug: slug@,
                    version: multi_agent_version@,
                    levels: strings_view(supported_reasoning_levels@),
                };
                match model_capability_error(m) {
                    Some(c) => r matches Err(e) && e@ == code_err(c),
                    None => r matches Ok(v) && v@ == m,
                }
            }),
    {
        let capability = ModelCapability {
            slug: owned(slug),
            multi_agent_version: owned(multi_agent_version),
            supported_reasoning_levels,
        };
        validate_model_capability(&capability)?;
        Ok(capability)
    }

    pub fn supports_effort(&self, effort: &str) -> (r: bool)
        ensures
            r == self@.levels.contains(effort@),
    {
        let r = contains_string(&self.supported_reasoning_levels, self.supported_reasoning_levels.len(), effort);
        assert(self.supported_reasoning_levels@.subrange(0, self.supported_reasoning_levels@.len() as int) =~= self.supported_reasoning_levels@);
        r
    }

    /// An equal copy.
    pub fn duplicate(&self) -> (r: Self)
        ensures
            r@ == self@,
    {
        ModelCapability {
            slug: self.slug.clone(),
            multi_agent_version: self.multi_agent_version.clone(),
            supported_reasoning_levels: copy_strings(&self.supported_reasoning_levels),
        }
    }
}

/// The models a Codex executable reported, sorted by slug and without duplicate slugs.
#[derive(Debug, Clone, PartialEq, Eq)]
pub struct CapabilitySnapshot {
    pub models: Vec<ModelCapability>,
    /// A stable executable identity (for example a build hash), never a path or command output.
    pub executable_identity: String,
    pub fetched_at_ms: u64,
}

pub struct SnapshotSpec {
    pub models: Seq<ModelSpec>,
    pub executable_identity: Seq<char>,
    pub fetched_at_ms: u64,
}

impl View for CapabilitySnapshot {
    type V = SnapshotSpec;

    open spec fn view(&self) -> SnapshotSpec {
        SnapshotSpec {
            models: models_view(self.models@),
            executable_identity: self.executable_identity@,
            fetched_at_ms: self.fetched_at_ms,
        }
    }
}

pub open spec fn identity_error(id: Seq<char>) -> Option<RoleErrorCode> {
    if is_blank(id) || id.contains('\0') || id.contains('/') || id.contains('\\') {
        Some(RoleErrorCode::InvalidText)
    } else {
        None
    }
}

/// First error among the models, in input order.
pub open spec fn models_error(ms: Seq<ModelSpec>) -> Option<RoleErrorCode>
    decreases ms.len(),
{
    if ms.len() == 0 {
        None
    } else if models_error(ms.drop_last()) is Some {
        models_error(ms.drop_last())
    } else {
        model_capability_error(ms.last())
    }
}

pub open spec fn slug_order() -> spec_fn(ModelSpec, ModelSpec) -> bool {
    |a: ModelSpec, b: ModelSpec| seq_lt(a.slug, b.slug)
}

/// `Vec::dedup_by` on slug: drops each model whose slug equals the last kept model's slug.
pub open spec fn dedup_slugs(ms: Seq<ModelSpec>) -> Seq<ModelSpec>
    decreases ms.len(),
{
    if ms.len() == 0 {
        Seq::empty()
    } else {
        let d = dedup_slugs(ms.drop_last());
        if d.len() > 0 && d.last().slug == ms.last().slug {
            d
        } else {
            d.push(ms.last())
        }
    }
}

/// The model list that a snapshot keeps.
pub open spec fn snapshot_models(ms: Seq<ModelSpec>) -> Seq<ModelSpec> {
    dedup_slugs(stable_sort(ms, slug_order()))
}

fn insert_model(out: &mut Vec<ModelCapability>, m: ModelCapability)
    ensures
        models_view(final(out)@) == stable_insert(models_view(old(out)@), m@, slug_order()),
{
    let ghost s = models_view(out@);
    let mut p = out.len();
    while p > 0 && crate::text::str_lt(m.slug.as_str(), out[p - 1].slug.as_str())
        invariant
            p <= out@.len(),
            s == models_view(out@),
            forall|k: int| p <= k < s.len() ==> (slug_order())(m@, #[trigger] s[k]),
        decreases p,
    {
        p -= 1;
    }
    proof {
        crate::order::lemma_stable_insert_at(s, m@, slug_order(), p as int);
    }
    let ghost mv = m@;
    out.insert(p, m);
    assert(models_view(out@) =~= s.subrange(0, p as int).push(mv) + s.subrange(
        p as int,
        s.len() as int,
    ));
}

impl CapabilitySnapshot {
    pub fn new(models: Vec<ModelCapability>, executable_identity: &str, fetched_at_ms: u64) -> (r:
        Result<Self, RoleError>)
        ensures
            identity_error(executable_identity@) is Some ==> (r matches Err(e) && e@ == code_err(
                RoleErrorCode::InvalidText,
            )),
            identity_error(executable_identity@) is None && models_error(models_view(models@)) is Some
                ==> (r matches Err(e) && e@ == code_err(models_error(models_view(models@))->0)),
            identity_error(executable_identity@) is None && models_error(models_view(models@)) is None
                ==> (r matches Ok(snap) && snap@ == SnapshotSpec {
                models: snapshot_models(models_view(models@)),
                executable_identity: executable_identity@,
                fetched_at_ms,
            }),
    {
        let id = chars_of(executable_identity);
        if crate::text::is_blank_chars(&id) || crate::text::has_char(&id, '\0')
            || crate::text::has_char(&id, '/') || crate::text::has_char(&id, '\\') {
            return Err(RoleError::new(RoleErrorCode::InvalidText));
        }
        let ghost mv = models_view(models@);
        let mut i: usize = 0;
        while i < models.len()
            invariant
                i <= models@.len(),
                mv == models_view(models@),
                models_error(mv.subrange(0, i as int)) is None,
                identity_error(executable_identity@) is None,
            decreases models@.len() - i,
        {
            assert(mv.subrange(0, i + 1).drop_last() =~= mv.subrange(0, i as int));
            if let Err(e) = validate_model_capability(&models[i]) {
                proof {
                    lemma_models_error_prefix(mv, i + 1);
                }
                return Err(e);
            }
            i += 1;
        }
        assert(mv.subrange(0, mv.len() as int) =~= mv);
        let mut sorted: Vec<ModelCapability> = Vec::new();
        let mut j: usize = 0;
        while j < models.len()
            invariant
                j <= models@.len(),
                mv == models_view(models@),
                models_view(sorted@) == stable_sort(mv.subrange(0, j as int), slug_order()),
            decreases models@.len() - j,
        {
            proof {
                crate::order::lemma_stable_sort_step(mv, j as int, slug_order());
            }
            insert_model(&mut sorted, models[j].duplicate());
            j += 1;
        }
        let ghost sv = models_view(sorted@);
        let mut kept: Vec<ModelCapability> = Vec::new();
        let mut k: usize = 0;
        while k < sorted.len()
            invariant
                k <= sorted@.len(),
                sv == models_view(sorted@),
                models_view(kept@) == dedup_slugs(sv.subrange(0, k as int)),
            decreases sorted@.len() - k,
        {
            assert(sv.subrange(0, k + 1).drop_last() =~= sv.subrange(0, k as int));
            let n = kept.len();
            let same = n > 0 && str_eq(kept[n - 1].slug.as_str(), sorted[k].slug.as_str());
            if !same {
                let ghost before = kept@;
                kept.push(sorted[k].duplicate());
                assert(models_view(kept@) =~= models_view(before).push(sv[k as int]));
            }
            k += 1;
        }
        assert(sv.subrange(0, sv.len() as int) =~= sv);
        Ok(
            CapabilitySnapshot {
                models: kept,
                executable_identity: owned(executable_identity),
                fetched_at_ms,
            },
        )
    }

    /// Slugs of the models with multi-agent version v2, in snapshot order.
    pub fn available_models(&self) -> (r: Vec<String>)
        ensures
            strings_view(r@) == v2_slugs(self@.models),
    {
        let ghost ms = self@.models;
        let mut r: Vec<String> = Vec::new();
        let mut i: usize = 0;
        while i < self.models.len()
            invariant
                i <= self.models@.len(),
                ms == models_view(self.models@),
                strings_view(r@) == v2_slugs(ms.subrange(0, i as int)),
            decreases self.models@.len() - i,
        {
            assert(ms.subrange(0, i + 1).drop_last() =~= ms.subrange(0, i as int));
            if str_eq(self.models[i].multi_agent_version.as_str(), "v2") {
                let ghost before = r@;
                r.push(self.models[i].slug.clone());
                assert(strings_view(r@) =~= strings_view(before).push(ms[i as int].slug));
            }
            i += 1;
        }
        assert(ms.subrange(0, ms.len() as int) =~= ms);
        r
    }

    /// The reasoning levels of the v2 model with this slug, or none.
    pub fn efforts_for(&self, model: &str) -> (r: Vec<String>)
        ensures
            strings_view(r@) == match first_v2_model(self@.models, model@) {
                Some(m) => m.levels,
                None => Seq::empty(),
            },
    {
        let ghost ms = self@.models;
        assert(ms.subrange(0, ms.len() as int) =~= ms);
        let mut i: usize = 0;
        while i < self.models.len()
            invariant
                i <= self.models@.len(),
                ms == models_view(self.models@),
                first_v2_model(ms, model@) == first_v2_model(ms.subrange(i as int, ms.len() as int), model@),
            decreases self.models@.len() - i,
        {
            let ghost rest = ms.subrange(i as int, ms.len() as int);
            assert(rest.drop_first() =~= ms.subrange(i + 1, ms.len() as int));
            assert(rest[0] == self.models@[i as int]@);
            if str_eq(self.models[i].slug.as_str(), model) && str_eq(
                self.models[i].multi_agent_version.as_str(),
                "v2",
            ) {
                return copy_strings(&self.models[i].supported_reasoning_levels);
            }
            i += 1;
        }
        Vec::new()
    }

    /// Whether some v2 model with this slug supports the effort.
    pub fn supports(&self, model: &str, effort: &str) -> (r: bool)
        ensures
            r == exists|i: int|
                0 <= i < self@.models.len() && #[trigger] self@.models[i].slug == model@
                    && self@.models[i].version == "v2"@ && self@.models[i].levels.contains(effort@),
    {
        let ghost ms = self@.models;
        let mut i: usize = 0;
        while i < self.models.len()
            invariant
                i <= self.models@.len(),
                ms == models_view(self.models@),
                forall|k: int|
                    0 <= k < i ==> !(#[trigger] ms[k].slug == model@ && ms[k].version == "v2"@
                        && ms[k].levels.contains(effort@)),
            decreases self.models@.len() - i,
        {
            if str_eq(self.models[i].slug.as_str(), model) && str_eq(
                self.models[i].multi_agent_version.as_str(),
                "v2",
            ) && self.models[i].supports_effort(effort) {
                assert(self@.models[i as int].slug == model@);
                assert(self@.models[i as int].version == "v2"@);
                return true;
            }
            i += 1;
        }
        false
    }

    /// Checks a model and effort against the snapshot.
    pub fn validate_selection(&self, model: &str, effort: &str) -> (r: Result<(), RoleError>)
        ensures
            rv(r) == check(capability_error(model@, effort@, self@.models)),
    {
        validate_role_capability_values(model, effort, self)
    }
}

/// Slugs of the v2 models.
pub open spec fn v2_slugs(ms: Seq<ModelSpec>) -> Seq<Seq<char>>
    decreases ms.len(),
{
    if ms.len() == 0 {
        Seq::empty()
    } else if ms.last().version == "v2"@ {
        v2_slugs(ms.drop_last()).push(ms.last().slug)
    } else {
        v2_slugs(ms.drop_last())
    }
}

/// The first v2 model with this slug.
pub open spec fn first_v2_model(ms: Seq<ModelSpec>, slug: Seq<char>) -> Option<ModelSpec>
    decreases ms.len(),
{
    if ms.len() == 0 {
        None
    } else if ms[0].slug == slug && ms[0].version == "v2"@ {
        Some(ms[0])
    } else {
        first_v2_model(ms.drop_first(), slug)
    }
}

/// The first model with this slug.
pub open spec fn first_model(ms: Seq<ModelSpec>, slug: Seq<char>) -> Option<ModelSpec>
    decreases ms.len(),
{
    if ms.len() == 0 {
        None
    } else if ms[0].slug == slug {
        Some(ms[0])
    } else {
        first_model(ms.drop_first(), slug)
    }
}

/// Whether a snapshot supports a model and effort: the first model with the slug must be a v2
/// model that lists the effort.
pub open spec fn capability_error(model: Seq<char>, effort: Seq<char>, ms: Seq<ModelSpec>) -> Option<
    RoleErrorCode,
> {
    match first_model(ms, model) {
        None => Some(RoleErrorCode::UnsupportedModel),
        Some(m) => if m.version != "v2"@ {
            Some(RoleErrorCode::UnsupportedMultiAgentVersion)
        } else if !m.levels.contains(effort) {
            Some(RoleErrorCode::UnsupportedReasoningEffort)
        } else {
            None
        },
    }
}

pub fn validate_role_capability_values(
    model: &str,
    effort: &str,
    capabilities: &CapabilitySnapshot,
) -> (r: Result<(), RoleError>)
    ensures
        rv(r) == check(capability_error(model@, effort@, capabilities@.models)),
{
    let ghost ms = capabilities@.models;
    assert(ms.subrange(0, ms.len() as int) =~= ms);
    let mut i: usize = 0;
    while i < capabilities.models.len()
        invariant
            i <= capabilities.models@.len(),
            ms == models_view(capabilities.models@),
            first_model(ms, model@) == first_model(ms.subrange(i as int, ms.len() as int), model@),
        decreases capabilities.models@.len() - i,
    {
        let ghost rest = ms.subrange(i as int, ms.len() as int);
        assert(rest.drop_first() =~= ms.subrange(i + 1, ms.len() as int));
        assert(rest[0] == capabilities.models@[i as int]@);
        let candidate = &capabilities.models[i];
        if str_eq(candidate.slug.as_str(), model) {
            if !str_eq(candidate.multi_agent_version.as_str(), "v2") {
                return Err(RoleError::new(RoleErrorCode::UnsupportedMultiAgentVersion));
            }
            if !candidate.supports_effort(effort) {
                return Err(RoleError::new(RoleErrorCode::UnsupportedReasoningEffort));
            }
            return Ok(());
        }
        i += 1;
    }
    Err(RoleError::new(RoleErrorCode::UnsupportedModel))
}

pub fn validate_role_capability(view: &ManagedRoleView, capabilities: &CapabilitySnapshot) -> (r:
    Result<(), RoleError>)
    ensures
        rv(r) == check(capability_error(view@.model, view@.effort, capabilities@.models)),
{
    validate_role_capability_values(view.model.as_str(), view.effort.as_str(), capabilities)
}


// ---------- editing and rendering ----------

/// The editable values of a role, as a user submits them (untrimmed).
#[derive(Debug, Clone, PartialEq, Eq)]
pub struct RoleEditableFields {
    pub display_name: String,
    pub purpose: String,
    pub selection_criteria: String,
    pub model: String,
    pub effort: String,
    /// Only present in this write-side draft or a detail view, never in discovered summaries.
    pub instructions: String,
}

pub struct EditableSpec {
    pub display_name: Seq<char>,
    pub purpose: Seq<char>,
    pub selection_criteria: Seq<char>,
    pub model: Seq<char>,
    pub effort: Seq<char>,
    pub instructions: Seq<char>,
}

impl View for RoleEditableFields {
    type V = EditableSpec;

    open spec fn view(&self) -> EditableSpec {
        EditableSpec {
            display_name: self.display_name@,
            purpose: self.purpose@,
            selection_criteria: self.selection_criteria@,
            model: self.model@,
            effort: self.effort@,
            instructions: self.instructions@,
        }
    }
}

/// First error of the editable texts: the trimmed fields in order, then the instructions.
pub open spec fn editable_error(f: EditableSpec) -> Option<RoleErrorCode> {
    if display_name_error(trim(f.display_name)) is Some {
        display_name_error(trim(f.display_name))
    } else if purpose_error(trim(f.purpose)) is Some {
        purpose_error(trim(f.purpose))
    } else if selection_criteria_error(trim(f.selection_criteria)) is Some {
        selection_criteria_error(trim(f.selection_criteria))
    } else if model_error(trim(f.model)) is Some {
        model_error(trim(f.model))
    } else if effort_error(trim(f.effort)) is Some {
        effort_error(trim(f.effort))
    } else {
        instructions_error(f.instructions)
    }
}

fn validate_field_texts(fields: &RoleEditableFields) -> (r: Result<(), RoleError>)
    ensures
        rv(r) == check(editable_error(fields@)),
{
    validate_display_name(crate::text::trim_str(fields.display_name.as_str()).as_str())?;
    validate_purpose(crate::text::trim_str(fields.purpose.as_str()).as_str())?;
    validate_selection_criteria(crate::text::trim_str(fields.selection_criteria.as_str()).as_str())?;
    validate_model(crate::text::trim_str(fields.model.as_str()).as_str())?;
    validate_effort(crate::text::trim_str(fields.effort.as_str()).as_str())?;
    validate_instructions(fields.instructions.as_str())
}

/// Checks the editable texts, then the (untrimmed) model and effort against the snapshot.
pub fn validate_editable_fields(fields: &RoleEditableFields, capabilities: &CapabilitySnapshot) -> (r:
    Result<(), RoleError>)
    ensures
        editable_error(fields@) is Some ==> rv(r) == check(editable_error(fields@)),
        editable_error(fields@) is None ==> rv(r) == check(
            capability_error(fields@.model, fields@.effort, capabilities@.models),
        ),
{
    validate_field_texts(fields)?;
    validate_role_capability_values(fields.model.as_str(), fields.effort.as_str(), capabilities)
}

/// The keys a role document is written with, each with its value.
pub open spec fn role_pairs(f: EditableSpec) -> Seq<(Seq<char>, Seq<char>)> {
    seq![
        ("name"@, trim(f.display_name)),
        ("description"@, trim(f.purpose)),
        ("model"@, trim(f.model)),
        ("model_reasoning_effort"@, trim(f.effort)),
        ("developer_instructions"@, f.instructions),
    ]
}

/// The view that a document rendered from the fields parses to.
pub open spec fn rendered_view(f: EditableSpec) -> RoleViewSpec {
    RoleViewSpec {
        display_name: trim(f.display_name),
        purpose: trim(f.purpose),
        model: trim(f.model),
        effort: trim(f.effort),
        instructions: trim(f.instructions),
        warnings: Seq::empty(),
    }
}

proof fn lemma_role_keys_distinct(f: EditableSpec)
    ensures
        crate::toml_doc::distinct_keys(role_pairs(f)),
{
    reveal_strlit("name");
    reveal_strlit("description");
    reveal_strlit("model");
    reveal_strlit("model_reasoning_effort");
    reveal_strlit("developer_instructions");
    let p = role_pairs(f);
    assert forall|i: int, j: int| 0 <= i < j < p.len() implies #[trigger] p[i].0 != #[trigger] p[j].0 by {
        if p[i].0.len() == p[j].0.len() {
            assert(p[i].0[0] != p[j].0[0]);
        }
    }
}

fn role_pairs_of(fields: &RoleEditableFields) -> (r: Vec<(String, String)>)
    ensures
        crate::toml_doc::pairs_view(r@) == role_pairs(fields@),
{
    let mut r: Vec<(String, String)> = Vec::new();
    r.push((owned("name"), crate::text::trim_str(fields.display_name.as_str())));
    r.push((owned("description"), crate::text::trim_str(fields.purpose.as_str())));
    r.push((owned("model"), crate::text::trim_str(fields.model.as_str())));
    r.push((owned("model_reasoning_effort"), crate::text::trim_str(fields.effort.as_str())));
    r.push((owned("developer_instructions"), owned(fields.instructions.as_str())));
    assert(crate::toml_doc::pairs_view(r@) =~= role_pairs(fields@));
    r
}

proof fn lemma_trimmed_text_ok(v: Seq<char>, min: nat, max: nat, allow_newline: bool)
    requires
        text_error(trim(v), min, max, allow_newline) is None,
    ensures
        text_error(trim(trim(v)), min, max, allow_newline) is None,
{
    crate::text::lemma_trim_idempotent(v);
}

proof fn lemma_trimmed_instructions_ok(v: Seq<char>)
    requires
        instructions_error(v) is None,
    ensures
        instructions_error(trim(v)) is None,
        instructions_error(trim(trim(v))) is None,
{
    crate::text::lemma_trim_contains(v, '\0');
    crate::text::lemma_trim_slice(v);
    crate::text::lemma_blank_iff_trim_empty(v);
    crate::text::lemma_trim_idempotent(v);
    crate::text::lemma_blank_iff_trim_empty(trim(v));
    crate::text::lemma_encode_utf8_subrange_len(
        v,
        crate::text::lead_ws(v) as int,
        (crate::text::lead_ws(v) + trim(v).len()) as int,
    );
}

/// The root entries of a document that holds exactly the role keys of the fields.
pub open spec fn pair_entries(p: Seq<(Seq<char>, Seq<char>)>) -> Seq<(Seq<char>, Option<Seq<char>>)> {
    p.map_values(|x: (Seq<char>, Seq<char>)| (x.0, Some(x.1)))
}

proof fn lemma_role_entries_parse(f: EditableSpec)
    requires
        editable_error(f) is None,
    ensures
        role_from_entries(pair_entries(role_pairs(f))) == Ok::<RoleViewSpec, RoleErr>(
            rendered_view(f),
        ),
{
    reveal_strlit("name");
    reveal_strlit("description");
    reveal_strlit("model");
    reveal_strlit("model_reasoning_effort");
    reveal_strlit("developer_instructions");
    let e = pair_entries(role_pairs(f));
    assert(e =~= seq![
        ("name"@, Some(trim(f.display_name))),
        ("description"@, Some(trim(f.purpose))),
        ("model"@, Some(trim(f.model))),
        ("model_reasoning_effort"@, Some(trim(f.effort))),
        ("developer_instructions"@, Some(f.instructions)),
    ]);
    reveal_with_fuel(lookup_entry, 6);
    reveal_with_fuel(unknown_key_warnings, 6);
    assert(e.drop_first().drop_first().drop_first().drop_first().drop_first().len() == 0);
    crate::text::lemma_trim_contains(f.display_name, '\0');
    crate::text::lemma_trim_contains(f.purpose, '\0');
    crate::text::lemma_trim_contains(f.model, '\0');
    crate::text::lemma_trim_contains(f.effort, '\0');
    crate::text::lemma_trim_idempotent(f.display_name);
    crate::text::lemma_trim_idempotent(f.purpose);
    crate::text::lemma_trim_idempotent(f.model);
    crate::text::lemma_trim_idempotent(f.effort);
    lemma_trimmed_instructions_ok(f.instructions);
    assert(lookup_entry(e, "name"@) == Some(Some(trim(f.display_name))));
    assert(lookup_entry(e, "description"@) == Some(Some(trim(f.purpose))));
    assert(lookup_entry(e, "model"@) == Some(Some(trim(f.model))));
    assert(lookup_entry(e, "model_reasoning_effort"@) == Some(Some(trim(f.effort))));
    assert("developer_instructions"@[0] != "model_reasoning_effort"@[0]);
    assert("developer_instructions"@ != "model_reasoning_effort"@);
    assert(lookup_entry(e.drop_first().drop_first().drop_first().drop_first(), "developer_instructions"@)
        == Some(Some(f.instructions)));
    assert(lookup_entry(e, "developer_instructions"@) == Some(Some(f.instructions)));
    assert(unknown_key_warnings(e) =~= Seq::<WarningV>::empty());
    assert(role_warnings(e) =~= Seq::<WarningV>::empty());
}

/// Renders a new role document holding only the role keys.
pub fn render_minimal_role_toml(fields: &RoleEditableFields) -> (r: Result<String, RoleError>)
    ensures
        editable_error(fields@) is Some ==> rv(r) == Err::<Seq<char>, RoleErr>(
            code_err(editable_error(fields@)->0),
        ),
        editable_error(fields@) is None ==> (r matches Ok(s) && toml_root_entries(s@) == Some(
            pair_entries(role_pairs(fields@)),
        ) && parse_role(s@) == Ok::<RoleViewSpec, RoleErr>(rendered_view(fields@))),
{
    validate_field_texts(fields)?;
    let pairs = role_pairs_of(fields);
    proof {
        lemma_role_keys_distinct(fields@);
    }
    let text = crate::toml_doc::toml_render_strings(pairs.as_slice());
    proof {
        assert(pair_entries(role_pairs(fields@)) =~= role_pairs(fields@).map_values(
            |p: (Seq<char>, Seq<char>)| (p.0, Some(p.1)),
        ));
        lemma_role_entries_parse(fields@);
    }
    Ok(text)
}

/// The role keys that a document update writes.
pub open spec fn is_role_key_of(f: EditableSpec, key: Seq<char>) -> bool {
    crate::toml_doc::sets_key(role_pairs(f), key)
}

/// Writes the fields into an existing role document, keeping its other keys and the comments
/// and spacing around existing values.
pub fn update_role_toml(text: &str, fields: &RoleEditableFields) -> (r: Result<String, RoleError>)
    ensures
        text@.contains('\0') ==> rv(r) == Err::<Seq<char>, RoleErr>(code_err(RoleErrorCode::InvalidText)),
        !text@.contains('\0') && editable_error(fields@) is Some ==> rv(r) == Err::<
            Seq<char>,
            RoleErr,
        >(code_err(editable_error(fields@)->0)),
        !text@.contains('\0') && editable_error(fields@) is None && toml_root_entries(text@) is None
            ==> rv(r) == Err::<Seq<char>, RoleErr>(code_err(RoleErrorCode::InvalidRoleToml)),
        !text@.contains('\0') && editable_error(fields@) is None && toml_root_entries(text@) is Some
            ==> r is Ok,
        r matches Ok(out) ==> toml_root_entries(out@) matches Some(after) && toml_root_entries(
            text@,
        ) matches Some(before) && (forall|i: int|
            0 <= i < 5 ==> lookup_entry(after, #[trigger] role_pairs(fields@)[i].0) == Some(
                Some(role_pairs(fields@)[i].1),
            )) && (forall|key: Seq<char>|
            !is_role_key_of(fields@, key) ==> crate::toml_doc::entry_kept(
                #[trigger] lookup_entry(after, key),
                lookup_entry(before, key),
            )),
{
    let t = chars_of(text);
    if crate::text::has_char(&t, '\0') {
        return Err(RoleError::new(RoleErrorCode::InvalidText));
    }
    validate_field_texts(fields)?;
    let pairs = role_pairs_of(fields);
    proof {
        lemma_role_keys_distinct(fields@);
    }
    match crate::toml_doc::toml_update_strings(text, pairs.as_slice()) {
        Some(out) => Ok(out),
        None => Err(RoleError::new(RoleErrorCode::InvalidRoleToml)),
    }
}

// ---------- policy hash ----------

/// Little-endian bytes of a `u64`.
pub open spec fn le_bytes(n: u64) -> Seq<u8> {
    seq![
        n as u8,
        (n >> 8u64) as u8,
        (n >> 16u64) as u8,
        (n >> 24u64) as u8,
        (n >> 32u64) as u8,
        (n >> 40u64) as u8,
        (n >> 48u64) as u8,
        (n >> 56u64) as u8,
    ]
}

/// A value framed by its UTF-8 byte length (little-endian `u64`), then its UTF-8 bytes.
pub open spec fn framed(v: Seq<char>) -> Seq<u8> {
    le_bytes(vstd::utf8::encode_utf8(v).len() as u64) + vstd::utf8::encode_utf8(v)
}

/// The bytes that a role policy hash covers.
pub open spec fn policy_bytes(view: RoleViewSpec, selection_criteria: Seq<char>) -> Seq<u8> {
    framed(view.display_name) + framed(view.purpose) + framed(trim(selection_criteria)) + framed(
        view.model,
    ) + framed(view.effort) + framed(view.instructions)
}

/// Lowercase hex SHA-256 of the policy bytes.
pub open spec fn policy_hash(view: RoleViewSpec, selection_criteria: Seq<char>) -> Seq<char> {
    crate::digest::hex_lower(crate::digest::sha256(policy_bytes(view, selection_criteria)))
}

proof fn lemma_le_bytes_injective(n: u64, m: u64)
    requires
        le_bytes(n) == le_bytes(m),
    ensures
        n == m,
{
    assert(le_bytes(n)[0] == le_bytes(m)[0]);
    assert(le_bytes(n)[1] == le_bytes(m)[1]);
    assert(le_bytes(n)[2] == le_bytes(m)[2]);
    assert(le_bytes(n)[3] == le_bytes(m)[3]);
    assert(le_bytes(n)[4] == le_bytes(m)[4]);
    assert(le_bytes(n)[5] == le_bytes(m)[5]);
    assert(le_bytes(n)[6] == le_bytes(m)[6]);
    assert(le_bytes(n)[7] == le_bytes(m)[7]);
    assert(n == m) by (bit_vector)
        requires
            n as u8 == m as u8,
            (n >> 8u64) as u8 == (m >> 8u64) as u8,
            (n >> 16u64) as u8 == (m >> 16u64) as u8,
            (n >> 24u64) as u8 == (m >> 24u64) as u8,
            (n >> 32u64) as u8 == (m >> 32u64) as u8,
            (n >> 40u64) as u8 == (m >> 40u64) as u8,
            (n >> 48u64) as u8 == (m >> 48u64) as u8,
            (n >> 56u64) as u8 == (m >> 56u64) as u8,
    ;
}

/// Framing is prefix-free: a framed value is read back whole from the front of the bytes,
/// for values whose UTF-8 length fits a `u64`.
pub proof fn lemma_framed_prefix_free(a: Seq<char>, b: Seq<char>, x: Seq<u8>, y: Seq<u8>)
    requires
        vstd::utf8::encode_utf8(a).len() <= u64::MAX,
        vstd::utf8::encode_utf8(b).len() <= u64::MAX,
        framed(a) + x == framed(b) + y,
    ensures
        a == b,
        x == y,
{
    let ea = vstd::utf8::encode_utf8(a);
    let eb = vstd::utf8::encode_utf8(b);
    let la = ea.len() as u64;
    let lb = eb.len() as u64;
    let s = framed(a) + x;
    assert(s.subrange(0, 8) =~= le_bytes(la));
    assert((framed(b) + y).subrange(0, 8) =~= le_bytes(lb));
    lemma_le_bytes_injective(la, lb);
    assert(ea.len() == eb.len());
    assert(s.subrange(8, 8 + ea.len() as int) =~= ea);
    assert((framed(b) + y).subrange(8, 8 + eb.len() as int) =~= eb);
    vstd::utf8::encode_utf8_decode_utf8(a);
    vstd::utf8::encode_utf8_decode_utf8(b);
    assert(s.subrange(8 + ea.len() as int, s.len() as int) =~= x);
    assert((framed(b) + y).subrange(8 + eb.len() as int, s.len() as int) =~= y);
}

/// Every field that the policy covers changes its bytes: equal policy bytes mean equal display
/// names, purposes, trimmed criteria, models, efforts and instructions (for texts whose UTF-8
/// length fits a `u64`). So a role whose model, or any other covered field, changed gets
/// other bytes to hash.
pub proof fn law_policy_bytes_cover_every_field(v1: RoleViewSpec, c1: Seq<char>, v2: RoleViewSpec, c2: Seq<char>)
    requires
        vstd::utf8::encode_utf8(v1.display_name).len() <= u64::MAX,
        vstd::utf8::encode_utf8(v1.purpose).len() <= u64::MAX,
        vstd::utf8::encode_utf8(trim(c1)).len() <= u64::MAX,
        vstd::utf8::encode_utf8(v1.model).len() <= u64::MAX,
        vstd::utf8::encode_utf8(v1.effort).len() <= u64::MAX,
        vstd::utf8::encode_utf8(v1.instructions).len() <= u64::MAX,
        vstd::utf8::encode_utf8(v2.display_name).len() <= u64::MAX,
        vstd::utf8::encode_utf8(v2.purpose).len() <= u64::MAX,
        vstd::utf8::encode_utf8(trim(c2)).len() <= u64::MAX,
        vstd::utf8::encode_utf8(v2.model).len() <= u64::MAX,
        vstd::utf8::encode_utf8(v2.effort).len() <= u64::MAX,
        vstd::utf8::encode_utf8(v2.instructions).len() <= u64::MAX,
        policy_bytes(v1, c1) == policy_bytes(v2, c2),
    ensures
        v1.display_name == v2.display_name,
        v1.purpose == v2.purpose,
        trim(c1) == trim(c2),
        v1.model == v2.model,
        v1.effort == v2.effort,
        v1.instructions == v2.instructions,
{
    let r1a = framed(v1.purpose) + framed(trim(c1)) + framed(v1.model) + framed(v1.effort) + framed(v1.instructions);
    let r2a = framed(v2.purpose) + framed(trim(c2)) + framed(v2.model) + framed(v2.effort) + framed(v2.instructions);
    assert(policy_bytes(v1, c1) =~= framed(v1.display_name) + r1a);
    assert(policy_bytes(v2, c2) =~= framed(v2.display_name) + r2a);
    lemma_framed_prefix_free(v1.display_name, v2.display_name, r1a, r2a);
    let r1b = framed(trim(c1)) + framed(v1.model) + framed(v1.effort) + framed(v1.instructions);
    let r2b = framed(trim(c2)) + framed(v2.model) + framed(v2.effort) + framed(v2.instructions);
    assert(r1a =~= framed(v1.purpose) + r1b);
    assert(r2a =~= framed(v2.purpose) + r2b);
    lemma_framed_prefix_free(v1.purpose, v2.purpose, r1b, r2b);
    let r1c = framed(v1.model) + framed(v1.effort) + framed(v1.instructions);
    let r2c = framed(v2.model) + framed(v2.effort) + framed(v2.instructions);
    assert(r1b =~= framed(trim(c1)) + r1c);
    assert(r2b =~= framed(trim(c2)) + r2c);
    lemma_framed_prefix_free(trim(c1), trim(c2), r1c, r2c);
    let r1d = framed(v1.effort) + framed(v1.instructions);
    let r2d = framed(v2.effort) + framed(v2.instructions);
    assert(r1c =~= framed(v1.model) + r1d);
    assert(r2c =~= framed(v2.model) + r2d);
    lemma_framed_prefix_free(v1.model, v2.model, r1d, r2d);
    lemma_framed_prefix_free(v1.effort, v2.effort, framed(v1.instructions), framed(v2.instructions));
    assert(framed(v1.instructions) + Seq::<u8>::empty() =~= framed(v1.instructions));
    assert(framed(v2.instructions) + Seq::<u8>::empty() =~= framed(v2.instructions));
    lemma_framed_prefix_free(v1.instructions, v2.instructions, Seq::empty(), Seq::empty());
}

fn push_framed(out: &mut Vec<u8>, value: &str)
    ensures
        final(out)@ == old(out)@ + framed(value@),
{
    let bytes = value.as_bytes();
    let n = bytes.len() as u64;
    let ghost start = out@;
    out.push(n as u8);
    out.push((n >> 8u64) as u8);
    out.push((n >> 16u64) as u8);
    out.push((n >> 24u64) as u8);
    out.push((n >> 32u64) as u8);
    out.push((n >> 40u64) as u8);
    out.push((n >> 48u64) as u8);
    out.push((n >> 56u64) as u8);
    assert(out@ =~= start + le_bytes(n));
    let ghost mid = out@;
    let mut i: usize = 0;
    while i < bytes.len()
        invariant
            i <= bytes@.len(),
            out@ == mid + bytes@.subrange(0, i as int),
        decreases bytes@.len() - i,
    {
        out.push(bytes[i]);
        assert(out@ =~= mid + bytes@.subrange(0, i + 1));
        i += 1;
    }
    assert(bytes@.subrange(0, bytes@.len() as int) =~= bytes@);
    assert(out@ =~= start + framed(value@));
}

/// The policy hash of a role view and selection criteria (the criteria are trimmed).
pub fn policy_hash_for_view(view: &ManagedRoleView, selection_criteria: &str) -> (r: String)
    ensures
        r@ == policy_hash(view@, selection_criteria@),
        r@.len() == 64,
        crate::digest::lower_hex_text(r@),
{
    let mut bytes: Vec<u8> = Vec::new();
    push_framed(&mut bytes, view.display_name.as_str());
    push_framed(&mut bytes, view.purpose.as_str());
    let criteria = crate::text::trim_str(selection_criteria);
    push_framed(&mut bytes, criteria.as_str());
    push_framed(&mut bytes, view.model.as_str());
    push_framed(&mut bytes, view.effort.as_str());
    push_framed(&mut bytes, view.instructions.as_str());
    assert(bytes@ =~= policy_bytes(view@, selection_criteria@));
    crate::digest::content_sha256(bytes.as_slice())
}

/// The policy hash of a role document, after checking the document and the criteria.
pub fn policy_hash_for_toml(text: &str, selection_criteria: &str) -> (r: Result<String, RoleError>)
    ensures
        parse_role(text@) matches Err(e) ==> rv(r) == Err::<Seq<char>, RoleErr>(e),
        parse_role(text@) is Ok && selection_criteria_error(trim(selection_criteria@)) is Some
            ==> rv(r) == Err::<Seq<char>, RoleErr>(
            code_err(selection_criteria_error(trim(selection_criteria@))->0),
        ),
        parse_role(text@) is Ok && selection_criteria_error(trim(selection_criteria@)) is None
            ==> (r matches Ok(h) && h@ == policy_hash(parse_role(text@)->Ok_0, selection_criteria@)),
        r matches Ok(h) ==> h@.len() == 64 && crate::digest::lower_hex_text(h@),
{
    let parsed = parse_role_toml(text)?;
    validate_selection_criteria(crate::text::trim_str(selection_criteria).as_str())?;
    Ok(policy_hash_for_view(&parsed.view, selection_criteria))
}


// ---------- managed records ----------

/// What the library stores for a managed role.
#[derive(Debug, Clone, PartialEq, Eq)]
pub struct ManagedRoleRecord {
    pub id: RoleId,
    pub selection_criteria: String,
    pub order: u32,
    pub expected_toml: String,
    pub policy_revision: u64,
    pub policy_hash: String,
    pub policy_updated_at_ms: u64,
    pub description_origin: TextOrigin,
    pub instructions_origin: TextOrigin,
}

pub struct RecordSpec {
    pub id: Seq<char>,
    pub selection_criteria: Seq<char>,
    pub order: u32,
    pub expected_toml: Seq<char>,
    pub policy_revision: u64,
    pub policy_hash: Seq<char>,
    pub policy_updated_at_ms: u64,
    pub description_origin: TextOrigin,
    pub instructions_origin: TextOrigin,
}

pub open spec fn record_spec(r: ManagedRoleRecord) -> RecordSpec {
    RecordSpec {
        id: r.id@,
        selection_criteria: r.selection_criteria@,
        order: r.order,
        expected_toml: r.expected_toml@,
        policy_revision: r.policy_revision,
        policy_hash: r.policy_hash@,
        policy_updated_at_ms: r.policy_updated_at_ms,
        description_origin: r.description_origin,
        instructions_origin: r.instructions_origin,
    }
}

pub open spec fn records_view(v: Seq<ManagedRoleRecord>) -> Seq<RecordSpec> {
    v.map_values(|r: ManagedRoleRecord| record_spec(r))
}

/// Why a record does not check out: its criteria, its document, then its capability.
pub open spec fn record_check(r: RecordSpec, capabilities: Option<Seq<ModelSpec>>) -> Result<
    (),
    RoleErr,
> {
    if selection_criteria_error(r.selection_criteria) is Some {
        Err(code_err(selection_criteria_error(r.selection_criteria)->0))
    } else {
        match parse_role(r.expected_toml) {
            Err(e) => Err(e),
            Ok(v) => match capabilities {
                Some(ms) => check(capability_error(v.model, v.effort, ms)),
                None => Ok(()),
            },
        }
    }
}

pub open spec fn snapshot_models_of(c: Option<&CapabilitySnapshot>) -> Option<Seq<ModelSpec>> {
    match c {
        Some(s) => Some(s@.models),
        None => None,
    }
}

impl ManagedRoleRecord {
    /// The role view of the stored document.
    pub fn view(&self) -> (r: Result<ManagedRoleView, RoleError>)
        ensures
            rv(r) == parse_role(self.expected_toml@),
    {
        match parse_role_toml(self.expected_toml.as_str()) {
            Ok(parsed) => Ok(parsed.view),
            Err(e) => Err(e),
        }
    }

    pub fn validate(&self, capabilities: Option<&CapabilitySnapshot>) -> (r: Result<(), RoleError>)
        ensures
            rv(r) == record_check(record_spec(*self), snapshot_models_of(capabilities)),
    {
        validate_selection_criteria(self.selection_criteria.as_str())?;
        let view = self.view()?;
        if let Some(snapshot) = capabilities {
            validate_role_capability(&view, snapshot)?;
        }
        Ok(())
    }

    /// An equal copy.
    pub fn duplicate(&self) -> (r: Self)
        ensures
            record_spec(r) == record_spec(*self),
    {
        ManagedRoleRecord {
            id: self.id.duplicate(),
            selection_criteria: self.selection_criteria.clone(),
            order: self.order,
            expected_toml: self.expected_toml.clone(),
            policy_revision: self.policy_revision,
            policy_hash: self.policy_hash.clone(),
            policy_updated_at_ms: self.policy_updated_at_ms,
            description_origin: self.description_origin,
            instructions_origin: self.instructions_origin,
        }
    }
}

/// A managed role with its lifecycle, health and parsed view.
#[derive(Debug, Clone, PartialEq, Eq)]
pub struct ManagedRole {
    pub record: ManagedRoleRecord,
    pub lifecycle: RoleLifecycle,
    pub health: RoleHealth,
    pub view: ManagedRoleView,
    /// Whether `agents/<id>.toml` currently exists; no path or document bytes.
    pub actual_file_present: bool,
}

/// A managed role as a list shows it: no document and no instructions.
#[derive(Debug, Clone, PartialEq, Eq)]
pub struct ManagedRoleSummary {
    pub id: RoleId,
    pub display_name: String,
    pub purpose: String,
    pub selection_criteria: String,
    pub model: String,
    pub effort: String,
    pub order: u32,
    pub lifecycle: RoleLifecycle,
    pub health: RoleHealth,
    pub actual_file_present: bool,
}

impl ManagedRole {
    pub fn from_record(
        record: ManagedRoleRecord,
        lifecycle: RoleLifecycle,
        health: RoleHealth,
        actual_file_present: bool,
    ) -> (r: Result<Self, RoleError>)
        ensures
            parse_role(record.expected_toml@) matches Err(e) ==> (r matches Err(x) && x@ == e),
            parse_role(record.expected_toml@) is Ok ==> (r matches Ok(m) && record_spec(m.record)
                == record_spec(record) && m.view@ == parse_role(record.expected_toml@)->Ok_0
                && m.lifecycle == lifecycle && m.health == health && m.actual_file_present
                == actual_file_present),
    {
        let view = record.view()?;
        Ok(ManagedRole { record, lifecycle, health, view, actual_file_present })
    }

    pub fn summary(&self) -> (r: ManagedRoleSummary)
        ensures
            r.id@ == self.record.id@,
            r.display_name@ == self.view.display_name@,
            r.purpose@ == self.view.purpose@,
            r.selection_criteria@ == self.record.selection_criteria@,
            r.model@ == self.view.model@,
            r.effort@ == self.view.effort@,
            r.order == self.record.order,
            r.lifecycle == self.lifecycle,
            r.health == self.health,
            r.actual_file_present == self.actual_file_present,
    {
        ManagedRoleSummary {
            id: self.record.id.duplicate(),
            display_name: self.view.display_name.clone(),
            purpose: self.view.purpose.clone(),
            selection_criteria: self.record.selection_criteria.clone(),
            model: self.view.model.clone(),
            effort: self.view.effort.clone(),
            order: self.record.order,
            lifecycle: self.lifecycle,
            health: self.health,
            actual_file_present: self.actual_file_present,
        }
    }
}

/// The record that `build_managed_role_record` makes from valid fields around its rendered document.
pub open spec fn built_record(
    id: Seq<char>,
    f: EditableSpec,
    order: u32,
    now_ms: u64,
    description_origin: TextOrigin,
    instructions_origin: TextOrigin,
    expected_toml: Seq<char>,
) -> RecordSpec {
    RecordSpec {
        id,
        selection_criteria: trim(f.selection_criteria),
        order,
        expected_toml,
        policy_revision: 1,
        policy_hash: policy_hash(rendered_view(f), trim(f.selection_criteria)),
        policy_updated_at_ms: now_ms,
        description_origin,
        instructions_origin,
    }
}

/// A new record for valid fields: the rendered document, revision 1, and its policy hash.
pub fn build_managed_role_record(
    id: RoleId,
    fields: &RoleEditableFields,
    order: u32,
    now_ms: u64,
    capabilities: &CapabilitySnapshot,
    description_origin: TextOrigin,
    instructions_origin: TextOrigin,
) -> (r: Result<ManagedRoleRecord, RoleError>)
    ensures
        editable_error(fields@) is Some ==> (r matches Err(e) && e@ == code_err(
            editable_error(fields@)->0,
        )),
        editable_error(fields@) is None && capability_error(
            fields@.model,
            fields@.effort,
            capabilities@.models,
        ) is Some ==> (r matches Err(e) && e@ == code_err(
            capability_error(fields@.model, fields@.effort, capabilities@.models)->0,
        )),
        editable_error(fields@) is None && capability_error(
            fields@.model,
            fields@.effort,
            capabilities@.models,
        ) is None ==> (r matches Ok(rec) && record_spec(rec) == built_record(
            id@,
            fields@,
            order,
            now_ms,
            description_origin,
            instructions_origin,
            rec.expected_toml@,
        ) && toml_root_entries(rec.expected_toml@) == Some(pair_entries(role_pairs(fields@)))
            && parse_role(rec.expected_toml@) == Ok::<RoleViewSpec, RoleErr>(rendered_view(fields@))),
{
    validate_editable_fields(fields, capabilities)?;
    let expected_toml = render_minimal_role_toml(fields)?;
    let parsed = parse_role_toml(expected_toml.as_str())?;
    let criteria = crate::text::trim_str(fields.selection_criteria.as_str());
    let policy_hash = policy_hash_for_view(&parsed.view, criteria.as_str());
    Ok(
        ManagedRoleRecord {
            id,
            selection_criteria: criteria,
            order,
            expected_toml,
            policy_revision: 1,
            policy_hash,
            policy_updated_at_ms: now_ms,
            description_origin,
            instructions_origin,
        },
    )
}


// ---------- record order ----------

/// Record order: the default role first, then by `order`, then by case-insensitive id.
pub open spec fn record_lt(a: RecordSpec, b: RecordSpec) -> bool {
    let ad = a.id == DEFAULT_ROLE_ID@;
    let bd = b.id == DEFAULT_ROLE_ID@;
    if ad && !bd {
        true
    } else if !ad && bd {
        false
    } else {
        a.order < b.order || (a.order == b.order && seq_lt(role_key(a.id), role_key(b.id)))
    }
}

/// The record order puts the default role before every other, and among the other roles a
/// lower stored order always sorts first; only equal orders fall back to the ids.
pub proof fn law_record_order_follows_the_stored_order(a: RecordSpec, b: RecordSpec)
    ensures
        a.id == DEFAULT_ROLE_ID@ && b.id != DEFAULT_ROLE_ID@ ==> record_lt(a, b) && !record_lt(b, a),
        a.id != DEFAULT_ROLE_ID@ && b.id != DEFAULT_ROLE_ID@ && a.order < b.order ==> record_lt(a, b) && !record_lt(b, a),
        !record_lt(a, a),
{
    crate::text::lemma_seq_lt_irreflexive(role_key(a.id));
}

pub open spec fn record_order() -> spec_fn(RecordSpec, RecordSpec) -> bool {
    |a: RecordSpec, b: RecordSpec| record_lt(a, b)
}

fn record_precedes(a: &ManagedRoleRecord, b: &ManagedRoleRecord) -> (r: bool)
    ensures
        r == record_lt(record_spec(*a), record_spec(*b)),
{
    let ad = a.id.is_default();
    let bd = b.id.is_default();
    if ad && !bd {
        true
    } else if !ad && bd {
        false
    } else if a.order != b.order {
        a.order < b.order
    } else {
        let ka = role_id_key(&a.id);
        let kb = role_id_key(&b.id);
        crate::text::chars_lt(&ka, &kb)
    }
}

fn insert_record(out: &mut Vec<ManagedRoleRecord>, m: ManagedRoleRecord)
    ensures
        records_view(final(out)@) == stable_insert(records_view(old(out)@), record_spec(m), record_order()),
{
    let ghost s = records_view(out@);
    let mut p = out.len();
    while p > 0 && record_precedes(&m, &out[p - 1])
        invariant
            p <= out@.len(),
            s == records_view(out@),
            forall|k: int| p <= k < s.len() ==> (record_order())(record_spec(m), #[trigger] s[k]),
        decreases p,
    {
        p -= 1;
    }
    proof {
        crate::order::lemma_stable_insert_at(s, record_spec(m), record_order(), p as int);
    }
    let ghost mv = record_spec(m);
    out.insert(p, m);
    assert(records_view(out@) =~= s.subrange(0, p as int).push(mv) + s.subrange(
        p as int,
        s.len() as int,
    ));
}

fn sorted_records(records: &[ManagedRoleRecord]) -> (r: Vec<ManagedRoleRecord>)
    ensures
        records_view(r@) == stable_sort(records_view(records@), record_order()),
{
    let ghost v = records_view(records@);
    let mut sorted: Vec<ManagedRoleRecord> = Vec::new();
    let mut j: usize = 0;
    while j < records.len()
        invariant
            j <= records@.len(),
            v == records_view(records@),
            records_view(sorted@) == stable_sort(v.subrange(0, j as int), record_order()),
        decreases records@.len() - j,
    {
        proof {
            crate::order::lemma_stable_sort_step(v, j as int, record_order());
        }
        insert_record(&mut sorted, records[j].duplicate());
        j += 1;
    }
    assert(v.subrange(0, v.len() as int) =~= v);
    sorted
}

/// Sorts records stably: the default role first, then by order, then by id.
pub fn sort_managed_role_records(records: &mut [ManagedRoleRecord])
    ensures
        records_view(final(records)@) == stable_sort(records_view(old(records)@), record_order()),
{
    let sorted = sorted_records(records);
    let ghost target = records_view(sorted@);
    let ghost start = records_view(records@);
    proof {
        crate::order::lemma_stable_sort_multiset(start, record_order());
    }
    let mut i: usize = 0;
    while i < records.len()
        invariant
            i <= records@.len(),
            records@.len() == sorted@.len(),
            target == records_view(sorted@),
            records_view(records@) == target.subrange(0, i as int) + start.subrange(
                i as int,
                start.len() as int,
            ),
            start.len() == target.len(),
        decreases records@.len() - i,
    {
        let ghost before = records@;
        let d = sorted[i].duplicate();
        let ghost dv = d;
        records[i] = d;
        assert(records@ =~= before.update(i as int, dv));
        assert(record_spec(dv) == target[i as int]);
        assert(records_view(records@) =~= records_view(before).update(i as int, record_spec(dv)));
        assert(records_view(records@) =~= target.subrange(0, i + 1) + start.subrange(
            i + 1,
            start.len() as int,
        ));
        i += 1;
    }
    assert(records_view(records@) =~= target);
}

/// With a default record present, the default record sorts first.
pub proof fn law_default_record_sorts_first(s: Seq<RecordSpec>)
    requires
        exists|i: int| 0 <= i < s.len() && #[trigger] s[i].id == DEFAULT_ROLE_ID@,
    ensures
        stable_sort(s, record_order())[0].id == DEFAULT_ROLE_ID@,
    decreases s.len(),
{
    broadcast use vstd::seq_lib::group_to_multiset_ensures;
    let t = s.drop_last();
    let x = s.last();
    let u = stable_sort(t, record_order());
    crate::order::lemma_stable_sort_multiset(t, record_order());
    crate::order::lemma_stable_insert_head(u, x, record_order());
    if exists|i: int| 0 <= i < t.len() && #[trigger] t[i].id == DEFAULT_ROLE_ID@ {
        law_default_record_sorts_first(t);
    } else {
        assert(x.id == DEFAULT_ROLE_ID@) by {
            let i = choose|i: int| 0 <= i < s.len() && #[trigger] s[i].id == DEFAULT_ROLE_ID@;
            if i < s.len() - 1 {
                assert(t[i] == s[i]);
            }
        }
        assert forall|k: int| 0 <= k < u.len() implies (record_order())(x, #[trigger] u[k]) by {
            assert(u.to_multiset().count(u[k]) > 0) by {
                assert(u.contains(u[k]));
            }
            assert(t.contains(u[k]));
            let j = choose|j: int| 0 <= j < t.len() && t[j] == u[k];
            assert(t[j].id != DEFAULT_ROLE_ID@);
        }
    }
}

/// Ids of records.
pub open spec fn record_ids(recs: Seq<RecordSpec>) -> Seq<Seq<char>> {
    recs.map_values(|r: RecordSpec| r.id)
}

pub open spec fn role_ids_view(ids: Seq<RoleId>) -> Seq<Seq<char>> {
    ids.map_values(|i: RoleId| i@)
}

/// Two ids share a case-insensitive key.
pub open spec fn dup_keys(ids: Seq<Seq<char>>) -> bool {
    exists|i: int, j: int| 0 <= i < j < ids.len() && role_key(#[trigger] ids[i]) == role_key(#[trigger] ids[j])
}

pub proof fn lemma_dup_keys_view(ids: Seq<RoleId>)
    ensures
        has_duplicate_key(ids) == dup_keys(role_ids_view(ids)),
{
    let v = role_ids_view(ids);
    if has_duplicate_key(ids) {
        let (i, j) = choose|i: int, j: int|
            0 <= i < j < ids.len() && role_key(#[trigger] ids[i]@) == role_key(#[trigger] ids[j]@);
        assert(role_key(v[i]) == role_key(v[j]));
    }
    if dup_keys(v) {
        let (i, j) = choose|i: int, j: int|
            0 <= i < j < v.len() && role_key(#[trigger] v[i]) == role_key(#[trigger] v[j]);
        assert(role_key(ids[i]@) == role_key(ids[j]@));
    }
}

fn record_id_list(records: &[ManagedRoleRecord]) -> (r: Vec<RoleId>)
    ensures
        role_ids_view(r@) == record_ids(records_view(records@)),
{
    let mut r: Vec<RoleId> = Vec::new();
    let mut i: usize = 0;
    while i < records.len()
        invariant
            i <= records@.len(),
            role_ids_view(r@) == record_ids(records_view(records@)).subrange(0, i as int),
        decreases records@.len() - i,
    {
        let ghost before = r@;
        let id = records[i].id.duplicate();
        let ghost idv = id@;
        r.push(id);
        assert(record_ids(records_view(records@))[i as int] == records@[i as int].id@);
        assert(role_ids_view(r@) =~= role_ids_view(before).push(idv));
        assert(role_ids_view(r@) =~= record_ids(records_view(records@)).subrange(0, i + 1));
        i += 1;
    }
    assert(record_ids(records_view(records@)).subrange(0, records@.len() as int) =~= record_ids(
        records_view(records@),
    ));
    r
}

/// The first record with this id.
pub open spec fn record_for(recs: Seq<RecordSpec>, id: Seq<char>) -> Option<RecordSpec>
    decreases recs.len(),
{
    if recs.len() == 0 {
        None
    } else if recs[0].id == id {
        Some(recs[0])
    } else {
        record_for(recs.drop_first(), id)
    }
}

proof fn lemma_record_for(recs: Seq<RecordSpec>, id: Seq<char>)
    ensures
        record_for(recs, id) matches Some(r) ==> r.id == id && recs.contains(r),
        record_for(recs, id) is None <==> !record_ids(recs).contains(id),
    decreases recs.len(),
{
    if recs.len() > 0 {
        lemma_record_for(recs.drop_first(), id);
        if recs[0].id != id {
            assert(record_ids(recs.drop_first()) =~= record_ids(recs).drop_first());
            if record_ids(recs).contains(id) {
                let k = choose|k: int| 0 <= k < recs.len() && record_ids(recs)[k] == id;
                assert(record_ids(recs.drop_first())[k - 1] == id);
            }
            if record_for(recs, id) is Some {
                let r = record_for(recs, id)->0;
                let k = choose|k: int| 0 <= k < recs.len() - 1 && recs.drop_first()[k] == r;
                assert(recs[k + 1] == r);
            }
        } else {
            assert(record_ids(recs)[0] == id);
            assert(recs[0] == recs[0]);
            assert(recs.contains(recs[0]));
        }
    }
}

/// Why a reorder request is refused, checked in this order.
pub open spec fn reorder_error(recs: Seq<RecordSpec>, req: Seq<Seq<char>>) -> Option<RoleErrorCode> {
    if recs.len() > MAX_MANAGED_ROLES {
        Some(RoleErrorCode::TooManyManagedRoles)
    } else if dup_keys(record_ids(recs)) {
        Some(RoleErrorCode::DuplicateRoleId)
    } else if req.len() != recs.len() {
        Some(RoleErrorCode::InvalidRoleOrder)
    } else if dup_keys(req) {
        Some(RoleErrorCode::DuplicateRoleId)
    } else if exists|i: int| 0 <= i < req.len() && record_for(recs, #[trigger] req[i]) is None {
        Some(RoleErrorCode::InvalidRoleOrder)
    } else if req.len() > 0 && req[0] != DEFAULT_ROLE_ID@ && record_ids(recs).contains(
        DEFAULT_ROLE_ID@,
    ) {
        Some(RoleErrorCode::DefaultRoleProtected)
    } else {
        None
    }
}

/// The requested record at position `i`, with order `i`.
pub open spec fn reordered_at(recs: Seq<RecordSpec>, req: Seq<Seq<char>>, i: int) -> RecordSpec {
    with_order(record_for(recs, req[i])->0, i as u32)
}

/// The record with another order.
pub open spec fn with_order(r: RecordSpec, order: u32) -> RecordSpec {
    RecordSpec { order, ..r }
}

pub open spec fn reordered(recs: Seq<RecordSpec>, req: Seq<Seq<char>>) -> Seq<RecordSpec> {
    Seq::new(req.len(), |i: int| reordered_at(recs, req, i))
}

fn find_record(records: &Vec<ManagedRoleRecord>, id: &RoleId) -> (r: Option<usize>)
    ensures
        record_for(records_view(records@), id@) is None ==> r is None,
        record_for(records_view(records@), id@) matches Some(x) ==> (r matches Some(k) && k
            < records@.len() && record_spec(records@[k as int]) == x),
{
    let ghost v = records_view(records@);
    assert(v.subrange(0, v.len() as int) =~= v);
    let mut i: usize = 0;
    while i < records.len()
        invariant
            i <= records@.len(),
            v == records_view(records@),
            record_for(v, id@) == record_for(v.subrange(i as int, v.len() as int), id@),
        decreases records@.len() - i,
    {
        let ghost rest = v.subrange(i as int, v.len() as int);
        assert(rest.drop_first() =~= v.subrange(i + 1, v.len() as int));
        if records[i].id.same(id) {
            return Some(i);
        }
        i += 1;
    }
    None
}

/// Puts the records in the requested order, numbering them from 0; on a refusal the records
/// stay as they were.
pub fn reorder_role_records(records: &mut Vec<ManagedRoleRecord>, requested: &[RoleId]) -> (r: Result<
    (),
    RoleError,
>)
    ensures
        reorder_error(records_view(old(records)@), role_ids_view(requested@)) is Some ==> (r matches Err(
            e,
        ) && e@ == code_err(
            reorder_error(records_view(old(records)@), role_ids_view(requested@))->0,
        ) && records_view(final(records)@) == records_view(old(records)@)),
        reorder_error(records_view(old(records)@), role_ids_view(requested@)) is None ==> (r is Ok
            && records_view(final(records)@) == reordered(
            records_view(old(records)@),
            role_ids_view(requested@),
        )),
{
    let ghost recs = records_view(records@);
    let ghost req = role_ids_view(requested@);
    validate_managed_role_count(records.len())?;
    let ids = record_id_list(records.as_slice());
    proof {
        lemma_dup_keys_view(ids@);
    }
    validate_unique_role_ids(ids.as_slice())?;
    if requested.len() != records.len() {
        return Err(RoleError::new(RoleErrorCode::InvalidRoleOrder));
    }
    proof {
        lemma_dup_keys_view(requested@);
    }
    validate_unique_role_ids(requested)?;
    let mut i: usize = 0;
    while i < requested.len()
        invariant
            i <= requested@.len(),
            recs == records_view(records@),
            req == role_ids_view(requested@),
            forall|k: int| 0 <= k < i ==> record_for(recs, #[trigger] req[k]) is Some,
            recs == records_view(old(records)@),
            recs.len() <= MAX_MANAGED_ROLES,
            !dup_keys(record_ids(recs)),
            req.len() == recs.len(),
            !dup_keys(req),
        decreases requested@.len() - i,
    {
        if find_record(records, &requested[i]).is_none() {
            assert(record_for(recs, req[i as int]) is None);
            return Err(RoleError::new(RoleErrorCode::InvalidRoleOrder));
        }
        i += 1;
    }
    if requested.len() > 0 && !requested[0].is_default() {
        let mut j: usize = 0;
        while j < records.len()
            invariant
                j <= records@.len(),
                recs == records_view(records@),
                forall|k: int| 0 <= k < j ==> #[trigger] record_ids(recs)[k] != DEFAULT_ROLE_ID@,
                forall|k: int| 0 <= k < req.len() ==> record_for(recs, #[trigger] req[k]) is Some,
                recs == records_view(old(records)@),
                req == role_ids_view(requested@),
                recs.len() <= MAX_MANAGED_ROLES,
                !dup_keys(record_ids(recs)),
                req.len() == recs.len(),
                !dup_keys(req),
                req.len() > 0 && req[0] != DEFAULT_ROLE_ID@,
            decreases records@.len() - j,
        {
            if records[j].id.is_default() {
                assert(record_ids(recs)[j as int] == DEFAULT_ROLE_ID@);
                return Err(RoleError::new(RoleErrorCode::DefaultRoleProtected));
            }
            j += 1;
        }
    }
    let mut out: Vec<ManagedRoleRecord> = Vec::new();
    let mut n: usize = 0;
    while n < requested.len()
        invariant
            n <= requested@.len() == recs.len() <= MAX_MANAGED_ROLES,
            recs == records_view(records@),
            req == role_ids_view(requested@),
            forall|k: int| 0 <= k < req.len() ==> record_for(recs, #[trigger] req[k]) is Some,
            records_view(out@) == reordered(recs, req).subrange(0, n as int),
        decreases requested@.len() - n,
    {
        assert(record_for(recs, req[n as int]) is Some);
        let k = find_record(records, &requested[n]).unwrap();
        let mut rec = records[k].duplicate();
        rec.order = n as u32;
        assert(reordered(recs, req)[n as int] == with_order(record_for(recs, req[n as int])->0, n as u32));
        assert(record_spec(rec) == with_order(record_for(recs, req[n as int])->0, n as u32));
        let ghost before = out@;
        out.push(rec);
        assert(records_view(out@) =~= records_view(before).push(record_spec(rec)));
        assert(records_view(out@) =~= reordered(recs, req).subrange(0, n + 1));
        n += 1;
    }
    assert(reordered(recs, req).subrange(0, req.len() as int) =~= reordered(recs, req));
    *records = out;
    Ok(())
}

/// After an accepted reorder the ids are the requested ones, each record's order is its
/// position, and every other field is the one its id had before.
pub proof fn law_reorder_follows_request(recs: Seq<RecordSpec>, req: Seq<Seq<char>>)
    requires
        reorder_error(recs, req) is None,
    ensures
        record_ids(reordered(recs, req)) == req,
        forall|i: int| 0 <= i < req.len() ==> #[trigger] reordered(recs, req)[i].order == i,
        forall|i: int|
            0 <= i < req.len() ==> recs.contains(#[trigger] record_for(recs, req[i])->0)
                && reordered(recs, req)[i] == with_order(record_for(recs, req[i])->0, i as u32),
{
    assert forall|i: int| 0 <= i < req.len() implies recs.contains(
        #[trigger] record_for(recs, req[i])->0,
    ) && record_for(recs, req[i])->0.id == req[i] by {
        lemma_record_for(recs, req[i]);
    }
    assert(record_ids(reordered(recs, req)) =~= req);
}

/// The ids of the records in record order.
pub fn ordered_role_ids(records: &[ManagedRoleRecord]) -> (r: Result<Vec<RoleId>, RoleError>)
    ensures
        records@.len() > MAX_MANAGED_ROLES ==> (r matches Err(e) && e@ == code_err(
            RoleErrorCode::TooManyManagedRoles,
        )),
        records@.len() <= MAX_MANAGED_ROLES && dup_keys(record_ids(records_view(records@))) ==> (r matches Err(
            e,
        ) && e@ == code_err(RoleErrorCode::DuplicateRoleId)),
        records@.len() <= MAX_MANAGED_ROLES && !dup_keys(record_ids(records_view(records@))) ==> (r matches Ok(
            ids,
        ) && role_ids_view(ids@) == record_ids(
            stable_sort(records_view(records@), record_order()),
        )),
{
    validate_managed_role_count(records.len())?;
    let ids = record_id_list(records);
    proof {
        lemma_dup_keys_view(ids@);
    }
    validate_unique_role_ids(ids.as_slice())?;
    let sorted = sorted_records(records);
    Ok(record_id_list(sorted.as_slice()))
}


// ---------- discovery ----------

#[derive(Debug, Clone, Copy, PartialEq, Eq, Structural)]
pub enum RoleSyntaxStatus {
    Valid,
    Invalid,
}

#[derive(Debug, Clone, Copy, PartialEq, Eq, Structural)]
pub enum RoleCapabilityStatus {
    Supported,
    UnsupportedModel,
    UnsupportedReasoningEffort,
    UnsupportedMultiAgentVersion,
    Unavailable,
    Invalid,
}

/// A diagnostic of a discovered role: a code and, at most, a known field name.
#[derive(Debug, Clone, PartialEq, Eq)]
pub struct RoleDiagnostic {
    pub code: RoleErrorCode,
    pub field: Option<String>,
}

impl View for RoleDiagnostic {
    type V = RoleErr;

    open spec fn view(&self) -> RoleErr {
        (self.code, crate::model::opt_view(self.field))
    }
}

impl From<RoleError> for RoleDiagnostic {
    fn from(error: RoleError) -> (r: Self) {
        RoleDiagnostic { code: error.code, field: error.field }
    }
}

impl vstd::std_specs::convert::FromSpecImpl<RoleError> for RoleDiagnostic {
    open spec fn obeys_from_spec() -> bool {
        true
    }

    open spec fn from_spec(error: RoleError) -> RoleDiagnostic {
        RoleDiagnostic { code: error.code, field: error.field }
    }
}

pub open spec fn diagnostics_view(v: Seq<RoleDiagnostic>) -> Seq<RoleErr> {
    v.map_values(|d: RoleDiagnostic| d@)
}

/// A discovery summary: no document bytes and no instructions.
#[derive(Debug, Clone, PartialEq, Eq)]
pub struct DiscoveredRole {
    pub id: String,
    pub relative_file_name: String,
    pub syntax: RoleSyntaxStatus,
    pub capability: RoleCapabilityStatus,
    pub can_adopt: bool,
    pub managed: bool,
    pub diagnostics: Vec<RoleDiagnostic>,
}

pub struct DiscoveredSpec {
    pub id: Seq<char>,
    pub relative_file_name: Seq<char>,
    pub syntax: RoleSyntaxStatus,
    pub capability: RoleCapabilityStatus,
    pub can_adopt: bool,
    pub managed: bool,
    pub diagnostics: Seq<RoleErr>,
}

impl View for DiscoveredRole {
    type V = DiscoveredSpec;

    open spec fn view(&self) -> DiscoveredSpec {
        DiscoveredSpec {
            id: self.id@,
            relative_file_name: self.relative_file_name@,
            syntax: self.syntax,
            capability: self.capability,
            can_adopt: self.can_adopt,
            managed: self.managed,
            diagnostics: diagnostics_view(self.diagnostics@),
        }
    }
}

/// `agents/`, the prefix of a discovered role file.
pub open spec fn role_dir_prefix() -> Seq<char> {
    ROLE_DIRECTORY@.push('/')
}

/// The role id of a relative file name `agents/<id>.toml`.
pub open spec fn discovered_id_of(rel: Seq<char>) -> Option<Seq<char>> {
    if crate::text::starts_with(rel, role_dir_prefix()) {
        role_id_of_file_name(rel.subrange(role_dir_prefix().len() as int, rel.len() as int))
    } else {
        None
    }
}

pub open spec fn is_id_char(c: char) -> bool {
    ('a' <= c <= 'z') || ('A' <= c <= 'Z') || ('0' <= c <= '9') || c == '-'
}

/// The characters that may stand in a displayed id.
pub open spec fn keep_id_chars(s: Seq<char>) -> Seq<char>
    decreases s.len(),
{
    if s.len() == 0 {
        s
    } else if is_id_char(s.last()) {
        keep_id_chars(s.drop_last()).push(s.last())
    } else {
        keep_id_chars(s.drop_last())
    }
}

/// A displayable id for a file whose name is not a role id.
pub open spec fn safe_id(rel: Seq<char>) -> Seq<char> {
    let base = crate::text::after_last(rel, '/');
    let stem = if crate::text::ends_with(base, ROLE_EXTENSION@) {
        base.subrange(0, base.len() - ROLE_EXTENSION@.len())
    } else {
        "unknown"@
    };
    let kept = keep_id_chars(stem);
    let cut = if kept.len() > ROLE_ID_MAX_BYTES {
        kept.subrange(0, ROLE_ID_MAX_BYTES as int)
    } else {
        kept
    };
    if cut.len() == 0 {
        "unknown"@
    } else {
        cut
    }
}

/// A displayable relative file name: the name itself when it is a plain `agents/` path,
/// else its last path component when that is a plain name, else `<invalid>`.
pub open spec fn safe_rel_name(rel: Seq<char>) -> Seq<char> {
    if crate::text::starts_with(rel, role_dir_prefix()) && !rel.contains('\\') && !rel.contains(
        '\0',
    ) && !crate::text::contains_seq(rel, ".."@) {
        rel
    } else {
        let b = crate::text::after_last(crate::text::after_last(rel, '/'), '\\');
        if b.len() > 0 && b != "."@ && b != ".."@ && !b.contains('\0') && !b.contains(':') {
            b
        } else {
            "<invalid>"@
        }
    }
}

pub open spec fn capability_status_for(code: RoleErrorCode) -> RoleCapabilityStatus {
    match code {
        RoleErrorCode::UnsupportedModel => RoleCapabilityStatus::UnsupportedModel,
        RoleErrorCode::UnsupportedReasoningEffort => RoleCapabilityStatus::UnsupportedReasoningEffort,
        RoleErrorCode::UnsupportedMultiAgentVersion => RoleCapabilityStatus::UnsupportedMultiAgentVersion,
        RoleErrorCode::CapabilityUnavailable => RoleCapabilityStatus::Unavailable,
        _ => RoleCapabilityStatus::Invalid,
    }
}

fn capability_status_for_error(code: RoleErrorCode) -> (r: RoleCapabilityStatus)
    ensures
        r == capability_status_for(code),
{
    match code {
        RoleErrorCode::UnsupportedModel => RoleCapabilityStatus::UnsupportedModel,
        RoleErrorCode::UnsupportedReasoningEffort => RoleCapabilityStatus::UnsupportedReasoningEffort,
        RoleErrorCode::UnsupportedMultiAgentVersion => RoleCapabilityStatus::UnsupportedMultiAgentVersion,
        RoleErrorCode::CapabilityUnavailable => RoleCapabilityStatus::Unavailable,
        _ => RoleCapabilityStatus::Invalid,
    }
}

/// Unknown-field diagnostics for the warnings.
pub open spec fn warning_diagnostics(w: Seq<WarningV>) -> Seq<RoleErr> {
    w.map_values(|x: WarningV| (RoleErrorCode::UnknownRoleField, x.1))
}

/// The capability status of a parsed view and its diagnostics.
pub open spec fn capability_part(v: RoleViewSpec, caps: Option<Seq<ModelSpec>>) -> (
    RoleCapabilityStatus,
    Seq<RoleErr>,
) {
    match caps {
        Some(ms) => match capability_error(v.model, v.effort, ms) {
            None => (RoleCapabilityStatus::Supported, Seq::empty()),
            Some(c) => (capability_status_for(c), seq![code_err(c)]),
        },
        None => (
            RoleCapabilityStatus::Unavailable,
            seq![code_err(RoleErrorCode::CapabilityUnavailable)],
        ),
    }
}

/// The summary of a role file found on disk.
pub open spec fn discover(
    rel: Seq<char>,
    text: Seq<char>,
    managed_ids: Seq<Seq<char>>,
    caps: Option<Seq<ModelSpec>>,
) -> DiscoveredSpec {
    let did = discovered_id_of(rel);
    let id = match did {
        Some(i) => i,
        None => safe_id(rel),
    };
    let name_diags: Seq<RoleErr> = if did is None {
        seq![code_err(RoleErrorCode::InvalidRoleFileName)]
    } else {
        Seq::empty()
    };
    let managed = did is Some && managed_ids.contains(did->0);
    match parse_role(text) {
        Ok(v) => {
            let cap = capability_part(v, caps);
            DiscoveredSpec {
                id,
                relative_file_name: safe_rel_name(rel),
                syntax: RoleSyntaxStatus::Valid,
                capability: cap.0,
                can_adopt: did is Some && !managed && cap.0 == RoleCapabilityStatus::Supported,
                managed,
                diagnostics: name_diags + cap.1 + warning_diagnostics(v.warnings),
            }
        },
        Err(e) => DiscoveredSpec {
            id,
            relative_file_name: safe_rel_name(rel),
            syntax: RoleSyntaxStatus::Invalid,
            capability: RoleCapabilityStatus::Invalid,
            can_adopt: false,
            managed,
            diagnostics: name_diags.push(e),
        },
    }
}

fn discovered_id(relative_file_name: &str) -> (r: Result<RoleId, RoleError>)
    ensures
        discovered_id_of(relative_file_name@) matches Some(id) ==> (r matches Ok(x) && x@ == id),
        discovered_id_of(relative_file_name@) is None ==> r is Err,
{
    let v = chars_of(relative_file_name);
    let mut prefix = chars_of(ROLE_DIRECTORY);
    prefix.push('/');
    if !crate::text::starts_with_chars(&v, &prefix) {
        return Err(RoleError::new(RoleErrorCode::InvalidRoleFileName));
    }
    let rest = crate::text::sub_chars(&v, prefix.len(), v.len());
    let name = crate::text::string_of(&rest);
    role_id_from_file_name(name.as_str())
}

fn keep_id_chars_of(v: &[char]) -> (r: Vec<char>)
    ensures
        r@ == keep_id_chars(v@),
{
    let mut r: Vec<char> = Vec::new();
    let mut i: usize = 0;
    while i < v.len()
        invariant
            i <= v@.len(),
            r@ == keep_id_chars(v@.subrange(0, i as int)),
        decreases v@.len() - i,
    {
        assert(v@.subrange(0, i + 1).drop_last() =~= v@.subrange(0, i as int));
        let c = v[i];
        if ('a' <= c && c <= 'z') || ('A' <= c && c <= 'Z') || ('0' <= c && c <= '9') || c == '-' {
            r.push(c);
        }
        i += 1;
    }
    assert(v@.subrange(0, v@.len() as int) =~= v@);
    r
}

fn safe_discovered_id(relative_file_name: &str) -> (r: String)
    ensures
        r@ == safe_id(relative_file_name@),
{
    let v = chars_of(relative_file_name);
    let base = crate::text::after_last_chars(&v, '/');
    let ext = chars_of(ROLE_EXTENSION);
    let stem = if crate::text::ends_with_chars(&base, &ext) {
        crate::text::sub_chars(&base, 0, base.len() - ext.len())
    } else {
        chars_of("unknown")
    };
    let kept = keep_id_chars_of(&stem);
    let cut = if kept.len() > ROLE_ID_MAX_BYTES {
        crate::text::sub_chars(&kept, 0, ROLE_ID_MAX_BYTES)
    } else {
        kept
    };
    if cut.len() == 0 {
        owned("unknown")
    } else {
        crate::text::string_of(&cut)
    }
}

fn safe_relative_file_name(relative_file_name: &str) -> (r: String)
    ensures
        r@ == safe_rel_name(relative_file_name@),
{
    let v = chars_of(relative_file_name);
    let mut prefix = chars_of(ROLE_DIRECTORY);
    prefix.push('/');
    let dots = chars_of("..");
    if crate::text::starts_with_chars(&v, &prefix) && !crate::text::has_char(&v, '\\')
        && !crate::text::has_char(&v, '\0') && !crate::text::contains_chars(&v, &dots) {
        return owned(relative_file_name);
    }
    let a = crate::text::after_last_chars(&v, '/');
    let b = crate::text::after_last_chars(&a, '\\');
    let dot = chars_of(".");
    if b.len() > 0 && !crate::text::chars_eq(&b, &dot) && !crate::text::chars_eq(&b, &dots)
        && !crate::text::has_char(&b, '\0') && !crate::text::has_char(&b, ':') {
        crate::text::string_of(&b)
    } else {
        owned("<invalid>")
    }
}

fn id_listed(ids: &[RoleId], id: &RoleId) -> (r: bool)
    ensures
        r == role_ids_view(ids@).contains(id@),
{
    let mut i: usize = 0;
    while i < ids.len()
        invariant
            i <= ids@.len(),
            forall|k: int| 0 <= k < i ==> #[trigger] role_ids_view(ids@)[k] != id@,
        decreases ids@.len() - i,
    {
        if ids[i].same(id) {
            assert(role_ids_view(ids@)[i as int] == id@);
            return true;
        }
        i += 1;
    }
    false
}

fn warning_diagnostics_of(ws: &Vec<RoleWarning>) -> (r: Vec<RoleDiagnostic>)
    ensures
        diagnostics_view(r@) == warning_diagnostics(warnings_view(ws@)),
{
    let mut r: Vec<RoleDiagnostic> = Vec::new();
    let mut i: usize = 0;
    while i < ws.len()
        invariant
            i <= ws@.len(),
            diagnostics_view(r@) == warning_diagnostics(warnings_view(ws@)).subrange(0, i as int),
        decreases ws@.len() - i,
    {
        let d = RoleDiagnostic {
            code: RoleErrorCode::UnknownRoleField,
            field: crate::model::opt_clone(&ws[i].field),
        };
        let ghost before = r@;
        let ghost dv = d@;
        r.push(d);
        assert(dv == warning_diagnostics(warnings_view(ws@))[i as int]);
        assert(diagnostics_view(r@) =~= diagnostics_view(before).push(dv));
        assert(diagnostics_view(r@) =~= warning_diagnostics(warnings_view(ws@)).subrange(0, i + 1));
        i += 1;
    }
    assert(warning_diagnostics(warnings_view(ws@)).subrange(0, ws@.len() as int)
        =~= warning_diagnostics(warnings_view(ws@)));
    r
}

/// Summarises a role file found on disk: its id, whether it parses, whether the capability
/// snapshot supports it, whether it can be adopted, and its diagnostics.
pub fn discover_role(
    relative_file_name: &str,
    text: &str,
    managed_ids: &[RoleId],
    capabilities: Option<&CapabilitySnapshot>,
) -> (r: DiscoveredRole)
    ensures
        r@ == discover(
            relative_file_name@,
            text@,
            role_ids_view(managed_ids@),
            snapshot_models_of(capabilities),
        ),
{
    let discovered = discovered_id(relative_file_name);
    let mut diagnostics: Vec<RoleDiagnostic> = Vec::new();
    let (id, managed, filename_is_valid) = match &discovered {
        Ok(role_id) => (owned(role_id.as_str()), id_listed(managed_ids, role_id), true),
        Err(_) => {
            diagnostics.push(RoleDiagnostic { code: RoleErrorCode::InvalidRoleFileName, field: None });
            (safe_discovered_id(relative_file_name), false, false)
        },
    };
    let ghost name_diags = diagnostics_view(diagnostics@);
    let relative = safe_relative_file_name(relative_file_name);
    match parse_role_toml(text) {
        Ok(parsed) => {
            let (capability, cap_diag) = match capabilities {
                Some(snapshot) => match validate_role_capability(&parsed.view, snapshot) {
                    Ok(()) => (RoleCapabilityStatus::Supported, None),
                    Err(error) => {
                        let code = error.code;
                        (capability_status_for_error(code), Some(RoleDiagnostic::from(error)))
                    },
                },
                None => (
                    RoleCapabilityStatus::Unavailable,
                    Some(RoleDiagnostic { code: RoleErrorCode::CapabilityUnavailable, field: None }),
                ),
            };
            if let Some(d) = cap_diag {
                diagnostics.push(d);
            }
            let ghost with_cap = diagnostics_view(diagnostics@);
            assert(with_cap == name_diags + capability_part(parsed.view@, snapshot_models_of(capabilities)).1);
            let mut extra = warning_diagnostics_of(&parsed.warnings);
            diagnostics.append(&mut extra);
            assert(diagnostics_view(diagnostics@) =~= with_cap + warning_diagnostics(parsed.view@.warnings));
            let can_adopt = filename_is_valid && !managed && capability == RoleCapabilityStatus::Supported;
            proof {
                let spec_r = discover(
                    relative_file_name@,
                    text@,
                    role_ids_view(managed_ids@),
                    snapshot_models_of(capabilities),
                );
                assert(parse_role(text@) == Ok::<RoleViewSpec, RoleErr>(parsed.view@));
                assert(spec_r.id == id@);
                assert(spec_r.managed == managed);
                assert(spec_r.capability == capability);
                assert(spec_r.can_adopt == can_adopt);
                assert(spec_r.diagnostics == diagnostics_view(diagnostics@));
                assert(spec_r.relative_file_name == relative@);
            }
            DiscoveredRole {
                id,
                relative_file_name: relative,
                syntax: RoleSyntaxStatus::Valid,
                capability,
                can_adopt,
                managed,
                diagnostics,
            }
        },
        Err(error) => {
            let ghost ev = error@;
            let d = RoleDiagnostic::from(error);
            assert(d@ == ev);
            diagnostics.push(d);
            proof {
                let spec_r = discover(
                    relative_file_name@,
                    text@,
                    role_ids_view(managed_ids@),
                    snapshot_models_of(capabilities),
                );
                assert(parse_role(text@) == Err::<RoleViewSpec, RoleErr>(ev));
                assert(diagnostics_view(diagnostics@) =~= name_diags.push(ev));
                assert(spec_r.id == id@);
                assert(spec_r.managed == managed);
                assert(spec_r.diagnostics == diagnostics_view(diagnostics@));
            }
            DiscoveredRole {
                id,
                relative_file_name: relative,
                syntax: RoleSyntaxStatus::Invalid,
                capability: RoleCapabilityStatus::Invalid,
                can_adopt: false,
                managed,
                diagnostics,
            }
        },
    }
}


// ---------- default role migration ----------

#[derive(Debug, Clone, Copy, PartialEq, Eq, Structural)]
pub enum RoleMigrationChoice {
    AdoptLive,
    AdoptStored,
    UseSafeDefault,
}

#[derive(Debug, Clone, Copy, PartialEq, Eq, Structural)]
pub enum RoleMigrationSource {
    Live,
    Stored,
    SafeDefault,
}

#[derive(Debug, Clone, Copy, PartialEq, Eq, Structural)]
pub enum RoleMigrationPendingReason {
    MissingStored,
    MissingLive,
    InvalidStored,
    InvalidLive,
    Conflict,
}

#[derive(Debug, Clone, PartialEq, Eq)]
pub enum RoleMigrationPlan {
    Auto { source: RoleMigrationSource, lifecycle: RoleLifecycle },
    Pending { reason: RoleMigrationPendingReason, choices: Vec<RoleMigrationChoice> },
}

pub enum PlanSpec {
    Auto { source: RoleMigrationSource, lifecycle: RoleLifecycle },
    Pending { reason: RoleMigrationPendingReason, choices: Seq<RoleMigrationChoice> },
}

impl View for RoleMigrationPlan {
    type V = PlanSpec;

    open spec fn view(&self) -> PlanSpec {
        match self {
            RoleMigrationPlan::Auto { source, lifecycle } => PlanSpec::Auto {
                source: *source,
                lifecycle: *lifecycle,
            },
            RoleMigrationPlan::Pending { reason, choices } => PlanSpec::Pending {
                reason: *reason,
                choices: choices@,
            },
        }
    }
}

#[derive(Debug, Clone, PartialEq, Eq)]
pub struct RoleMigrationResult {
    pub record: ManagedRoleRecord,
    pub lifecycle: RoleLifecycle,
    pub source: RoleMigrationSource,
}

pub struct MigrationResultSpec {
    pub record: RecordSpec,
    pub lifecycle: RoleLifecycle,
    pub source: RoleMigrationSource,
}

impl View for RoleMigrationResult {
    type V = MigrationResultSpec;

    open spec fn view(&self) -> MigrationResultSpec {
        MigrationResultSpec {
            record: record_spec(self.record),
            lifecycle: self.lifecycle,
            source: self.source,
        }
    }
}

/// The source is present and parses as a role document.
pub open spec fn source_parses(src: Option<Seq<char>>) -> bool {
    src is Some && parse_role(src->0) is Ok
}

/// Two sources are the same role: equal after trimming, and both parse to the same view.
pub open spec fn sources_same(left: Option<Seq<char>>, right: Option<Seq<char>>) -> bool {
    match (left, right) {
        (Some(a), Some(b)) => trim(a) == trim(b) && parse_role(a) is Ok && parse_role(b) is Ok
            && parse_role(a)->Ok_0 == parse_role(b)->Ok_0,
        _ => false,
    }
}

/// The migration plan of the legacy default-role owner.
pub open spec fn migration_plan(
    stored: Option<Seq<char>>,
    live: Option<Seq<char>>,
    previous: RoleLifecycle,
    safe_default: Seq<char>,
) -> PlanSpec {
    let s_ok = source_parses(stored);
    let l_ok = source_parses(live);
    if s_ok && l_ok && sources_same(stored, live) {
        PlanSpec::Auto { source: RoleMigrationSource::Stored, lifecycle: previous }
    } else {
        let reason = if stored is None {
            RoleMigrationPendingReason::MissingStored
        } else if live is None {
            RoleMigrationPendingReason::MissingLive
        } else if !s_ok && l_ok {
            RoleMigrationPendingReason::InvalidStored
        } else if s_ok && !l_ok {
            RoleMigrationPendingReason::InvalidLive
        } else {
            RoleMigrationPendingReason::Conflict
        };
        let c1: Seq<RoleMigrationChoice> = if l_ok {
            seq![RoleMigrationChoice::AdoptLive]
        } else {
            Seq::empty()
        };
        let c2: Seq<RoleMigrationChoice> = if s_ok {
            seq![RoleMigrationChoice::AdoptStored]
        } else {
            Seq::empty()
        };
        let c3: Seq<RoleMigrationChoice> = if parse_role(safe_default) is Ok {
            seq![RoleMigrationChoice::UseSafeDefault]
        } else {
            Seq::empty()
        };
        PlanSpec::Pending { reason, choices: c1 + c2 + c3 }
    }
}

fn parse_migration_source(source: Option<&str>) -> (r: Result<ParsedRoleToml, RoleError>)
    ensures
        source is None ==> (r matches Err(e) && e@ == code_err(
            RoleErrorCode::MigrationSourceUnavailable,
        )),
        source matches Some(t) ==> rv(r) == parse_role(t@),
        r matches Ok(p) ==> parsed_consistent(p),
{
    match source {
        Some(text) => parse_role_toml(text),
        None => Err(RoleError::new(RoleErrorCode::MigrationSourceUnavailable)),
    }
}

fn warnings_equal(a: &Vec<RoleWarning>, b: &Vec<RoleWarning>) -> (r: bool)
    ensures
        r == (warnings_view(a@) == warnings_view(b@)),
{
    if a.len() != b.len() {
        assert(warnings_view(a@).len() != warnings_view(b@).len());
        return false;
    }
    let mut i: usize = 0;
    while i < a.len()
        invariant
            i <= a@.len() == b@.len(),
            forall|k: int| 0 <= k < i ==> #[trigger] warnings_view(a@)[k] == warnings_view(b@)[k],
        decreases a@.len() - i,
    {
        let same_field = match (&a[i].field, &b[i].field) {
            (None, None) => true,
            (Some(x), Some(y)) => str_eq(x.as_str(), y.as_str()),
            _ => false,
        };
        if a[i].code != b[i].code || !same_field {
            assert(warnings_view(a@)[i as int] != warnings_view(b@)[i as int]);
            return false;
        }
        assert(warnings_view(a@)[i as int] == warnings_view(b@)[i as int]);
        i += 1;
    }
    assert(warnings_view(a@) =~= warnings_view(b@));
    true
}

fn views_equal(a: &ManagedRoleView, b: &ManagedRoleView) -> (r: bool)
    ensures
        r == (a@ == b@),
{
    str_eq(a.display_name.as_str(), b.display_name.as_str()) && str_eq(
        a.purpose.as_str(),
        b.purpose.as_str(),
    ) && str_eq(a.model.as_str(), b.model.as_str()) && str_eq(a.effort.as_str(), b.effort.as_str())
        && str_eq(a.instructions.as_str(), b.instructions.as_str()) && warnings_equal(
        &a.warnings,
        &b.warnings,
    )
}

fn sources_equal(left: Option<&str>, right: Option<&str>) -> (r: bool)
    ensures
        r == sources_same(crate::model::opt_str_view(left), crate::model::opt_str_view(right)),
{
    match (left, right) {
        (Some(l), Some(rt)) => {
            let tl = crate::text::trim_str(l);
            let tr = crate::text::trim_str(rt);
            if !str_eq(tl.as_str(), tr.as_str()) {
                return false;
            }
            match (parse_role_toml(l), parse_role_toml(rt)) {
                (Ok(a), Ok(b)) => views_equal(&a.view, &b.view),
                _ => false,
            }
        },
        _ => false,
    }
}

/// Plans the migration of the legacy whole-file default-role owner. It reads only the given
/// texts: an equal, valid pair is adopted automatically; anything else is pending with the
/// choices whose source parses.
pub fn plan_default_role_migration(
    stored_expected: Option<&str>,
    live_toml: Option<&str>,
    previous_lifecycle: RoleLifecycle,
    safe_default_toml: &str,
) -> (r: Result<RoleMigrationPlan, RoleError>)
    ensures
        r matches Ok(p) && p@ == migration_plan(
            crate::model::opt_str_view(stored_expected),
            crate::model::opt_str_view(live_toml),
            previous_lifecycle,
            safe_default_toml@,
        ),
{
    let stored_ok = parse_migration_source(stored_expected).is_ok();
    let live_ok = parse_migration_source(live_toml).is_ok();
    let safe_ok = parse_role_toml(safe_default_toml).is_ok();
    if stored_ok && live_ok && sources_equal(stored_expected, live_toml) {
        return Ok(
            RoleMigrationPlan::Auto {
                source: RoleMigrationSource::Stored,
                lifecycle: previous_lifecycle,
            },
        );
    }
    let reason = if stored_expected.is_none() {
        RoleMigrationPendingReason::MissingStored
    } else if live_toml.is_none() {
        RoleMigrationPendingReason::MissingLive
    } else if !stored_ok && live_ok {
        RoleMigrationPendingReason::InvalidStored
    } else if stored_ok && !live_ok {
        RoleMigrationPendingReason::InvalidLive
    } else {
        RoleMigrationPendingReason::Conflict
    };
    let mut choices: Vec<RoleMigrationChoice> = Vec::new();
    if live_ok {
        choices.push(RoleMigrationChoice::AdoptLive);
    }
    if stored_ok {
        choices.push(RoleMigrationChoice::AdoptStored);
    }
    if safe_ok {
        choices.push(RoleMigrationChoice::UseSafeDefault);
    }
    let ghost s_ok = source_parses(crate::model::opt_str_view(stored_expected));
    let ghost l_ok = source_parses(crate::model::opt_str_view(live_toml));
    assert(choices@ =~= (if l_ok {
        seq![RoleMigrationChoice::AdoptLive]
    } else {
        Seq::<RoleMigrationChoice>::empty()
    }) + (if s_ok {
        seq![RoleMigrationChoice::AdoptStored]
    } else {
        Seq::<RoleMigrationChoice>::empty()
    }) + (if parse_role(safe_default_toml@) is Ok {
        seq![RoleMigrationChoice::UseSafeDefault]
    } else {
        Seq::<RoleMigrationChoice>::empty()
    }));
    Ok(RoleMigrationPlan::Pending { reason, choices })
}

/// The source a choice takes, and its text.
pub open spec fn migration_selected(
    choice: RoleMigrationChoice,
    stored: Option<Seq<char>>,
    live: Option<Seq<char>>,
    safe_default: Seq<char>,
) -> Option<(RoleMigrationSource, Seq<char>)> {
    match choice {
        RoleMigrationChoice::AdoptLive => match live {
            Some(t) => Some((RoleMigrationSource::Live, t)),
            None => None,
        },
        RoleMigrationChoice::AdoptStored => match stored {
            Some(t) => Some((RoleMigrationSource::Stored, t)),
            None => None,
        },
        RoleMigrationChoice::UseSafeDefault => Some((RoleMigrationSource::SafeDefault, safe_default)),
    }
}

/// A locked role stays locked only when the live file already holds the chosen document.
pub open spec fn migrated_lifecycle(
    previous: RoleLifecycle,
    selected: Seq<char>,
    live: Option<Seq<char>>,
) -> RoleLifecycle {
    if previous == RoleLifecycle::Locked && !(live is Some && sources_same(Some(selected), live)) {
        RoleLifecycle::Disabled
    } else {
        previous
    }
}

/// The default-role record that a resolved migration stores.
pub open spec fn migrated_record(selected: Seq<char>, view: RoleViewSpec, now_ms: u64) -> RecordSpec {
    RecordSpec {
        id: DEFAULT_ROLE_ID@,
        selection_criteria: DEFAULT_SELECTION_CRITERIA@,
        order: 0,
        expected_toml: selected,
        policy_revision: 1,
        policy_hash: policy_hash(view, DEFAULT_SELECTION_CRITERIA@),
        policy_updated_at_ms: now_ms,
        description_origin: TextOrigin::Builtin,
        instructions_origin: TextOrigin::Builtin,
    }
}

/// The result of resolving a migration with a choice.
pub open spec fn migration_resolution(
    choice: RoleMigrationChoice,
    stored: Option<Seq<char>>,
    live: Option<Seq<char>>,
    safe_default: Seq<char>,
    previous: RoleLifecycle,
    now_ms: u64,
) -> Result<MigrationResultSpec, RoleErr> {
    match migration_selected(choice, stored, live, safe_default) {
        None => Err(code_err(RoleErrorCode::MigrationSourceUnavailable)),
        Some(sel) => match parse_role(sel.1) {
            Err(_) => Err(
                code_err(
                    if sel.0 == RoleMigrationSource::SafeDefault {
                        RoleErrorCode::SafeDefaultInvalid
                    } else {
                        RoleErrorCode::MigrationSourceInvalid
                    },
                ),
            ),
            Ok(v) => Ok(
                MigrationResultSpec {
                    record: migrated_record(sel.1, v, now_ms),
                    lifecycle: migrated_lifecycle(previous, sel.1, live),
                    source: sel.0,
                },
            ),
        },
    }
}

fn default_role_id() -> (r: RoleId)
    ensures
        r@ == DEFAULT_ROLE_ID@,
{
    proof {
        reveal_strlit("default");
    }
    RoleId(owned(DEFAULT_ROLE_ID))
}

/// Resolves the default-role migration with an explicit choice.
pub fn resolve_default_role_migration(
    choice: RoleMigrationChoice,
    stored_expected: Option<&str>,
    live_toml: Option<&str>,
    safe_default_toml: &str,
    previous_lifecycle: RoleLifecycle,
    now_ms: u64,
) -> (r: Result<RoleMigrationResult, RoleError>)
    ensures
        rv(r) == migration_resolution(
            choice,
            crate::model::opt_str_view(stored_expected),
            crate::model::opt_str_view(live_toml),
            safe_default_toml@,
            previous_lifecycle,
            now_ms,
        ),
{
    let (source, selected) = match choice {
        RoleMigrationChoice::AdoptLive => match live_toml {
            Some(t) => (RoleMigrationSource::Live, t),
            None => {
                return Err(RoleError::new(RoleErrorCode::MigrationSourceUnavailable));
            },
        },
        RoleMigrationChoice::AdoptStored => match stored_expected {
            Some(t) => (RoleMigrationSource::Stored, t),
            None => {
                return Err(RoleError::new(RoleErrorCode::MigrationSourceUnavailable));
            },
        },
        RoleMigrationChoice::UseSafeDefault => (RoleMigrationSource::SafeDefault, safe_default_toml),
    };
    let parsed = match parse_role_toml(selected) {
        Ok(p) => p,
        Err(_) => {
            let code = if source == RoleMigrationSource::SafeDefault {
                RoleErrorCode::SafeDefaultInvalid
            } else {
                RoleErrorCode::MigrationSourceInvalid
            };
            return Err(RoleError::new(code));
        },
    };
    let live_matches = match live_toml {
        Some(live) => sources_equal(Some(selected), Some(live)),
        None => false,
    };
    let lifecycle = if previous_lifecycle == RoleLifecycle::Locked && !live_matches {
        RoleLifecycle::Disabled
    } else {
        previous_lifecycle
    };
    let record = ManagedRoleRecord {
        id: default_role_id(),
        selection_criteria: owned(DEFAULT_SELECTION_CRITERIA),
        order: 0,
        expected_toml: owned(selected),
        policy_revision: 1,
        policy_hash: policy_hash_for_view(&parsed.view, DEFAULT_SELECTION_CRITERIA),
        policy_updated_at_ms: now_ms,
        description_origin: TextOrigin::Builtin,
        instructions_origin: TextOrigin::Builtin,
    };
    Ok(RoleMigrationResult { record, lifecycle, source })
}

/// The plan adopts automatically exactly when both sources parse and are the same role, and
/// then keeps the previous lifecycle.
pub proof fn law_migration_auto_iff_same_valid_sources(
    stored: Option<Seq<char>>,
    live: Option<Seq<char>>,
    previous: RoleLifecycle,
    safe_default: Seq<char>,
)
    ensures
        migration_plan(stored, live, previous, safe_default) is Auto <==> (source_parses(stored)
            && source_parses(live) && sources_same(stored, live)),
        migration_plan(stored, live, previous, safe_default) matches PlanSpec::Auto { lifecycle, .. }
            ==> lifecycle == previous,
{
}

/// Every choice that a pending plan offers resolves without error.
pub proof fn law_offered_choices_resolve(
    stored: Option<Seq<char>>,
    live: Option<Seq<char>>,
    previous: RoleLifecycle,
    safe_default: Seq<char>,
    choice: RoleMigrationChoice,
    now_ms: u64,
)
    requires
        migration_plan(stored, live, previous, safe_default) matches PlanSpec::Pending { choices, .. }
            && choices.contains(choice),
    ensures
        migration_resolution(choice, stored, live, safe_default, previous, now_ms) is Ok,
{
    let choices = migration_plan(stored, live, previous, safe_default)->choices;
    let k = choose|k: int| 0 <= k < choices.len() && choices[k] == choice;
    assert(choices[k] == choice);
}

/// A resolved migration never raises the lifecycle: it keeps it, or turns a locked role
/// whose live file differs from the chosen document into a disabled one.
pub proof fn law_resolution_never_keeps_stale_lock(
    choice: RoleMigrationChoice,
    stored: Option<Seq<char>>,
    live: Option<Seq<char>>,
    safe_default: Seq<char>,
    previous: RoleLifecycle,
    now_ms: u64,
)
    requires
        migration_resolution(choice, stored, live, safe_default, previous, now_ms) is Ok,
    ensures
        ({
            let res = migration_resolution(choice, stored, live, safe_default, previous, now_ms)->Ok_0;
            &&& res.lifecycle == previous || (previous == RoleLifecycle::Locked && res.lifecycle
                == RoleLifecycle::Disabled)
            &&& res.lifecycle == RoleLifecycle::Locked ==> live is Some && sources_same(
                Some(res.record.expected_toml),
                live,
            )
            &&& res.record.id == DEFAULT_ROLE_ID@
        }),
{
}

} // verus!
