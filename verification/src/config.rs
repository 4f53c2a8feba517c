//! Launcher settings as values: the settings page's fields, the taskboard address, the
//! instance credentials and the guard state that travels with them.
use vstd::prelude::*;
use crate::text::{chars_of, owned};

verus! {

pub const DEFAULT_TASKBOARD_PORT: u16 = 47823;
pub const DEFAULT_CDP_PORT: u16 = 9231;
pub const DEFAULT_TASKBOARD_HOST: &'static str = "127.0.0.1";
pub const DEFAULT_LANGUAGE: &'static str = "system";

/// The taskboard base URL with the token route prefix and no trailing slash.
pub open spec fn taskboard_url_text(host: Seq<char>, port: u16, token: Seq<char>) -> Seq<char> {
    "http://"@ + host + ":"@ + crate::text::decimal(port as nat) + "/"@ + token
}

pub fn taskboard_url(host: &str, port: u16, token: &str) -> (r: String)
    ensures
        r@ == taskboard_url_text(host@, port, token@),
{
    let mut v: Vec<char> = Vec::new();
    crate::text::push_str(&mut v, "http://");
    crate::text::push_str(&mut v, host);
    crate::text::push_str(&mut v, ":");
    crate::text::push_decimal(&mut v, port as u64);
    crate::text::push_str(&mut v, "/");
    crate::text::push_str(&mut v, token);
    crate::text::string_of(&v)
}

pub open spec fn is_token_char(c: char) -> bool {
    ('a' <= c <= 'z') || ('A' <= c <= 'Z') || ('0' <= c <= '9') || c == '-'
}

pub open spec fn is_secret_char(c: char) -> bool {
    ('a' <= c <= 'f') || ('A' <= c <= 'F') || ('0' <= c <= '9') || c == '-'
}

/// Stored credentials are reused when the token has at least 16 bytes of ASCII letters,
/// digits and `-`, and the secret at least 32 bytes of hex digits and `-`.
pub open spec fn credentials_ok(token: Seq<char>, secret: Seq<char>) -> bool {
    vstd::utf8::encode_utf8(token).len() >= 16 && (forall|i: int| 0 <= i < token.len() ==> is_token_char(#[trigger] token[i]))
        && vstd::utf8::encode_utf8(secret).len() >= 32 && (forall|i: int| 0 <= i < secret.len() ==> is_secret_char(#[trigger] secret[i]))
}

fn all_chars(v: &[char], hex_only: bool) -> (r: bool)
    ensures
        !hex_only ==> r == (forall|i: int| 0 <= i < v@.len() ==> is_token_char(#[trigger] v@[i])),
        hex_only ==> r == (forall|i: int| 0 <= i < v@.len() ==> is_secret_char(#[trigger] v@[i])),
{
    let mut i: usize = 0;
    while i < v.len()
        invariant
            i <= v@.len(),
            !hex_only ==> forall|k: int| 0 <= k < i ==> is_token_char(#[trigger] v@[k]),
            hex_only ==> forall|k: int| 0 <= k < i ==> is_secret_char(#[trigger] v@[k]),
        decreases v@.len() - i,
    {
        let c = v[i];
        let ok = if hex_only {
            ('a' <= c && c <= 'f') || ('A' <= c && c <= 'F') || ('0' <= c && c <= '9') || c == '-'
        } else {
            ('a' <= c && c <= 'z') || ('A' <= c && c <= 'Z') || ('0' <= c && c <= '9') || c == '-'
        };
        if !ok {
            return false;
        }
        i += 1;
    }
    true
}

pub fn instance_credentials_valid(token: &str, secret: &str) -> (r: bool)
    ensures
        r == credentials_ok(token@, secret@),
{
    token.as_bytes().len() >= 16 && all_chars(&chars_of(token), false) && secret.as_bytes().len() >= 32 && all_chars(
        &chars_of(secret),
        true,
    )
}

/// The stored guard state of one parameter.
#[derive(Debug)]
pub struct GuardParamState {
    pub value: Option<crate::engine::GuardValue>,
    pub applied: bool,
    pub locked: bool,
    pub last_checked: Option<u64>,
    pub last_restored: Option<u64>,
}

/// The guard part of the launcher configuration: whether guarding is on, the state of each
/// parameter by id, and the guarded files.
#[derive(Debug)]
pub struct CodexGuardState {
    pub enabled: bool,
    pub params: Vec<(String, GuardParamState)>,
    pub files: Vec<crate::guard::GuardFile>,
}

impl Default for CodexGuardState {
    /// Guarding off, with no parameter state and no files.
    fn default() -> (r: Self)
        ensures
            !r.enabled,
            r.params@.len() == 0,
            r.files@.len() == 0,
    {
        CodexGuardState { enabled: false, params: Vec::new(), files: Vec::new() }
    }
}

/// The launcher configuration.
#[derive(Debug)]
pub struct LauncherConfig {
    pub taskboard_path: String,
    pub node_path: String,
    pub codex_app_path: String,
    pub taskboard_port: u16,
    pub taskboard_host: String,
    pub cdp_port: u16,
    pub instance_token: String,
    pub instance_secret: String,
    pub auto_open: bool,
    pub separate_window_mode: bool,
    pub minimize_to_tray_on_close: bool,
    pub language: String,
    pub codex_guard: CodexGuardState,
}

impl LauncherConfig {
    /// The configuration of a first start, with the platform's usual Codex application path.
    pub fn default_for(codex_app_path: &str) -> (r: Self)
        ensures
            r.taskboard_path@.len() == 0,
            r.node_path@.len() == 0,
            r.codex_app_path@ == codex_app_path@,
            r.taskboard_port == DEFAULT_TASKBOARD_PORT,
            r.taskboard_host@ == DEFAULT_TASKBOARD_HOST@,
            r.cdp_port == DEFAULT_CDP_PORT,
            r.instance_token@.len() == 0,
            r.instance_secret@.len() == 0,
            r.auto_open,
            !r.separate_window_mode,
            !r.minimize_to_tray_on_close,
            r.language@ == DEFAULT_LANGUAGE@,
            !r.codex_guard.enabled,
            r.codex_guard.params@.len() == 0,
            r.codex_guard.files@.len() == 0,
    {
        LauncherConfig {
            taskboard_path: String::new(),
            node_path: String::new(),
            codex_app_path: owned(codex_app_path),
            taskboard_port: DEFAULT_TASKBOARD_PORT,
            taskboard_host: owned(DEFAULT_TASKBOARD_HOST),
            cdp_port: DEFAULT_CDP_PORT,
            instance_token: String::new(),
            instance_secret: String::new(),
            auto_open: true,
            separate_window_mode: false,
            minimize_to_tray_on_close: false,
            language: owned(DEFAULT_LANGUAGE),
            codex_guard: CodexGuardState::default(),
        }
    }
}

/// Saving the settings page takes its setting fields and keeps the rest of the configuration
/// (credentials and guard state) as stored, so that stale guard state is never written back.
pub fn merge_settings(current: &mut LauncherConfig, settings: &LauncherConfig)
    ensures
        final(current).taskboard_path == settings.taskboard_path,
        final(current).node_path == settings.node_path,
        final(current).codex_app_path == settings.codex_app_path,
        final(current).taskboard_port == settings.taskboard_port,
        final(current).taskboard_host == settings.taskboard_host,
        final(current).cdp_port == settings.cdp_port,
        final(current).auto_open == settings.auto_open,
        final(current).separate_window_mode == settings.separate_window_mode,
        final(current).minimize_to_tray_on_close == settings.minimize_to_tray_on_close,
        final(current).language == settings.language,
        final(current).instance_token == old(current).instance_token,
        final(current).instance_secret == old(current).instance_secret,
        final(current).codex_guard == old(current).codex_guard,
{
    current.taskboard_path = settings.taskboard_path.clone();
    current.node_path = settings.node_path.clone();
    current.codex_app_path = settings.codex_app_path.clone();
    current.taskboard_port = settings.taskboard_port;
    current.taskboard_host = settings.taskboard_host.clone();
    current.cdp_port = settings.cdp_port;
    current.auto_open = settings.auto_open;
    current.separate_window_mode = settings.separate_window_mode;
    current.minimize_to_tray_on_close = settings.minimize_to_tray_on_close;
    current.language = settings.language.clone();
}

/// A lowercase hex digit or `-`.
pub open spec fn is_uuid_char(c: char) -> bool {
    ('a' <= c <= 'f') || ('0' <= c <= '9') || c == '-'
}

/// A lowercase hex digit.
pub open spec fn is_lower_hex(c: char) -> bool {
    ('a' <= c <= 'f') || ('0' <= c <= '9')
}

/// `uuid::Uuid::new_v4().to_string()`: a random version-4 UUID in its hyphenated form, 36
/// ASCII characters of lowercase hex digits and `-`. Nothing else is stated of the value.
#[verifier::external_body]
fn uuid_v4_hyphenated() -> (r: String)
    ensures
        r@.len() == 36,
        vstd::utf8::encode_utf8(r@).len() == 36,
        forall|i: int| 0 <= i < r@.len() ==> is_uuid_char(#[trigger] r@[i]),
{
    uuid::Uuid::new_v4().to_string()
}

/// `uuid::Uuid::new_v4().simple().to_string()`: a random version-4 UUID without hyphens, 32
/// ASCII lowercase hex digits. Nothing else is stated of the value.
#[verifier::external_body]
fn uuid_v4_simple() -> (r: String)
    ensures
        r@.len() == 32,
        vstd::utf8::encode_utf8(r@).len() == 32,
        forall|i: int| 0 <= i < r@.len() ==> is_lower_hex(#[trigger] r@[i]),
{
    uuid::Uuid::new_v4().simple().to_string()
}

proof fn lemma_encode_append(a: Seq<char>, b: Seq<char>)
    ensures
        vstd::utf8::encode_utf8(a + b) == vstd::utf8::encode_utf8(a) + vstd::utf8::encode_utf8(b),
    decreases a.len(),
{
    if a.len() == 0 {
        assert(a + b =~= b);
        assert(vstd::utf8::encode_utf8(a) + vstd::utf8::encode_utf8(b) =~= vstd::utf8::encode_utf8(b));
    } else {
        lemma_encode_append(a.drop_first(), b);
        assert((a + b).drop_first() =~= a.drop_first() + b);
        assert((a + b)[0] == a[0]);
    }
}

/// Fresh credentials: a random version-4 UUID as the token (36 characters of lowercase hex
/// and `-`) and two random UUIDs without hyphens as the secret (64 lowercase hex digits); both
/// pass the credential check.
pub fn generate_credentials() -> (r: (String, String))
    ensures
        r.0@.len() == 36,
        forall|i: int| 0 <= i < r.0@.len() ==> is_uuid_char(#[trigger] r.0@[i]),
        r.1@.len() == 64,
        forall|i: int| 0 <= i < r.1@.len() ==> is_lower_hex(#[trigger] r.1@[i]),
        credentials_ok(r.0@, r.1@),
{
    let token = uuid_v4_hyphenated();
    let a = uuid_v4_simple();
    let b = uuid_v4_simple();
    let mut v = chars_of(a.as_str());
    crate::text::push_str(&mut v, b.as_str());
    let secret = crate::text::string_of(&v);
    proof {
        assert(secret@ =~= a@ + b@);
        lemma_encode_append(a@, b@);
        assert forall|i: int| 0 <= i < secret@.len() implies is_lower_hex(#[trigger] secret@[i]) by {
            if i < 32 {
                assert(secret@[i] == a@[i]);
            } else {
                assert(secret@[i] == b@[i - 32]);
            }
        }
    }
    (token, secret)
}

/// The credentials in use: the stored ones when they pass the check, else a fresh pair from
/// `generate_credentials`, which the configuration then takes (and the caller saves; the third
/// value says so).
pub fn ensure_instance_credentials(config: &mut LauncherConfig) -> (r: (String, String, bool))
    ensures
        credentials_ok(r.0@, r.1@),
        final(config).instance_token == r.0,
        final(config).instance_secret == r.1,
        final(config).codex_guard == old(config).codex_guard,
        credentials_ok(old(config).instance_token@, old(config).instance_secret@) ==> !r.2 && *final(config) == *old(config),
        !credentials_ok(old(config).instance_token@, old(config).instance_secret@) ==> r.2 && r.0@.len() == 36
            && r.1@.len() == 64 && (forall|i: int| 0 <= i < r.0@.len() ==> is_uuid_char(#[trigger] r.0@[i]))
            && (forall|i: int| 0 <= i < r.1@.len() ==> is_lower_hex(#[trigger] r.1@[i])),
{
    if instance_credentials_valid(config.instance_token.as_str(), config.instance_secret.as_str()) {
        return (config.instance_token.clone(), config.instance_secret.clone(), false);
    }
    let (token, secret) = generate_credentials();
    keep_or_replace_credentials(config, token, secret)
}

/// The credentials in use, given a fresh pair: the stored ones when they pass the check, else
/// the fresh pair, which the configuration then takes (the third value says it changed).
pub fn keep_or_replace_credentials(config: &mut LauncherConfig, fresh_token: String, fresh_secret: String) -> (r: (
    String,
    String,
    bool,
))
    ensures
        credentials_ok(old(config).instance_token@, old(config).instance_secret@) ==> r.0@ == old(
            config,
        ).instance_token@ && r.1@ == old(config).instance_secret@ && !r.2 && *final(config) == *old(config),
        !credentials_ok(old(config).instance_token@, old(config).instance_secret@) ==> r.0 == fresh_token
            && r.1 == fresh_secret && r.2 && final(config).instance_token == fresh_token
            && final(config).instance_secret == fresh_secret && final(config).codex_guard == old(config).codex_guard
            && final(config).language == old(config).language,
{
    if instance_credentials_valid(config.instance_token.as_str(), config.instance_secret.as_str()) {
        return (config.instance_token.clone(), config.instance_secret.clone(), false);
    }
    config.instance_token = fresh_token.clone();
    config.instance_secret = fresh_secret.clone();
    (fresh_token, fresh_secret, true)
}

/// Whether a path carries the Windows extended-length prefix `\\?\`; on Windows the prefix is
/// stripped (`\\?\UNC\server\share` becomes `\\server\share`), elsewhere the path stays.
pub open spec fn unc_stripped(s: Seq<char>, windows: bool) -> Seq<char> {
    let unc = seq!['\\', '\\', '?', '\\', 'U', 'N', 'C', '\\'];
    let ext = seq!['\\', '\\', '?', '\\'];
    if windows && crate::text::starts_with(s, unc) {
        seq!['\\', '\\'] + s.subrange(8, s.len() as int)
    } else if windows && crate::text::starts_with(s, ext) {
        s.subrange(4, s.len() as int)
    } else {
        s
    }
}

/// Strips the Windows `\\?\` prefix that canonical paths carry; `windows` tells whether the
/// program runs on Windows.
pub fn strip_unc(s: &str, windows: bool) -> (r: String)
    ensures
        r@ == unc_stripped(s@, windows),
{
    let v = chars_of(s);
    let unc: Vec<char> = vec!['\\', '\\', '?', '\\', 'U', 'N', 'C', '\\'];
    let ext: Vec<char> = vec!['\\', '\\', '?', '\\'];
    assert(unc@ == seq!['\\', '\\', '?', '\\', 'U', 'N', 'C', '\\']);
    assert(ext@ == seq!['\\', '\\', '?', '\\']);
    if windows && crate::text::starts_with_chars(&v, &unc) {
        let mut out: Vec<char> = vec!['\\', '\\'];
        let rest = crate::text::sub_chars(&v, 8, v.len());
        crate::text::push_all(&mut out, &rest);
        assert(out@ =~= seq!['\\', '\\'] + s@.subrange(8, s@.len() as int));
        crate::text::string_of(&out)
    } else if windows && crate::text::starts_with_chars(&v, &ext) {
        crate::text::string_of(&crate::text::sub_chars(&v, 4, v.len()))
    } else {
        owned(s)
    }
}

/// The guarded files in use: the stored list, or the built-in files when it is empty (which the
/// caller then saves; the second value says so).
pub fn files_or_builtin(files: Vec<crate::guard::GuardFile>) -> (r: (Vec<crate::guard::GuardFile>, bool))
    ensures
        files@.len() == 0 ==> r.1 && crate::guard::files_view(r.0@) == crate::guard::builtin_file_specs(),
        files@.len() > 0 ==> !r.1 && r.0@ == files@,
{
    if files.len() == 0 {
        (crate::guard::builtin_files(), true)
    } else {
        (files, false)
    }
}

} // verus!
