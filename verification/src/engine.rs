//! The guard engine's decisions: how a parameter's file content compares with its expected
//! value, and what applying or removing it writes. Reading and writing the files is the
//! caller's; TOML documents are read through `toml_edit`.
use vstd::prelude::*;
use vstd::string::StringSliceAdditionalSpecFns;
use crate::markdown_block::{begin_marker, block_begin, block_end, end_marker, extract_block, extracted};
use crate::model::opt_view;
use crate::text::{chars_of, decimal, owned, push_decimal, push_str, split_chars, split_on, str_eq, string_of, trim};

verus! {

/// What the engine reads of an expected JSON value.
#[derive(Debug, Clone, PartialEq, Eq)]
pub enum GuardValue {
    Bool(bool),
    /// A number that fits an `i64`.
    Int(i64),
    /// Any other number.
    Decimal,
    Str(String),
    /// Null, an array or an object.
    Other,
}

impl GuardValue {
    /// A copy of the value.
    pub fn duplicate(&self) -> (r: Self)
        ensures
            r == *self,
    {
        match self {
            GuardValue::Bool(b) => GuardValue::Bool(*b),
            GuardValue::Int(i) => GuardValue::Int(*i),
            GuardValue::Decimal => GuardValue::Decimal,
            GuardValue::Str(s) => GuardValue::Str(s.clone()),
            GuardValue::Other => GuardValue::Other,
        }
    }
}

/// An item found in a TOML document: a boolean, integer or string value, or anything else
/// with its TOML text.
#[derive(Debug, Clone, PartialEq, Eq)]
pub enum TomlScalar {
    Bool(bool),
    Int(i64),
    Str(String),
    Other(String),
}

pub enum ScalarView {
    Bool(bool),
    Int(i64),
    Str(Seq<char>),
    Other(Seq<char>),
}

pub open spec fn scalar_view(s: TomlScalar) -> ScalarView {
    match s {
        TomlScalar::Bool(b) => ScalarView::Bool(b),
        TomlScalar::Int(i) => ScalarView::Int(i),
        TomlScalar::Str(t) => ScalarView::Str(t@),
        TomlScalar::Other(t) => ScalarView::Other(t@),
    }
}

pub open spec fn lookup_view(r: Result<Option<TomlScalar>, String>) -> Result<Option<ScalarView>, Seq<char>> {
    match r {
        Ok(Some(s)) => Ok(Some(scalar_view(s))),
        Ok(None) => Ok(None),
        Err(e) => Err(e@),
    }
}

/// The keys of a dotted path.
pub open spec fn path_keys(path: Seq<char>) -> Seq<Seq<char>> {
    split_on(path, '.')
}

fn path_keys_of(path: &str) -> (r: Vec<String>)
    ensures
        crate::roles::strings_view(r@) == path_keys(path@),
{
    let parts = split_chars(&chars_of(path), '.');
    let mut out: Vec<String> = Vec::new();
    let mut i: usize = 0;
    while i < parts.len()
        invariant
            i <= parts@.len(),
            crate::text::chars_view(parts@) == split_on(path@, '.'),
            crate::roles::strings_view(out@) == crate::text::chars_view(parts@).subrange(0, i as int),
        decreases parts@.len() - i,
    {
        let s = string_of(&parts[i]);
        assert(crate::text::chars_view(parts@)[i as int] == parts@[i as int]@);
        let ghost before = out@;
        out.push(s);
        assert(crate::roles::strings_view(out@) =~= crate::roles::strings_view(before).push(parts@[i as int]@));
        assert(crate::roles::strings_view(out@) =~= crate::text::chars_view(parts@).subrange(0, i + 1));
        i += 1;
    }
    assert(crate::text::chars_view(parts@).subrange(0, parts@.len() as int) =~= crate::text::chars_view(parts@));
    out
}

/// A TOML value equals an expected value only as a boolean, an `i64` or a string of the same
/// value; anything else never matches.
pub open spec fn scalar_matches(item: ScalarView, expected: GuardValue) -> bool {
    match (item, expected) {
        (ScalarView::Bool(b), GuardValue::Bool(x)) => b == x,
        (ScalarView::Int(i), GuardValue::Int(x)) => i == x,
        (ScalarView::Str(s), GuardValue::Str(x)) => s == x@,
        _ => false,
    }
}

pub fn toml_matches_value(item: &TomlScalar, expected: &GuardValue) -> (r: bool)
    ensures
        r == scalar_matches(scalar_view(*item), *expected),
{
    match (item, expected) {
        (TomlScalar::Bool(b), GuardValue::Bool(x)) => *b == *x,
        (TomlScalar::Int(i), GuardValue::Int(x)) => *i == *x,
        (TomlScalar::Str(s), GuardValue::Str(x)) => str_eq(s.as_str(), x.as_str()),
        _ => false,
    }
}

/// The decimal text of an integer.
pub open spec fn int_text(i: i64) -> Seq<char> {
    if i < 0 { seq!['-'] + decimal((-(i as int)) as nat) } else { decimal(i as nat) }
}

/// How the view shows a TOML item: scalars by value, strings in quotes, anything else as
/// its TOML text.
pub open spec fn rendered(item: ScalarView) -> Seq<char> {
    match item {
        ScalarView::Bool(b) => if b { "true"@ } else { "false"@ },
        ScalarView::Int(i) => int_text(i),
        ScalarView::Str(s) => seq!['"'] + s + seq!['"'],
        ScalarView::Other(t) => t,
    }
}

pub fn render_toml_value(item: &TomlScalar) -> (r: String)
    ensures
        r@ == rendered(scalar_view(*item)),
{
    match item {
        TomlScalar::Bool(b) => if *b { owned("true") } else { owned("false") },
        TomlScalar::Int(i) => {
            let mut out: Vec<char> = Vec::new();
            if *i < 0 {
                out.push('-');
                let m: u64 = if *i == i64::MIN { 9223372036854775808u64 } else { (-*i) as u64 };
                push_decimal(&mut out, m);
            } else {
                push_decimal(&mut out, *i as u64);
            }
            string_of(&out)
        },
        TomlScalar::Str(s) => {
            let mut out: Vec<char> = Vec::new();
            out.push('"');
            push_str(&mut out, s.as_str());
            out.push('"');
            assert(out@ =~= seq!['"'] + s@ + seq!['"']);
            string_of(&out)
        },
        TomlScalar::Other(t) => t.clone(),
    }
}

/// The outcome of a check: `match`, `drift`, `missing` or `error`, with what was found or
/// what went wrong.
#[derive(Debug, Clone, PartialEq, Eq)]
pub struct CheckResult {
    pub status: String,
    pub actual: Option<String>,
    pub error: Option<String>,
}

pub struct CheckView {
    pub status: Seq<char>,
    pub actual: Option<Seq<char>>,
    pub error: Option<Seq<char>>,
}

pub open spec fn check_view(c: CheckResult) -> CheckView {
    CheckView { status: c.status@, actual: opt_view(c.actual), error: opt_view(c.error) }
}

pub open spec fn found(status: Seq<char>, actual: Seq<char>) -> CheckView {
    CheckView { status, actual: Some(actual), error: None }
}

pub open spec fn failed(message: Seq<char>) -> CheckView {
    CheckView { status: "error"@, actual: None, error: Some(message) }
}

/// The text of an expected value: its string, else nothing.
pub open spec fn expected_text(v: GuardValue) -> Seq<char> {
    match v {
        GuardValue::Str(s) => s@,
        _ => Seq::empty(),
    }
}

pub open spec fn toml_parse_failed(e: Seq<char>) -> Seq<char> {
    "TOML parse failed; guarding paused for this group: "@ + e
}

/// How the content of a parameter's file (`None`: there is no file) compares with its
/// expected value, by apply mode. A table found at a TOML path never matches; it is shown as
/// `table_text`, the text `toml_edit` prints for it.
pub open spec fn check_spec(
    mode: Seq<char>,
    id: Seq<char>,
    path: Seq<char>,
    content: Option<Seq<char>>,
    expected: GuardValue,
    table_text: Seq<char>,
) -> CheckView {
    if mode == "toml_key"@ {
        match content {
            None => found("missing"@, "(file does not exist)"@),
            Some(c) => match crate::toml_path::toml_lookup(c, path_keys(path)) {
                Err(e) => failed(toml_parse_failed(e)),
                Ok(None) => found("missing"@, "(not set)"@),
                Ok(Some(None)) => found("drift"@, table_text),
                Ok(Some(Some(item))) => if scalar_matches(item, expected) {
                    found("match"@, rendered(item))
                } else {
                    found("drift"@, rendered(item))
                },
            },
        }
    } else if mode == "toml_absent"@ {
        match content {
            None => found("match"@, "absent"@),
            Some(c) => match crate::toml_path::toml_lookup(c, path_keys(path)) {
                Err(e) => failed(toml_parse_failed(e)),
                Ok(Some(_)) => found("drift"@, "present"@),
                Ok(None) => found("match"@, "absent"@),
            },
        }
    } else if mode == "file_overwrite"@ {
        match content {
            None => found("missing"@, "(file does not exist)"@),
            Some(c) => if trim(c) == trim(expected_text(expected)) {
                found("match"@, decimal(vstd::utf8::encode_utf8(c).len()) + " bytes"@)
            } else {
                found("drift"@, decimal(vstd::utf8::encode_utf8(c).len()) + " bytes, content differs"@)
            },
        }
    } else if mode == "markdown_block"@ {
        match content {
            None => found("missing"@, "(file does not exist)"@),
            Some(c) => match extracted(c, begin_marker(id), end_marker(id)) {
                None => found("missing"@, "(managed block does not exist)"@),
                Some(b) => if b == trim(expected_text(expected)) {
                    found("match"@, "block matches"@)
                } else {
                    found("drift"@, "block content differs"@)
                },
            },
        }
    } else {
        failed("Unknown apply_mode: "@ + mode)
    }
}

fn ok_result(status: &str, actual: String) -> (r: CheckResult)
    ensures
        check_view(r) == found(status@, actual@),
{
    CheckResult { status: owned(status), actual: Some(actual), error: None }
}

fn err_result(message: String) -> (r: CheckResult)
    ensures
        check_view(r) == failed(message@),
{
    CheckResult { status: owned("error"), actual: None, error: Some(message) }
}

fn prefixed(prefix: &str, s: &str) -> (r: String)
    ensures
        r@ == prefix@ + s@,
{
    let mut v: Vec<char> = Vec::new();
    push_str(&mut v, prefix);
    push_str(&mut v, s);
    string_of(&v)
}

fn size_text(content: &str, suffix: &str) -> (r: String)
    ensures
        r@ == decimal(vstd::utf8::encode_utf8(content@).len()) + suffix@,
{
    let n = content.as_bytes().len();
    let mut v: Vec<char> = Vec::new();
    push_decimal(&mut v, n as u64);
    push_str(&mut v, suffix);
    string_of(&v)
}

fn text_of(v: &GuardValue) -> (r: &str)
    ensures
        r@ == expected_text(*v),
{
    proof {
        reveal_strlit("");
    }
    match v {
        GuardValue::Str(s) => s.as_str(),
        _ => "",
    }
}

/// Compares the content of a parameter's file (`None`: there is no file) with its expected
/// value.
pub fn check_content(apply_mode: &str, param_id: &str, path: &str, content: Option<&str>, expected: &GuardValue) -> (r: CheckResult)
    ensures
        exists|table_text: Seq<char>|
            check_view(r) == check_spec(
                apply_mode@,
                param_id@,
                path@,
                crate::model::opt_str_view(content),
                *expected,
                table_text,
            ),
{
    let ghost none = Seq::<char>::empty();
    if str_eq(apply_mode, "toml_key") {
        match content {
            None => {
                let r = ok_result("missing", owned("(file does not exist)"));
                assert(check_view(r) == check_spec(apply_mode@, param_id@, path@, crate::model::opt_str_view(content), *expected, none));
                r
            },
            Some(c) => match crate::toml_path::toml_item_at(c, &path_keys_of(path)) {
                Err(e) => {
                    let r = err_result(prefixed("TOML parse failed; guarding paused for this group: ", e.as_str()));
                    assert(check_view(r) == check_spec(apply_mode@, param_id@, path@, crate::model::opt_str_view(content), *expected, none));
                    r
                },
                Ok(None) => {
                    let r = ok_result("missing", owned("(not set)"));
                    assert(check_view(r) == check_spec(apply_mode@, param_id@, path@, crate::model::opt_str_view(content), *expected, none));
                    r
                },
                Ok(Some(item)) => {
                    let shown = render_toml_value(&item);
                    let r = if toml_matches_value(&item, expected) {
                        ok_result("match", shown)
                    } else {
                        ok_result("drift", shown)
                    };
                    assert(check_view(r) == check_spec(apply_mode@, param_id@, path@, crate::model::opt_str_view(content), *expected, rendered(scalar_view(item))));
                    r
                },
            },
        }
    } else {
        let r = if str_eq(apply_mode, "toml_absent") {
        match content {
            None => ok_result("match", owned("absent")),
            Some(c) => match crate::toml_path::toml_item_at(c, &path_keys_of(path)) {
                Err(e) => err_result(prefixed("TOML parse failed; guarding paused for this group: ", e.as_str())),
                Ok(Some(_)) => ok_result("drift", owned("present")),
                Ok(None) => ok_result("match", owned("absent")),
            },
        }
    } else if str_eq(apply_mode, "file_overwrite") {
        match content {
            None => ok_result("missing", owned("(file does not exist)")),
            Some(c) => {
                let a = crate::text::trim_str(c);
                let b = crate::text::trim_str(text_of(expected));
                if str_eq(a.as_str(), b.as_str()) {
                    ok_result("match", size_text(c, " bytes"))
                } else {
                    ok_result("drift", size_text(c, " bytes, content differs"))
                }
            },
        }
    } else if str_eq(apply_mode, "markdown_block") {
        match content {
            None => ok_result("missing", owned("(file does not exist)")),
            Some(c) => {
                let begin = block_begin(param_id);
                let end = block_end(param_id);
                match extract_block(c, begin.as_str(), end.as_str()) {
                    None => ok_result("missing", owned("(managed block does not exist)")),
                    Some(b) => {
                        let t = crate::text::trim_str(text_of(expected));
                        if str_eq(b.as_str(), t.as_str()) {
                            ok_result("match", owned("block matches"))
                        } else {
                            ok_result("drift", owned("block content differs"))
                        }
                    },
                }
            },
        }
    } else {
        err_result(prefixed("Unknown apply_mode: ", apply_mode))
    };
        assert(check_view(r) == check_spec(apply_mode@, param_id@, path@, crate::model::opt_str_view(content), *expected, none));
        r
    }
}

/// The TOML value an expected value is written as: booleans, `i64` integers and strings only.
pub open spec fn toml_value_spec(v: GuardValue) -> Result<ScalarView, Seq<char>> {
    match v {
        GuardValue::Bool(b) => Ok(ScalarView::Bool(b)),
        GuardValue::Int(i) => Ok(ScalarView::Int(i)),
        GuardValue::Str(s) => Ok(ScalarView::Str(s@)),
        GuardValue::Decimal => Err("Integer parameters do not support decimals"@),
        GuardValue::Other => Err("Unsupported value type"@),
    }
}

pub fn toml_value_of(expected: &GuardValue) -> (r: Result<TomlScalar, String>)
    ensures
        match (r, toml_value_spec(*expected)) {
            (Ok(x), Ok(y)) => scalar_view(x) == y,
            (Err(e), Err(f)) => e@ == f,
            _ => false,
        },
{
    match expected {
        GuardValue::Bool(b) => Ok(TomlScalar::Bool(*b)),
        GuardValue::Int(i) => Ok(TomlScalar::Int(*i)),
        GuardValue::Str(s) => Ok(TomlScalar::Str(s.clone())),
        GuardValue::Decimal => Err(owned("Integer parameters do not support decimals")),
        GuardValue::Other => Err(owned("Unsupported value type")),
    }
}

/// What applying or removing a parameter does to its file.
#[derive(Debug, Clone, PartialEq, Eq)]
pub enum EditPlan {
    /// Nothing to write.
    Nothing,
    /// Write this content.
    Write(String),
    /// Delete the file.
    DeleteFile,
}

pub enum PlanView {
    Nothing,
    Write(Seq<char>),
    DeleteFile,
}

pub open spec fn plan_view(p: EditPlan) -> PlanView {
    match p {
        EditPlan::Nothing => PlanView::Nothing,
        EditPlan::Write(t) => PlanView::Write(t@),
        EditPlan::DeleteFile => PlanView::DeleteFile,
    }
}

pub open spec fn plan_result(r: Result<EditPlan, String>) -> Result<PlanView, Seq<char>> {
    match r {
        Ok(p) => Ok(plan_view(p)),
        Err(e) => Err(e@),
    }
}

/// An overwritten file holds the expected text trimmed, ended by a newline.
pub open spec fn overwrite_text(expected: GuardValue) -> Seq<char> {
    trim(expected_text(expected)).push('\n')
}

/// Setting a TOML key path in `text`: refused when `text` is no TOML document, then when the
/// value is none that TOML keys take, then when an item on the way is no table; otherwise the
/// written document shows the old tree with the path set (see `shown`).
pub open spec fn toml_set_outcome(
    text: Seq<char>,
    keys: Seq<Seq<char>>,
    value: Result<ScalarView, Seq<char>>,
    r: Result<PlanView, Seq<char>>,
) -> bool {
    match crate::toml_path::toml_tree_of(text) {
        None => r == Err::<PlanView, Seq<char>>(crate::toml_path::parse_failed_message(text)),
        Some(m) => match value {
            Err(e) => r == Err::<PlanView, Seq<char>>(e),
            Ok(v) => match crate::toml_path::blocked(m, keys) {
                Some(k) => r == Err::<PlanView, Seq<char>>(crate::toml_path::not_table_message(k)),
                None => r matches Ok(PlanView::Write(out)) && crate::toml_path::toml_tree_of(out) is Some
                    && crate::toml_path::shown(
                    crate::toml_path::toml_tree_of(out)->0,
                    crate::toml_path::assigned(m, keys, Some(v)),
                ),
            },
        },
    }
}

/// Removing a TOML key path from `text`: refused when `text` is no TOML document; otherwise the
/// written document shows the old tree without the path (see `shown`).
pub open spec fn toml_remove_outcome(text: Seq<char>, keys: Seq<Seq<char>>, r: Result<PlanView, Seq<char>>) -> bool {
    match crate::toml_path::toml_tree_of(text) {
        None => r == Err::<PlanView, Seq<char>>(crate::toml_path::parse_failed_message(text)),
        Some(m) => r matches Ok(PlanView::Write(out)) && crate::toml_path::toml_tree_of(out) is Some
            && crate::toml_path::shown(crate::toml_path::toml_tree_of(out)->0, crate::toml_path::removed(m, keys)),
    }
}

/// Applying writes the expected value: into the TOML key of the file (a missing file reads as
/// empty), as the whole file, or as the managed block of a Markdown file (a missing file reads
/// as empty); `toml_absent` removes the key from an existing file.
pub open spec fn apply_outcome(
    mode: Seq<char>,
    id: Seq<char>,
    path: Seq<char>,
    content: Option<Seq<char>>,
    expected: GuardValue,
    r: Result<PlanView, Seq<char>>,
) -> bool {
    let c = match content {
        Some(c) => c,
        None => Seq::empty(),
    };
    if mode == "toml_key"@ {
        toml_set_outcome(c, path_keys(path), toml_value_spec(expected), r)
    } else if mode == "toml_absent"@ {
        match content {
            None => r == Ok::<PlanView, Seq<char>>(PlanView::Nothing),
            Some(t) => toml_remove_outcome(t, path_keys(path), r),
        }
    } else if mode == "file_overwrite"@ {
        r == Ok::<PlanView, Seq<char>>(PlanView::Write(overwrite_text(expected)))
    } else if mode == "markdown_block"@ {
        r == Ok::<PlanView, Seq<char>>(
            PlanView::Write(crate::markdown_block::upserted(c, begin_marker(id), end_marker(id), expected_text(expected))),
        )
    } else {
        r == Err::<PlanView, Seq<char>>("Unknown apply_mode: "@ + mode)
    }
}

fn write_plan(r: Result<String, String>) -> (p: Result<EditPlan, String>)
    ensures
        match r {
            Ok(t) => plan_result(p) == Ok::<PlanView, Seq<char>>(PlanView::Write(t@)),
            Err(e) => plan_result(p) == Err::<PlanView, Seq<char>>(e@),
        },
{
    match r {
        Ok(t) => Ok(EditPlan::Write(t)),
        Err(e) => Err(e),
    }
}

/// What applying a parameter writes, given its file's content (`None`: no file).
pub fn apply_plan(apply_mode: &str, param_id: &str, path: &str, content: Option<&str>, expected: &GuardValue) -> (r: Result<EditPlan, String>)
    ensures
        apply_outcome(apply_mode@, param_id@, path@, crate::model::opt_str_view(content), *expected, plan_result(r)),
{
    proof {
        reveal_strlit("");
    }
    if str_eq(apply_mode, "toml_key") {
        let c = match content {
            Some(c) => c,
            None => "",
        };
        let keys = path_keys_of(path);
        proof {
            crate::text::lemma_split_on_len(path@, '.');
        }
        assert(c@ == (match crate::model::opt_str_view(content) { Some(x) => x, None => Seq::<char>::empty() }));
        match toml_value_of(expected) {
            Ok(v) => write_plan(crate::toml_path::toml_set_path(c, keys.as_slice(), &v)),
            Err(e) => match crate::toml_path::parse_failure(c) {
                Some(f) => Err(f),
                None => Err(e),
            },
        }
    } else if str_eq(apply_mode, "toml_absent") {
        match content {
            None => Ok(EditPlan::Nothing),
            Some(c) => {
                let keys = path_keys_of(path);
                proof {
                    crate::text::lemma_split_on_len(path@, '.');
                }
                write_plan(crate::toml_path::toml_remove_path(c, keys.as_slice()))
            },
        }
    } else if str_eq(apply_mode, "file_overwrite") {
        let t = crate::text::trim_str(text_of(expected));
        let mut v = chars_of(t.as_str());
        v.push('\n');
        let w = string_of(&v);
        assert(w@ == overwrite_text(*expected));
        Ok(EditPlan::Write(w))
    } else if str_eq(apply_mode, "markdown_block") {
        let c = match content {
            Some(c) => c,
            None => "",
        };
        let begin = block_begin(param_id);
        let end = block_end(param_id);
        let w = crate::markdown_block::upsert_block(c, begin.as_str(), end.as_str(), text_of(expected));
        assert(c@ == (match crate::model::opt_str_view(content) { Some(x) => x, None => Seq::<char>::empty() }));
        Ok(EditPlan::Write(w))
    } else {
        Err(prefixed("Unknown apply_mode: ", apply_mode))
    }
}

/// A Markdown file without its managed block: the text from the first begin marker to the
/// end of the first end marker is cut, and one newline after it, when the begin marker comes
/// first; otherwise there is nothing to remove.
pub open spec fn block_removed(c: Seq<char>, begin: Seq<char>, end: Seq<char>) -> Option<Seq<char>> {
    match (crate::text::first_index(c, begin), crate::text::first_index(c, end)) {
        (Some(b), Some(e)) => if b <= e {
            let after = c.subrange(e + end.len(), c.len() as int);
            let rest = if after.len() > 0 && after[0] == '\n' { after.drop_first() } else { after };
            Some(c.subrange(0, b) + rest)
        } else {
            None
        },
        _ => None,
    }
}

pub fn remove_block(content: &str, begin: &str, end: &str) -> (r: Option<String>)
    ensures
        opt_view(r) == block_removed(content@, begin@, end@),
{
    let c = chars_of(content);
    let bm = chars_of(begin);
    let em = chars_of(end);
    let b = match crate::text::first_index_of(&c, &bm) {
        Some(b) => b,
        None => {
            return None;
        },
    };
    let e = match crate::text::first_index_of(&c, &em) {
        Some(e) => e,
        None => {
            return None;
        },
    };
    if b > e {
        return None;
    }
    let elen = em.len();
    let clen = c.len();
    assert(e + elen <= clen);
    let from = e + elen;
    let start = if from < c.len() && c[from] == '\n' { from + 1 } else { from };
    let mut out = crate::text::sub_chars(&c, 0, b);
    let tail = crate::text::sub_chars(&c, start, c.len());
    crate::text::push_all(&mut out, &tail);
    let ghost after = c@.subrange(from as int, c@.len() as int);
    assert(from < c@.len() ==> after[0] == c@[from as int]);
    assert(start > from ==> tail@ =~= after.drop_first());
    assert(start == from ==> tail@ =~= after);
    Some(string_of(&out))
}

/// Removing a parameter takes its trace out of an existing file: the TOML key, the whole
/// overwritten file, or the managed block; `toml_absent` needs nothing, nor does a missing file.
pub open spec fn remove_outcome(mode: Seq<char>, id: Seq<char>, path: Seq<char>, content: Option<Seq<char>>, r: Result<PlanView, Seq<char>>) -> bool {
    match content {
        None => r == Ok::<PlanView, Seq<char>>(PlanView::Nothing),
        Some(c) => if mode == "toml_key"@ {
            toml_remove_outcome(c, path_keys(path), r)
        } else if mode == "toml_absent"@ {
            r == Ok::<PlanView, Seq<char>>(PlanView::Nothing)
        } else if mode == "file_overwrite"@ {
            r == Ok::<PlanView, Seq<char>>(PlanView::DeleteFile)
        } else if mode == "markdown_block"@ {
            r == match block_removed(c, begin_marker(id), end_marker(id)) {
                Some(t) => Ok::<PlanView, Seq<char>>(PlanView::Write(t)),
                None => Ok(PlanView::Nothing),
            }
        } else {
            r == Err::<PlanView, Seq<char>>("Unknown apply_mode: "@ + mode)
        },
    }
}

/// What removing a parameter does, given its file's content (`None`: no file).
pub fn remove_plan(apply_mode: &str, param_id: &str, path: &str, content: Option<&str>) -> (r: Result<EditPlan, String>)
    ensures
        remove_outcome(apply_mode@, param_id@, path@, crate::model::opt_str_view(content), plan_result(r)),
{
    let c = match content {
        None => {
            return Ok(EditPlan::Nothing);
        },
        Some(c) => c,
    };
    if str_eq(apply_mode, "toml_key") {
        let keys = path_keys_of(path);
        proof {
            crate::text::lemma_split_on_len(path@, '.');
        }
        write_plan(crate::toml_path::toml_remove_path(c, keys.as_slice()))
    } else if str_eq(apply_mode, "toml_absent") {
        Ok(EditPlan::Nothing)
    } else if str_eq(apply_mode, "file_overwrite") {
        Ok(EditPlan::DeleteFile)
    } else if str_eq(apply_mode, "markdown_block") {
        let begin = block_begin(param_id);
        let end = block_end(param_id);
        match remove_block(c, begin.as_str(), end.as_str()) {
            Some(t) => Ok(EditPlan::Write(t)),
            None => Ok(EditPlan::Nothing),
        }
    } else {
        Err(prefixed("Unknown apply_mode: ", apply_mode))
    }
}

/// The value a parameter should hold: the user's value when one is stored, else the schema
/// default for the interface language.
pub fn expected_of(stored: Option<GuardValue>, default_value: GuardValue) -> (r: GuardValue)
    ensures
        r == (match stored {
            Some(v) => v,
            None => default_value,
        }),
{
    match stored {
        Some(v) => v,
        None => default_value,
    }
}

proof fn lemma_trim_newline(x: Seq<char>)
    ensures
        trim(trim(x).push('\n')) == trim(x),
{
    let t = trim(x);
    let s2 = t.push('\n');
    crate::text::lemma_trim_idempotent(x);
    assert(crate::text::is_ws('\n'));
    if t.len() == 0 {
        crate::text::lemma_lead_ws_unique(s2, 1);
        assert(crate::text::trim_start(s2) =~= Seq::<char>::empty());
        assert(trim(s2) =~= t);
    } else {
        let u = crate::text::trim_start(t);
        crate::text::lemma_lead_ws_bound(t);
        crate::text::lemma_trail_ws_bound(u);
        assert(!crate::text::is_ws(t[0])) by {
            if crate::text::is_ws(t[0]) {
                assert(crate::text::lead_ws(t) >= 1);
            }
        }
        assert(u =~= t);
        assert(!crate::text::is_ws(t.last())) by {
            if crate::text::is_ws(t.last()) {
                assert(crate::text::trail_ws(u) >= 1);
            }
        }
        assert(s2[0] == t[0]);
        crate::text::lemma_lead_ws_unique(s2, 0);
        assert(crate::text::trim_start(s2) =~= s2);
        assert(s2[t.len() - 1] == t.last());
        crate::text::lemma_trail_ws_unique(s2, t.len() as int);
        assert(trim(s2) =~= t);
    }
}

/// A file that applying wrote as the whole expected text checks as a match.
pub proof fn law_overwritten_file_matches(id: Seq<char>, path: Seq<char>, expected: GuardValue)
    ensures
        check_spec("file_overwrite"@, id, path, Some(overwrite_text(expected)), expected, Seq::empty()).status == "match"@,
{
    reveal_strlit("toml_key");
    reveal_strlit("toml_absent");
    reveal_strlit("file_overwrite");
    assert("file_overwrite"@ != "toml_key"@) by {
        assert("file_overwrite"@[0] != "toml_key"@[0]);
    }
    assert("file_overwrite"@ != "toml_absent"@) by {
        assert("file_overwrite"@[0] != "toml_absent"@[0]);
    }
    lemma_trim_newline(expected_text(expected));
}

/// A managed block that applying wrote checks as a match, for a block id whose markers the
/// document holds in order or not at all, and an expected text without the end marker.
pub proof fn law_applied_block_matches(id: Seq<char>, path: Seq<char>, content: Seq<char>, expected: GuardValue)
    requires
        !id.contains('\n'),
        !crate::text::contains_seq(trim(expected_text(expected)), end_marker(id)),
        (crate::text::first_index(content, begin_marker(id)) is None && crate::text::first_index(content, end_marker(id)) is None)
            || (crate::text::first_index(content, begin_marker(id)) is Some && crate::text::first_index(content, end_marker(id)) is Some
            && crate::text::first_index(content, begin_marker(id))->0 <= crate::text::first_index(content, end_marker(id))->0),
    ensures
        check_spec(
            "markdown_block"@,
            id,
            path,
            Some(crate::markdown_block::upserted(content, begin_marker(id), end_marker(id), expected_text(expected))),
            expected,
            Seq::empty(),
        ).status == "match"@,
{
    reveal_strlit("toml_key");
    reveal_strlit("toml_absent");
    reveal_strlit("file_overwrite");
    reveal_strlit("markdown_block");
    assert("markdown_block"@ != "toml_key"@) by {
        assert("markdown_block"@[0] != "toml_key"@[0]);
    }
    assert("markdown_block"@ != "toml_absent"@) by {
        assert("markdown_block"@[0] != "toml_absent"@[0]);
    }
    assert("markdown_block"@ != "file_overwrite"@) by {
        assert("markdown_block"@[0] != "file_overwrite"@[0]);
    }
    crate::markdown_block::lemma_markers_have_no_newline(id);
    crate::markdown_block::law_extract_after_upsert(content, begin_marker(id), end_marker(id), expected_text(expected));
}

/// A TOML key holding a boolean, integer or string matches the expected value exactly when
/// they are the same kind and equal; any other pair drifts. A string never matches a string
/// with other characters.
pub proof fn law_toml_values_compare_by_value(id: Seq<char>, path: Seq<char>, c: Seq<char>, found: ScalarView, expected: GuardValue, t: Seq<char>)
    requires
        crate::toml_path::toml_lookup(c, path_keys(path)) == Ok::<Option<Option<ScalarView>>, Seq<char>>(Some(Some(found))),
    ensures
        check_spec("toml_key"@, id, path, Some(c), expected, t).status == (if (match (found, expected) {
            (ScalarView::Bool(flag), GuardValue::Bool(want)) => flag == want,
            (ScalarView::Int(number), GuardValue::Int(want)) => number == want,
            (ScalarView::Str(text), GuardValue::Str(want)) => text == want@,
            _ => false,
        }) {
            "match"@
        } else {
            "drift"@
        }),
        found matches ScalarView::Str(text) && expected matches GuardValue::Str(want) && text != want@ ==> check_spec(
            "toml_key"@,
            id,
            path,
            Some(c),
            expected,
            t,
        ).status == "drift"@,
{
}

} // verus!
