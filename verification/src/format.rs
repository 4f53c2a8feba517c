//! Format checks of guarded files: bytes in, structured diagnostics out.
use vstd::prelude::*;
use crate::model::{DiagnosticCode, ValidationDiagnostic, opt_str_view, opt_view};
use crate::text::{chars_of, trim_end, is_ws, starts_with, ends_with};

verus! {

pub const MAX_DIAGNOSTICS: usize = 64;

/// A diagnostic that carries the scope, file, code and position given.
pub open spec fn diag_is(
    d: ValidationDiagnostic,
    scope_id: Seq<char>,
    relative_file: Option<Seq<char>>,
    code: DiagnosticCode,
    line: Option<u32>,
    column: Option<u32>,
) -> bool {
    &&& d.code == code
    &&& d.scope_id@ == scope_id
    &&& opt_view(d.relative_file) == relative_file
    &&& d.field is None
    &&& d.line == line
    &&& d.column == column
    &&& d.params.expected_format is None
}

// ---------- line and column ----------

pub open spec fn count_nl(b: Seq<u8>) -> nat
    decreases b.len(),
{
    if b.len() == 0 {
        0
    } else {
        count_nl(b.drop_last()) + if b.last() == 10u8 {
            1nat
        } else {
            0nat
        }
    }
}

/// The index after the last line break, or 0.
pub open spec fn line_start(b: Seq<u8>) -> int
    decreases b.len(),
{
    if b.len() == 0 {
        0
    } else if b.last() == 10u8 {
        b.len() as int
    } else {
        line_start(b.drop_last())
    }
}

/// The 1-based line and column of a byte offset (clamped to the input): the column counts
/// characters when the line prefix decodes, else bytes.
pub open spec fn line_col(b: Seq<u8>, offset: int) -> (u32, u32) {
    let o = if offset < b.len() {
        offset
    } else {
        b.len() as int
    };
    let pre = b.subrange(0, o);
    let ls = line_start(pre);
    let seg = b.subrange(ls, o);
    let column: int = if vstd::utf8::valid_utf8(seg) {
        vstd::utf8::decode_utf8(seg).len() + 1int
    } else {
        o - ls + 1
    };
    ((count_nl(pre) + 1) as u32, column as u32)
}

proof fn lemma_count_nl_bound(b: Seq<u8>)
    ensures
        count_nl(b) <= b.len(),
        0 <= line_start(b) <= b.len(),
    decreases b.len(),
{
    if b.len() > 0 {
        lemma_count_nl_bound(b.drop_last());
    }
}

proof fn lemma_encode_len_ge(s: Seq<char>)
    ensures
        vstd::utf8::encode_utf8(s).len() >= s.len(),
    decreases s.len(),
{
    if s.len() > 0 {
        lemma_encode_len_ge(s.drop_first());
    }
}

proof fn lemma_decode_len_le(b: Seq<u8>)
    requires
        vstd::utf8::valid_utf8(b),
    ensures
        vstd::utf8::decode_utf8(b).len() <= b.len(),
{
    vstd::utf8::decode_utf8_encode_utf8(b);
    lemma_encode_len_ge(vstd::utf8::decode_utf8(b));
}

pub fn line_column(bytes: &[u8], offset: usize) -> (r: (u32, u32))
    requires
        bytes@.len() < u32::MAX,
    ensures
        r == line_col(bytes@, offset as int),
{
    let o = if offset < bytes.len() {
        offset
    } else {
        bytes.len()
    };
    let ghost pre = bytes@.subrange(0, o as int);
    let mut count: usize = 0;
    let mut ls: usize = 0;
    let mut i: usize = 0;
    while i < o
        invariant
            o <= bytes@.len() < u32::MAX,
            i <= o,
            pre == bytes@.subrange(0, o as int),
            count == count_nl(bytes@.subrange(0, i as int)),
            ls == line_start(bytes@.subrange(0, i as int)),
            count <= i,
        decreases o - i,
    {
        assert(bytes@.subrange(0, i + 1).drop_last() =~= bytes@.subrange(0, i as int));
        if bytes[i] == 10u8 {
            count += 1;
            ls = i + 1;
        }
        i += 1;
    }
    proof {
        lemma_count_nl_bound(pre);
    }
    let seg = crate::text::sub_bytes(bytes, ls, o);
    let column: u32 = match crate::text::utf8_text(seg.as_slice()) {
        Ok(text) => {
            proof {
                lemma_decode_len_le(seg@);
            }
            let n = chars_of(text.as_str()).len();
            (n + 1) as u32
        },
        Err(_) => (o - ls + 1) as u32,
    };
    ((count + 1) as u32, column)
}

/// A diagnostic positioned at a byte offset.
pub fn diagnostic_at(
    bytes: &[u8],
    offset: usize,
    scope_id: &str,
    relative_file: Option<&str>,
    code: DiagnosticCode,
) -> (r: ValidationDiagnostic)
    requires
        bytes@.len() < u32::MAX,
    ensures
        diag_is(
            r,
            scope_id@,
            opt_str_view(relative_file),
            code,
            Some(line_col(bytes@, offset as int).0),
            Some(line_col(bytes@, offset as int).1),
        ),
{
    let (line, column) = line_column(bytes, offset);
    ValidationDiagnostic::new(scope_id, relative_file, code, Some(line), Some(column))
}

/// The one diagnostic of a text that is not UTF-8: at the end of its longest valid prefix.
pub open spec fn utf8_diagnostic_ok(
    d: ValidationDiagnostic,
    bytes: Seq<u8>,
    scope_id: Seq<char>,
    relative_file: Option<Seq<char>>,
) -> bool {
    exists|k: int|
        0 <= k < bytes.len() && vstd::utf8::valid_utf8(bytes.subrange(0, k)) && (forall|j: int|
            k < j <= bytes.len() ==> !vstd::utf8::valid_utf8(#[trigger] bytes.subrange(0, j)))
            && diag_is(
            d,
            scope_id,
            relative_file,
            DiagnosticCode::InvalidUtf8,
            Some(line_col(bytes, k).0),
            Some(line_col(bytes, k).1),
        )
}

// ---------- plain text ----------

/// The first NUL byte.
pub open spec fn first_nul(b: Seq<u8>) -> Option<int>
    decreases b.len(),
{
    if b.len() == 0 {
        None
    } else if first_nul(b.drop_last()) is Some {
        first_nul(b.drop_last())
    } else if b.last() == 0u8 {
        Some(b.len() - 1)
    } else {
        None
    }
}

pub open spec fn plain_text_outcome(b: Seq<u8>, sid: Seq<char>, rf: Option<Seq<char>>, r: Result<(), Vec<ValidationDiagnostic>>) -> bool {
    &&& (!vstd::utf8::valid_utf8(b) ==> (r matches Err(ds) && ds@.len() == 1 && utf8_diagnostic_ok(
            ds@[0],
            b,
            sid,
            rf,
        )))
    &&& (vstd::utf8::valid_utf8(b) && first_nul(b) is None ==> r is Ok)
    &&& (vstd::utf8::valid_utf8(b) && first_nul(b) is Some ==> (r matches Err(ds)
            && ds@.len() == 1 && diag_is(
            ds@[0],
            sid,
            rf,
            DiagnosticCode::NulByte,
            Some(line_col(b, first_nul(b)->0).0),
            Some(line_col(b, first_nul(b)->0).1),
        )))
}

/// Plain text must be UTF-8 without NUL bytes.
pub fn validate_plain_text(bytes: &[u8], scope_id: &str, relative_file: Option<&str>) -> (r: Result<
    (),
    Vec<ValidationDiagnostic>,
>)
    requires
        bytes@.len() < u32::MAX,
    ensures
        plain_text_outcome(bytes@, scope_id@, opt_str_view(relative_file), r),
{
    if let Err(k) = crate::text::utf8_text(bytes) {
        let d = diagnostic_at(bytes, k, scope_id, relative_file, DiagnosticCode::InvalidUtf8);
        return Err(vec![d]);
    }
    let mut i: usize = 0;
    while i < bytes.len()
        invariant
            i <= bytes@.len() < u32::MAX,
            vstd::utf8::valid_utf8(bytes@),
            first_nul(bytes@.subrange(0, i as int)) is None,
        decreases bytes@.len() - i,
    {
        assert(bytes@.subrange(0, i + 1).drop_last() =~= bytes@.subrange(0, i as int));
        if bytes[i] == 0u8 {
            proof {
                lemma_first_nul_prefix(bytes@, i as int + 1);
            }
            let d = diagnostic_at(bytes, i, scope_id, relative_file, DiagnosticCode::NulByte);
            return Err(vec![d]);
        }
        i += 1;
    }
    assert(bytes@.subrange(0, bytes@.len() as int) =~= bytes@);
    Ok(())
}

proof fn lemma_first_nul_prefix(b: Seq<u8>, k: int)
    requires
        0 <= k <= b.len(),
        first_nul(b.subrange(0, k)) is Some,
    ensures
        first_nul(b) == first_nul(b.subrange(0, k)),
    decreases b.len() - k,
{
    if k < b.len() {
        assert(b.subrange(0, k + 1).drop_last() =~= b.subrange(0, k));
        lemma_first_nul_prefix(b, k + 1);
    } else {
        assert(b.subrange(0, k) =~= b);
    }
}

// ---------- TOML ----------

pub open spec fn toml_outcome(b: Seq<u8>, sid: Seq<char>, rf: Option<Seq<char>>, r: Result<(), Vec<ValidationDiagnostic>>) -> bool {
    &&& (!vstd::utf8::valid_utf8(b) ==> (r matches Err(ds) && ds@.len() == 1 && utf8_diagnostic_ok(
            ds@[0],
            b,
            sid,
            rf,
        )))
    &&& (vstd::utf8::valid_utf8(b) ==> match crate::toml_doc::toml_error_span(vstd::utf8::decode_utf8(b)) {
            None => r is Ok,
            Some(span) => r matches Err(ds) && ds@.len() == 1 && diag_is(
                ds@[0],
                sid,
                rf,
                DiagnosticCode::TomlInvalid,
                Some(line_col(b, toml_offset(span)).0),
                Some(line_col(b, toml_offset(span)).1),
            ),
        })
}

/// A TOML document must be UTF-8 and parse; the diagnostic stands where the parser's error
/// span starts (or at the start without a span).
pub fn parse_toml_document(bytes: &[u8], scope_id: &str, relative_file: Option<&str>) -> (r: Result<
    (),
    Vec<ValidationDiagnostic>,
>)
    requires
        bytes@.len() < u32::MAX,
    ensures
        toml_outcome(bytes@, scope_id@, opt_str_view(relative_file), r),
{
    let text = match crate::text::utf8_text(bytes) {
        Ok(text) => text,
        Err(k) => {
            let d = diagnostic_at(bytes, k, scope_id, relative_file, DiagnosticCode::InvalidUtf8);
            return Err(vec![d]);
        },
    };
    match crate::toml_doc::toml_error_start(text.as_str()) {
        None => Ok(()),
        Some(span) => {
            let offset = match span {
                Some(o) => o,
                None => 0,
            };
            let d = diagnostic_at(bytes, offset, scope_id, relative_file, DiagnosticCode::TomlInvalid);
            Err(vec![d])
        },
    }
}

pub open spec fn toml_offset(span: Option<usize>) -> int {
    match span {
        Some(o) => o as int,
        None => 0,
    }
}

// ---------- messages ----------

/// The message of a failed check: the first diagnostic's code, with its position when it has
/// one.
pub open spec fn diagnostics_text(ds: Seq<ValidationDiagnostic>) -> Seq<char> {
    if ds.len() == 0 {
        "format validation failed"@
    } else {
        match (ds[0].line, ds[0].column) {
            (Some(l), Some(c)) => crate::model::diagnostic_code_name(ds[0].code) + " at "@
                + crate::text::decimal(l as nat) + ":"@ + crate::text::decimal(c as nat),
            _ => crate::model::diagnostic_code_name(ds[0].code),
        }
    }
}

pub fn diagnostics_message(diagnostics: &[ValidationDiagnostic]) -> (r: String)
    ensures
        r@ == diagnostics_text(diagnostics@),
{
    if diagnostics.len() == 0 {
        return crate::text::owned("format validation failed");
    }
    let first = &diagnostics[0];
    let mut out: Vec<char> = Vec::new();
    crate::text::push_str(&mut out, first.code.as_str());
    match (first.line, first.column) {
        (Some(line), Some(column)) => {
            crate::text::push_str(&mut out, " at ");
            crate::text::push_decimal(&mut out, line as u64);
            crate::text::push_str(&mut out, ":");
            crate::text::push_decimal(&mut out, column as u64);
        },
        _ => {},
    }
    crate::text::string_of(&out)
}


// ---------- Markdown managed markers ----------

#[derive(Debug, Clone, Copy, PartialEq, Eq, Structural)]
pub enum MarkerKind {
    Begin,
    End,
}

/// `<!-- dashi:` as bytes.
pub open spec fn open_bytes() -> Seq<u8> {
    seq![60u8, 33u8, 45u8, 45u8, 32u8, 100u8, 97u8, 115u8, 104u8, 105u8, 58u8]
}

/// `-->` as bytes.
pub open spec fn close_bytes() -> Seq<u8> {
    seq![45u8, 45u8, 62u8]
}

/// The first position in `[from, to)` where `n` occurs wholly before `to`.
pub open spec fn find_in(h: Seq<u8>, n: Seq<u8>, from: int, to: int) -> Option<int>
    decreases to - from,
{
    if from < 0 || to > h.len() || from + n.len() > to {
        None
    } else if h.subrange(from, from + n.len()) == n {
        Some(from)
    } else if from >= to {
        None
    } else {
        find_in(h, n, from + 1, to)
    }
}

fn find_bytes(h: &[u8], n: &[u8], from: usize, to: usize) -> (r: Option<usize>)
    requires
        from <= to <= h@.len(),
    ensures
        match find_in(h@, n@, from as int, to as int) {
            None => r is None,
            Some(i) => r matches Some(x) && x as int == i,
        },
        r matches Some(i) ==> from <= i && i + n@.len() <= to,
{
    if n.len() == 0 {
        assert(h@.subrange(from as int, from as int) =~= n@);
        return Some(from);
    }
    let mut i = from;
    while i <= to && n.len() <= to - i
        invariant
            from <= i,
            to <= h@.len(),
            n@.len() > 0,
            find_in(h@, n@, from as int, to as int) == find_in(h@, n@, i as int, to as int),
        decreases to + 1 - i,
    {
        let mut k: usize = 0;
        let mut same = true;
        while k < n.len()
            invariant
                i + n@.len() <= to <= h@.len(),
                k <= n@.len(),
                same ==> forall|j: int| 0 <= j < k ==> h@[i + j] == n@[j],
                !same ==> h@.subrange(i as int, i + n@.len()) != n@,
            decreases n@.len() - k,
        {
            if h[i + k] != n[k] {
                assert(h@.subrange(i as int, i + n@.len())[k as int] != n@[k as int]);
                same = false;
            }
            k += 1;
        }
        if same {
            assert(h@.subrange(i as int, i + n@.len()) =~= n@);
            return Some(i);
        }
        i += 1;
    }
    None
}

/// The end of the line holding position `s`: its line break, or the end of the input.
pub open spec fn line_end(h: Seq<u8>, s: int) -> int
    decreases h.len() - s,
{
    if s < 0 || s >= h.len() {
        h.len() as int
    } else if h[s] == 10u8 {
        s
    } else {
        line_end(h, s + 1)
    }
}

fn line_end_of(h: &[u8], s: usize) -> (r: usize)
    requires
        s <= h@.len(),
    ensures
        r == line_end(h@, s as int),
        s <= r <= h@.len(),
{
    let mut i = s;
    while i < h.len() && h[i] != 10u8
        invariant
            s <= i <= h@.len(),
            line_end(h@, s as int) == line_end(h@, i as int),
        decreases h@.len() - i,
    {
        i += 1;
    }
    i
}

/// The position of the first `c`.
pub open spec fn index_of(s: Seq<char>, c: char) -> Option<int>
    decreases s.len(),
{
    if s.len() == 0 {
        None
    } else if s[0] == c {
        Some(0)
    } else {
        match index_of(s.drop_first(), c) {
            Some(k) => Some(k + 1),
            None => None,
        }
    }
}

/// A managed marker `<!-- dashi:<kind> <id> -->`: the kind is `begin` or `end`, the id is
/// not empty and holds no whitespace, `<` or `>`.
pub open spec fn parse_marker_text(m: Seq<char>) -> Option<(MarkerKind, Seq<char>)> {
    let open = "<!-- dashi:"@;
    if !starts_with(m, open) || !ends_with(m.subrange(open.len() as int, m.len() as int), "-->"@) {
        None
    } else {
        let body = trim_end(m.subrange(open.len() as int, m.len() - 3));
        match index_of(body, ' ') {
            None => None,
            Some(k) => {
                let kind = body.subrange(0, k);
                let id = body.subrange(k + 1, body.len() as int);
                if id.len() == 0 || (exists|i: int| 0 <= i < id.len() && is_ws(#[trigger] id[i]))
                    || id.contains('<') || id.contains('>') {
                    None
                } else if kind == "begin"@ {
                    Some((MarkerKind::Begin, id))
                } else if kind == "end"@ {
                    Some((MarkerKind::End, id))
                } else {
                    None
                }
            },
        }
    }
}

pub fn index_of_char(s: &[char], c: char) -> (r: Option<usize>)
    ensures
        match index_of(s@, c) {
            None => r is None,
            Some(k) => r matches Some(x) && x as int == k,
        },
        r matches Some(k) ==> k < s@.len(),
{
    let mut i: usize = 0;
    assert(s@.subrange(0, s@.len() as int) =~= s@);
    while i < s.len()
        invariant
            i <= s@.len(),
            forall|j: int| 0 <= j < i ==> s@[j] != c,
            index_of(s@, c) == match index_of(s@.subrange(i as int, s@.len() as int), c) {
                Some(k) => Some(k + i),
                None => None,
            },
        decreases s@.len() - i,
    {
        let ghost rest = s@.subrange(i as int, s@.len() as int);
        assert(rest.drop_first() =~= s@.subrange(i + 1, s@.len() as int));
        if s[i] == c {
            return Some(i);
        }
        i += 1;
    }
    None
}

pub fn parse_marker(marker: &str) -> (r: Option<(MarkerKind, String)>)
    ensures
        match parse_marker_text(marker@) {
            None => r is None,
            Some(p) => r matches Some(x) && x.0 == p.0 && x.1@ == p.1,
        },
{
    let m = chars_of(marker);
    let open = chars_of("<!-- dashi:");
    let close = chars_of("-->");
    proof {
        reveal_strlit("-->");
        reveal_strlit("<!-- dashi:");
    }
    if !crate::text::starts_with_chars(&m, &open) {
        return None;
    }
    let after = crate::text::sub_chars(&m, open.len(), m.len());
    if !crate::text::ends_with_chars(&after, &close) {
        return None;
    }
    let raw = crate::text::sub_chars(&m, open.len(), m.len() - 3);

    let end = trim_end_len(&raw);
    let body = crate::text::sub_chars(&raw, 0, end);
    proof {
        crate::text::lemma_trail_ws_bound(raw@);
        assert(body@ =~= trim_end(raw@));
    }
    let k = match index_of_char(&body, ' ') {
        Some(k) => k,
        None => {
            return None;
        },
    };
    let kind = crate::text::sub_chars(&body, 0, k);
    let id = crate::text::sub_chars(&body, k + 1, body.len());
    if id.len() == 0 || crate::text::has_char(&id, '<') || crate::text::has_char(&id, '>') {
        return None;
    }
    if has_ws(&id) {
        return None;
    }
    let kind_str = crate::text::string_of(&kind);
    if crate::text::str_eq(kind_str.as_str(), "begin") {
        Some((MarkerKind::Begin, crate::text::string_of(&id)))
    } else if crate::text::str_eq(kind_str.as_str(), "end") {
        Some((MarkerKind::End, crate::text::string_of(&id)))
    } else {
        None
    }
}

fn has_ws(v: &[char]) -> (r: bool)
    ensures
        r == exists|i: int| 0 <= i < v@.len() && is_ws(#[trigger] v@[i]),
{
    let mut i: usize = 0;
    while i < v.len()
        invariant
            i <= v@.len(),
            forall|j: int| 0 <= j < i ==> !is_ws(#[trigger] v@[j]),
        decreases v@.len() - i,
    {
        if crate::text::char_is_ws(v[i]) {
            assert(is_ws(v@[i as int]));
            return true;
        }
        i += 1;
    }
    false
}

fn trim_end_len(v: &[char]) -> (r: usize)
    ensures
        r == trim_end(v@).len(),
        r <= v@.len(),
{
    let mut k = v.len();
    while k > 0 && crate::text::char_is_ws(v[k - 1])
        invariant
            k <= v@.len(),
            forall|i: int| k <= i < v@.len() ==> is_ws(#[trigger] v@[i]),
        decreases k,
    {
        k -= 1;
    }
    proof {
        crate::text::lemma_trail_ws_unique(v@, k as int);
    }
    k
}

/// A marker found at a byte offset, and what it parses to (`None`: malformed).
pub struct MdEvent {
    pub offset: int,
    pub parsed: Option<(MarkerKind, Seq<char>)>,
}

/// How marker bytes parse: they must decode, then parse as a marker.
pub open spec fn parse_marker_bytes(m: Seq<u8>) -> Option<(MarkerKind, Seq<char>)> {
    if vstd::utf8::valid_utf8(m) {
        parse_marker_text(vstd::utf8::decode_utf8(m))
    } else {
        None
    }
}

/// The markers of the document from position `p`, line by line: a marker opening without a
/// closing `-->` on its line is malformed and ends the search on that line.
pub open spec fn md_scan(h: Seq<u8>, p: int) -> Seq<MdEvent>
    decreases h.len() - p,
{
    if p < 0 || p > h.len() {
        Seq::empty()
    } else {
        match find_in(h, open_bytes(), p, h.len() as int) {
            None => Seq::empty(),
            Some(s) => {
                let le = line_end(h, s);
                match find_in(h, close_bytes(), s, le) {
                    None => if le > p && le <= h.len() {
                        seq![MdEvent { offset: s, parsed: None }] + md_scan(h, le)
                    } else {
                        Seq::empty()
                    },
                    Some(e) => if e + 3 > p && e + 3 <= h.len() {
                        seq![
                            MdEvent { offset: s, parsed: parse_marker_bytes(h.subrange(s, e + 3)) },
                        ] + md_scan(h, e + 3)
                    } else {
                        Seq::empty()
                    },
                }
            },
        }
    }
}

/// The marker stack, the ids seen, and the diagnostics so far (code and byte offset).
pub struct MdState {
    pub active: Seq<(Seq<char>, int)>,
    pub seen: Seq<Seq<char>>,
    pub diags: Seq<(DiagnosticCode, int)>,
}

/// The position of the first open marker with this id.
pub open spec fn active_pos(a: Seq<(Seq<char>, int)>, id: Seq<char>) -> Option<int>
    decreases a.len(),
{
    if a.len() == 0 {
        None
    } else if a[0].0 == id {
        Some(0)
    } else {
        match active_pos(a.drop_first(), id) {
            Some(k) => Some(k + 1),
            None => None,
        }
    }
}

pub open spec fn md_step(st: MdState, ev: MdEvent) -> MdState {
    match ev.parsed {
        None => MdState {
            diags: st.diags.push((DiagnosticCode::MarkdownMalformedMarker, ev.offset)),
            ..st
        },
        Some((MarkerKind::Begin, id)) => if st.seen.contains(id) || active_pos(st.active, id) is Some {
            MdState { diags: st.diags.push((DiagnosticCode::MarkdownDuplicateMarker, ev.offset)), ..st }
        } else {
            MdState { active: st.active.push((id, ev.offset)), seen: st.seen.push(id), diags: st.diags }
        },
        Some((MarkerKind::End, id)) => match active_pos(st.active, id) {
            None => MdState {
                diags: st.diags.push((DiagnosticCode::MarkdownUnmatchedMarker, ev.offset)),
                ..st
            },
            Some(k) => if k + 1 != st.active.len() {
                MdState {
                    diags: st.diags.push((DiagnosticCode::MarkdownCrossingMarker, ev.offset)),
                    ..st
                }
            } else {
                MdState { active: st.active.drop_last(), ..st }
            },
        },
    }
}

pub open spec fn md_fold(evs: Seq<MdEvent>) -> MdState
    decreases evs.len(),
{
    if evs.len() == 0 {
        MdState { active: Seq::empty(), seen: Seq::empty(), diags: Seq::empty() }
    } else {
        md_step(md_fold(evs.drop_last()), evs.last())
    }
}

/// Every marker diagnostic of a document, in order: those of the scan, then one for each
/// marker left open.
pub open spec fn md_diagnostics(h: Seq<u8>) -> Seq<(DiagnosticCode, int)> {
    let st = md_fold(md_scan(h, 0));
    st.diags + st.active.map_values(|a: (Seq<char>, int)| (DiagnosticCode::MarkdownUnclosedMarker, a.1))
}

/// At most `MAX_DIAGNOSTICS` of them.
pub open spec fn capped(d: Seq<(DiagnosticCode, int)>) -> Seq<(DiagnosticCode, int)> {
    if d.len() <= MAX_DIAGNOSTICS {
        d
    } else {
        d.subrange(0, MAX_DIAGNOSTICS as int)
    }
}

pub open spec fn diags_match(
    ds: Seq<ValidationDiagnostic>,
    want: Seq<(DiagnosticCode, int)>,
    bytes: Seq<u8>,
    scope_id: Seq<char>,
    relative_file: Option<Seq<char>>,
) -> bool {
    ds.len() == want.len() && forall|i: int|
        0 <= i < ds.len() ==> diag_is(
            #[trigger] ds[i],
            scope_id,
            relative_file,
            want[i].0,
            Some(line_col(bytes, want[i].1).0),
            Some(line_col(bytes, want[i].1).1),
        )
}

fn push_capped(
    out: &mut Vec<ValidationDiagnostic>,
    bytes: &[u8],
    offset: usize,
    scope_id: &str,
    relative_file: Option<&str>,
    code: DiagnosticCode,
    Ghost(want): Ghost<Seq<(DiagnosticCode, int)>>,
)
    requires
        bytes@.len() < u32::MAX,
        diags_match(old(out)@, capped(want), bytes@, scope_id@, opt_str_view(relative_file)),
    ensures
        diags_match(
            final(out)@,
            capped(want.push((code, offset as int))),
            bytes@,
            scope_id@,
            opt_str_view(relative_file),
        ),
{
    let ghost w2 = want.push((code, offset as int));
    if out.len() < MAX_DIAGNOSTICS {
        let d = diagnostic_at(bytes, offset, scope_id, relative_file, code);
        out.push(d);
        assert(capped(w2) =~= capped(want).push((code, offset as int)));
    } else {
        assert(capped(w2) =~= capped(want));
    }
}


pub open spec fn active_view(a: Seq<(Vec<char>, usize)>) -> Seq<(Seq<char>, int)> {
    a.map_values(|x: (Vec<char>, usize)| (x.0@, x.1 as int))
}

pub open spec fn seen_view(v: Seq<Vec<char>>) -> Seq<Seq<char>> {
    v.map_values(|x: Vec<char>| x@)
}

pub open spec fn parsed_view(p: Option<(MarkerKind, String)>) -> Option<(MarkerKind, Seq<char>)> {
    match p {
        Some(x) => Some((x.0, x.1@)),
        None => None,
    }
}

fn active_position(active: &Vec<(Vec<char>, usize)>, id: &[char]) -> (r: Option<usize>)
    ensures
        match active_pos(active_view(active@), id@) {
            None => r is None,
            Some(k) => r matches Some(x) && x as int == k,
        },
        r matches Some(x) ==> x < active@.len(),
{
    let ghost a = active_view(active@);
    assert(a.subrange(0, a.len() as int) =~= a);
    let mut i: usize = 0;
    while i < active.len()
        invariant
            i <= active@.len(),
            a == active_view(active@),
            active_pos(a, id@) == match active_pos(a.subrange(i as int, a.len() as int), id@) {
                Some(k) => Some(k + i),
                None => None,
            },
        decreases active@.len() - i,
    {
        let ghost rest = a.subrange(i as int, a.len() as int);
        assert(rest.drop_first() =~= a.subrange(i + 1, a.len() as int));
        if crate::text::chars_eq(active[i].0.as_slice(), id) {
            return Some(i);
        }
        i += 1;
    }
    None
}

fn seen_contains(seen: &Vec<Vec<char>>, id: &[char]) -> (r: bool)
    ensures
        r == seen_view(seen@).contains(id@),
{
    let mut i: usize = 0;
    while i < seen.len()
        invariant
            i <= seen@.len(),
            forall|k: int| 0 <= k < i ==> #[trigger] seen_view(seen@)[k] != id@,
        decreases seen@.len() - i,
    {
        if crate::text::chars_eq(seen[i].as_slice(), id) {
            assert(seen_view(seen@)[i as int] == id@);
            return true;
        }
        i += 1;
    }
    false
}

fn md_apply(
    active: &mut Vec<(Vec<char>, usize)>,
    seen: &mut Vec<Vec<char>>,
    out: &mut Vec<ValidationDiagnostic>,
    bytes: &[u8],
    scope_id: &str,
    relative_file: Option<&str>,
    offset: usize,
    parsed: Option<(MarkerKind, String)>,
    Ghost(st): Ghost<MdState>,
)
    requires
        bytes@.len() < u32::MAX,
        active_view(old(active)@) == st.active,
        seen_view(old(seen)@) == st.seen,
        diags_match(old(out)@, capped(st.diags), bytes@, scope_id@, opt_str_view(relative_file)),
    ensures
        ({
            let next = md_step(st, MdEvent { offset: offset as int, parsed: parsed_view(parsed) });
            &&& active_view(final(active)@) == next.active
            &&& seen_view(final(seen)@) == next.seen
            &&& diags_match(final(out)@, capped(next.diags), bytes@, scope_id@, opt_str_view(relative_file))
        }),
{
    match parsed {
        None => {
            push_capped(out, bytes, offset, scope_id, relative_file, DiagnosticCode::MarkdownMalformedMarker, Ghost(st.diags));
        },
        Some((MarkerKind::Begin, id)) => {
            let idv = chars_of(id.as_str());
            if seen_contains(seen, &idv) || active_position(active, &idv).is_some() {
                push_capped(out, bytes, offset, scope_id, relative_file, DiagnosticCode::MarkdownDuplicateMarker, Ghost(st.diags));
            } else {
                let ghost a0 = active@;
                let ghost s0 = seen@;
                let c1 = crate::text::sub_chars(&idv, 0, idv.len());
                assert(c1@ =~= idv@);
                active.push((c1, offset));
                seen.push(idv);
                assert(active_view(active@) =~= active_view(a0).push((id@, offset as int)));
                assert(seen_view(seen@) =~= seen_view(s0).push(id@));
            }
        },
        Some((MarkerKind::End, id)) => {
            let idv = chars_of(id.as_str());
            match active_position(active, &idv) {
                None => {
                    push_capped(out, bytes, offset, scope_id, relative_file, DiagnosticCode::MarkdownUnmatchedMarker, Ghost(st.diags));
                },
                Some(k) => {
                    if k != active.len() - 1 {
                        push_capped(out, bytes, offset, scope_id, relative_file, DiagnosticCode::MarkdownCrossingMarker, Ghost(st.diags));
                    } else {
                        let ghost a0 = active@;
                        active.pop();
                        assert(active_view(active@) =~= active_view(a0).drop_last());
                    }
                },
            }
        },
    }
}

fn marker_at(bytes: &[u8], from: usize, to: usize) -> (r: Option<(MarkerKind, String)>)
    requires
        from <= to <= bytes@.len(),
    ensures
        parsed_view(r) == parse_marker_bytes(bytes@.subrange(from as int, to as int)),
{
    let m = crate::text::sub_bytes(bytes, from, to);
    match crate::text::utf8_text(m.as_slice()) {
        Ok(text) => parse_marker(text.as_str()),
        Err(_) => None,
    }
}

pub open spec fn markdown_outcome(b: Seq<u8>, sid: Seq<char>, rf: Option<Seq<char>>, r: Result<(), Vec<ValidationDiagnostic>>) -> bool {
    &&& (!vstd::utf8::valid_utf8(b) ==> (r matches Err(ds) && ds@.len() == 1 && utf8_diagnostic_ok(
            ds@[0],
            b,
            sid,
            rf,
        )))
    &&& (vstd::utf8::valid_utf8(b) && md_diagnostics(b).len() == 0 ==> r is Ok)
    &&& (vstd::utf8::valid_utf8(b) && md_diagnostics(b).len() > 0 ==> (r matches Err(ds)
            && diags_match(
            ds@,
            capped(md_diagnostics(b)),
            b,
            sid,
            rf,
        )))
}

/// Managed markers must pair up: every begin has one end with the same id, blocks nest
/// without crossing, an id opens once, and each marker is well formed.
pub fn validate_markdown(bytes: &[u8], scope_id: &str, relative_file: Option<&str>) -> (r: Result<
    (),
    Vec<ValidationDiagnostic>,
>)
    requires
        bytes@.len() < u32::MAX,
    ensures
        markdown_outcome(bytes@, scope_id@, opt_str_view(relative_file), r),
{
    if let Err(k) = crate::text::utf8_text(bytes) {
        let d = diagnostic_at(bytes, k, scope_id, relative_file, DiagnosticCode::InvalidUtf8);
        return Err(vec![d]);
    }
    let open: Vec<u8> = vec![60u8, 33u8, 45u8, 45u8, 32u8, 100u8, 97u8, 115u8, 104u8, 105u8, 58u8];
    let close: Vec<u8> = vec![45u8, 45u8, 62u8];
    assert(open@ =~= open_bytes());
    assert(close@ =~= close_bytes());
    let mut active: Vec<(Vec<char>, usize)> = Vec::new();
    let mut seen: Vec<Vec<char>> = Vec::new();
    let mut out: Vec<ValidationDiagnostic> = Vec::new();
    let ghost h = bytes@;
    let ghost mut evs: Seq<MdEvent> = Seq::empty();
    let mut p: usize = 0;
    let mut done = false;
    assert(active_view(active@) =~= md_fold(evs).active);
    assert(seen_view(seen@) =~= md_fold(evs).seen);
    assert(capped(md_fold(evs).diags) =~= Seq::<(DiagnosticCode, int)>::empty());
    while !done
        invariant
            h == bytes@,
            h.len() < u32::MAX,
            vstd::utf8::valid_utf8(h),
            open@ == open_bytes(),
            close@ == close_bytes(),
            p <= h.len(),
            md_scan(h, 0) == evs + md_scan(h, p as int),
            done ==> md_scan(h, p as int) == Seq::<MdEvent>::empty(),
            active_view(active@) == md_fold(evs).active,
            seen_view(seen@) == md_fold(evs).seen,
            diags_match(out@, capped(md_fold(evs).diags), h, scope_id@, opt_str_view(relative_file)),
        decreases (if done { 0int } else { 1int }) + 2 * (h.len() - p),
    {
        let ghost st = md_fold(evs);
        match find_bytes(bytes, &open, p, bytes.len()) {
            None => {
                done = true;
            },
            Some(s) => {
                let le = line_end_of(bytes, s);
                match find_bytes(bytes, &close, s, le) {
                    None => {
                        if le > p {
                            let ghost ev = MdEvent { offset: s as int, parsed: None };
                            md_apply(&mut active, &mut seen, &mut out, bytes, scope_id, relative_file, s, None, Ghost(st));
                            proof {
                                assert(md_scan(h, p as int) == seq![ev] + md_scan(h, le as int));
                                assert(evs.push(ev).drop_last() =~= evs);
                                assert(evs.push(ev) + md_scan(h, le as int) =~= evs + (seq![ev] + md_scan(h, le as int)));
                                evs = evs.push(ev);
                            }
                            p = le;
                        } else {
                            done = true;
                        }
                    },
                    Some(e) => {
                        if e < bytes.len() - 2 && e + 3 > p {
                            let parsed = marker_at(bytes, s, e + 3);
                            let ghost ev = MdEvent { offset: s as int, parsed: parsed_view(parsed) };
                            md_apply(&mut active, &mut seen, &mut out, bytes, scope_id, relative_file, s, parsed, Ghost(st));
                            proof {
                                assert(md_scan(h, p as int) == seq![ev] + md_scan(h, e + 3));
                                assert(evs.push(ev).drop_last() =~= evs);
                                assert(evs.push(ev) + md_scan(h, e + 3) =~= evs + (seq![ev] + md_scan(h, e + 3)));
                                evs = evs.push(ev);
                            }
                            p = e + 3;
                        } else {
                            done = true;
                        }
                    },
                }
            },
        }
    }
    assert(evs + md_scan(h, p as int) =~= evs);
    let ghost st = md_fold(evs);
    let ghost tail = st.active.map_values(|a: (Seq<char>, int)| (DiagnosticCode::MarkdownUnclosedMarker, a.1));
    let mut j: usize = 0;
    while j < active.len()
        invariant
            h == bytes@,
            h.len() < u32::MAX,
            j <= active@.len(),
            active_view(active@) == st.active,
            tail == st.active.map_values(|a: (Seq<char>, int)| (DiagnosticCode::MarkdownUnclosedMarker, a.1)),
            diags_match(out@, capped(st.diags + tail.subrange(0, j as int)), h, scope_id@, opt_str_view(relative_file)),
        decreases active@.len() - j,
    {
        let ghost before = st.diags + tail.subrange(0, j as int);
        assert(before.push((DiagnosticCode::MarkdownUnclosedMarker, active@[j as int].1 as int)) =~= st.diags + tail.subrange(0, j + 1));
        push_capped(&mut out, bytes, active[j].1, scope_id, relative_file, DiagnosticCode::MarkdownUnclosedMarker, Ghost(before));
        j += 1;
    }
    assert(tail.subrange(0, tail.len() as int) =~= tail);
    assert(st.diags + tail == md_diagnostics(bytes@));
    if out.len() == 0 {
        Ok(())
    } else {
        Err(out)
    }
}

/// Checks the bytes of a guarded file by its format.
pub fn validate_bytes(
    format: crate::model::GuardFileFormat,
    bytes: &[u8],
    scope_id: &str,
    relative_file: Option<&str>,
) -> (r: Result<(), Vec<ValidationDiagnostic>>)
    requires
        bytes@.len() < u32::MAX,
    ensures
        match format {
            crate::model::GuardFileFormat::Toml => toml_outcome(bytes@, scope_id@, opt_str_view(relative_file), r),
            crate::model::GuardFileFormat::Json => crate::json_check::json_outcome(
                bytes@,
                scope_id@,
                opt_str_view(relative_file),
                r,
            ),
            crate::model::GuardFileFormat::Markdown => markdown_outcome(bytes@, scope_id@, opt_str_view(relative_file), r),
            crate::model::GuardFileFormat::PlainText => plain_text_outcome(bytes@, scope_id@, opt_str_view(relative_file), r),
        },
{
    match format {
        crate::model::GuardFileFormat::Toml => parse_toml_document(bytes, scope_id, relative_file),
        crate::model::GuardFileFormat::Json => crate::json_check::validate_json(bytes, scope_id, relative_file),
        crate::model::GuardFileFormat::Markdown => validate_markdown(bytes, scope_id, relative_file),
        crate::model::GuardFileFormat::PlainText => validate_plain_text(bytes, scope_id, relative_file),
    }
}

} // verus!
