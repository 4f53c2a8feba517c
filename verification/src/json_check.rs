//! Strict JSON checks of guarded files: the text must be UTF-8, one JSON document for
//! `serde_json`, and no object may hold a key twice, escaped spellings counted as the same key.
use vstd::prelude::*;
use crate::model::{DiagnosticCode, ValidationDiagnostic, opt_str_view};
use crate::format::{diag_is, line_col, utf8_diagnostic_ok};

verus! {

/// Where `serde_json` stops reading `text` as one `serde_json::Value` (line and column of its
/// error), `None` when it reads one document and nothing after it.
pub uninterp spec fn json_syntax_error(text: Seq<char>) -> Option<(usize, usize)>;

/// `serde_json::from_str::<serde_json::Value>`, which fails on bad syntax and on anything
/// after the document; the error's `line` and `column`.
#[verifier::external_body]
fn json_syntax(text: &str) -> (r: Option<(usize, usize)>)
    ensures
        r == json_syntax_error(text@),
{
    match serde_json::from_str::<serde_json::Value>(text) {
        Ok(_) => None,
        Err(error) => Some((error.line(), error.column())),
    }
}

/// An open array or object while the text is read; an object remembers its keys and whether a
/// key comes next.
pub struct FrameSpec {
    pub object: bool,
    pub want_key: bool,
    pub keys: Seq<Seq<u32>>,
}

pub open spec fn hex_digit(c: char) -> int {
    if '0' <= c && c <= '9' {
        c as int - '0' as int
    } else if 'a' <= c && c <= 'f' {
        c as int - 'a' as int + 10
    } else if 'A' <= c && c <= 'F' {
        c as int - 'A' as int + 10
    } else {
        0
    }
}

/// The code unit of the four hex digits at `j`.
pub open spec fn hex4(v: Seq<char>, j: int) -> int {
    hex_digit(v[j]) * 4096 + hex_digit(v[j + 1]) * 256 + hex_digit(v[j + 2]) * 16 + hex_digit(v[j + 3])
}

/// The character a one-letter escape stands for.
pub open spec fn simple_escape(e: char) -> u32 {
    if e == 'b' {
        8
    } else if e == 'f' {
        12
    } else if e == 'n' {
        10
    } else if e == 'r' {
        13
    } else if e == 't' {
        9
    } else {
        e as u32
    }
}

/// A `\uXXXX` escape at `j` (the backslash) followed by a low surrogate escape.
pub open spec fn surrogate_pair_at(v: Seq<char>, j: int) -> bool {
    &&& j + 12 <= v.len()
    &&& 0xD800 <= hex4(v, j + 2) < 0xDC00
    &&& v[j + 6] == '\\'
    &&& v[j + 7] == 'u'
    &&& 0xDC00 <= hex4(v, j + 8) < 0xE000
}

/// The code points of the string whose body starts at `j`, with the index after its closing
/// quote (the end of the text when there is none). Escapes are decoded, surrogate pairs joined.
pub open spec fn read_str(v: Seq<char>, j: int) -> (Seq<u32>, int)
    decreases v.len() - j,
{
    if j < 0 || j >= v.len() {
        (Seq::empty(), v.len() as int)
    } else if v[j] == '"' {
        (Seq::empty(), j + 1)
    } else if v[j] == '\\' && j + 1 < v.len() {
        if v[j + 1] == 'u' && j + 6 <= v.len() {
            if surrogate_pair_at(v, j) {
                let cp = (0x10000 + (hex4(v, j + 2) - 0xD800) * 1024 + (hex4(v, j + 8) - 0xDC00)) as u32;
                let rest = read_str(v, j + 12);
                (seq![cp] + rest.0, rest.1)
            } else {
                let rest = read_str(v, j + 6);
                (seq![hex4(v, j + 2) as u32] + rest.0, rest.1)
            }
        } else {
            let rest = read_str(v, j + 2);
            (seq![simple_escape(v[j + 1])] + rest.0, rest.1)
        }
    } else {
        let rest = read_str(v, j + 1);
        (seq![v[j] as u32] + rest.0, rest.1)
    }
}

/// The frames with the top one changed.
pub open spec fn set_top(f: Seq<FrameSpec>, top: FrameSpec) -> Seq<FrameSpec> {
    if f.len() == 0 { f } else { f.update(f.len() - 1, top) }
}

/// The index just after the first object key that its object already holds, reading from `i`
/// with the open frames `f`.
pub open spec fn first_duplicate(v: Seq<char>, i: int, f: Seq<FrameSpec>) -> Option<int>
    decreases v.len() - i,
{
    if i < 0 || i >= v.len() {
        None
    } else {
        let c = v[i];
        if c == '{' {
            first_duplicate(v, i + 1, f.push(FrameSpec { object: true, want_key: true, keys: Seq::empty() }))
        } else if c == '[' {
            first_duplicate(v, i + 1, f.push(FrameSpec { object: false, want_key: false, keys: Seq::empty() }))
        } else if c == '}' || c == ']' {
            first_duplicate(v, i + 1, if f.len() == 0 { f } else { f.drop_last() })
        } else if c == ',' && f.len() > 0 && f.last().object {
            first_duplicate(v, i + 1, set_top(f, FrameSpec { want_key: true, ..f.last() }))
        } else if c == ':' && f.len() > 0 {
            first_duplicate(v, i + 1, set_top(f, FrameSpec { want_key: false, ..f.last() }))
        } else if c == '"' {
            let (key, end) = read_str(v, i + 1);
            if end <= i || end > v.len() {
                None
            } else if f.len() > 0 && f.last().object && f.last().want_key {
                if f.last().keys.contains(key) {
                    Some(end)
                } else {
                    first_duplicate(
                        v,
                        end,
                        set_top(f, FrameSpec { keys: f.last().keys.push(key), want_key: false, ..f.last() }),
                    )
                }
            } else {
                first_duplicate(v, end, f)
            }
        } else {
            first_duplicate(v, i + 1, f)
        }
    }
}

proof fn lemma_read_str_end(v: Seq<char>, j: int)
    requires
        0 <= j,
    ensures
        j < read_str(v, j).1 <= v.len() || (j >= v.len() && read_str(v, j).1 == v.len()),
    decreases v.len() - j,
{
    if j < v.len() && v[j] != '"' {
        if v[j] == '\\' && j + 1 < v.len() {
            if v[j + 1] == 'u' && j + 6 <= v.len() {
                if surrogate_pair_at(v, j) {
                    lemma_read_str_end(v, j + 12);
                } else {
                    lemma_read_str_end(v, j + 6);
                }
            } else {
                lemma_read_str_end(v, j + 2);
            }
        } else {
            lemma_read_str_end(v, j + 1);
        }
    }
}

fn hex_digit_of(c: char) -> (r: u32)
    ensures
        r == hex_digit(c),
        r < 16,
{
    if '0' <= c && c <= '9' {
        (c as u32) - ('0' as u32)
    } else if 'a' <= c && c <= 'f' {
        (c as u32) - ('a' as u32) + 10
    } else if 'A' <= c && c <= 'F' {
        (c as u32) - ('A' as u32) + 10
    } else {
        0
    }
}

fn hex4_of(v: &Vec<char>, j: usize) -> (r: u32)
    requires
        j + 4 <= v@.len(),
    ensures
        r == hex4(v@, j as int),
{
    let n = v.len();
    assert(j + 4 <= n);
    let a = hex_digit_of(v[j]);
    let b = hex_digit_of(v[j + 1]);
    let c = hex_digit_of(v[j + 2]);
    let d = hex_digit_of(v[j + 3]);
    assert(a * 4096 <= 15 * 4096) by (nonlinear_arith)
        requires
            a < 16,
    ;
    assert(b * 256 <= 15 * 256) by (nonlinear_arith)
        requires
            b < 16,
    ;
    a * 4096 + b * 256 + c * 16 + d
}

fn simple_escape_of(e: char) -> (r: u32)
    ensures
        r == simple_escape(e),
{
    if e == 'b' {
        8
    } else if e == 'f' {
        12
    } else if e == 'n' {
        10
    } else if e == 'r' {
        13
    } else if e == 't' {
        9
    } else {
        e as u32
    }
}

fn read_str_of(v: &Vec<char>, start: usize) -> (r: (Vec<u32>, usize))
    requires
        start <= v@.len(),
    ensures
        (r.0@, r.1 as int) == read_str(v@, start as int),
{
    let mut out: Vec<u32> = Vec::new();
    let mut j: usize = start;
    while j < v.len() && v[j] != '"'
        invariant
            start <= j <= v@.len(),
            read_str(v@, start as int) == (out@ + read_str(v@, j as int).0, read_str(v@, j as int).1),
        decreases v@.len() - j,
    {
        let ghost before = out@;
        let ghost rest_j = read_str(v@, j as int);
        if v[j] == '\\' && j + 1 < v.len() {
            if v[j + 1] == 'u' && v.len() - j >= 6 {
                let hi = hex4_of(v, j + 2);
                if v.len() - j >= 12 && 0xD800 <= hi && hi < 0xDC00 && v[j + 6] == '\\' && v[j + 7] == 'u' {
                    let lo = hex4_of(v, j + 8);
                    if 0xDC00 <= lo && lo < 0xE000 {
                        out.push(0x10000 + (hi - 0xD800) * 1024 + (lo - 0xDC00));
                        j = j + 12;
                    } else {
                        out.push(hi);
                        j = j + 6;
                    }
                } else {
                    out.push(hi);
                    j = j + 6;
                }
            } else {
                out.push(simple_escape_of(v[j + 1]));
                j = j + 2;
            }
        } else {
            out.push(v[j] as u32);
            j = j + 1;
        }
        proof {
            let last = out@.last();
            assert(rest_j.0 == seq![last] + read_str(v@, j as int).0);
            assert(before + rest_j.0 =~= out@ + read_str(v@, j as int).0);
        }
    }
    if j < v.len() {
        j = j + 1;
    }
    assert(out@ + Seq::<u32>::empty() =~= out@);
    (out, j)
}

/// An open array or object of the scan.
struct Frame {
    object: bool,
    want_key: bool,
    keys: Vec<Vec<u32>>,
}

spec fn frame_view(f: Frame) -> FrameSpec {
    FrameSpec { object: f.object, want_key: f.want_key, keys: f.keys@.map_values(|k: Vec<u32>| k@) }
}

spec fn frames_view(f: Seq<Frame>) -> Seq<FrameSpec> {
    f.map_values(|x: Frame| frame_view(x))
}

fn u32s_eq(a: &Vec<u32>, b: &Vec<u32>) -> (r: bool)
    ensures
        r == (a@ == b@),
{
    if a.len() != b.len() {
        return false;
    }
    let mut k: usize = 0;
    while k < a.len()
        invariant
            k <= a@.len() == b@.len(),
            forall|m: int| 0 <= m < k ==> a@[m] == b@[m],
        decreases a@.len() - k,
    {
        if a[k] != b[k] {
            return false;
        }
        k += 1;
    }
    assert(a@ =~= b@);
    true
}

fn holds_key(keys: &Vec<Vec<u32>>, key: &Vec<u32>) -> (r: bool)
    ensures
        r == keys@.map_values(|k: Vec<u32>| k@).contains(key@),
{
    let ghost kv = keys@.map_values(|k: Vec<u32>| k@);
    let mut k: usize = 0;
    while k < keys.len()
        invariant
            k <= keys@.len(),
            kv == keys@.map_values(|k: Vec<u32>| k@),
            forall|m: int| 0 <= m < k ==> #[trigger] kv[m] != key@,
        decreases keys@.len() - k,
    {
        if u32s_eq(&keys[k], key) {
            assert(kv[k as int] == key@);
            return true;
        }
        k += 1;
    }
    false
}

fn copy_u32s(v: &Vec<u32>) -> (r: Vec<u32>)
    ensures
        r@ == v@,
{
    let mut out: Vec<u32> = Vec::new();
    let mut k: usize = 0;
    while k < v.len()
        invariant
            k <= v@.len(),
            out@ == v@.subrange(0, k as int),
        decreases v@.len() - k,
    {
        out.push(v[k]);
        assert(out@ =~= v@.subrange(0, k + 1));
        k += 1;
    }
    assert(v@.subrange(0, v@.len() as int) =~= v@);
    out
}

/// The index just after the first key that its object already holds.
pub fn first_duplicate_of(v: &Vec<char>) -> (r: Option<usize>)
    ensures
        match first_duplicate(v@, 0, Seq::empty()) {
            Some(e) => r == Some(e as usize) && 0 <= e <= v@.len(),
            None => r is None,
        },
{
    let mut frames: Vec<Frame> = Vec::new();
    let mut i: usize = 0;
    assert(frames_view(frames@) =~= Seq::<FrameSpec>::empty());
    while i < v.len()
        invariant
            i <= v@.len(),
            first_duplicate(v@, 0, Seq::empty()) == first_duplicate(v@, i as int, frames_view(frames@)),
        decreases v@.len() - i,
    {
        let ghost fv = frames_view(frames@);
        let c = v[i];
        if c == '{' {
            let fr = Frame { object: true, want_key: true, keys: Vec::new() };
            assert(fr.keys@.map_values(|k: Vec<u32>| k@) =~= Seq::<Seq<u32>>::empty());
            frames.push(fr);
            assert(frames_view(frames@) =~= fv.push(FrameSpec { object: true, want_key: true, keys: Seq::empty() }));
            i += 1;
        } else if c == '[' {
            let fr = Frame { object: false, want_key: false, keys: Vec::new() };
            assert(fr.keys@.map_values(|k: Vec<u32>| k@) =~= Seq::<Seq<u32>>::empty());
            frames.push(fr);
            assert(frames_view(frames@) =~= fv.push(FrameSpec { object: false, want_key: false, keys: Seq::empty() }));
            i += 1;
        } else if c == '}' || c == ']' {
            if frames.len() > 0 {
                frames.pop();
                assert(frames_view(frames@) =~= fv.drop_last());
            }
            i += 1;
        } else if c == ',' && frames.len() > 0 && frames[frames.len() - 1].object {
            let n = frames.len() - 1;
            frames[n].want_key = true;
            assert(frames_view(frames@) =~= set_top(fv, FrameSpec { want_key: true, ..fv.last() }));
            i += 1;
        } else if c == ':' && frames.len() > 0 {
            let n = frames.len() - 1;
            frames[n].want_key = false;
            assert(frames_view(frames@) =~= set_top(fv, FrameSpec { want_key: false, ..fv.last() }));
            i += 1;
        } else if c == '"' {
            let (key, end) = read_str_of(v, i + 1);
            proof {
                lemma_read_str_end(v@, i + 1);
            }
            let n = frames.len();
            if n > 0 && frames[n - 1].object && frames[n - 1].want_key {
                if holds_key(&frames[n - 1].keys, &key) {
                    return Some(end);
                }
                let ghost kv = frames@[n - 1].keys@;
                frames[n - 1].keys.push(key);
                frames[n - 1].want_key = false;
                assert(frames@[n - 1].keys@.map_values(|k: Vec<u32>| k@) =~= kv.map_values(|k: Vec<u32>| k@).push(read_str(v@, i + 1).0));
                assert(frames_view(frames@) =~= set_top(
                    fv,
                    FrameSpec { keys: fv.last().keys.push(read_str(v@, i + 1).0), want_key: false, ..fv.last() },
                ));
            }
            i = end;
        } else {
            i += 1;
        }
    }
    None
}

pub open spec fn json_outcome(b: Seq<u8>, sid: Seq<char>, rf: Option<Seq<char>>, r: Result<(), Vec<ValidationDiagnostic>>) -> bool {
    &&& (!vstd::utf8::valid_utf8(b) ==> (r matches Err(ds) && ds@.len() == 1 && utf8_diagnostic_ok(
            ds@[0],
            b,
            sid,
            rf,
        )))
    &&& (vstd::utf8::valid_utf8(b) ==> ({
            let text = vstd::utf8::decode_utf8(b);
            match json_syntax_error(text) {
                Some((line, column)) => r matches Err(ds) && ds@.len() == 1 && diag_is(
                    ds@[0],
                    sid,
                    rf,
                    DiagnosticCode::JsonInvalid,
                    Some(line as u32),
                    Some(column as u32),
                ),
                None => match first_duplicate(text, 0, Seq::empty()) {
                    None => r is Ok,
                    Some(e) => r matches Err(ds) && ds@.len() == 1 && diag_is(
                        ds@[0],
                        sid,
                        rf,
                        DiagnosticCode::JsonDuplicateKey,
                        Some(line_col(b, vstd::utf8::encode_utf8(text.subrange(0, e)).len() as int).0),
                        Some(line_col(b, vstd::utf8::encode_utf8(text.subrange(0, e)).len() as int).1),
                    ),
                },
            }
        }))
}

/// A JSON file must be UTF-8, one JSON document for `serde_json`, and hold no object key twice.
/// A syntax error is reported where `serde_json` stopped; a repeated key just after it (its
/// byte offset in the file).
pub fn validate_json(bytes: &[u8], scope_id: &str, relative_file: Option<&str>) -> (r: Result<
    (),
    Vec<ValidationDiagnostic>,
>)
    requires
        bytes@.len() < u32::MAX,
    ensures
        json_outcome(bytes@, scope_id@, opt_str_view(relative_file), r),
{
    let text = match crate::text::utf8_text(bytes) {
        Ok(text) => text,
        Err(k) => {
            let d = crate::format::diagnostic_at(bytes, k, scope_id, relative_file, DiagnosticCode::InvalidUtf8);
            return Err(vec![d]);
        },
    };
    match json_syntax(text.as_str()) {
        Some((line, column)) => {
            let d = ValidationDiagnostic::new(
                scope_id,
                relative_file,
                DiagnosticCode::JsonInvalid,
                Some(line as u32),
                Some(column as u32),
            );
            return Err(vec![d]);
        },
        None => {},
    }
    let v = crate::text::chars_of(text.as_str());
    match first_duplicate_of(&v) {
        None => Ok(()),
        Some(e) => {
            let prefix = crate::text::string_of(&crate::text::sub_chars(&v, 0, e));
            let offset = prefix.as_str().as_bytes().len();
            proof {
                assert(prefix@ =~= text@.subrange(0, e as int));
            }
            let d = crate::format::diagnostic_at(bytes, offset, scope_id, relative_file, DiagnosticCode::JsonDuplicateKey);
            Err(vec![d])
        },
    }
}

} // verus!
