//! Managed Markdown blocks fenced by `<!-- dashi:begin id -->` and `<!-- dashi:end id -->`.
use vstd::prelude::*;
use crate::text::{chars_of, first_index, occurs_at, trim, trim_end, is_blank, contains_seq};

verus! {

pub open spec fn begin_marker(id: Seq<char>) -> Seq<char> {
    "<!-- dashi:begin "@ + id + " -->"@
}

pub open spec fn end_marker(id: Seq<char>) -> Seq<char> {
    "<!-- dashi:end "@ + id + " -->"@
}

/// The markers of an id without line breaks have none either.
pub proof fn lemma_markers_have_no_newline(id: Seq<char>)
    requires
        !id.contains('\n'),
    ensures
        begin_marker(id).len() > 0,
        end_marker(id).len() > 0,
        !begin_marker(id).contains('\n'),
        !end_marker(id).contains('\n'),
{
    reveal_strlit("<!-- dashi:begin ");
    reveal_strlit("<!-- dashi:end ");
    reveal_strlit(" -->");
    let b = begin_marker(id);
    let e = end_marker(id);
    let p1 = "<!-- dashi:begin "@;
    let p2 = "<!-- dashi:end "@;
    let sx = " -->"@;
    assert forall|k: int| 0 <= k < b.len() implies b[k] != '\n' by {
        if k < p1.len() {
            assert(b[k] == p1[k]);
        } else if k < p1.len() + id.len() {
            assert(b[k] == id[k - p1.len()]);
        } else {
            assert(b[k] == sx[k - p1.len() - id.len()]);
        }
    }
    assert forall|k: int| 0 <= k < e.len() implies e[k] != '\n' by {
        if k < p2.len() {
            assert(e[k] == p2[k]);
        } else if k < p2.len() + id.len() {
            assert(e[k] == id[k - p2.len()]);
        } else {
            assert(e[k] == sx[k - p2.len() - id.len()]);
        }
    }
}

pub fn block_begin(id: &str) -> (r: String)
    ensures
        r@ == begin_marker(id@),
{
    let mut v: Vec<char> = Vec::new();
    crate::text::push_str(&mut v, "<!-- dashi:begin ");
    crate::text::push_str(&mut v, id);
    crate::text::push_str(&mut v, " -->");
    crate::text::string_of(&v)
}

pub fn block_end(id: &str) -> (r: String)
    ensures
        r@ == end_marker(id@),
{
    let mut v: Vec<char> = Vec::new();
    crate::text::push_str(&mut v, "<!-- dashi:end ");
    crate::text::push_str(&mut v, id);
    crate::text::push_str(&mut v, " -->");
    crate::text::string_of(&v)
}

/// The trimmed text between the first begin marker and the first end marker after it.
pub open spec fn extracted(c: Seq<char>, begin: Seq<char>, end: Seq<char>) -> Option<Seq<char>> {
    match first_index(c, begin) {
        None => None,
        Some(b) => {
            let after = c.subrange(b + begin.len(), c.len() as int);
            match first_index(after, end) {
                None => None,
                Some(e) => Some(trim(after.subrange(0, e))),
            }
        },
    }
}

pub fn extract_block(content: &str, begin: &str, end: &str) -> (r: Option<String>)
    ensures
        crate::model::opt_view(r) == extracted(content@, begin@, end@),
{
    let c = chars_of(content);
    let bm = chars_of(begin);
    let em = chars_of(end);
    let b = match crate::text::first_index_of(&c, &bm) {
        Some(b) => b,
        None => {
            return None;
        },
    };
    assert(b + bm.len() <= c.len());
    let after = crate::text::sub_chars(&c, b + bm.len(), c.len());
    let e = match crate::text::first_index_of(&after, &em) {
        Some(e) => e,
        None => {
            return None;
        },
    };
    let inner = crate::text::sub_chars(&after, 0, e);
    let t = crate::text::trim_chars(&inner);
    Some(crate::text::string_of(&t))
}

/// The managed block: begin marker, trimmed body and end marker on their own lines.
pub open spec fn managed_block(begin: Seq<char>, end: Seq<char>, body: Seq<char>) -> Seq<char> {
    begin + seq!['\n'] + trim(body) + seq!['\n'] + end
}

/// The document after writing the block: the first marker pair is replaced when the begin
/// marker comes first; a document with only one marker, or reversed markers, is kept as it
/// is; a document without markers gets the block appended after a blank line.
pub open spec fn upserted(c: Seq<char>, begin: Seq<char>, end: Seq<char>, body: Seq<char>) -> Seq<char> {
    let fb = first_index(c, begin);
    let fe = first_index(c, end);
    if fb is Some && fe is Some {
        if fb->0 <= fe->0 {
            c.subrange(0, fb->0) + managed_block(begin, end, body) + c.subrange(
                fe->0 + end.len(),
                c.len() as int,
            )
        } else {
            c
        }
    } else if fb is Some || fe is Some {
        c
    } else if is_blank(c) {
        managed_block(begin, end, body) + seq!['\n']
    } else {
        trim_end(c) + seq!['\n', '\n'] + managed_block(begin, end, body) + seq!['\n']
    }
}

fn managed_block_chars(begin: &[char], end: &[char], body: &str) -> (r: Vec<char>)
    ensures
        r@ == managed_block(begin@, end@, body@),
{
    let t = crate::text::trim_str(body);
    let mut v: Vec<char> = Vec::new();
    crate::text::push_all(&mut v, begin);
    v.push('\n');
    crate::text::push_str(&mut v, t.as_str());
    v.push('\n');
    crate::text::push_all(&mut v, end);
    assert(v@ =~= managed_block(begin@, end@, body@));
    v
}

fn trim_end_len(v: &[char]) -> (r: usize)
    ensures
        r == trim_end(v@).len(),
        r <= v@.len(),
{
    let mut k = v.len();
    while k > 0 && crate::text::char_is_ws(v[k - 1])
        invariant
            k <= v@.len(),
            forall|i: int| k <= i < v@.len() ==> crate::text::is_ws(#[trigger] v@[i]),
        decreases k,
    {
        k -= 1;
    }
    proof {
        crate::text::lemma_trail_ws_unique(v@, k as int);
    }
    k
}

pub fn upsert_block(content: &str, begin: &str, end: &str, block_content: &str) -> (r: String)
    ensures
        r@ == upserted(content@, begin@, end@, block_content@),
{
    let c = chars_of(content);
    let bm = chars_of(begin);
    let em = chars_of(end);
    let block = managed_block_chars(&bm, &em, block_content);
    let fb = crate::text::first_index_of(&c, &bm);
    let fe = crate::text::first_index_of(&c, &em);
    match (fb, fe) {
        (Some(b), Some(e)) => {
            if b <= e {
                let mut out = crate::text::sub_chars(&c, 0, b);
                crate::text::push_all(&mut out, &block);
                assert(e + em.len() <= c.len());
                let tail = crate::text::sub_chars(&c, e + em.len(), c.len());
                crate::text::push_all(&mut out, &tail);
                return crate::text::string_of(&out);
            }
            return crate::text::owned(content);
        },
        (Some(_), None) => {
            return crate::text::owned(content);
        },
        (None, Some(_)) => {
            return crate::text::owned(content);
        },
        (None, None) => {},
    }
    if crate::text::is_blank_chars(&c) {
        let mut out = block;
        out.push('\n');
        return crate::text::string_of(&out);
    }
    let n = trim_end_len(&c);
    proof {
        crate::text::lemma_trail_ws_bound(c@);
        assert(c@.subrange(0, n as int) =~= trim_end(c@));
    }
    let mut out = crate::text::sub_chars(&c, 0, n);
    out.push('\n');
    out.push('\n');
    crate::text::push_all(&mut out, &block);
    out.push('\n');
    assert(out@ =~= upserted(content@, begin@, end@, block_content@));
    crate::text::string_of(&out)
}

proof fn lemma_prefix_agrees(r: Seq<char>, c: Seq<char>, needle: Seq<char>, n: int)
    requires
        0 <= n <= r.len(),
        n <= c.len(),
        r.subrange(0, n) == c.subrange(0, n),
    ensures
        forall|p: int| 0 <= p && p + needle.len() <= n ==> (#[trigger] occurs_at(r, needle, p) ==> occurs_at(c, needle, p)),
{
    assert forall|p: int| 0 <= p && p + needle.len() <= n implies (#[trigger] occurs_at(r, needle, p)
        ==> occurs_at(c, needle, p)) by {
        if occurs_at(r, needle, p) {
            assert(r.subrange(p, p + needle.len()) =~= r.subrange(0, n).subrange(p, p + needle.len()));
            assert(c.subrange(p, p + needle.len()) =~= c.subrange(0, n).subrange(p, p + needle.len()));
        }
    }
}

/// In `x + "\n" + t + "\n" + end + rest`, with no line break in `end` and no `end` inside `t`,
/// the first `end` is the one after `t`.
proof fn lemma_end_after_body(t: Seq<char>, end: Seq<char>, rest: Seq<char>)
    requires
        end.len() > 0,
        !end.contains('\n'),
        !contains_seq(t, end),
    ensures
        first_index(seq!['\n'] + t + seq!['\n'] + end + rest, end) == Some(t.len() + 2int),
{
    let a = seq!['\n'] + t + seq!['\n'] + end + rest;
    let q: int = t.len() + 2int;
    assert(a.subrange(q, q + end.len()) =~= end);
    assert forall|p: int| 0 <= p < q implies !#[trigger] occurs_at(a, end, p) by {
        if occurs_at(a, end, p) {
            if p == 0 {
                assert(a.subrange(p, p + end.len())[0] == '\n');
                assert(end[0] == '\n');
            } else if p + end.len() <= t.len() + 1 {
                assert(t.subrange(p - 1, p - 1 + end.len()) =~= a.subrange(p, p + end.len()));
                assert(occurs_at(t, end, p - 1));
            } else {
                let k = t.len() + 1 - p;
                assert(a[t.len() + 1int] == '\n');
                assert(a.subrange(p, p + end.len())[k] == '\n');
                assert(end[k] == '\n');
            }
        }
    }
    crate::text::lemma_first_index_at(a, end, q);
}

/// Reading a block back after writing it gives the trimmed body, for a document that has no
/// markers or a begin marker before its end marker, markers without line breaks, and a body
/// that does not hold the end marker.
pub proof fn law_extract_after_upsert(c: Seq<char>, begin: Seq<char>, end: Seq<char>, body: Seq<char>)
    requires
        begin.len() > 0,
        end.len() > 0,
        !begin.contains('\n'),
        !end.contains('\n'),
        !contains_seq(trim(body), end),
        (first_index(c, begin) is None && first_index(c, end) is None) || (first_index(c, begin) is Some
            && first_index(c, end) is Some && first_index(c, begin)->0 <= first_index(c, end)->0),
    ensures
        extracted(upserted(c, begin, end, body), begin, end) == Some(trim(body)),
{
    let t = trim(body);
    let blk = managed_block(begin, end, body);
    let r = upserted(c, begin, end, body);
    crate::text::lemma_first_index_spec(c, begin);
    crate::text::lemma_first_index_spec(c, end);
    crate::text::lemma_trim_idempotent(body);
    crate::text::lemma_trim_wrapped(t);
    // q: where the inserted begin marker stands in the result; tail: what follows the block
    let (q, tail): (int, Seq<char>) = if first_index(c, begin) is Some {
        let b = first_index(c, begin)->0;
        let e = first_index(c, end)->0;
        (b, c.subrange(e + end.len(), c.len() as int))
    } else if is_blank(c) {
        (0, seq!['\n'])
    } else {
        ((trim_end(c).len() + 2) as int, seq!['\n'])
    };
    assert(r.subrange(q, r.len() as int) =~= blk + tail);
    assert(r.subrange(q, q + begin.len()) =~= begin);
    assert forall|p: int| 0 <= p < q implies !#[trigger] occurs_at(r, begin, p) by {
        if occurs_at(r, begin, p) {
            if first_index(c, begin) is Some {
                let b = first_index(c, begin)->0;
                assert(c.subrange(b, b + begin.len()) == begin);
                assert(r.subrange(0, b + begin.len()) =~= c.subrange(0, b + begin.len()));
                lemma_prefix_agrees(r, c, begin, b + begin.len());
                assert(occurs_at(c, begin, p));
            } else if !is_blank(c) {
                let n: int = trim_end(c).len() as int;
                crate::text::lemma_trail_ws_bound(c);
                if p + begin.len() <= n {
                    assert(r.subrange(0, n) =~= c.subrange(0, n));
                    lemma_prefix_agrees(r, c, begin, n);
                    assert(occurs_at(c, begin, p));
                } else {
                    let k = if p <= n { n - p } else { 0 };
                    assert(r[p + k] == '\n');
                    assert(r.subrange(p, p + begin.len())[k] == '\n');
                    assert(begin[k] == '\n');
                }
            }
        }
    }
    crate::text::lemma_first_index_at(r, begin, q);
    let after = r.subrange(q + begin.len(), r.len() as int);
    assert(after =~= seq!['\n'] + t + seq!['\n'] + end + tail);
    lemma_end_after_body(t, end, tail);
    assert(after.subrange(0, t.len() + 2int) =~= seq!['\n'] + t + seq!['\n']);
}

/// A document with a single marker, or with the end marker first, is left as it is.
pub proof fn law_damaged_document_unchanged(c: Seq<char>, begin: Seq<char>, end: Seq<char>, body: Seq<char>)
    requires
        (first_index(c, begin) is Some) != (first_index(c, end) is Some) || (first_index(c, begin) is Some
            && first_index(c, end) is Some && first_index(c, end)->0 < first_index(c, begin)->0),
    ensures
        upserted(c, begin, end, body) == c,
{
}

/// Writing the block over an existing pair of markers (begin first) keeps everything before
/// the first begin marker and everything after the first end marker, character for character,
/// and puts between them the begin marker, a newline, the trimmed body, a newline and the end
/// marker.
pub proof fn law_upsert_keeps_the_surrounding_text(c: Seq<char>, begin: Seq<char>, end: Seq<char>, body: Seq<char>)
    requires
        first_index(c, begin) matches Some(b) && first_index(c, end) matches Some(e) && b <= e,
    ensures
        ({
            let b = first_index(c, begin)->0;
            let e = first_index(c, end)->0;
            let before = c.subrange(0, b);
            let after = c.subrange(e + end.len(), c.len() as int);
            let r = upserted(c, begin, end, body);
            &&& r == before + begin + seq!['\n'] + trim(body) + seq!['\n'] + end + after
            &&& r.subrange(0, before.len() as int) == before
            &&& r.subrange(r.len() - after.len(), r.len() as int) == after
        }),
{
    let b = first_index(c, begin)->0;
    let e = first_index(c, end)->0;
    crate::text::lemma_first_index_spec(c, end);
    crate::text::lemma_first_index_spec(c, begin);
    let before = c.subrange(0, b);
    let after = c.subrange(e + end.len(), c.len() as int);
    let mid = begin + seq!['\n'] + trim(body) + seq!['\n'] + end;
    let r = upserted(c, begin, end, body);
    assert(r =~= before + mid + after);
    assert(r.subrange(0, before.len() as int) =~= before);
    assert(r.subrange(r.len() - after.len(), r.len() as int) =~= after);
}

} // verus!
