//! Sampling evidence from the Codex log databases: the markers that a sampling request and
//! its model client leave in a log body, and how the evidence of several databases is
//! joined. Querying the databases is the caller's.
use vstd::prelude::*;
use crate::format::{index_of, index_of_char};
use crate::text::{chars_of, first_index, first_index_of, is_ws, lemma_first_index_spec, str_eq, str_lt, string_of};

verus! {

/// The largest log body that is read.
pub const MAX_BODY_BYTES: usize = 262144;

#[derive(Debug, Clone, Copy, PartialEq, Eq, Structural)]
pub enum SqliteNoticeCode {
    SourceMissing,
    SourceBusy,
    MissingLogsTable,
    SchemaDrift,
    BodyTooLarge,
    InvalidMarker,
    ConflictingEvidence,
}

pub type Values = Seq<Option<Seq<char>>>;

pub open spec fn values_view(v: Seq<Option<String>>) -> Values {
    v.map_values(|o: Option<String>| crate::model::opt_view(o))
}

pub open spec fn keys_view(k: Seq<&str>) -> Seq<Seq<char>> {
    k.map_values(|s: &str| s@)
}

/// The first position of a key.
pub open spec fn key_index(keys: Seq<Seq<char>>, name: Seq<char>) -> Option<int>
    decreases keys.len(),
{
    if keys.len() == 0 {
        None
    } else if keys[0] == name {
        Some(0)
    } else {
        match key_index(keys.drop_first(), name) {
            Some(k) => Some(k + 1),
            None => None,
        }
    }
}

/// A marker value: one to 128 ASCII characters.
pub open spec fn value_ok(v: Seq<char>) -> bool {
    0 < v.len() <= 128 && forall|k: int| 0 <= k < v.len() ==> (#[trigger] v[k] as u32) < 128
}

/// One `name=value` field of a marker taken: a field without `=` is malformed; a field of a
/// key that is not asked for is passed over; a value must be well formed and may only repeat
/// an earlier value of its key.
pub open spec fn take_field(vals: Values, tok: Seq<char>, keys: Seq<Seq<char>>) -> Result<Values, SqliteNoticeCode> {
    match index_of(tok, '=') {
        None => Err(SqliteNoticeCode::InvalidMarker),
        Some(eq) => {
            let name = tok.subrange(0, eq);
            let value = tok.subrange(eq + 1, tok.len() as int);
            match key_index(keys, name) {
                None => Ok(vals),
                Some(i) => if !value_ok(value) {
                    Err(SqliteNoticeCode::InvalidMarker)
                } else if vals[i] is Some && vals[i] != Some(value) {
                    Err(SqliteNoticeCode::ConflictingEvidence)
                } else {
                    Ok(vals.update(i, Some(value)))
                },
            }
        },
    }
}

/// The fields of a marker read up to some point: the values so far and the field being read.
pub open spec fn scan_fields(s: Seq<char>, keys: Seq<Seq<char>>) -> Result<(Values, Seq<char>), SqliteNoticeCode>
    decreases s.len(),
{
    if s.len() == 0 {
        Ok((Seq::new(keys.len(), |i: int| None::<Seq<char>>), Seq::empty()))
    } else {
        match scan_fields(s.drop_last(), keys) {
            Err(c) => Err(c),
            Ok((vals, cur)) => if is_ws(s.last()) {
                if cur.len() > 0 {
                    match take_field(vals, cur, keys) {
                        Err(c) => Err(c),
                        Ok(v2) => Ok((v2, Seq::empty())),
                    }
                } else {
                    Ok((vals, cur))
                }
            } else {
                Ok((vals, cur.push(s.last())))
            },
        }
    }
}

/// The values of one marker instance, its whitespace-separated fields taken in order.
pub open spec fn instance_values(s: Seq<char>, keys: Seq<Seq<char>>) -> Result<Values, SqliteNoticeCode> {
    match scan_fields(s, keys) {
        Err(c) => Err(c),
        Ok((vals, cur)) => if cur.len() > 0 { take_field(vals, cur, keys) } else { Ok(vals) },
    }
}

pub open spec fn present_count(vals: Values) -> nat
    decreases vals.len(),
{
    if vals.len() == 0 {
        0
    } else {
        present_count(vals.drop_last()) + if vals.last() is Some { 1nat } else { 0nat }
    }
}

pub open spec fn unwrap_values(vals: Values) -> Seq<Seq<char>> {
    vals.map_values(|o: Option<Seq<char>>| o->Some_0)
}

/// The markers of a body from some point on: each instance, `marker{fields}`, gives all asked
/// keys or none; an instance without its closing brace, a half-filled instance, or two
/// complete instances that disagree make the body unusable. The last complete instance is
/// the result.
pub open spec fn parse_from(s: Seq<char>, prefix: Seq<char>, keys: Seq<Seq<char>>, found: Option<Seq<Seq<char>>>) -> Result<Option<Seq<Seq<char>>>, SqliteNoticeCode>
    decreases s.len(),
{
    match first_index(s, prefix) {
        None => Ok(found),
        Some(st) => {
            proof {
                lemma_first_index_spec(s, prefix);
            }
            let rest = s.subrange(st + prefix.len(), s.len() as int);
            match index_of(rest, '}') {
                None => Err(SqliteNoticeCode::InvalidMarker),
                Some(e) => {
                    proof {
                        lemma_index_of_bound(rest, '}');
                    }
                    match instance_values(rest.subrange(0, e), keys) {
                        Err(c) => Err(c),
                        Ok(vals) => {
                            let present = present_count(vals);
                            let next = rest.subrange(e + 1, rest.len() as int);
                            if present != 0 && present != keys.len() {
                                Err(SqliteNoticeCode::InvalidMarker)
                            } else if present == keys.len() {
                                let complete = unwrap_values(vals);
                                if found is Some && found != Some(complete) {
                                    Err(SqliteNoticeCode::ConflictingEvidence)
                                } else {
                                    parse_from(next, prefix, keys, Some(complete))
                                }
                            } else {
                                parse_from(next, prefix, keys, found)
                            }
                        },
                    }
                },
            }
        },
    }
}

pub proof fn lemma_index_of_bound(s: Seq<char>, c: char)
    ensures
        index_of(s, c) matches Some(k) ==> 0 <= k < s.len() && s[k] == c,
    decreases s.len(),
{
    if s.len() > 0 && s[0] != c {
        lemma_index_of_bound(s.drop_first(), c);
    }
}

/// The values a body's `marker{...}` instances give for the keys.
pub open spec fn marker_fields(body: Seq<char>, marker: Seq<char>, keys: Seq<Seq<char>>) -> Result<Option<Seq<Seq<char>>>, SqliteNoticeCode> {
    parse_from(body, marker.push('{'), keys, None)
}

fn key_position(keys: &[&str], name: &[char]) -> (r: Option<usize>)
    ensures
        match r {
            Some(p) => key_index(keys_view(keys@), name@) == Some(p as int) && p < keys@.len(),
            None => key_index(keys_view(keys@), name@) is None,
        },
{
    let ghost kv = keys_view(keys@);
    let mut k: usize = 0;
    assert(kv.skip(0) =~= kv);
    while k < keys.len()
        invariant
            k <= keys@.len(),
            kv == keys_view(keys@),
            key_index(kv, name@) == match key_index(kv.skip(k as int), name@) {
                Some(i) => Some(i + k),
                None => None,
            },
        decreases keys@.len() - k,
    {
        assert(kv.skip(k as int)[0] == keys@[k as int]@);
        assert(kv.skip(k as int).drop_first() =~= kv.skip(k + 1));
        if crate::text::chars_eq(&chars_of(keys[k]), name) {
            return Some(k);
        }
        k += 1;
    }
    proof {
        lemma_key_index_bound(kv, name@);
    }
    None
}

proof fn lemma_key_index_bound(keys: Seq<Seq<char>>, name: Seq<char>)
    ensures
        key_index(keys, name) matches Some(i) ==> 0 <= i < keys.len(),
    decreases keys.len(),
{
    if keys.len() > 0 && keys[0] != name {
        lemma_key_index_bound(keys.drop_first(), name);
    }
}

fn value_is_ok(v: &[char]) -> (r: bool)
    ensures
        r == value_ok(v@),
{
    if v.len() == 0 || v.len() > 128 {
        return false;
    }
    let mut k: usize = 0;
    while k < v.len()
        invariant
            k <= v@.len(),
            forall|m: int| 0 <= m < k ==> (#[trigger] v@[m] as u32) < 128,
        decreases v@.len() - k,
    {
        if (v[k] as u32) >= 128 {
            return false;
        }
        k += 1;
    }
    true
}

fn take_field_exec(vals: &mut Vec<Option<String>>, tok: &[char], keys: &[&str]) -> (r: Result<(), SqliteNoticeCode>)
    requires
        old(vals)@.len() == keys@.len(),
    ensures
        final(vals)@.len() == keys@.len(),
        match take_field(values_view(old(vals)@), tok@, keys_view(keys@)) {
            Ok(v) => r is Ok && values_view(final(vals)@) == v,
            Err(c) => r == Err::<(), SqliteNoticeCode>(c),
        },
{
    let eq = match index_of_char(tok, '=') {
        None => {
            return Err(SqliteNoticeCode::InvalidMarker);
        },
        Some(eq) => eq,
    };
    let tlen = tok.len();
    assert(eq < tlen);
    let name = crate::text::sub_chars(tok, 0, eq);
    let value = crate::text::sub_chars(tok, eq + 1, tlen);
    let i = match key_position(keys, &name) {
        None => {
            return Ok(());
        },
        Some(i) => i,
    };
    if !value_is_ok(&value) {
        return Err(SqliteNoticeCode::InvalidMarker);
    }
    let text = string_of(&value);
    assert(key_index(keys_view(keys@), name@) == Some(i as int));
    assert(values_view(vals@)[i as int] == crate::model::opt_view(vals@[i as int]));
    assert(text@ == tok@.subrange(eq + 1, tok@.len() as int));
    let conflict = match &vals[i] {
        Some(prev) => !crate::text::str_eq(prev.as_str(), text.as_str()),
        None => false,
    };
    if conflict {
        assert(values_view(vals@)[i as int] is Some && values_view(vals@)[i as int] != Some(text@));
        return Err(SqliteNoticeCode::ConflictingEvidence);
    }
    let ghost before = vals@;
    vals.set(i, Some(text));
    assert(values_view(vals@) =~= values_view(before).update(i as int, Some(value@)));
    Ok(())
}

proof fn lemma_scan_err_extends(s: Seq<char>, keys: Seq<Seq<char>>, k: int)
    requires
        0 <= k <= s.len(),
        scan_fields(s.subrange(0, k), keys) is Err,
    ensures
        scan_fields(s, keys) == scan_fields(s.subrange(0, k), keys),
    decreases s.len() - k,
{
    if k < s.len() {
        assert(s.subrange(0, k + 1).drop_last() =~= s.subrange(0, k));
        lemma_scan_err_extends(s, keys, k + 1);
    } else {
        assert(s.subrange(0, k) =~= s);
    }
}

/// The values one marker instance gives for the keys.
pub fn instance_values_of(fields: &[char], keys: &[&str]) -> (r: Result<Vec<Option<String>>, SqliteNoticeCode>)
    ensures
        match instance_values(fields@, keys_view(keys@)) {
            Ok(v) => r matches Ok(x) && values_view(x@) == v && x@.len() == keys@.len(),
            Err(c) => r == Err::<Vec<Option<String>>, SqliteNoticeCode>(c),
        },
{
    let ghost kv = keys_view(keys@);
    let mut vals: Vec<Option<String>> = Vec::new();
    let mut n: usize = 0;
    while n < keys.len()
        invariant
            n <= keys@.len(),
            vals@.len() == n,
            forall|m: int| 0 <= m < n ==> (#[trigger] vals@[m]) is None,
        decreases keys@.len() - n,
    {
        vals.push(None);
        n += 1;
    }
    assert(values_view(vals@) =~= Seq::new(kv.len(), |i: int| None::<Seq<char>>));
    let mut cur: Vec<char> = Vec::new();
    let mut i: usize = 0;
    assert(fields@.subrange(0, 0) =~= Seq::<char>::empty());
    while i < fields.len()
        invariant
            i <= fields@.len(),
            kv == keys_view(keys@),
            vals@.len() == keys@.len(),
            scan_fields(fields@.subrange(0, i as int), kv) == Ok::<(Values, Seq<char>), SqliteNoticeCode>((values_view(vals@), cur@)),
        decreases fields@.len() - i,
    {
        assert(fields@.subrange(0, i + 1).drop_last() =~= fields@.subrange(0, i as int));
        assert(fields@.subrange(0, i + 1).last() == fields@[i as int]);
        let ch = fields[i];
        if crate::text::char_is_ws(ch) {
            if cur.len() > 0 {
                match take_field_exec(&mut vals, &cur, keys) {
                    Ok(()) => {},
                    Err(c) => {
                        proof {
                            lemma_scan_err_extends(fields@, kv, i + 1);
                        }
                        return Err(c);
                    },
                }
                cur = Vec::new();
            }
        } else {
            cur.push(ch);
        }
        i += 1;
    }
    assert(fields@.subrange(0, fields@.len() as int) =~= fields@);
    if cur.len() > 0 {
        match take_field_exec(&mut vals, &cur, keys) {
            Ok(()) => {},
            Err(c) => {
                return Err(c);
            },
        }
    }
    Ok(vals)
}

pub open spec fn found_view(f: Option<Vec<String>>) -> Option<Seq<Seq<char>>> {
    match f {
        Some(v) => Some(crate::roles::strings_view(v@)),
        None => None,
    }
}

pub open spec fn fields_result(r: Result<Option<Vec<String>>, SqliteNoticeCode>) -> Result<Option<Seq<Seq<char>>>, SqliteNoticeCode> {
    match r {
        Ok(f) => Ok(found_view(f)),
        Err(c) => Err(c),
    }
}

proof fn lemma_present_count(vals: Values)
    ensures
        present_count(vals) <= vals.len(),
        present_count(vals) == vals.len() ==> forall|k: int| 0 <= k < vals.len() ==> (#[trigger] vals[k]) is Some,
    decreases vals.len(),
{
    if vals.len() > 0 {
        lemma_present_count(vals.drop_last());
        assert forall|k: int| 0 <= k < vals.len() && present_count(vals) == vals.len() implies (#[trigger] vals[k]) is Some by {
            if k < vals.len() - 1 {
                assert(vals[k] == vals.drop_last()[k]);
            }
        }
    }
}

fn count_present(vals: &Vec<Option<String>>) -> (r: usize)
    ensures
        r == present_count(values_view(vals@)),
{
    let ghost vv = values_view(vals@);
    let mut n: usize = 0;
    let mut i: usize = 0;
    while i < vals.len()
        invariant
            i <= vals@.len(),
            vv == values_view(vals@),
            n == present_count(vv.subrange(0, i as int)),
            n <= i,
        decreases vals@.len() - i,
    {
        assert(vv.subrange(0, i + 1).drop_last() =~= vv.subrange(0, i as int));
        assert(vv.subrange(0, i + 1).last() == crate::model::opt_view(vals@[i as int]));
        if vals[i].is_some() {
            n += 1;
        }
        i += 1;
    }
    assert(vv.subrange(0, vv.len() as int) =~= vv);
    n
}

fn unwrap_all(vals: &Vec<Option<String>>) -> (r: Vec<String>)
    requires
        forall|k: int| 0 <= k < vals@.len() ==> (#[trigger] vals@[k]) is Some,
    ensures
        crate::roles::strings_view(r@) == unwrap_values(values_view(vals@)),
{
    let mut out: Vec<String> = Vec::new();
    let mut i: usize = 0;
    while i < vals.len()
        invariant
            i <= vals@.len(),
            forall|k: int| 0 <= k < vals@.len() ==> (#[trigger] vals@[k]) is Some,
            crate::roles::strings_view(out@) == unwrap_values(values_view(vals@)).subrange(0, i as int),
        decreases vals@.len() - i,
    {
        let ghost before = out@;
        match &vals[i] {
            Some(v) => {
                assert(values_view(vals@)[i as int] == Some(v@));
                out.push(v.clone());
                assert(crate::roles::strings_view(out@) =~= crate::roles::strings_view(before).push(v@));
            },
            None => {},
        }
        assert(crate::roles::strings_view(out@) =~= unwrap_values(values_view(vals@)).subrange(0, i + 1));
        i += 1;
    }
    assert(unwrap_values(values_view(vals@)).subrange(0, vals@.len() as int) =~= unwrap_values(values_view(vals@)));
    out
}

fn strings_equal(a: &Vec<String>, b: &Vec<String>) -> (r: bool)
    ensures
        r == (crate::roles::strings_view(a@) == crate::roles::strings_view(b@)),
{
    if a.len() != b.len() {
        assert(crate::roles::strings_view(a@).len() != crate::roles::strings_view(b@).len());
        return false;
    }
    let mut i: usize = 0;
    while i < a.len()
        invariant
            i <= a@.len(),
            a@.len() == b@.len(),
            forall|k: int| 0 <= k < i ==> (#[trigger] a@[k])@ == b@[k]@,
        decreases a@.len() - i,
    {
        if !crate::text::str_eq(a[i].as_str(), b[i].as_str()) {
            assert(crate::roles::strings_view(a@)[i as int] != crate::roles::strings_view(b@)[i as int]);
            return false;
        }
        i += 1;
    }
    assert(crate::roles::strings_view(a@) =~= crate::roles::strings_view(b@));
    true
}

/// The values that the `marker{...}` instances of a log body give for the keys: `None` when
/// no instance gives them, an error when an instance is malformed, half filled, or disagrees
/// with another.
pub fn parse_marker_fields(body: &str, marker: &str, keys: &[&str]) -> (r: Result<Option<Vec<String>>, SqliteNoticeCode>)
    ensures
        fields_result(r) == marker_fields(body@, marker@, keys_view(keys@)),
{
    let ghost kv = keys_view(keys@);
    let c = chars_of(body);
    let mut prefix = chars_of(marker);
    prefix.push('{');
    let ghost p = prefix@;
    assert(p == marker@.push('{'));
    let mut found: Option<Vec<String>> = None;
    let mut offset: usize = 0;
    assert(c@.subrange(0, c@.len() as int) =~= c@);
    loop
        invariant
            offset <= c@.len(),
            kv == keys_view(keys@),
            p == prefix@,
            p == marker@.push('{'),
            c@ == body@,
            parse_from(c@, p, kv, None) == parse_from(c@.subrange(offset as int, c@.len() as int), p, kv, found_view(found)),
        decreases c@.len() - offset,
    {
        let rest0 = crate::text::sub_chars(&c, offset, c.len());
        let st = match first_index_of(&rest0, &prefix) {
            None => {
                return Ok(found);
            },
            Some(st) => st,
        };
        let start = offset + st + prefix.len();
        let rest = crate::text::sub_chars(&c, start, c.len());
        assert(rest@ =~= rest0@.subrange(st + p.len(), rest0@.len() as int));
        let e = match index_of_char(&rest, '}') {
            None => {
                return Err(SqliteNoticeCode::InvalidMarker);
            },
            Some(e) => e,
        };
        let fields = crate::text::sub_chars(&rest, 0, e);
        let vals = match instance_values_of(&fields, keys) {
            Ok(v) => v,
            Err(code) => {
                return Err(code);
            },
        };
        let present = count_present(&vals);
        proof {
            lemma_present_count(values_view(vals@));
        }
        if present != 0 && present != keys.len() {
            return Err(SqliteNoticeCode::InvalidMarker);
        }
        let ghost next = rest@.subrange(e + 1, rest@.len() as int);
        assert(next =~= c@.subrange(start + e + 1, c@.len() as int));
        if present == keys.len() {
            assert forall|k: int| 0 <= k < vals@.len() implies (#[trigger] vals@[k]) is Some by {
                assert(values_view(vals@)[k] is Some);
            }
            let complete = unwrap_all(&vals);
            let clash = match &found {
                Some(prev) => !strings_equal(prev, &complete),
                None => false,
            };
            if clash {
                return Err(SqliteNoticeCode::ConflictingEvidence);
            }
            found = Some(complete);
        }
        offset = start + e + 1;
    }
}

proof fn lemma_take_field_len(vals: Values, tok: Seq<char>, keys: Seq<Seq<char>>)
    requires
        vals.len() == keys.len(),
    ensures
        take_field(vals, tok, keys) matches Ok(v) ==> v.len() == vals.len(),
{
    match index_of(tok, '=') {
        None => {},
        Some(eq) => {
            lemma_key_index_bound(keys, tok.subrange(0, eq));
        },
    }
}

proof fn lemma_scan_len(s: Seq<char>, keys: Seq<Seq<char>>)
    ensures
        scan_fields(s, keys) matches Ok((vals, _)) ==> vals.len() == keys.len(),
    decreases s.len(),
{
    if s.len() > 0 {
        lemma_scan_len(s.drop_last(), keys);
        match scan_fields(s.drop_last(), keys) {
            Ok((vals, cur)) => {
                lemma_take_field_len(vals, cur, keys);
            },
            Err(_) => {},
        }
    }
}

proof fn lemma_instance_len(s: Seq<char>, keys: Seq<Seq<char>>)
    ensures
        instance_values(s, keys) matches Ok(vals) ==> vals.len() == keys.len(),
{
    lemma_scan_len(s, keys);
    match scan_fields(s, keys) {
        Ok((vals, cur)) => {
            lemma_take_field_len(vals, cur, keys);
        },
        Err(_) => {},
    }
}

/// Whatever a body holds, the values read from it are never a part of the keys: a result
/// gives every key, from one marker instance that gave them all.
pub proof fn law_marker_values_are_complete(s: Seq<char>, prefix: Seq<char>, keys: Seq<Seq<char>>, found: Option<Seq<Seq<char>>>)
    requires
        found matches Some(f) ==> f.len() == keys.len(),
    ensures
        parse_from(s, prefix, keys, found) matches Ok(Some(v)) ==> v.len() == keys.len(),
    decreases s.len(),
{
    match first_index(s, prefix) {
        None => {},
        Some(st) => {
            lemma_first_index_spec(s, prefix);
            let rest = s.subrange(st + prefix.len(), s.len() as int);
            match index_of(rest, '}') {
                None => {},
                Some(e) => {
                    lemma_index_of_bound(rest, '}');
                    lemma_instance_len(rest.subrange(0, e), keys);
                    let next = rest.subrange(e + 1, rest.len() as int);
                    match instance_values(rest.subrange(0, e), keys) {
                        Err(_) => {},
                        Ok(vals) => {
                            law_marker_values_are_complete(next, prefix, keys, Some(unwrap_values(vals)));
                            law_marker_values_are_complete(next, prefix, keys, found);
                        },
                    }
                },
            }
        },
    }
}

/// A row of a log database: the thread it was asked for, its tags and its body.
#[derive(Debug, Clone, PartialEq, Eq)]
pub struct SampleRow {
    pub thread_id: String,
    pub feedback_tags: String,
    pub body: String,
}

/// One sampling request seen in the logs: the thread, the turn and model it requested, and
/// the model its client streamed with; `source_count` counts the databases that agree.
#[derive(Debug, Clone, PartialEq, Eq)]
pub struct SamplingEvidence {
    pub thread_id: String,
    pub turn_id: String,
    pub requested_model: String,
    pub client_model: String,
    pub source_count: u32,
}

pub struct EvidenceView {
    pub thread: Seq<char>,
    pub turn: Seq<char>,
    pub requested: Seq<char>,
    pub client: Seq<char>,
    pub count: u32,
}

pub open spec fn evidence_view(e: SamplingEvidence) -> EvidenceView {
    EvidenceView { thread: e.thread_id@, turn: e.turn_id@, requested: e.requested_model@, client: e.client_model@, count: e.source_count }
}

pub open spec fn evidences_view(v: Seq<SamplingEvidence>) -> Seq<EvidenceView> {
    v.map_values(|e: SamplingEvidence| evidence_view(e))
}

pub open spec fn request_keys() -> Seq<Seq<char>> {
    seq!["turn_id"@, "model"@]
}

pub open spec fn client_keys() -> Seq<Seq<char>> {
    seq!["model"@]
}

/// The evidence of one row: a body past the budget is refused; a row tagged neither
/// `sampling` nor `feedback` gives none; otherwise the row must hold a complete request
/// marker with a turn and a complete client marker.
pub open spec fn row_evidence(thread: Seq<char>, tags: Seq<char>, body: Seq<char>) -> Result<Option<EvidenceView>, SqliteNoticeCode> {
    if vstd::utf8::encode_utf8(body).len() > MAX_BODY_BYTES {
        Err(SqliteNoticeCode::BodyTooLarge)
    } else if !crate::text::contains_seq(tags, "sampling"@) && !crate::text::contains_seq(tags, "feedback"@) {
        Ok(None)
    } else {
        match marker_fields(body, "try_run_sampling_request"@, request_keys()) {
            Err(c) => Err(c),
            Ok(req) => match marker_fields(body, "model_client.stream_responses_websocket"@, client_keys()) {
                Err(c) => Err(c),
                Ok(client) => match req {
                    None => Err(SqliteNoticeCode::InvalidMarker),
                    Some(r) => if r[0].len() == 0 {
                        Err(SqliteNoticeCode::InvalidMarker)
                    } else {
                        match client {
                            None => Err(SqliteNoticeCode::InvalidMarker),
                            Some(cm) => Ok(Some(EvidenceView { thread, turn: r[0], requested: r[1], client: cm[0], count: 1 })),
                        }
                    },
                },
            },
        }
    }
}

pub fn evidence_of_row(row: &SampleRow) -> (r: Result<Option<SamplingEvidence>, SqliteNoticeCode>)
    ensures
        match (r, row_evidence(row.thread_id@, row.feedback_tags@, row.body@)) {
            (Ok(Some(e)), Ok(Some(v))) => evidence_view(e) == v,
            (Ok(None), Ok(None)) => true,
            (Err(c), Err(d)) => c == d,
            _ => false,
        },
{
    if row.body.as_str().as_bytes().len() > MAX_BODY_BYTES {
        return Err(SqliteNoticeCode::BodyTooLarge);
    }
    let tags = chars_of(row.feedback_tags.as_str());
    if !crate::text::contains_chars(&tags, &chars_of("sampling")) && !crate::text::contains_chars(&tags, &chars_of("feedback")) {
        return Ok(None);
    }
    let request_keys_v: Vec<&str> = vec!["turn_id", "model"];
    let client_keys_v: Vec<&str> = vec!["model"];
    assert(keys_view(request_keys_v@) =~= request_keys());
    assert(keys_view(client_keys_v@) =~= client_keys());
    let request = match parse_marker_fields(row.body.as_str(), "try_run_sampling_request", request_keys_v.as_slice()) {
        Ok(x) => x,
        Err(c) => {
            return Err(c);
        },
    };
    let client = match parse_marker_fields(row.body.as_str(), "model_client.stream_responses_websocket", client_keys_v.as_slice()) {
        Ok(x) => x,
        Err(c) => {
            return Err(c);
        },
    };
    proof {
        law_marker_values_are_complete(row.body@, "try_run_sampling_request"@.push('{'), request_keys(), None);
        law_marker_values_are_complete(row.body@, "model_client.stream_responses_websocket"@.push('{'), client_keys(), None);
    }
    let request = match request {
        None => {
            return Err(SqliteNoticeCode::InvalidMarker);
        },
        Some(r) => r,
    };
    assert(request@.len() == 2);
    if request[0].as_str().as_bytes().len() == 0 {
        proof {
            vstd::utf8::encode_utf8_decode_utf8(request@[0]@);
        }
        return Err(SqliteNoticeCode::InvalidMarker);
    }
    let client = match client {
        None => {
            return Err(SqliteNoticeCode::InvalidMarker);
        },
        Some(c) => c,
    };
    assert(client@.len() == 1);
    Ok(Some(SamplingEvidence {
        thread_id: row.thread_id.clone(),
        turn_id: request[0].clone(),
        requested_model: request[1].clone(),
        client_model: client[0].clone(),
        source_count: 1,
    }))
}

/// The evidence of a database's rows, in order; the first bad row spoils the database.
pub open spec fn rows_evidence(rows: Seq<SampleRow>) -> Result<Seq<EvidenceView>, SqliteNoticeCode>
    decreases rows.len(),
{
    if rows.len() == 0 {
        Ok(Seq::empty())
    } else {
        match rows_evidence(rows.drop_last()) {
            Err(c) => Err(c),
            Ok(es) => match row_evidence(rows.last().thread_id@, rows.last().feedback_tags@, rows.last().body@) {
                Err(c) => Err(c),
                Ok(None) => Ok(es),
                Ok(Some(e)) => Ok(es.push(e)),
            },
        }
    }
}

proof fn lemma_rows_err_extends(rows: Seq<SampleRow>, k: int)
    requires
        0 <= k <= rows.len(),
        rows_evidence(rows.subrange(0, k)) is Err,
    ensures
        rows_evidence(rows) == rows_evidence(rows.subrange(0, k)),
    decreases rows.len() - k,
{
    if k < rows.len() {
        assert(rows.subrange(0, k + 1).drop_last() =~= rows.subrange(0, k));
        lemma_rows_err_extends(rows, k + 1);
    } else {
        assert(rows.subrange(0, k) =~= rows);
    }
}

pub open spec fn rows_result(r: Result<Vec<SamplingEvidence>, SqliteNoticeCode>) -> Result<Seq<EvidenceView>, SqliteNoticeCode> {
    match r {
        Ok(v) => Ok(evidences_view(v@)),
        Err(c) => Err(c),
    }
}

/// The evidence of the rows one database gave for the known threads.
pub fn source_evidence(rows: &[SampleRow]) -> (r: Result<Vec<SamplingEvidence>, SqliteNoticeCode>)
    ensures
        rows_result(r) == rows_evidence(rows@),
{
    let mut out: Vec<SamplingEvidence> = Vec::new();
    let mut i: usize = 0;
    assert(rows@.subrange(0, 0) =~= Seq::<SampleRow>::empty());
    assert(evidences_view(out@) =~= Seq::<EvidenceView>::empty());
    while i < rows.len()
        invariant
            i <= rows@.len(),
            rows_evidence(rows@.subrange(0, i as int)) == Ok::<Seq<EvidenceView>, SqliteNoticeCode>(evidences_view(out@)),
        decreases rows@.len() - i,
    {
        assert(rows@.subrange(0, i + 1).drop_last() =~= rows@.subrange(0, i as int));
        assert(rows@.subrange(0, i + 1).last() == rows@[i as int]);
        match evidence_of_row(&rows[i]) {
            Err(c) => {
                proof {
                    lemma_rows_err_extends(rows@, i + 1);
                }
                return Err(c);
            },
            Ok(None) => {},
            Ok(Some(e)) => {
                let ghost before = out@;
                out.push(e);
                assert(evidences_view(out@) =~= evidences_view(before).push(evidence_view(e)));
            },
        }
        i += 1;
    }
    assert(rows@.subrange(0, rows@.len() as int) =~= rows@);
    Ok(out)
}

/// A database that could not be used, or evidence that contradicts another database's.
#[derive(Debug, Clone, PartialEq, Eq)]
pub struct SqliteNotice {
    pub source: String,
    pub code: SqliteNoticeCode,
}

/// What one database gave: its evidence, or why it could not be read.
pub struct SourceRead {
    pub source: String,
    pub rows: Result<Vec<SamplingEvidence>, SqliteNoticeCode>,
}

#[derive(Debug, Clone, PartialEq, Eq)]
pub struct SqliteAuditResult {
    pub evidence: Vec<SamplingEvidence>,
    pub notices: Vec<SqliteNotice>,
    pub complete: bool,
}

pub open spec fn same_key(a: EvidenceView, b: EvidenceView) -> bool {
    a.thread == b.thread && a.turn == b.turn && a.requested == b.requested
}

/// The order of the evidence: by thread, then turn, then requested model.
pub open spec fn evidence_before(a: EvidenceView, b: EvidenceView) -> bool {
    crate::text::seq_lt(a.thread, b.thread) || (a.thread == b.thread && (crate::text::seq_lt(a.turn, b.turn) || (a.turn == b.turn
        && crate::text::seq_lt(a.requested, b.requested))))
}

pub open spec fn evidence_order() -> spec_fn(EvidenceView, EvidenceView) -> bool {
    |a: EvidenceView, b: EvidenceView| evidence_before(a, b)
}

/// The first entry with the key of `e`.
pub open spec fn entry_of(es: Seq<EvidenceView>, e: EvidenceView) -> Option<int>
    decreases es.len(),
{
    if es.len() == 0 {
        None
    } else {
        match entry_of(es.drop_last(), e) {
            Some(p) => Some(p),
            None => if same_key(es.last(), e) { Some(es.len() - 1) } else { None },
        }
    }
}

pub struct MergeState {
    pub entries: Seq<EvidenceView>,
    pub notices: Seq<(Seq<char>, SqliteNoticeCode)>,
    pub ok: nat,
}

/// One piece of evidence joined: a new key is added; a key already seen counts one more
/// database when the client models agree, and otherwise loses its client model and raises a
/// conflict.
pub open spec fn join_evidence(st: MergeState, source: Seq<char>, e: EvidenceView) -> MergeState {
    match entry_of(st.entries, e) {
        None => MergeState { entries: st.entries.push(e), ..st },
        Some(p) => if st.entries[p].client != e.client {
            MergeState {
                entries: st.entries.update(p, EvidenceView { client: Seq::empty(), ..st.entries[p] }),
                notices: st.notices.push((source, SqliteNoticeCode::ConflictingEvidence)),
                ..st
            }
        } else {
            MergeState {
                entries: st.entries.update(p, EvidenceView {
                    count: if st.entries[p].count == u32::MAX { u32::MAX } else { (st.entries[p].count + 1) as u32 },
                    ..st.entries[p]
                }),
                ..st
            }
        },
    }
}

pub open spec fn join_all(st: MergeState, source: Seq<char>, es: Seq<EvidenceView>) -> MergeState
    decreases es.len(),
{
    if es.len() == 0 {
        st
    } else {
        join_evidence(join_all(st, source, es.drop_last()), source, es.last())
    }
}

pub struct SourceView {
    pub source: Seq<char>,
    pub rows: Result<Seq<EvidenceView>, SqliteNoticeCode>,
}

pub open spec fn source_view(s: SourceRead) -> SourceView {
    SourceView { source: s.source@, rows: rows_result(s.rows) }
}

pub open spec fn sources_view(v: Seq<SourceRead>) -> Seq<SourceView> {
    v.map_values(|s: SourceRead| source_view(s))
}

/// The databases joined in order: one that could not be read leaves a notice.
pub open spec fn join_sources(srcs: Seq<SourceView>) -> MergeState
    decreases srcs.len(),
{
    if srcs.len() == 0 {
        MergeState { entries: Seq::empty(), notices: Seq::empty(), ok: 0 }
    } else {
        let st = join_sources(srcs.drop_last());
        let s = srcs.last();
        match s.rows {
            Ok(es) => join_all(MergeState { ok: st.ok + 1, ..st }, s.source, es),
            Err(c) => MergeState { notices: st.notices.push((s.source, c)), ..st },
        }
    }
}

/// The evidence is complete when every database was read, nothing conflicted, and every
/// known thread has evidence.
pub open spec fn sampling_complete(srcs: Seq<SourceView>, known: Seq<Seq<char>>) -> bool {
    let st = join_sources(srcs);
    st.ok == srcs.len() && st.notices.len() == 0 && forall|k: int| 0 <= k < known.len() ==> thread_known(st.entries, #[trigger] known[k])
}

pub open spec fn notices_view(v: Seq<SqliteNotice>) -> Seq<(Seq<char>, SqliteNoticeCode)> {
    v.map_values(|n: SqliteNotice| (n.source@, n.code))
}

impl SamplingEvidence {
    pub fn duplicate(&self) -> (r: Self)
        ensures
            r == *self,
    {
        SamplingEvidence {
            thread_id: self.thread_id.clone(),
            turn_id: self.turn_id.clone(),
            requested_model: self.requested_model.clone(),
            client_model: self.client_model.clone(),
            source_count: self.source_count,
        }
    }
}

fn same_key_exec(a: &SamplingEvidence, b: &SamplingEvidence) -> (r: bool)
    ensures
        r == same_key(evidence_view(*a), evidence_view(*b)),
{
    str_eq(a.thread_id.as_str(), b.thread_id.as_str()) && str_eq(a.turn_id.as_str(), b.turn_id.as_str())
        && str_eq(a.requested_model.as_str(), b.requested_model.as_str())
}

fn find_entry(entries: &Vec<SamplingEvidence>, e: &SamplingEvidence) -> (r: Option<usize>)
    ensures
        match r {
            Some(p) => p < entries@.len() && entry_of(evidences_view(entries@), evidence_view(*e)) == Some(p as int),
            None => entry_of(evidences_view(entries@), evidence_view(*e)) is None,
        },
{
    let ghost es = evidences_view(entries@);
    let mut p: usize = 0;
    assert(es.subrange(0, 0) =~= Seq::<EvidenceView>::empty());
    while p < entries.len()
        invariant
            p <= es.len(),
            es == evidences_view(entries@),
            entry_of(es.subrange(0, p as int), evidence_view(*e)) is None,
        decreases es.len() - p,
    {
        assert(es.subrange(0, p + 1).drop_last() =~= es.subrange(0, p as int));
        assert(es.subrange(0, p + 1).last() == evidence_view(entries@[p as int]));
        if same_key_exec(&entries[p], e) {
            proof {
                lemma_entry_prefix(es, evidence_view(*e), p as int + 1);
            }
            return Some(p);
        }
        p += 1;
    }
    assert(es.subrange(0, es.len() as int) =~= es);
    None
}

proof fn lemma_entry_prefix(es: Seq<EvidenceView>, e: EvidenceView, k: int)
    requires
        0 <= k <= es.len(),
        entry_of(es.subrange(0, k), e) is Some,
    ensures
        entry_of(es, e) == entry_of(es.subrange(0, k), e),
    decreases es.len() - k,
{
    if k < es.len() {
        assert(es.subrange(0, k + 1).drop_last() =~= es.subrange(0, k));
        lemma_entry_prefix(es, e, k + 1);
    } else {
        assert(es.subrange(0, k) =~= es);
    }
}

fn join_one(entries: &mut Vec<SamplingEvidence>, notices: &mut Vec<SqliteNotice>, source: &str, e: SamplingEvidence)
    ensures
        ({
            let st = join_evidence(
                MergeState { entries: evidences_view(old(entries)@), notices: notices_view(old(notices)@), ok: 0 },
                source@,
                evidence_view(e),
            );
            &&& evidences_view(final(entries)@) == st.entries
            &&& notices_view(final(notices)@) == st.notices
        }),
{
    let ghost es = evidences_view(entries@);
    let ghost ns = notices_view(notices@);
    match find_entry(entries, &e) {
        None => {
            entries.push(e);
            assert(evidences_view(entries@) =~= es.push(evidence_view(e)));
        },
        Some(p) => {
            let mut cur = entries.remove(p);
            assert(es[p as int] == evidence_view(cur));
            let ghost old_entries = entries@;
            if !str_eq(cur.client_model.as_str(), e.client_model.as_str()) {
                cur.client_model = String::new();
                notices.push(SqliteNotice { source: crate::text::owned(source), code: SqliteNoticeCode::ConflictingEvidence });
                assert(notices_view(notices@) =~= ns.push((source@, SqliteNoticeCode::ConflictingEvidence)));
            } else {
                cur.source_count = if cur.source_count == u32::MAX { u32::MAX } else { cur.source_count + 1 };
            }
            let ghost cv = evidence_view(cur);
            entries.insert(p, cur);
            assert(evidences_view(entries@) =~= es.update(p as int, cv));
        },
    }
}

fn evidence_is_before(a: &SamplingEvidence, b: &SamplingEvidence) -> (r: bool)
    ensures
        r == evidence_before(evidence_view(*a), evidence_view(*b)),
{
    str_lt(a.thread_id.as_str(), b.thread_id.as_str()) || (str_eq(a.thread_id.as_str(), b.thread_id.as_str()) && (str_lt(
        a.turn_id.as_str(),
        b.turn_id.as_str(),
    ) || (str_eq(a.turn_id.as_str(), b.turn_id.as_str()) && str_lt(a.requested_model.as_str(), b.requested_model.as_str()))))
}

fn insert_evidence(out: &mut Vec<SamplingEvidence>, m: SamplingEvidence)
    ensures
        evidences_view(final(out)@) == crate::order::stable_insert(evidences_view(old(out)@), evidence_view(m), evidence_order()),
{
    let ghost s = evidences_view(out@);
    let mut p = out.len();
    while p > 0 && evidence_is_before(&m, &out[p - 1])
        invariant
            p <= out@.len(),
            s == evidences_view(out@),
            forall|k: int| p <= k < s.len() ==> (evidence_order())(evidence_view(m), #[trigger] s[k]),
        decreases p,
    {
        p -= 1;
    }
    proof {
        crate::order::lemma_stable_insert_at(s, evidence_view(m), evidence_order(), p as int);
    }
    let ghost mv = evidence_view(m);
    out.insert(p, m);
    assert(evidences_view(out@) =~= s.subrange(0, p as int).push(mv) + s.subrange(p as int, s.len() as int));
}

fn sort_evidence(v: Vec<SamplingEvidence>) -> (r: Vec<SamplingEvidence>)
    ensures
        evidences_view(r@) == crate::order::stable_sort(evidences_view(v@), evidence_order()),
{
    let ghost all = evidences_view(v@);
    let mut sorted: Vec<SamplingEvidence> = Vec::new();
    let mut i: usize = 0;
    assert(all.subrange(0, 0) =~= Seq::<EvidenceView>::empty());
    while i < v.len()
        invariant
            i <= v@.len(),
            all == evidences_view(v@),
            evidences_view(sorted@) == crate::order::stable_sort(all.subrange(0, i as int), evidence_order()),
        decreases v@.len() - i,
    {
        proof {
            crate::order::lemma_stable_sort_step(all, i as int, evidence_order());
        }
        assert(all[i as int] == evidence_view(v@[i as int]));
        insert_evidence(&mut sorted, v[i].duplicate());
        i += 1;
    }
    assert(all.subrange(0, all.len() as int) =~= all);
    sorted
}

pub open spec fn thread_known(es: Seq<EvidenceView>, id: Seq<char>) -> bool {
    exists|m: int| 0 <= m < es.len() && (#[trigger] es[m]).thread == id
}

fn has_thread(entries: &Vec<SamplingEvidence>, id: &str) -> (r: bool)
    ensures
        r == thread_known(evidences_view(entries@), id@),
{
    let ghost es = evidences_view(entries@);
    let mut m: usize = 0;
    while m < entries.len()
        invariant
            m <= es.len(),
            es == evidences_view(entries@),
            forall|k: int| 0 <= k < m ==> (#[trigger] es[k]).thread != id@,
        decreases es.len() - m,
    {
        assert(es[m as int] == evidence_view(entries@[m as int]));
        if str_eq(entries[m].thread_id.as_str(), id) {
            return true;
        }
        m += 1;
    }
    false
}

/// Joins the evidence of the databases (in order) and decides whether it covers the known
/// threads.
pub fn read_sampling_sources(sources: &[SourceRead], known_turn_ids: &[String]) -> (r: SqliteAuditResult)
    ensures
        evidences_view(r.evidence@) == crate::order::stable_sort(join_sources(sources_view(sources@)).entries, evidence_order()),
        notices_view(r.notices@) == join_sources(sources_view(sources@)).notices,
        r.complete == sampling_complete(sources_view(sources@), crate::roles::strings_view(known_turn_ids@)),
        strictly_sorted(evidences_view(r.evidence@)),
{
    let ghost sv = sources_view(sources@);
    let mut entries: Vec<SamplingEvidence> = Vec::new();
    let mut notices: Vec<SqliteNotice> = Vec::new();
    let mut ok: usize = 0;
    let mut i: usize = 0;
    assert(sv.subrange(0, 0) =~= Seq::<SourceView>::empty());
    assert(evidences_view(entries@) =~= Seq::<EvidenceView>::empty());
    assert(notices_view(notices@) =~= Seq::<(Seq<char>, SqliteNoticeCode)>::empty());
    while i < sources.len()
        invariant
            i <= sources@.len(),
            sv == sources_view(sources@),
            ok <= i,
            ({
                let st = join_sources(sv.subrange(0, i as int));
                &&& evidences_view(entries@) == st.entries
                &&& notices_view(notices@) == st.notices
                &&& ok == st.ok
            }),
        decreases sources@.len() - i,
    {
        assert(sv.subrange(0, i + 1).drop_last() =~= sv.subrange(0, i as int));
        assert(sv.subrange(0, i + 1).last() == source_view(sources@[i as int]));
        let src = &sources[i];
        match &src.rows {
            Ok(rows) => {
                let ghost base = MergeState { ok: (ok + 1) as nat, entries: evidences_view(entries@), notices: notices_view(notices@) };
                ok += 1;
                let mut k: usize = 0;
                assert(evidences_view(rows@).subrange(0, 0) =~= Seq::<EvidenceView>::empty());
                while k < rows.len()
                    invariant
                        k <= rows@.len(),
                        ({
                            let st = join_all(base, src.source@, evidences_view(rows@).subrange(0, k as int));
                            &&& evidences_view(entries@) == st.entries
                            &&& notices_view(notices@) == st.notices
                            &&& st.ok == base.ok
                        }),
                    decreases rows@.len() - k,
                {
                    let ghost rv = evidences_view(rows@);
                    assert(rv.subrange(0, k + 1).drop_last() =~= rv.subrange(0, k as int));
                    assert(rv.subrange(0, k + 1).last() == evidence_view(rows@[k as int]));
                    join_one(&mut entries, &mut notices, src.source.as_str(), rows[k].duplicate());
                    k += 1;
                }
                assert(evidences_view(rows@).subrange(0, rows@.len() as int) =~= evidences_view(rows@));
            },
            Err(code) => {
                let ghost ns = notices_view(notices@);
                notices.push(SqliteNotice { source: src.source.clone(), code: *code });
                assert(notices_view(notices@) =~= ns.push((src.source@, *code)));
            },
        }
        i += 1;
    }
    assert(sv.subrange(0, sv.len() as int) =~= sv);
    let mut complete = ok == sources.len() && notices.len() == 0;
    let ghost kv = crate::roles::strings_view(known_turn_ids@);
    let mut k: usize = 0;
    while k < known_turn_ids.len()
        invariant
            k <= known_turn_ids@.len(),
            kv == crate::roles::strings_view(known_turn_ids@),
            complete == (ok == sources@.len() && notices@.len() == 0 && forall|m: int| 0 <= m < k ==> thread_known(evidences_view(entries@), #[trigger] kv[m])),
        decreases known_turn_ids@.len() - k,
    {
        let found = has_thread(&entries, known_turn_ids[k].as_str());
        assert(kv[k as int] == known_turn_ids@[k as int]@);
        complete = complete && found;
        k += 1;
    }
    assert(complete == sampling_complete(sv, kv)) by {
        let st = join_sources(sv);
        assert(st.entries == evidences_view(entries@));
        assert(st.ok == ok);
        assert(sv.len() == sources@.len());
        assert(notices@.len() == st.notices.len());
    }
    let evidence = sort_evidence(entries);
    proof {
        law_sampling_evidence_is_sorted(sv);
    }
    SqliteAuditResult { evidence, notices, complete }
}

proof fn lemma_join_all_keeps_notices(st: MergeState, source: Seq<char>, es: Seq<EvidenceView>)
    ensures
        join_all(st, source, es).notices.len() >= st.notices.len(),
        join_all(st, source, es).ok == st.ok,
    decreases es.len(),
{
    if es.len() > 0 {
        lemma_join_all_keeps_notices(st, source, es.drop_last());
    }
}

proof fn lemma_sources_notices_grow(srcs: Seq<SourceView>, i: int)
    requires
        0 <= i < srcs.len(),
        srcs[i].rows is Err,
    ensures
        join_sources(srcs).notices.len() > 0,
    decreases srcs.len(),
{
    let last = srcs.len() - 1;
    if i < last {
        lemma_sources_notices_grow(srcs.drop_last(), i);
        let st = join_sources(srcs.drop_last());
        match srcs.last().rows {
            Ok(es) => {
                lemma_join_all_keeps_notices(MergeState { ok: st.ok + 1, ..st }, srcs.last().source, es);
            },
            Err(_) => {},
        }
    }
}

/// A database that could not be read, or evidence that conflicts, never lets the sampling
/// evidence look complete.
pub proof fn law_unreadable_or_conflicting_never_complete(srcs: Seq<SourceView>, known: Seq<Seq<char>>)
    requires
        (exists|i: int| 0 <= i < srcs.len() && (#[trigger] srcs[i]).rows is Err) || join_sources(srcs).notices.len() > 0,
    ensures
        !sampling_complete(srcs, known),
{
    if exists|i: int| 0 <= i < srcs.len() && (#[trigger] srcs[i]).rows is Err {
        let i = choose|i: int| 0 <= i < srcs.len() && (#[trigger] srcs[i]).rows is Err;
        lemma_sources_notices_grow(srcs, i);
    }
}

// ---------- order of the joined evidence ----------

/// Each entry comes strictly before every later one.
pub open spec fn strictly_sorted(s: Seq<EvidenceView>) -> bool {
    forall|i: int, j: int| 0 <= i < j < s.len() ==> evidence_before(#[trigger] s[i], #[trigger] s[j])
}

/// No two entries share a thread, turn and model.
pub open spec fn keys_distinct(s: Seq<EvidenceView>) -> bool {
    forall|i: int, j: int| 0 <= i < j < s.len() ==> !same_key(#[trigger] s[i], #[trigger] s[j])
}

proof fn lemma_before_transitive(a: EvidenceView, b: EvidenceView, c: EvidenceView)
    requires
        evidence_before(a, b),
        evidence_before(b, c),
    ensures
        evidence_before(a, c),
{
    crate::text::lemma_seq_lt_irreflexive(a.thread);
    crate::text::lemma_seq_lt_irreflexive(b.thread);
    if crate::text::seq_lt(a.thread, b.thread) && crate::text::seq_lt(b.thread, c.thread) {
        crate::text::lemma_seq_lt_transitive(a.thread, b.thread, c.thread);
    }
    if a.thread == b.thread && b.thread == c.thread {
        if crate::text::seq_lt(a.turn, b.turn) && crate::text::seq_lt(b.turn, c.turn) {
            crate::text::lemma_seq_lt_transitive(a.turn, b.turn, c.turn);
        }
        if a.turn == b.turn && b.turn == c.turn {
            if crate::text::seq_lt(a.requested, b.requested) && crate::text::seq_lt(b.requested, c.requested) {
                crate::text::lemma_seq_lt_transitive(a.requested, b.requested, c.requested);
            }
        }
    }
}

proof fn lemma_before_total(a: EvidenceView, b: EvidenceView)
    requires
        !same_key(a, b),
    ensures
        evidence_before(a, b) || evidence_before(b, a),
        !(evidence_before(a, b) && evidence_before(b, a)),
{
    crate::text::lemma_seq_lt_total(a.thread, b.thread);
    crate::text::lemma_seq_lt_total(a.turn, b.turn);
    crate::text::lemma_seq_lt_total(a.requested, b.requested);
    crate::text::lemma_seq_lt_asymmetric(a.thread, b.thread);
    crate::text::lemma_seq_lt_asymmetric(a.turn, b.turn);
    crate::text::lemma_seq_lt_asymmetric(a.requested, b.requested);
    crate::text::lemma_seq_lt_irreflexive(a.thread);
    crate::text::lemma_seq_lt_irreflexive(a.turn);
}

proof fn lemma_insert_strict(s: Seq<EvidenceView>, x: EvidenceView)
    requires
        strictly_sorted(s),
        forall|m: int| 0 <= m < s.len() ==> !same_key(#[trigger] s[m], x),
    ensures
        strictly_sorted(crate::order::stable_insert(s, x, evidence_order())),
        crate::order::stable_insert(s, x, evidence_order()).len() == s.len() + 1,
        forall|k: int| 0 <= k < s.len() + 1 ==> #[trigger] crate::order::stable_insert(s, x, evidence_order())[k] == x
            || exists|m: int| 0 <= m < s.len() && crate::order::stable_insert(s, x, evidence_order())[k] == s[m],
    decreases s.len(),
{
    let r = crate::order::stable_insert(s, x, evidence_order());
    if s.len() == 0 {
        assert(r =~= seq![x]);
    } else {
        let d = s.drop_last();
        let last = s.last();
        assert(!same_key(s[s.len() - 1], x));
        lemma_before_total(last, x);
        if evidence_before(x, last) {
            assert(strictly_sorted(d)) by {
                assert forall|i: int, j: int| 0 <= i < j < d.len() implies evidence_before(#[trigger] d[i], #[trigger] d[j]) by {
                    assert(d[i] == s[i] && d[j] == s[j]);
                }
            }
            assert forall|m: int| 0 <= m < d.len() implies !same_key(#[trigger] d[m], x) by {
                assert(d[m] == s[m]);
            }
            lemma_insert_strict(d, x);
            let r2 = crate::order::stable_insert(d, x, evidence_order());
            assert(r == r2.push(last));
            assert forall|i: int, j: int| 0 <= i < j < r.len() implies evidence_before(#[trigger] r[i], #[trigger] r[j]) by {
                if j == r.len() - 1 {
                    assert(r[j] == last);
                    assert(r[i] == r2[i]);
                    if r2[i] != x {
                        let m = choose|m: int| 0 <= m < d.len() && r2[i] == d[m];
                        assert(s[m] == d[m]);
                        assert(evidence_before(s[m], s[s.len() - 1]));
                    }
                } else {
                    assert(r[i] == r2[i] && r[j] == r2[j]);
                }
            }
            assert forall|k: int| 0 <= k < s.len() + 1 implies #[trigger] r[k] == x || exists|m: int|
                0 <= m < s.len() && r[k] == s[m] by {
                if k == s.len() {
                    assert(r[k] == s[s.len() - 1]);
                } else {
                    assert(r[k] == r2[k]);
                    if r2[k] != x {
                        let m = choose|m: int| 0 <= m < d.len() && r2[k] == d[m];
                        assert(s[m] == d[m]);
                    }
                }
            }
        } else {
            assert(r == s.push(x));
            assert forall|i: int, j: int| 0 <= i < j < r.len() implies evidence_before(#[trigger] r[i], #[trigger] r[j]) by {
                if j == r.len() - 1 {
                    assert(r[j] == x);
                    assert(r[i] == s[i]);
                    if i < s.len() - 1 {
                        lemma_before_transitive(s[i], s[s.len() - 1], x);
                    }
                } else {
                    assert(r[i] == s[i] && r[j] == s[j]);
                }
            }
            assert forall|k: int| 0 <= k < s.len() + 1 implies #[trigger] r[k] == x || exists|m: int|
                0 <= m < s.len() && r[k] == s[m] by {
                if k < s.len() {
                    assert(r[k] == s[k]);
                }
            }
        }
    }
}

proof fn lemma_sort_strict(s: Seq<EvidenceView>)
    requires
        keys_distinct(s),
    ensures
        strictly_sorted(crate::order::stable_sort(s, evidence_order())),
        crate::order::stable_sort(s, evidence_order()).len() == s.len(),
        forall|k: int| 0 <= k < s.len() ==> exists|m: int|
            0 <= m < s.len() && #[trigger] crate::order::stable_sort(s, evidence_order())[k] == s[m],
    decreases s.len(),
{
    if s.len() > 0 {
        let d = s.drop_last();
        assert(keys_distinct(d)) by {
            assert forall|i: int, j: int| 0 <= i < j < d.len() implies !same_key(#[trigger] d[i], #[trigger] d[j]) by {
                assert(d[i] == s[i] && d[j] == s[j]);
            }
        }
        lemma_sort_strict(d);
        let sd = crate::order::stable_sort(d, evidence_order());
        assert forall|m: int| 0 <= m < sd.len() implies !same_key(#[trigger] sd[m], s.last()) by {
            let w = choose|w: int| 0 <= w < d.len() && sd[m] == d[w];
            assert(d[w] == s[w]);
            assert(!same_key(s[w], s[s.len() - 1]));
        }
        lemma_insert_strict(sd, s.last());
        let r = crate::order::stable_sort(s, evidence_order());
        assert forall|k: int| 0 <= k < s.len() implies exists|m: int| 0 <= m < s.len() && #[trigger] r[k] == s[m] by {
            if r[k] == s.last() {
                assert(r[k] == s[s.len() - 1]);
            } else {
                let w = choose|w: int| 0 <= w < sd.len() && r[k] == sd[w];
                let m = choose|m: int| 0 <= m < d.len() && sd[w] == d[m];
                assert(d[m] == s[m]);
            }
        }
    }
}

/// Before `entry_of` finds nothing, no entry has the key.
proof fn lemma_entry_of_none(es: Seq<EvidenceView>, e: EvidenceView)
    requires
        entry_of(es, e) is None,
    ensures
        forall|m: int| 0 <= m < es.len() ==> !same_key(#[trigger] es[m], e),
    decreases es.len(),
{
    if es.len() > 0 {
        lemma_entry_of_none(es.drop_last(), e);
        assert forall|m: int| 0 <= m < es.len() implies !same_key(#[trigger] es[m], e) by {
            if m < es.len() - 1 {
                assert(es[m] == es.drop_last()[m]);
            }
        }
    }
}

proof fn lemma_entry_of_in_range(es: Seq<EvidenceView>, e: EvidenceView)
    ensures
        entry_of(es, e) matches Some(p) ==> 0 <= p < es.len(),
    decreases es.len(),
{
    if es.len() > 0 {
        lemma_entry_of_in_range(es.drop_last(), e);
    }
}

proof fn lemma_join_all_distinct(st: MergeState, source: Seq<char>, es: Seq<EvidenceView>)
    requires
        keys_distinct(st.entries),
    ensures
        keys_distinct(join_all(st, source, es).entries),
    decreases es.len(),
{
    if es.len() > 0 {
        lemma_join_all_distinct(st, source, es.drop_last());
        let prev = join_all(st, source, es.drop_last());
        let e = es.last();
        let next = join_all(st, source, es);
        lemma_entry_of_in_range(prev.entries, e);
        match entry_of(prev.entries, e) {
            None => {
                lemma_entry_of_none(prev.entries, e);
                assert forall|i: int, j: int| 0 <= i < j < next.entries.len() implies !same_key(
                    #[trigger] next.entries[i],
                    #[trigger] next.entries[j],
                ) by {
                    if j == next.entries.len() - 1 {
                        assert(next.entries[i] == prev.entries[i]);
                    } else {
                        assert(next.entries[i] == prev.entries[i] && next.entries[j] == prev.entries[j]);
                    }
                }
            },
            Some(p) => {
                assert forall|i: int, j: int| 0 <= i < j < next.entries.len() implies !same_key(
                    #[trigger] next.entries[i],
                    #[trigger] next.entries[j],
                ) by {
                    assert(same_key(next.entries[i], prev.entries[i]));
                    assert(same_key(next.entries[j], prev.entries[j]));
                    assert(!same_key(prev.entries[i], prev.entries[j]));
                }
            },
        }
    }
}

proof fn lemma_join_sources_distinct(srcs: Seq<SourceView>)
    ensures
        keys_distinct(join_sources(srcs).entries),
    decreases srcs.len(),
{
    if srcs.len() > 0 {
        lemma_join_sources_distinct(srcs.drop_last());
        let st = join_sources(srcs.drop_last());
        match srcs.last().rows {
            Ok(es) => lemma_join_all_distinct(MergeState { ok: st.ok + 1, ..st }, srcs.last().source, es),
            Err(_) => {},
        }
    }
}

/// The evidence that the databases give is strictly sorted by thread, turn and model: one
/// entry per key, in order.
pub proof fn law_sampling_evidence_is_sorted(srcs: Seq<SourceView>)
    ensures
        strictly_sorted(crate::order::stable_sort(join_sources(srcs).entries, evidence_order())),
{
    lemma_join_sources_distinct(srcs);
    lemma_sort_strict(join_sources(srcs).entries);
}

} // verus!
