//! Character-level text helpers shared by the validators.
//!
//! Text is handled as `Seq<char>` in specifications and `Vec<char>` in code; the two
//! std conversions at the edge are the only trusted items here.
use vstd::prelude::*;

verus! {

broadcast use vstd::string::group_string_axioms;

/// Unicode `White_Space`, the set that `char::is_whitespace` and `str::trim` use.
pub open spec fn is_ws(c: char) -> bool {
    let u = c as u32;
    (0x09 <= u <= 0x0D) || u == 0x20 || u == 0x85 || u == 0xA0 || u == 0x1680 || (0x2000 <= u
        <= 0x200A) || u == 0x2028 || u == 0x2029 || u == 0x202F || u == 0x205F || u == 0x3000
}

pub fn char_is_ws(c: char) -> (r: bool)
    ensures
        r == is_ws(c),
{
    let u = c as u32;
    (0x09 <= u && u <= 0x0D) || u == 0x20 || u == 0x85 || u == 0xA0 || u == 0x1680 || (0x2000 <= u
        && u <= 0x200A) || u == 0x2028 || u == 0x2029 || u == 0x202F || u == 0x205F || u == 0x3000
}

/// Number of leading whitespace characters.
pub open spec fn lead_ws(s: Seq<char>) -> nat
    decreases s.len(),
{
    if s.len() > 0 && is_ws(s[0]) {
        1 + lead_ws(s.drop_first())
    } else {
        0
    }
}

/// Number of trailing whitespace characters.
pub open spec fn trail_ws(s: Seq<char>) -> nat
    decreases s.len(),
{
    if s.len() > 0 && is_ws(s.last()) {
        1 + trail_ws(s.drop_last())
    } else {
        0
    }
}

/// `str::trim_start`.
pub open spec fn trim_start(s: Seq<char>) -> Seq<char> {
    s.subrange(lead_ws(s) as int, s.len() as int)
}

/// `str::trim_end`.
pub open spec fn trim_end(s: Seq<char>) -> Seq<char> {
    s.subrange(0, s.len() - trail_ws(s))
}

/// `str::trim`.
pub open spec fn trim(s: Seq<char>) -> Seq<char> {
    trim_end(trim_start(s))
}

pub proof fn lemma_lead_ws_bound(s: Seq<char>)
    ensures
        lead_ws(s) <= s.len(),
        forall|k: int| 0 <= k < lead_ws(s) ==> is_ws(#[trigger] s[k]),
        lead_ws(s) < s.len() ==> !is_ws(s[lead_ws(s) as int]),
    decreases s.len(),
{
    if s.len() > 0 && is_ws(s[0]) {
        lemma_lead_ws_bound(s.drop_first());
        assert forall|k: int| 0 <= k < lead_ws(s) implies is_ws(#[trigger] s[k]) by {
            if k > 0 {
                assert(s[k] == s.drop_first()[k - 1]);
            }
        }
    }
}

pub proof fn lemma_trail_ws_bound(s: Seq<char>)
    ensures
        trail_ws(s) <= s.len(),
        forall|k: int| s.len() - trail_ws(s) <= k < s.len() ==> is_ws(#[trigger] s[k]),
        trail_ws(s) < s.len() ==> !is_ws(s[s.len() - trail_ws(s) - 1]),
    decreases s.len(),
{
    if s.len() > 0 && is_ws(s.last()) {
        lemma_trail_ws_bound(s.drop_last());
        assert forall|k: int| s.len() - trail_ws(s) <= k < s.len() implies is_ws(#[trigger] s[k]) by {
            if k < s.len() - 1 {
                assert(s[k] == s.drop_last()[k]);
            }
        }
    }
}

/// `lead_ws` is determined by the first non-whitespace index.
pub proof fn lemma_lead_ws_unique(s: Seq<char>, i: int)
    requires
        0 <= i <= s.len(),
        forall|k: int| 0 <= k < i ==> is_ws(#[trigger] s[k]),
        i < s.len() ==> !is_ws(s[i]),
    ensures
        lead_ws(s) == i,
    decreases s.len(),
{
    if i > 0 {
        assert(is_ws(s[0]));
        assert forall|k: int| 0 <= k < i - 1 implies is_ws(#[trigger] s.drop_first()[k]) by {
            assert(s.drop_first()[k] == s[k + 1]);
        }
        if i < s.len() {
            assert(s.drop_first()[i - 1] == s[i]);
        }
        lemma_lead_ws_unique(s.drop_first(), i - 1);
    }
}

/// `trail_ws` is determined by the last non-whitespace index.
pub proof fn lemma_trail_ws_unique(s: Seq<char>, j: int)
    requires
        0 <= j <= s.len(),
        forall|k: int| j <= k < s.len() ==> is_ws(#[trigger] s[k]),
        j > 0 ==> !is_ws(s[j - 1]),
    ensures
        trail_ws(s) == s.len() - j,
    decreases s.len(),
{
    if j < s.len() {
        assert(is_ws(s.last()));
        assert forall|k: int| j <= k < s.len() - 1 implies is_ws(#[trigger] s.drop_last()[k]) by {
            assert(s.drop_last()[k] == s[k]);
        }
        if j > 0 {
            assert(s.drop_last()[j - 1] == s[j - 1]);
        }
        lemma_trail_ws_unique(s.drop_last(), j);
    }
}

/// The characters of a string slice, in order.
#[verifier::external_body]
pub fn chars_of(s: &str) -> (v: Vec<char>)
    ensures
        v@ == s@,
{
    s.chars().collect()
}

/// `std::str::from_utf8`: the text that the bytes encode when they are valid UTF-8, else
/// `Utf8Error::valid_up_to`, the longest prefix that is valid UTF-8 (which std documents as
/// the maximum index whose prefix decodes).
#[verifier::external_body]
pub fn utf8_text(bytes: &[u8]) -> (r: Result<String, usize>)
    ensures
        r is Ok <==> vstd::utf8::valid_utf8(bytes@),
        r matches Ok(s) ==> s@ == vstd::utf8::decode_utf8(bytes@),
        r matches Err(k) ==> k < bytes@.len() && vstd::utf8::valid_utf8(bytes@.subrange(0, k as int))
            && forall|j: int| k < j <= bytes@.len() ==> !vstd::utf8::valid_utf8(
            #[trigger] bytes@.subrange(0, j),
        ),
{
    match std::str::from_utf8(bytes) {
        Ok(text) => Ok(text.to_string()),
        Err(error) => Err(error.valid_up_to()),
    }
}

/// What `str::to_lowercase` gives for a text: a function of the characters alone
/// (Unicode case mapping, independent of locale).
pub uninterp spec fn lowercase(s: Seq<char>) -> Seq<char>;

/// `str::to_lowercase`: the Unicode lowercase of the text.
#[verifier::external_body]
pub fn to_lowercase(s: &str) -> (r: String)
    ensures
        r@ == lowercase(s@),
{
    s.to_lowercase()
}

/// A string made of the given characters.
#[verifier::external_body]
pub fn string_of(v: &[char]) -> (s: String)
    ensures
        s@ == v@,
{
    v.iter().collect()
}

/// The string slice as an owned `String`.
pub fn owned(s: &str) -> (r: String)
    ensures
        r@ == s@,
{
    s.to_string()
}

/// Characters `v[from..to]`.
pub fn sub_chars(v: &[char], from: usize, to: usize) -> (r: Vec<char>)
    requires
        from <= to <= v@.len(),
    ensures
        r@ == v@.subrange(from as int, to as int),
{
    let mut r: Vec<char> = Vec::new();
    let mut i = from;
    while i < to
        invariant
            from <= i <= to <= v@.len(),
            r@ == v@.subrange(from as int, i as int),
        decreases to - i,
    {
        r.push(v[i]);
        i += 1;
    }
    r
}

/// Bounds of the trimmed range: `(lead, end)` with `trim(s) == s[lead..end]`.
pub fn trim_bounds(v: &[char]) -> (r: (usize, usize))
    ensures
        r.0 <= r.1 <= v@.len(),
        trim(v@) == v@.subrange(r.0 as int, r.1 as int),
        r.0 == lead_ws(v@),
{
    let n = v.len();
    let mut i: usize = 0;
    while i < n && char_is_ws(v[i])
        invariant
            i <= n == v@.len(),
            forall|k: int| 0 <= k < i ==> is_ws(#[trigger] v@[k]),
        decreases n - i,
    {
        i += 1;
    }
    proof {
        lemma_lead_ws_unique(v@, i as int);
    }
    let mut j: usize = n;
    while j > i && char_is_ws(v[j - 1])
        invariant
            i <= j <= n == v@.len(),
            forall|k: int| j <= k < n ==> is_ws(#[trigger] v@[k]),
        decreases j,
    {
        j -= 1;
    }
    proof {
        let t = trim_start(v@);
        assert(t == v@.subrange(i as int, n as int));
        assert forall|k: int| j - i <= k < t.len() implies is_ws(#[trigger] t[k]) by {
            assert(t[k] == v@[k + i]);
        }
        if j > i {
            assert(t[j - i - 1] == v@[j - 1]);
        }
        lemma_trail_ws_unique(t, (j - i) as int);
        assert(trim(v@) =~= v@.subrange(i as int, j as int));
    }
    (i, j)
}

/// `str::trim` on a character vector.
pub fn trim_chars(v: &[char]) -> (r: Vec<char>)
    ensures
        r@ == trim(v@),
{
    let (a, b) = trim_bounds(v);
    sub_chars(v, a, b)
}

/// `str::trim`, producing an owned string.
pub fn trim_str(s: &str) -> (r: String)
    ensures
        r@ == trim(s@),
{
    let v = chars_of(s);
    let t = trim_chars(&v);
    string_of(&t)
}

/// Whether `trim(s)` is empty, i.e. `s` is all whitespace.
pub open spec fn is_blank(s: Seq<char>) -> bool {
    forall|k: int| 0 <= k < s.len() ==> is_ws(#[trigger] s[k])
}

pub proof fn lemma_blank_iff_trim_empty(s: Seq<char>)
    ensures
        is_blank(s) <==> trim(s).len() == 0,
{
    lemma_lead_ws_bound(s);
    let t = trim_start(s);
    lemma_trail_ws_bound(t);
    if lead_ws(s) < s.len() {
        assert(t.len() > 0);
        assert(t[0] == s[lead_ws(s) as int]);
        if trail_ws(t) == t.len() {
            assert(is_ws(t[0]));
        }
    } else {
        assert forall|k: int| 0 <= k < s.len() implies is_ws(#[trigger] s[k]) by {}
    }
}

/// `trim(s)` is the slice of `s` that starts after its leading whitespace.
pub proof fn lemma_trim_slice(s: Seq<char>)
    ensures
        lead_ws(s) + trim(s).len() <= s.len(),
        trim(s) == s.subrange(lead_ws(s) as int, (lead_ws(s) + trim(s).len()) as int),
{
    lemma_lead_ws_bound(s);
    lemma_trail_ws_bound(trim_start(s));
    assert(trim(s) =~= s.subrange(lead_ws(s) as int, (lead_ws(s) + trim(s).len()) as int));
}

/// Trimming twice is trimming once.
pub proof fn lemma_trim_idempotent(s: Seq<char>)
    ensures
        trim(trim(s)) == trim(s),
{
    let t = trim(s);
    let u = trim_start(s);
    lemma_lead_ws_bound(s);
    lemma_trail_ws_bound(u);
    if t.len() == 0 {
        assert(trim(t) =~= t);
    } else {
        assert(t[0] == u[0]);
        assert(u[0] == s[lead_ws(s) as int]);
        assert(t[t.len() - 1] == u[u.len() - trail_ws(u) - 1]);
        lemma_lead_ws_unique(t, 0);
        assert(trim_start(t) =~= t);
        lemma_trail_ws_unique(t, t.len() as int);
        assert(trim(t) =~= t);
    }
}

/// A trimmed text holds only characters of the text.
pub proof fn lemma_trim_contains(s: Seq<char>, c: char)
    ensures
        trim(s).contains(c) ==> s.contains(c),
{
    lemma_trim_slice(s);
    if trim(s).contains(c) {
        let k = choose|k: int| 0 <= k < trim(s).len() && trim(s)[k] == c;
        assert(s[lead_ws(s) + k] == c);
    }
}

/// UTF-8 encoding distributes over concatenation.
pub proof fn lemma_encode_utf8_concat(a: Seq<char>, b: Seq<char>)
    ensures
        vstd::utf8::encode_utf8(a + b) == vstd::utf8::encode_utf8(a) + vstd::utf8::encode_utf8(b),
    decreases a.len(),
{
    if a.len() == 0 {
        assert(a + b =~= b);
        assert(vstd::utf8::encode_utf8(a) + vstd::utf8::encode_utf8(b) =~= vstd::utf8::encode_utf8(
            b,
        ));
    } else {
        lemma_encode_utf8_concat(a.drop_first(), b);
        assert((a + b).drop_first() =~= a.drop_first() + b);
        assert((a + b)[0] == a[0]);
        assert(vstd::utf8::encode_utf8(a + b) =~= vstd::utf8::encode_utf8(a)
            + vstd::utf8::encode_utf8(b));
    }
}

/// A slice of a text never takes more UTF-8 bytes than the text.
pub proof fn lemma_encode_utf8_subrange_len(s: Seq<char>, i: int, j: int)
    requires
        0 <= i <= j <= s.len(),
    ensures
        vstd::utf8::encode_utf8(s.subrange(i, j)).len() <= vstd::utf8::encode_utf8(s).len(),
{
    let p = s.subrange(0, i);
    let m = s.subrange(i, j);
    let q = s.subrange(j, s.len() as int);
    assert(s =~= p + m + q);
    lemma_encode_utf8_concat(p + m, q);
    lemma_encode_utf8_concat(p, m);
}

pub fn is_blank_chars(v: &[char]) -> (r: bool)
    ensures
        r == is_blank(v@),
        r == (trim(v@).len() == 0),
{
    proof {
        lemma_blank_iff_trim_empty(v@);
    }
    let mut i: usize = 0;
    while i < v.len()
        invariant
            i <= v@.len(),
            forall|k: int| 0 <= k < i ==> is_ws(#[trigger] v@[k]),
        decreases v@.len() - i,
    {
        if !char_is_ws(v[i]) {
            assert(!is_ws(v@[i as int]));
            proof {
                lemma_blank_iff_trim_empty(v@);
            }
            return false;
        }
        i += 1;
    }
    proof {
        lemma_blank_iff_trim_empty(v@);
    }
    true
}

/// Whether the character occurs in the vector.
pub fn has_char(v: &[char], c: char) -> (r: bool)
    ensures
        r == v@.contains(c),
{
    let mut i: usize = 0;
    while i < v.len()
        invariant
            i <= v@.len(),
            forall|k: int| 0 <= k < i ==> v@[k] != c,
        decreases v@.len() - i,
    {
        if v[i] == c {
            assert(v@[i as int] == c);
            return true;
        }
        i += 1;
    }
    false
}

/// `needle` occurs in `hay` at position `i`.
pub open spec fn occurs_at(hay: Seq<char>, needle: Seq<char>, i: int) -> bool {
    0 <= i && i + needle.len() <= hay.len() && hay.subrange(i, i + needle.len()) == needle
}

/// `str::contains` on a pattern.
pub open spec fn contains_seq(hay: Seq<char>, needle: Seq<char>) -> bool {
    exists|i: int| #[trigger] occurs_at(hay, needle, i)
}

/// `str::find`: the first position at which `needle` occurs.
pub open spec fn find_seq(hay: Seq<char>, needle: Seq<char>) -> Option<int> {
    if contains_seq(hay, needle) {
        Some(
            choose|i: int|
                #[trigger] occurs_at(hay, needle, i) && forall|k: int|
                    0 <= k < i ==> !occurs_at(hay, needle, k),
        )
    } else {
        None
    }
}

/// Whether `needle` occurs at `i`, checked element by element.
pub fn matches_at(hay: &[char], needle: &[char], i: usize) -> (r: bool)
    ensures
        r == occurs_at(hay@, needle@, i as int),
{
    if i > hay.len() || needle.len() > hay.len() - i {
        return false;
    }
    let n = needle.len();
    let mut k: usize = 0;
    while k < n
        invariant
            n == needle@.len(),
            hay.len() == hay@.len(),
            i + needle@.len() <= hay@.len(),
            i <= hay@.len(),
            k <= needle@.len(),
            forall|j: int| 0 <= j < k ==> hay@[i + j] == needle@[j],
        decreases needle@.len() - k,
    {
        if hay[i + k] != needle[k] {
            assert(hay@.subrange(i as int, i + needle@.len())[k as int] != needle@[k as int]);
            return false;
        }
        k += 1;
    }
    assert(hay@.subrange(i as int, i + needle@.len()) =~= needle@);
    true
}

/// `str::find` from a starting position: the first occurrence at or after `from`.
pub fn find_from(hay: &[char], needle: &[char], from: usize) -> (r: Option<usize>)
    requires
        from <= hay@.len(),
    ensures
        match r {
            Some(i) => from <= i && occurs_at(hay@, needle@, i as int) && forall|k: int|
                from <= k < i ==> !occurs_at(hay@, needle@, k),
            None => forall|k: int| from <= k ==> !occurs_at(hay@, needle@, k),
        },
{
    let mut i = from;
    while i < hay.len()
        invariant
            from <= i <= hay@.len(),
            forall|k: int| from <= k < i ==> !occurs_at(hay@, needle@, k),
        decreases hay@.len() - i,
    {
        if matches_at(hay, needle, i) {
            return Some(i);
        }
        i += 1;
    }
    if matches_at(hay, needle, i) {
        return Some(i);
    }
    assert forall|k: int| from <= k implies !occurs_at(hay@, needle@, k) by {
        if k > i {
            assert(k + needle@.len() > hay@.len());
        }
    }
    None
}

/// `str::find`.
pub fn find_chars(hay: &[char], needle: &[char]) -> (r: Option<usize>)
    ensures
        match r {
            Some(i) => find_seq(hay@, needle@) == Some(i as int) && occurs_at(hay@, needle@, i as int),
            None => find_seq(hay@, needle@) is None,
        },
{
    let r = find_from(hay, needle, 0);
    match r {
        Some(i) => {
            assert(occurs_at(hay@, needle@, i as int));
            let ghost c = choose|j: int|
                #[trigger] occurs_at(hay@, needle@, j) && forall|k: int|
                    0 <= k < j ==> !occurs_at(hay@, needle@, k);
            assert(occurs_at(hay@, needle@, c));
            assert(c == i) by {
                if c < i {
                } else if c > i {
                    assert(!occurs_at(hay@, needle@, i as int));
                }
            }
        },
        None => {},
    }
    r
}

/// `str::starts_with`.
pub open spec fn starts_with(s: Seq<char>, p: Seq<char>) -> bool {
    p.len() <= s.len() && s.subrange(0, p.len() as int) == p
}

/// `str::ends_with`.
pub open spec fn ends_with(s: Seq<char>, p: Seq<char>) -> bool {
    p.len() <= s.len() && s.subrange(s.len() - p.len(), s.len() as int) == p
}

pub fn starts_with_chars(s: &[char], p: &[char]) -> (r: bool)
    ensures
        r == starts_with(s@, p@),
{
    let r = matches_at(s, p, 0);
    r
}

pub fn ends_with_chars(s: &[char], p: &[char]) -> (r: bool)
    ensures
        r == ends_with(s@, p@),
{
    if p.len() > s.len() {
        return false;
    }
    matches_at(s, p, s.len() - p.len())
}

/// Whether two character vectors are equal.
pub fn chars_eq(a: &[char], b: &[char]) -> (r: bool)
    ensures
        r == (a@ == b@),
{
    if a.len() != b.len() {
        return false;
    }
    let r = matches_at(a, b, 0);
    proof {
        if r {
            assert(a@ =~= a@.subrange(0, b@.len() as int));
        } else {
            assert(a@.subrange(0, b@.len() as int) =~= a@);
        }
    }
    r
}

/// Whether two strings are equal.
pub fn str_eq(a: &str, b: &str) -> (r: bool)
    ensures
        r == (a@ == b@),
{
    let va = chars_of(a);
    let vb = chars_of(b);
    chars_eq(&va, &vb)
}

/// Concatenation of two character vectors.
pub fn concat_chars(a: &[char], b: &[char]) -> (r: Vec<char>)
    ensures
        r@ == a@ + b@,
{
    let mut r: Vec<char> = Vec::new();
    let mut i: usize = 0;
    while i < a.len()
        invariant
            i <= a@.len(),
            r@ == a@.subrange(0, i as int),
        decreases a@.len() - i,
    {
        r.push(a[i]);
        i += 1;
    }
    let mut j: usize = 0;
    while j < b.len()
        invariant
            j <= b@.len(),
            r@ == a@ + b@.subrange(0, j as int),
        decreases b@.len() - j,
    {
        r.push(b[j]);
        j += 1;
    }
    assert(a@.subrange(0, a@.len() as int) =~= a@);
    assert(b@.subrange(0, b@.len() as int) =~= b@);
    r
}

/// Append all characters of `b` to `r`.
pub fn push_all(r: &mut Vec<char>, b: &[char])
    ensures
        final(r)@ == old(r)@ + b@,
{
    let mut j: usize = 0;
    while j < b.len()
        invariant
            j <= b@.len(),
            r@ == old(r)@ + b@.subrange(0, j as int),
        decreases b@.len() - j,
    {
        r.push(b[j]);
        j += 1;
    }
    assert(b@.subrange(0, b@.len() as int) =~= b@);
}

/// Append the characters of a string slice to `r`.
pub fn push_str(r: &mut Vec<char>, s: &str)
    ensures
        final(r)@ == old(r)@ + s@,
{
    let v = chars_of(s);
    push_all(r, &v);
}

/// Lexicographic order on characters by code point; for UTF-8 strings this is the order of
/// `str`'s `Ord`.
pub open spec fn seq_lt(a: Seq<char>, b: Seq<char>) -> bool
    decreases a.len(),
{
    if a.len() == 0 {
        b.len() > 0
    } else if b.len() == 0 {
        false
    } else if (a[0] as u32) < (b[0] as u32) {
        true
    } else if a[0] == b[0] {
        seq_lt(a.drop_first(), b.drop_first())
    } else {
        false
    }
}

pub proof fn lemma_seq_lt_irreflexive(a: Seq<char>)
    ensures
        !seq_lt(a, a),
    decreases a.len(),
{
    if a.len() > 0 {
        lemma_seq_lt_irreflexive(a.drop_first());
    }
}

pub proof fn lemma_seq_lt_transitive(a: Seq<char>, b: Seq<char>, c: Seq<char>)
    requires
        seq_lt(a, b),
        seq_lt(b, c),
    ensures
        seq_lt(a, c),
    decreases a.len(),
{
    if a.len() > 0 && b.len() > 0 && c.len() > 0 {
        if a[0] == b[0] && b[0] == c[0] {
            lemma_seq_lt_transitive(a.drop_first(), b.drop_first(), c.drop_first());
        }
    }
}

pub proof fn lemma_seq_lt_total(a: Seq<char>, b: Seq<char>)
    ensures
        a == b || seq_lt(a, b) || seq_lt(b, a),
    decreases a.len(),
{
    if a.len() > 0 && b.len() > 0 && a[0] == b[0] {
        lemma_seq_lt_total(a.drop_first(), b.drop_first());
        if a.drop_first() == b.drop_first() {
            assert(a =~= seq![a[0]] + a.drop_first());
            assert(b =~= seq![b[0]] + b.drop_first());
        }
    } else if a.len() == 0 && b.len() == 0 {
        assert(a =~= b);
    } else if a.len() > 0 && b.len() > 0 {
        vstd::utf8::char_u32_cast(a[0], a[0] as u32);
        vstd::utf8::char_u32_cast(b[0], b[0] as u32);
        assert((a[0] as u32) != (b[0] as u32));
    }
}

pub proof fn lemma_seq_lt_asymmetric(a: Seq<char>, b: Seq<char>)
    ensures
        seq_lt(a, b) ==> !seq_lt(b, a),
{
    if seq_lt(a, b) && seq_lt(b, a) {
        lemma_seq_lt_transitive(a, b, a);
        lemma_seq_lt_irreflexive(a);
    }
}

/// `a < b` on character vectors, by the order `seq_lt`.
pub fn chars_lt(a: &[char], b: &[char]) -> (r: bool)
    ensures
        r == seq_lt(a@, b@),
{
    let mut i: usize = 0;
    assert(a@.skip(0) =~= a@);
    assert(b@.skip(0) =~= b@);
    while i < a.len() && i < b.len()
        invariant
            i <= a@.len(),
            i <= b@.len(),
            seq_lt(a@, b@) == seq_lt(a@.skip(i as int), b@.skip(i as int)),
        decreases a@.len() - i,
    {
        let x = a[i];
        let y = b[i];
        proof {
            assert(a@.skip(i as int)[0] == x);
            assert(b@.skip(i as int)[0] == y);
            assert(a@.skip(i as int).drop_first() =~= a@.skip(i + 1));
            assert(b@.skip(i as int).drop_first() =~= b@.skip(i + 1));
        }
        if (x as u32) < (y as u32) {
            return true;
        }
        if x != y {
            return false;
        }
        i += 1;
    }
    i == a.len() && i < b.len()
}

/// `a < b` on strings.
pub fn str_lt(a: &str, b: &str) -> (r: bool)
    ensures
        r == seq_lt(a@, b@),
{
    let va = chars_of(a);
    let vb = chars_of(b);
    chars_lt(&va, &vb)
}


/// `str::contains` on a pattern.
pub fn contains_chars(hay: &[char], needle: &[char]) -> (r: bool)
    ensures
        r == contains_seq(hay@, needle@),
{
    find_chars(hay, needle).is_some()
}

/// The part after the last `c` (the whole text when there is none): the first item of
/// `str::rsplit(c)`.
pub open spec fn after_last(s: Seq<char>, c: char) -> Seq<char>
    decreases s.len(),
{
    if s.len() == 0 {
        s
    } else if s.last() == c {
        Seq::empty()
    } else {
        after_last(s.drop_last(), c).push(s.last())
    }
}

pub fn after_last_chars(v: &[char], c: char) -> (r: Vec<char>)
    ensures
        r@ == after_last(v@, c),
{
    let mut k = v.len();
    assert(v@.subrange(k as int, v@.len() as int).len() == 0);
    assert(v@.subrange(0, k as int) =~= v@);
    while k > 0 && v[k - 1] != c
        invariant
            k <= v@.len(),
            after_last(v@, c) == after_last(v@.subrange(0, k as int), c) + v@.subrange(
                k as int,
                v@.len() as int,
            ),
        decreases k,
    {
        let ghost p = v@.subrange(0, k as int);
        assert(p.drop_last() =~= v@.subrange(0, k - 1));
        assert(v@.subrange(k - 1, v@.len() as int) =~= seq![v@[k - 1]] + v@.subrange(
            k as int,
            v@.len() as int,
        ));
        assert(after_last(p, c) == after_last(v@.subrange(0, k - 1), c).push(v@[k - 1]));
        assert(after_last(v@.subrange(0, k - 1), c).push(v@[k - 1]) + v@.subrange(
            k as int,
            v@.len() as int,
        ) =~= after_last(v@.subrange(0, k - 1), c) + v@.subrange(k - 1, v@.len() as int));
        k -= 1;
    }
    if k > 0 {
        assert(v@.subrange(0, k as int).last() == c);
    }
    assert(after_last(v@.subrange(0, k as int), c) =~= Seq::<char>::empty());
    assert(after_last(v@, c) =~= v@.subrange(k as int, v@.len() as int));
    sub_chars(v, k, v.len())
}


pub open spec fn chars_view(v: Seq<Vec<char>>) -> Seq<Seq<char>> {
    v.map_values(|x: Vec<char>| x@)
}

/// The parts joined with a separator (`slice::join`).
pub open spec fn join_with(parts: Seq<Seq<char>>, sep: Seq<char>) -> Seq<char>
    decreases parts.len(),
{
    if parts.len() == 0 {
        Seq::empty()
    } else if parts.len() == 1 {
        parts[0]
    } else {
        join_with(parts.drop_last(), sep) + sep + parts.last()
    }
}

pub fn join_chars(parts: &Vec<Vec<char>>, sep: &[char]) -> (r: Vec<char>)
    ensures
        r@ == join_with(chars_view(parts@), sep@),
{
    let ghost p = chars_view(parts@);
    let mut r: Vec<char> = Vec::new();
    let mut i: usize = 0;
    while i < parts.len()
        invariant
            i <= parts@.len(),
            p == chars_view(parts@),
            r@ == join_with(p.subrange(0, i as int), sep@),
        decreases parts@.len() - i,
    {
        let ghost q = p.subrange(0, i + 1);
        assert(q.drop_last() =~= p.subrange(0, i as int));
        assert(q.last() == parts@[i as int]@);
        if i > 0 {
            push_all(&mut r, sep);
        }
        push_all(&mut r, parts[i].as_slice());
        if i == 0 {
            assert(r@ =~= q[0]);
        }
        i += 1;
    }
    assert(p.subrange(0, p.len() as int) =~= p);
    r
}

/// `split_whitespace().join(" ")`: the words of the text, one space apart. `pending` is a
/// whitespace run seen after a word, `started` whether a word was written.
pub open spec fn squash_from(s: Seq<char>, pending: bool, started: bool) -> Seq<char>
    decreases s.len(),
{
    if s.len() == 0 {
        Seq::empty()
    } else if is_ws(s[0]) {
        squash_from(s.drop_first(), started, started)
    } else {
        (if pending {
            seq![' ']
        } else {
            Seq::empty()
        }) + seq![s[0]] + squash_from(s.drop_first(), false, true)
    }
}

pub open spec fn squash_ws(s: Seq<char>) -> Seq<char> {
    squash_from(s, false, false)
}

pub fn squash_ws_chars(v: &[char]) -> (r: Vec<char>)
    ensures
        r@ == squash_ws(v@),
{
    let mut r: Vec<char> = Vec::new();
    let mut pending = false;
    let mut started = false;
    let mut i: usize = 0;
    assert(v@.subrange(0, v@.len() as int) =~= v@);
    while i < v.len()
        invariant
            i <= v@.len(),
            r@ + squash_from(v@.subrange(i as int, v@.len() as int), pending, started) == squash_ws(v@),
        decreases v@.len() - i,
    {
        let ghost rest = v@.subrange(i as int, v@.len() as int);
        assert(rest.drop_first() =~= v@.subrange(i + 1, v@.len() as int));
        assert(rest[0] == v@[i as int]);
        let c = v[i];
        if char_is_ws(c) {
            pending = started;
        } else {
            let ghost before = r@;
            if pending {
                r.push(' ');
            }
            r.push(c);
            assert(r@ + squash_from(v@.subrange(i + 1, v@.len() as int), false, true) =~= before
                + squash_from(rest, pending, started));
            pending = false;
            started = true;
        }
        i += 1;
    }
    assert(r@ + squash_from(v@.subrange(i as int, v@.len() as int), pending, started) =~= r@);
    r
}

/// The first occurrence of `needle` at or after `from`.
pub open spec fn first_occ_from(hay: Seq<char>, needle: Seq<char>, from: int) -> Option<int> {
    if exists|i: int| from <= i && #[trigger] occurs_at(hay, needle, i) {
        Some(
            choose|i: int|
                from <= i && #[trigger] occurs_at(hay, needle, i) && forall|k: int|
                    from <= k < i ==> !occurs_at(hay, needle, k),
        )
    } else {
        None
    }
}

/// Number of non-overlapping occurrences, scanning from the left (`str::matches().count()`).
pub open spec fn count_occ_from(hay: Seq<char>, needle: Seq<char>, from: int) -> nat
    decreases hay.len() - from,
{
    if needle.len() == 0 || from < 0 || from > hay.len() {
        0
    } else {
        match first_occ_from(hay, needle, from) {
            None => 0,
            Some(k) => if from <= k && k + needle.len() <= hay.len() {
                1 + count_occ_from(hay, needle, k + needle.len())
            } else {
                0
            },
        }
    }
}

pub open spec fn count_occ(hay: Seq<char>, needle: Seq<char>) -> nat {
    count_occ_from(hay, needle, 0)
}

proof fn lemma_first_occ_from(hay: Seq<char>, needle: Seq<char>, from: int, i: int)
    requires
        from <= i,
        occurs_at(hay, needle, i),
        forall|k: int| from <= k < i ==> !occurs_at(hay, needle, k),
    ensures
        first_occ_from(hay, needle, from) == Some(i),
{
    let c = choose|j: int|
        from <= j && #[trigger] occurs_at(hay, needle, j) && forall|k: int|
            from <= k < j ==> !occurs_at(hay, needle, k);
    assert(occurs_at(hay, needle, c));
    if c < i {
    } else if c > i {
        assert(!occurs_at(hay, needle, i));
    }
}

/// The number of non-overlapping occurrences of a non-empty needle.
pub fn count_occurrences(hay: &[char], needle: &[char]) -> (r: usize)
    requires
        needle@.len() > 0,
    ensures
        r == count_occ(hay@, needle@),
{
    let mut count: usize = 0;
    let mut pos: usize = 0;
    while pos <= hay.len()
        invariant
            needle@.len() > 0,
            pos <= hay@.len() + 1,
            count <= pos,
            pos <= hay@.len() ==> count + count_occ_from(hay@, needle@, pos as int) == count_occ(
                hay@,
                needle@,
            ),
            pos > hay@.len() ==> count == count_occ(hay@, needle@),
        decreases hay@.len() + 1 - pos,
    {
        match find_from(hay, needle, pos) {
            Some(k) => {
                proof {
                    lemma_first_occ_from(hay@, needle@, pos as int, k as int);
                }
                count += 1;
                pos = k + needle.len();
                if pos > hay.len() {
                    assert(false);
                }
            },
            None => {
                assert(!(exists|i: int| pos <= i && #[trigger] occurs_at(hay@, needle@, i)));
                assert(count_occ_from(hay@, needle@, pos as int) == 0);
                return count;
            },
        }
    }
    count
}


/// The number of non-overlapping occurrences, as other modules see it.
pub closed spec fn occurrences(hay: Seq<char>, needle: Seq<char>) -> nat {
    count_occ(hay, needle)
}

/// The first occurrence, as other modules see it.
pub closed spec fn first_index(hay: Seq<char>, needle: Seq<char>) -> Option<int> {
    find_seq(hay, needle)
}

/// A text with an occurrence has a first one.
pub proof fn lemma_occurrences_first(hay: Seq<char>, needle: Seq<char>)
    ensures
        occurrences(hay, needle) > 0 ==> first_index(hay, needle) is Some,
{
    if count_occ(hay, needle) > 0 {
        let k = first_occ_from(hay, needle, 0)->0;
        assert(exists|i: int| 0 <= i && #[trigger] occurs_at(hay, needle, i));
        let i = choose|i: int| 0 <= i && #[trigger] occurs_at(hay, needle, i);
        assert(occurs_at(hay, needle, i));
        assert(contains_seq(hay, needle));
    }
}

pub fn occurrences_of(hay: &[char], needle: &[char]) -> (r: usize)
    requires
        needle@.len() > 0,
    ensures
        r == occurrences(hay@, needle@),
{
    count_occurrences(hay, needle)
}

pub fn first_index_of(hay: &[char], needle: &[char]) -> (r: Option<usize>)
    ensures
        r is None ==> first_index(hay@, needle@) is None,
        r matches Some(i) ==> first_index(hay@, needle@) == Some(i as int) && i + needle@.len()
            <= hay@.len(),
{
    let r = find_chars(hay, needle);
    if let Some(i) = r {
        assert(occurs_at(hay@, needle@, i as int));
    }
    r
}


proof fn lemma_min_occurrence(hay: Seq<char>, needle: Seq<char>, j: int)
    requires
        occurs_at(hay, needle, j),
    ensures
        exists|i: int|
            #[trigger] occurs_at(hay, needle, i) && forall|k: int| 0 <= k < i ==> !occurs_at(hay, needle, k),
    decreases j,
{
    if exists|k: int| 0 <= k < j && #[trigger] occurs_at(hay, needle, k) {
        let k = choose|k: int| 0 <= k < j && #[trigger] occurs_at(hay, needle, k);
        lemma_min_occurrence(hay, needle, k);
    } else {
        assert(forall|k: int| 0 <= k < j ==> !occurs_at(hay, needle, k));
    }
}

/// What the first occurrence is: absent exactly when there is none, else the least one.
pub proof fn lemma_first_index_spec(hay: Seq<char>, needle: Seq<char>)
    ensures
        first_index(hay, needle) is None <==> forall|k: int| !#[trigger] occurs_at(hay, needle, k),
        first_index(hay, needle) matches Some(i) ==> occurs_at(hay, needle, i) && forall|k: int|
            0 <= k < i ==> !#[trigger] occurs_at(hay, needle, k),
{
    if contains_seq(hay, needle) {
        let j = choose|j: int| #[trigger] occurs_at(hay, needle, j);
        lemma_min_occurrence(hay, needle, j);
    }
}

/// The least occurrence is the first one.
pub proof fn lemma_first_index_at(hay: Seq<char>, needle: Seq<char>, i: int)
    requires
        occurs_at(hay, needle, i),
        forall|k: int| 0 <= k < i ==> !#[trigger] occurs_at(hay, needle, k),
    ensures
        first_index(hay, needle) == Some(i),
{
    lemma_first_index_spec(hay, needle);
    let f = first_index(hay, needle)->0;
    if f < i {
        assert(occurs_at(hay, needle, f));
    } else if f > i {
        assert(!occurs_at(hay, needle, i));
    }
}

/// Whitespace around a trimmed text trims away.
pub proof fn lemma_trim_wrapped(t: Seq<char>)
    requires
        trim(t) == t,
    ensures
        trim(seq!['\n'] + t + seq!['\n']) == t,
{
    let s = seq!['\n'] + t + seq!['\n'];
    assert(is_ws('\n'));
    lemma_blank_iff_trim_empty(t);
    if t.len() == 0 {
        assert(is_blank(s)) by {
            assert(s =~= seq!['\n', '\n']);
        }
        lemma_blank_iff_trim_empty(s);
    } else {
        lemma_lead_ws_bound(t);
        lemma_trail_ws_bound(trim_start(t));
        // t starts and ends with non-whitespace, since trimming leaves it unchanged
        lemma_trim_slice(t);
        assert(lead_ws(t) == 0) by {
            if lead_ws(t) > 0 {
                assert(trim(t).len() <= t.len() - lead_ws(t));
            }
        }
        assert(!is_ws(t[0]));
        assert(trim_start(t) =~= t);
        assert(trail_ws(t) == 0) by {
            if trail_ws(t) > 0 {
                assert(trim(t).len() < t.len());
            }
        }
        assert(!is_ws(t[t.len() - 1])) by {
            lemma_trail_ws_bound(t);
        }
        assert forall|k: int| 0 <= k < 1 implies is_ws(#[trigger] s[k]) by {}
        assert(s[1] == t[0]);
        lemma_lead_ws_unique(s, 1);
        let u = trim_start(s);
        assert(u =~= t + seq!['\n']);
        assert forall|k: int| u.len() - 1 <= k < u.len() implies is_ws(#[trigger] u[k]) by {}
        assert(u[u.len() - 2] == t[t.len() - 1]);
        lemma_trail_ws_unique(u, u.len() - 1);
        assert(trim(s) =~= t);
    }
}


pub open spec fn digit_char(d: nat) -> char {
    ((48 + d) as u8) as char
}

/// Decimal digits of a number, without leading zeros.
pub open spec fn decimal(n: nat) -> Seq<char>
    decreases n,
{
    if n < 10 {
        seq![digit_char(n)]
    } else {
        decimal(n / 10).push(digit_char(n % 10))
    }
}

/// Appends the decimal digits of `n`.
pub fn push_decimal(out: &mut Vec<char>, n: u64)
    ensures
        final(out)@ == old(out)@ + decimal(n as nat),
    decreases n,
{
    if n >= 10 {
        push_decimal(out, n / 10);
    }
    let d = (n % 10) as u8;
    out.push((48u8 + d) as char);
    assert(out@ =~= old(out)@ + decimal(n as nat));
}


/// Bytes `v[from..to]`.
pub fn sub_bytes(v: &[u8], from: usize, to: usize) -> (r: Vec<u8>)
    requires
        from <= to <= v@.len(),
    ensures
        r@ == v@.subrange(from as int, to as int),
{
    let mut r: Vec<u8> = Vec::new();
    let mut i = from;
    while i < to
        invariant
            from <= i <= to <= v@.len(),
            r@ == v@.subrange(from as int, i as int),
        decreases to - i,
    {
        r.push(v[i]);
        i += 1;
    }
    r
}


/// The parts of `s` between occurrences of `c` (`str::split`).
pub open spec fn split_on(s: Seq<char>, c: char) -> Seq<Seq<char>>
    decreases s.len(),
{
    if s.len() == 0 {
        seq![Seq::empty()]
    } else {
        let rest = split_on(s.drop_last(), c);
        if s.last() == c {
            rest.push(Seq::empty())
        } else {
            rest.update(rest.len() - 1, rest.last().push(s.last()))
        }
    }
}

pub proof fn lemma_split_on_len(s: Seq<char>, c: char)
    ensures
        split_on(s, c).len() >= 1,
    decreases s.len(),
{
    if s.len() > 0 {
        lemma_split_on_len(s.drop_last(), c);
    }
}

pub fn split_chars(v: &[char], c: char) -> (r: Vec<Vec<char>>)
    ensures
        chars_view(r@) == split_on(v@, c),
{
    let mut parts: Vec<Vec<char>> = Vec::new();
    parts.push(Vec::new());
    let mut i: usize = 0;
    assert(chars_view(parts@) =~= split_on(v@.subrange(0, 0), c));
    while i < v.len()
        invariant
            i <= v@.len(),
            parts@.len() >= 1,
            chars_view(parts@) == split_on(v@.subrange(0, i as int), c),
        decreases v@.len() - i,
    {
        let ghost before = parts@;
        assert(v@.subrange(0, i + 1).drop_last() =~= v@.subrange(0, i as int));
        let d = v[i];
        if d == c {
            parts.push(Vec::new());
            assert(chars_view(parts@) =~= chars_view(before).push(Seq::<char>::empty()));
        } else {
            let n = parts.len() - 1;
            let mut last = parts.pop().unwrap();
            let ghost lastv = last@;
            last.push(d);
            parts.push(last);
            assert(chars_view(parts@) =~= chars_view(before).update(n as int, lastv.push(d)));
        }
        i += 1;
    }
    assert(v@.subrange(0, v@.len() as int) =~= v@);
    parts
}

} // verus!
