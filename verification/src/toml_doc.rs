//! TOML documents through `toml_edit`: parsing the root table, rendering and updating
//! string keys while keeping the rest of a document as it was.
use vstd::prelude::*;

verus! {

/// One root-table entry: its key and, when the item is a string value, that string.
#[derive(Debug)]
pub struct TomlEntry {
    pub key: String,
    pub text: Option<String>,
}

pub open spec fn entry_view(e: TomlEntry) -> (Seq<char>, Option<Seq<char>>) {
    (e.key@, crate::model::opt_view(e.text))
}

pub open spec fn entries_view(v: Seq<TomlEntry>) -> Seq<(Seq<char>, Option<Seq<char>>)> {
    v.map_values(|e: TomlEntry| entry_view(e))
}

pub open spec fn opt_entries_view(r: Option<Vec<TomlEntry>>) -> Option<
    Seq<(Seq<char>, Option<Seq<char>>)>,
> {
    match r {
        Some(v) => Some(entries_view(v@)),
        None => None,
    }
}

pub open spec fn pairs_view(p: Seq<(String, String)>) -> Seq<(Seq<char>, Seq<char>)> {
    p.map_values(|x: (String, String)| (x.0@, x.1@))
}

/// The root table of `text` as parsed by `toml_edit::DocumentMut`: its entries in document
/// order, each with its string value when it is a string; `None` when `text` is not TOML.
pub uninterp spec fn toml_root_entries(text: Seq<char>) -> Option<
    Seq<(Seq<char>, Option<Seq<char>>)>,
>;

/// The first entry with the given key, looked up the way `DocumentMut::get` finds it.
pub open spec fn lookup_entry(e: Seq<(Seq<char>, Option<Seq<char>>)>, key: Seq<char>) -> Option<
    Option<Seq<char>>,
>
    decreases e.len(),
{
    if e.len() == 0 {
        None
    } else if e[0].0 == key {
        Some(e[0].1)
    } else {
        lookup_entry(e.drop_first(), key)
    }
}

/// What a rendered document shows of a root entry: a string again, nothing for nothing, and
/// for anything else the same or nothing.
pub open spec fn entry_kept(after: Option<Option<Seq<char>>>, before: Option<Option<Seq<char>>>) -> bool {
    match before {
        Some(Some(t)) => after == Some(Some(t)),
        Some(None) => after is None || after == Some(None::<Seq<char>>),
        None => after is None,
    }
}

/// The keys of the pairs are pairwise distinct.
pub open spec fn distinct_keys(p: Seq<(Seq<char>, Seq<char>)>) -> bool {
    forall|i: int, j: int| 0 <= i < j < p.len() ==> #[trigger] p[i].0 != #[trigger] p[j].0
}

/// Some pair sets the key.
pub open spec fn sets_key(p: Seq<(Seq<char>, Seq<char>)>, key: Seq<char>) -> bool {
    exists|i: int| 0 <= i < p.len() && #[trigger] p[i].0 == key
}

/// Parses `text` as a TOML document (`str::parse::<toml_edit::DocumentMut>`) and lists its
/// root entries with `Item::as_str` of each item. The contract names the result only.
#[verifier::external_body]
pub(crate) fn toml_entries(text: &str) -> (r: Option<Vec<TomlEntry>>)
    ensures
        opt_entries_view(r) == toml_root_entries(text@),
{
    let document = text.parse::<toml_edit::DocumentMut>().ok()?;
    Some(
        document.iter().map(
            |(key, item)| TomlEntry { key: key.to_string(), text: item.as_str().map(str::to_string) },
        ).collect(),
    )
}

/// Puts a root entry: the first entry with the key gets the new text in its place, and a key
/// not yet there is added last (`DocumentMut` keeps its root table in an `IndexMap`).
pub open spec fn put_entry(
    e: Seq<(Seq<char>, Option<Seq<char>>)>,
    key: Seq<char>,
    text: Option<Seq<char>>,
) -> Seq<(Seq<char>, Option<Seq<char>>)>
    decreases e.len(),
{
    if e.len() == 0 {
        seq![(key, text)]
    } else if e[0].0 == key {
        seq![(key, text)] + e.drop_first()
    } else {
        seq![e[0]] + put_entry(e.drop_first(), key, text)
    }
}

/// After a put, the key holds the new text and every other key what it held.
pub proof fn lemma_put_entry_lookup(
    e: Seq<(Seq<char>, Option<Seq<char>>)>,
    key: Seq<char>,
    text: Option<Seq<char>>,
    other: Seq<char>,
)
    ensures
        lookup_entry(put_entry(e, key, text), key) == Some(text),
        other != key ==> lookup_entry(put_entry(e, key, text), other) == lookup_entry(e, other),
    decreases e.len(),
{
    assert(seq![(key, text)].drop_first().len() == 0);
    assert(lookup_entry(seq![(key, text)].drop_first(), other) is None);
    if e.len() > 0 {
        assert((seq![(key, text)] + e.drop_first()).drop_first() =~= e.drop_first());
        assert((seq![(key, text)] + e.drop_first())[0] == (key, text));
        if e[0].0 != key {
            lemma_put_entry_lookup(e.drop_first(), key, text, other);
            assert((seq![e[0]] + put_entry(e.drop_first(), key, text)).drop_first() =~= put_entry(e.drop_first(), key, text));
            assert((seq![e[0]] + put_entry(e.drop_first(), key, text))[0] == e[0]);
        }
    }
}

/// Putting a key that is not there adds it last.
pub proof fn lemma_put_new_entry(e: Seq<(Seq<char>, Option<Seq<char>>)>, key: Seq<char>, text: Option<Seq<char>>)
    requires
        lookup_entry(e, key) is None,
    ensures
        put_entry(e, key, text) == e.push((key, text)),
    decreases e.len(),
{
    if e.len() > 0 {
        lemma_put_new_entry(e.drop_first(), key, text);
        assert(seq![e[0]] + e.drop_first().push((key, text)) =~= e.push((key, text)));
    } else {
        assert(seq![(key, text)] =~= e.push((key, text)));
    }
}

#[verifier::external_type_specification]
#[verifier::external_body]
pub struct ExDocumentMut(toml_edit::DocumentMut);

#[verifier::external_type_specification]
#[verifier::external_body]
pub struct ExDecor(toml_edit::Decor);

/// The root entries of a document, in the order of its root table, each with its string
/// value when it is one.
pub uninterp spec fn doc_entries(d: toml_edit::DocumentMut) -> Seq<(Seq<char>, Option<Seq<char>>)>;

/// Every entry holds a string value.
pub open spec fn all_strings(e: Seq<(Seq<char>, Option<Seq<char>>)>) -> bool {
    forall|i: int| 0 <= i < e.len() ==> (#[trigger] e[i]).1 is Some
}

/// `toml_edit::DocumentMut::new`: a document without entries.
#[verifier::external_body]
pub(crate) fn doc_new() -> (d: toml_edit::DocumentMut)
    ensures
        doc_entries(d) == Seq::<(Seq<char>, Option<Seq<char>>)>::empty(),
        crate::toml_path::table_like(crate::toml_path::doc_tree(d)),
{
    toml_edit::DocumentMut::new()
}

/// Parses `text` as a `toml_edit::DocumentMut` (`str::parse`). The same parse decides
/// `toml_entries`, so the root entries are the ones it lists.
#[verifier::external_body]
pub(crate) fn doc_parse(text: &str) -> (r: Option<toml_edit::DocumentMut>)
    ensures
        r is Some <==> toml_root_entries(text@) is Some,
        r matches Some(d) ==> Some(doc_entries(d)) == toml_root_entries(text@) && crate::toml_path::table_like(crate::toml_path::doc_tree(d)),
{
    text.parse::<toml_edit::DocumentMut>().ok()
}

/// The decor (comments and spacing) of the value at a root key: `DocumentMut::get`, then
/// `Item::as_value` and `Value::decor`; `None` when the key holds no value. Nothing is stated
/// of the decor itself. The root must be a table (`DocumentMut` reads it as one).
#[verifier::external_body]
pub(crate) fn doc_value_decor(d: &toml_edit::DocumentMut, key: &str) -> (r: Option<toml_edit::Decor>)
    requires
        crate::toml_path::table_like(crate::toml_path::doc_tree(*d)),
{
    d.get(key).and_then(|item| item.as_value()).map(|value| value.decor().clone())
}

/// Sets a root key to a string value (`document[key] = toml_edit::value(text)`): an existing
/// entry keeps its place and its key, a new one comes last.
#[verifier::external_body]
pub(crate) fn doc_set_str(d: &mut toml_edit::DocumentMut, key: &str, text: &str)
    requires
        crate::toml_path::table_like(crate::toml_path::doc_tree(*old(d))),
    ensures
        doc_entries(*final(d)) == put_entry(doc_entries(*old(d)), key@, Some(text@)),
        crate::toml_path::table_like(crate::toml_path::doc_tree(*final(d))),
{
    d[key] = toml_edit::value(text);
}

/// Sets a root key to a string value that carries the given decor (`Value::decor_mut`), in
/// the same way as `doc_set_str`.
#[verifier::external_body]
pub(crate) fn doc_set_str_decorated(d: &mut toml_edit::DocumentMut, key: &str, text: &str, decor: toml_edit::Decor)
    requires
        crate::toml_path::table_like(crate::toml_path::doc_tree(*old(d))),
    ensures
        doc_entries(*final(d)) == put_entry(doc_entries(*old(d)), key@, Some(text@)),
        crate::toml_path::table_like(crate::toml_path::doc_tree(*final(d))),
{
    let mut value = toml_edit::Value::from(text);
    *value.decor_mut() = decor;
    d[key] = toml_edit::Item::Value(value);
}

/// Renders a document whose root is a table (`Display`, which reads the root as one). Parsing
/// the text again finds every root key that holds a string with that string, no key that the
/// document lacks, and a key that holds anything else either again or not at all (`toml_edit`
/// does not print an implicit or dotted table with no value below it). When the root holds
/// only string values the entries come back in the same order (root values are written first,
/// so only tables could move). The rendering writes control characters, NUL among them, only
/// as escapes (`toml_write` quotes keys and strings so, and a parsed document holds no raw NUL).
#[verifier::external_body]
pub(crate) fn doc_render(d: &toml_edit::DocumentMut) -> (r: String)
    requires
        crate::toml_path::table_like(crate::toml_path::doc_tree(*d)),
    ensures
        !r@.contains('\0'),
        toml_root_entries(r@) is Some,
        forall|key: Seq<char>|
            entry_kept(#[trigger] lookup_entry(toml_root_entries(r@)->0, key), lookup_entry(doc_entries(*d), key)),
        all_strings(doc_entries(*d)) ==> toml_root_entries(r@) == Some(doc_entries(*d)),
{
    d.to_string()
}

/// A new document in which each key is set to its string value, in order, rendered. Parsing
/// the text gives back exactly those string entries.
pub fn toml_render_strings(pairs: &[(String, String)]) -> (r: String)
    requires
        distinct_keys(pairs_view(pairs@)),
    ensures
        !r@.contains('\0'),
        toml_root_entries(r@) == Some(
            pairs_view(pairs@).map_values(
                |p: (Seq<char>, Seq<char>)| (p.0, Some(p.1)),
            ),
        ),
{
    let ghost want = pairs_view(pairs@).map_values(|p: (Seq<char>, Seq<char>)| (p.0, Some(p.1)));
    let mut d = doc_new();
    let mut i: usize = 0;
    while i < pairs.len()
        invariant
            i <= pairs@.len(),
            want == pairs_view(pairs@).map_values(|p: (Seq<char>, Seq<char>)| (p.0, Some(p.1))),
            distinct_keys(pairs_view(pairs@)),
            doc_entries(d) == want.subrange(0, i as int),
            crate::toml_path::table_like(crate::toml_path::doc_tree(d)),
        decreases pairs@.len() - i,
    {
        let ghost before = doc_entries(d);
        proof {
            assert forall|j: int| 0 <= j < before.len() implies (#[trigger] before[j]).0 != pairs@[i as int].0@ by {
                assert(pairs_view(pairs@)[j].0 != pairs_view(pairs@)[i as int].0);
            }
            lemma_lookup_absent(before, pairs@[i as int].0@);
            lemma_put_new_entry(before, pairs@[i as int].0@, Some(pairs@[i as int].1@));
        }
        doc_set_str(&mut d, pairs[i].0.as_str(), pairs[i].1.as_str());
        assert(doc_entries(d) =~= want.subrange(0, i + 1));
        i += 1;
    }
    assert(want.subrange(0, pairs@.len() as int) =~= want);
    assert(all_strings(doc_entries(d)));
    doc_render(&d)
}

/// A key that no entry carries is not found.
pub proof fn lemma_lookup_absent(e: Seq<(Seq<char>, Option<Seq<char>>)>, key: Seq<char>)
    requires
        forall|j: int| 0 <= j < e.len() ==> (#[trigger] e[j]).0 != key,
    ensures
        lookup_entry(e, key) is None,
    decreases e.len(),
{
    if e.len() > 0 {
        assert forall|j: int| 0 <= j < e.drop_first().len() implies (#[trigger] e.drop_first()[j]).0 != key by {
            assert(e.drop_first()[j] == e[j + 1]);
        }
        lemma_lookup_absent(e.drop_first(), key);
    }
}

/// Parses `text`, sets each key to its string value (a value already there keeps its decor,
/// that is its comments and spacing) and renders the document again; `None` exactly when
/// `text` does not parse. In the result each given key holds its new string and every other
/// root key holds what it held before (a non-string item may be gone when it was an empty
/// implicit table, which `toml_edit` does not print).
pub fn toml_update_strings(text: &str, pairs: &[(String, String)]) -> (r: Option<String>)
    requires
        distinct_keys(pairs_view(pairs@)),
    ensures
        r is Some <==> toml_root_entries(text@) is Some,
        r matches Some(out) ==> toml_root_entries(out@) matches Some(after) && toml_root_entries(
            text@,
        ) matches Some(before) && (forall|i: int|
            0 <= i < pairs@.len() ==> lookup_entry(after, #[trigger] pairs_view(pairs@)[i].0)
                == Some(Some(pairs_view(pairs@)[i].1))) && (forall|key: Seq<char>|
            !sets_key(pairs_view(pairs@), key) ==> entry_kept(#[trigger] lookup_entry(after, key), lookup_entry(before, key))),
{
    let mut d = match doc_parse(text) {
        Some(d) => d,
        None => {
            return None;
        },
    };
    let ghost start = doc_entries(d);
    let ghost pv = pairs_view(pairs@);
    let mut i: usize = 0;
    while i < pairs.len()
        invariant
            i <= pairs@.len(),
            pv == pairs_view(pairs@),
            distinct_keys(pv),
            crate::toml_path::table_like(crate::toml_path::doc_tree(d)),
            forall|j: int| 0 <= j < i ==> lookup_entry(doc_entries(d), #[trigger] pv[j].0) == Some(Some(pv[j].1)),
            forall|key: Seq<char>|
                !sets_key(pv.subrange(0, i as int), key) ==> #[trigger] lookup_entry(doc_entries(d), key)
                    == lookup_entry(start, key),
        decreases pairs@.len() - i,
    {
        let ghost before = doc_entries(d);
        let key = pairs[i].0.as_str();
        let value = pairs[i].1.as_str();
        match doc_value_decor(&d, key) {
            Some(decor) => doc_set_str_decorated(&mut d, key, value, decor),
            None => doc_set_str(&mut d, key, value),
        }
        proof {
            let k = pv[i as int].0;
            lemma_put_entry_lookup(before, k, Some(pv[i as int].1), k);
            assert forall|j: int| 0 <= j < i + 1 implies lookup_entry(doc_entries(d), #[trigger] pv[j].0)
                == Some(Some(pv[j].1)) by {
                if j < i {
                    assert(pv[j].0 != k);
                    lemma_put_entry_lookup(before, k, Some(pv[i as int].1), pv[j].0);
                }
            }
            assert forall|key: Seq<char>| !sets_key(pv.subrange(0, i + 1), key) implies #[trigger] lookup_entry(
                doc_entries(d),
                key,
            ) == lookup_entry(start, key) by {
                assert(pv.subrange(0, i + 1)[i as int] == pv[i as int]);
                assert(key != k);
                lemma_put_entry_lookup(before, k, Some(pv[i as int].1), key);
                if sets_key(pv.subrange(0, i as int), key) {
                    let w = choose|w: int| 0 <= w < i && #[trigger] pv.subrange(0, i as int)[w].0 == key;
                    assert(pv.subrange(0, i + 1)[w].0 == key);
                }
            }
        }
        i += 1;
    }
    proof {
        assert(pv.subrange(0, pv.len() as int) =~= pv);
        assert forall|j: int| 0 <= j < pairs@.len() implies lookup_entry(doc_entries(d), #[trigger] pairs_view(pairs@)[j].0)
            == Some(Some(pairs_view(pairs@)[j].1)) by {
            assert(pv[j].0 == pairs_view(pairs@)[j].0);
        }
    }
    Some(doc_render(&d))
}

/// Where `toml_edit` reports a parse error of `text`: `None` when it parses, else the start
/// of the error's span, `None` inside when the error has no span.
pub uninterp spec fn toml_error_span(text: Seq<char>) -> Option<Option<usize>>;

/// Parses `text` as a `toml_edit::DocumentMut` and reports the start of the error span
/// (`TomlError::span`). The same parse decides `toml_entries`, so it fails exactly when that
/// finds no document.
#[verifier::external_body]
pub(crate) fn toml_error_start(text: &str) -> (r: Option<Option<usize>>)
    ensures
        r == toml_error_span(text@),
        r is None <==> toml_root_entries(text@) is Some,
{
    match text.parse::<toml_edit::DocumentMut>() {
        Ok(_) => None,
        Err(error) => Some(error.span().map(|span| span.start)),
    }
}

} // verus!
