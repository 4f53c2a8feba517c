//! Setting and removing a nested key of a TOML document through `toml_edit`: missing tables
//! on the way are created, an item on the way that is no table stops a set, and the rest of
//! the document is kept as it was.
use vstd::prelude::*;
use crate::engine::{scalar_view, ScalarView, TomlScalar};
use crate::text::{chars_of, push_str, string_of};

verus! {

/// A document as a tree: each key path from the item maps to what stands there, `None` for a
/// table (or inline table) and the item's scalar view for anything else.
pub type Tree = Map<Seq<Seq<char>>, Option<ScalarView>>;

#[verifier::external_type_specification]
#[verifier::external_body]
pub struct ExItem(toml_edit::Item);

/// The tree of an item: every key path reachable from it with `Item::get`.
pub uninterp spec fn item_tree(it: toml_edit::Item) -> Map<Seq<Seq<char>>, Option<ScalarView>>;

/// The tree of a document's root item.
pub uninterp spec fn doc_tree(d: toml_edit::DocumentMut) -> Map<Seq<Seq<char>>, Option<ScalarView>>;

/// The tree of the document `toml_edit` parses from `text`; `None` when `text` is not TOML.
pub uninterp spec fn toml_tree_of(text: Seq<char>) -> Option<Map<Seq<Seq<char>>, Option<ScalarView>>>;

/// The message of `toml_edit`'s parse error of `text`.
pub uninterp spec fn toml_parse_message(text: Seq<char>) -> Seq<char>;

/// A tree with only its own item.
pub open spec fn single(leaf: Option<ScalarView>) -> Tree {
    Map::empty().insert(Seq::empty(), leaf)
}

/// The item is a table.
pub open spec fn table_like(m: Tree) -> bool {
    m.dom().contains(Seq::empty()) && m[Seq::empty()] is None
}

/// The tree below a key.
pub open spec fn subtree(m: Tree, k: Seq<char>) -> Tree {
    Map::new(|p: Seq<Seq<char>>| m.dom().contains(seq![k] + p), |p: Seq<Seq<char>>| m[seq![k] + p])
}

/// The tree with the part below a key replaced.
pub open spec fn graft(m: Tree, k: Seq<char>, s: Tree) -> Tree {
    Map::new(
        |p: Seq<Seq<char>>| if p.len() > 0 && p[0] == k { s.dom().contains(p.drop_first()) } else { m.dom().contains(p) },
        |p: Seq<Seq<char>>| if p.len() > 0 && p[0] == k { s[p.drop_first()] } else { m[p] },
    )
}

/// The tree without the part below a key.
pub open spec fn prune(m: Tree, k: Seq<char>) -> Tree {
    Map::new(|p: Seq<Seq<char>>| m.dom().contains(p) && !(p.len() > 0 && p[0] == k), |p: Seq<Seq<char>>| m[p])
}

/// What parsing a rendered document finds of its tree `m`: nothing that `m` does not hold,
/// and every value that it holds. Tables can be missing: `toml_edit` does not print an
/// implicit or dotted table with no value below it.
pub open spec fn shown(t: Tree, m: Tree) -> bool {
    &&& forall|p: Seq<Seq<char>>| #[trigger] t.dom().contains(p) ==> m.dom().contains(p) && t[p] == m[p]
    &&& forall|p: Seq<Seq<char>>| #[trigger] m.dom().contains(p) && m[p] is Some ==> t.dom().contains(p)
}

/// Every proper prefix of a path in the tree is a table in it.
pub open spec fn tree_wf(m: Tree) -> bool {
    forall|p: Seq<Seq<char>>, q: Seq<Seq<char>>|
        q.len() > 0 && #[trigger] m.dom().contains(p + q) ==> m.dom().contains(p) && m[p] is None
}

/// The key on the way that stops a set: the first one, before the last, whose item exists and
/// is no table.
pub open spec fn blocked(m: Tree, keys: Seq<Seq<char>>) -> Option<Seq<char>>
    decreases keys.len(),
{
    if keys.len() <= 1 {
        None
    } else if m.dom().contains(seq![keys[0]]) {
        if m[seq![keys[0]]] is Some {
            Some(keys[0])
        } else {
            blocked(subtree(m, keys[0]), keys.drop_first())
        }
    } else {
        None
    }
}

/// The tree after setting the key path to a leaf, with new tables for missing keys on the way.
pub open spec fn assigned(m: Tree, keys: Seq<Seq<char>>, leaf: Option<ScalarView>) -> Tree
    decreases keys.len(),
{
    if keys.len() == 0 {
        m
    } else if keys.len() == 1 {
        graft(m, keys[0], single(leaf))
    } else {
        let child = if m.dom().contains(seq![keys[0]]) { subtree(m, keys[0]) } else { single(None) };
        graft(m, keys[0], assigned(child, keys.drop_first(), leaf))
    }
}

/// The tree after removing the key path: the last key goes from its table; a missing key on the
/// way, or a last holder that is no table, leaves the tree as it is.
pub open spec fn removed(m: Tree, keys: Seq<Seq<char>>) -> Tree
    decreases keys.len(),
{
    if keys.len() == 0 {
        m
    } else if keys.len() == 1 {
        if table_like(m) { prune(m, keys[0]) } else { m }
    } else if m.dom().contains(seq![keys[0]]) {
        graft(m, keys[0], removed(subtree(m, keys[0]), keys.drop_first()))
    } else {
        m
    }
}

/// The message of a set stopped at a key.
pub open spec fn not_table_message(k: Seq<char>) -> Seq<char> {
    "Intermediate path node "@ + k + " is not a table"@
}

/// The message of a parse failure before a write.
pub open spec fn parse_failed_message(text: Seq<char>) -> Seq<char> {
    "TOML parse failed; nothing written: "@ + toml_parse_message(text)
}

/// Parses `text` as a `toml_edit::DocumentMut` (`str::parse`); the error is `TomlError`'s
/// `to_string`. The tree of a parsed document is well formed: `Item::get` reaches a key only
/// through tables.
#[verifier::external_body]
pub(crate) fn doc_parse_tree(text: &str) -> (r: Result<toml_edit::DocumentMut, String>)
    ensures
        r is Ok <==> toml_tree_of(text@) is Some,
        r matches Ok(d) ==> Some(doc_tree(d)) == toml_tree_of(text@) && tree_wf(doc_tree(d)) && table_like(doc_tree(d)),
        r matches Err(e) ==> e@ == toml_parse_message(text@),
{
    text.parse::<toml_edit::DocumentMut>().map_err(|e| e.to_string())
}

/// The root item of a document (`DocumentMut::as_item_mut`).
#[verifier::external_body]
pub(crate) fn doc_root_mut(d: &mut toml_edit::DocumentMut) -> (r: &mut toml_edit::Item)
    ensures
        item_tree(*r) == doc_tree(*old(d)),
        doc_tree(*final(d)) == item_tree(*final(r)),
{
    d.as_item_mut()
}

/// Renders a document whose root is a table (`Display`, which reads the root as a table).
/// Parsing the text again finds every value of the document and nothing it does not hold;
/// an implicit or dotted table with no value below it is not printed, so it can be missing.
#[verifier::external_body]
pub(crate) fn doc_render_tree(d: &toml_edit::DocumentMut) -> (r: String)
    requires
        table_like(doc_tree(*d)),
    ensures
        toml_tree_of(r@) is Some,
        shown(toml_tree_of(r@)->0, doc_tree(*d)),
{
    d.to_string()
}

/// Whether an item is a table or an inline table (`Item::as_table_like`).
#[verifier::external_body]
pub(crate) fn item_is_table(it: &toml_edit::Item) -> (r: bool)
    ensures
        r == table_like(item_tree(*it)),
{
    it.as_table_like().is_some()
}

/// Whether an item has a child under the key (`Item::get`).
#[verifier::external_body]
pub(crate) fn item_has(it: &toml_edit::Item, key: &str) -> (r: bool)
    ensures
        r == item_tree(*it).dom().contains(seq![key@]),
{
    it.get(key).is_some()
}

/// The child under an existing key (`Item::get_mut`).
#[verifier::external_body]
pub(crate) fn item_child_mut<'a>(it: &'a mut toml_edit::Item, key: &str) -> (r: &'a mut toml_edit::Item)
    requires
        item_tree(*old(it)).dom().contains(seq![key@]),
    ensures
        item_tree(*r) == subtree(item_tree(*old(it)), key@),
        item_tree(*final(it)) == graft(item_tree(*old(it)), key@, item_tree(*final(r))),
{
    it.get_mut(key).expect("the key is present")
}

/// Inserts a new empty table (`Item::Table(Table::new())`, not implicit) under a key of a
/// table (`TableLike::insert`, which makes it an inline table inside an inline table),
/// replacing what was there.
#[verifier::external_body]
pub(crate) fn item_insert_table(it: &mut toml_edit::Item, key: &str)
    requires
        table_like(item_tree(*old(it))),
    ensures
        item_tree(*final(it)) == graft(item_tree(*old(it)), key@, single(None)),
{
    it.as_table_like_mut().expect("a table").insert(key, toml_edit::Item::Table(toml_edit::Table::new()));
}

/// Inserts a boolean, integer or string value (`toml_edit::value`) under a key of a table
/// (`TableLike::insert`), replacing what was there.
#[verifier::external_body]
pub(crate) fn item_insert_scalar(it: &mut toml_edit::Item, key: &str, v: &TomlScalar)
    requires
        table_like(item_tree(*old(it))),
        !(v is Other),
    ensures
        item_tree(*final(it)) == graft(item_tree(*old(it)), key@, single(Some(scalar_view(*v)))),
{
    let item = match v {
        TomlScalar::Bool(b) => toml_edit::value(*b),
        TomlScalar::Int(i) => toml_edit::value(*i),
        TomlScalar::Str(s) => toml_edit::value(s.as_str()),
        TomlScalar::Other(t) => toml_edit::value(t.as_str()),
    };
    it.as_table_like_mut().expect("a table").insert(key, item);
}

/// Removes a key from a table (`TableLike::remove`).
#[verifier::external_body]
pub(crate) fn item_remove(it: &mut toml_edit::Item, key: &str)
    requires
        table_like(item_tree(*old(it))),
    ensures
        item_tree(*final(it)) == prune(item_tree(*old(it)), key@),
{
    it.as_table_like_mut().expect("a table").remove(key);
}

proof fn lemma_single_key(leaf: Option<ScalarView>, k: Seq<char>)
    ensures
        !single(leaf).dom().contains(seq![k]),
{
    assert(seq![k].len() == 1);
}

fn with_text(prefix: &str, s: &str, suffix: &str) -> (r: String)
    ensures
        r@ == prefix@ + s@ + suffix@,
{
    let mut v = chars_of(prefix);
    push_str(&mut v, s);
    push_str(&mut v, suffix);
    string_of(&v)
}

fn set_in(it: &mut toml_edit::Item, keys: &[String], i: usize, v: &TomlScalar) -> (r: Result<(), String>)
    requires
        i < keys@.len(),
        table_like(item_tree(*old(it))),
        !(v is Other),
    ensures
        ({
            let m = item_tree(*old(it));
            let rel = crate::roles::strings_view(keys@).skip(i as int);
            match blocked(m, rel) {
                Some(k) => r matches Err(e) && e@ == not_table_message(k),
                None => r is Ok && item_tree(*final(it)) == assigned(m, rel, Some(scalar_view(*v))),
            }
        }),
    decreases keys@.len() - i,
{
    let ghost m = item_tree(*it);
    let ghost rel = crate::roles::strings_view(keys@).skip(i as int);
    let ghost leaf = Some(scalar_view(*v));
    let key = keys[i].as_str();
    assert(rel[0] == key@);
    assert(rel.drop_first() =~= crate::roles::strings_view(keys@).skip(i + 1));
    if i + 1 == keys.len() {
        item_insert_scalar(it, key, v);
        return Ok(());
    }
    if item_has(it, key) {
        let c = item_child_mut(it, key);
        assert(item_tree(*c)[Seq::empty()] == m[seq![key@]]) by {
            assert(seq![key@] + Seq::<Seq<char>>::empty() =~= seq![key@]);
        }
        assert(item_tree(*c).dom().contains(Seq::empty())) by {
            assert(seq![key@] + Seq::<Seq<char>>::empty() =~= seq![key@]);
        }
        if !item_is_table(c) {
            return Err(with_text("Intermediate path node ", key, " is not a table"));
        }
        set_in(c, keys, i + 1, v)
    } else {
        item_insert_table(it, key);
        let ghost m1 = item_tree(*it);
        assert(subtree(m1, key@) =~= single(None)) by {
            assert forall|p: Seq<Seq<char>>| #[trigger] subtree(m1, key@).dom().contains(p) == single(None).dom().contains(p) by {
                assert((seq![key@] + p).drop_first() =~= p);
                assert((seq![key@] + p)[0] == key@);
            }
            assert forall|p: Seq<Seq<char>>| #[trigger] subtree(m1, key@).dom().contains(p) implies subtree(m1, key@)[p] == single(None)[p] by {
                assert((seq![key@] + p).drop_first() =~= p);
                assert((seq![key@] + p)[0] == key@);
            }
        }
        assert(m1.dom().contains(seq![key@])) by {
            assert(seq![key@].drop_first() =~= Seq::<Seq<char>>::empty());
        }
        let c = item_child_mut(it, key);
        proof {
            lemma_never_blocked(rel.drop_first());
        }
        let r = set_in(c, keys, i + 1, v);
        proof {
            let s = item_tree(*c);
            assert(graft(m1, key@, s) =~= graft(m, key@, s));
        }
        r
    }
}

/// An empty table stops no set.
proof fn lemma_never_blocked(keys: Seq<Seq<char>>)
    ensures
        blocked(single(None), keys) is None,
{
    if keys.len() > 1 {
        lemma_single_key(None, keys[0]);
    }
}

/// Parses `text`, sets the key path to the value, creating missing tables on the way, and
/// renders the document: refused when `text` is no TOML document or when an item on the way
/// exists and is no table. The result's tree is the input's with the path set; in it the path
/// holds the value.
pub fn toml_set_path(text: &str, keys: &[String], value: &TomlScalar) -> (r: Result<String, String>)
    requires
        keys@.len() > 0,
        !(value is Other),
    ensures
        match toml_tree_of(text@) {
            None => r matches Err(e) && e@ == parse_failed_message(text@),
            Some(m) => match blocked(m, crate::roles::strings_view(keys@)) {
                Some(k) => r matches Err(e) && e@ == not_table_message(k),
                None => r matches Ok(out) && toml_tree_of(out@) is Some && shown(
                    toml_tree_of(out@)->0,
                    assigned(m, crate::roles::strings_view(keys@), Some(scalar_view(*value))),
                ) && toml_tree_of(out@)->0.dom().contains(crate::roles::strings_view(keys@))
                    && toml_tree_of(out@)->0[crate::roles::strings_view(keys@)] == Some(scalar_view(*value)),
            },
        },
{
    let mut d = match doc_parse_tree(text) {
        Ok(d) => d,
        Err(e) => {
            proof {
                reveal_strlit("");
            }
            let m = with_text("TOML parse failed; nothing written: ", e.as_str(), "");
            assert(m@ =~= parse_failed_message(text@));
            return Err(m);
        },
    };
    let ghost m = doc_tree(d);
    assert(crate::roles::strings_view(keys@).skip(0) =~= crate::roles::strings_view(keys@));
    let root = doc_root_mut(&mut d);
    let r = set_in(root, keys, 0, value);
    match r {
        Ok(()) => {
            proof {
                law_set_path_reads_back(m, crate::roles::strings_view(keys@), Some(scalar_view(*value)));
                lemma_assigned_root(m, crate::roles::strings_view(keys@), Some(scalar_view(*value)));
            }
            Ok(doc_render_tree(&d))
        },
        Err(e) => Err(e),
    }
}

/// Reading a set path back gives what was set.
pub proof fn law_set_path_reads_back(m: Tree, keys: Seq<Seq<char>>, leaf: Option<ScalarView>)
    requires
        keys.len() > 0,
    ensures
        assigned(m, keys, leaf).dom().contains(keys),
        assigned(m, keys, leaf)[keys] == leaf,
    decreases keys.len(),
{
    assert(keys[0] == keys[0]);
    if keys.len() == 1 {
        assert(keys.drop_first() =~= Seq::<Seq<char>>::empty());
    } else {
        let child = if m.dom().contains(seq![keys[0]]) { subtree(m, keys[0]) } else { single(None) };
        law_set_path_reads_back(child, keys.drop_first(), leaf);
    }
}

fn remove_in(it: &mut toml_edit::Item, keys: &[String], i: usize)
    requires
        i < keys@.len(),
    ensures
        item_tree(*final(it)) =~= removed(item_tree(*old(it)), crate::roles::strings_view(keys@).skip(i as int)),
    decreases keys@.len() - i,
{
    let ghost m = item_tree(*it);
    let ghost rel = crate::roles::strings_view(keys@).skip(i as int);
    let key = keys[i].as_str();
    assert(rel[0] == key@);
    assert(rel.drop_first() =~= crate::roles::strings_view(keys@).skip(i + 1));
    if i + 1 == keys.len() {
        if item_is_table(it) {
            item_remove(it, key);
        }
        return;
    }
    if item_has(it, key) {
        let c = item_child_mut(it, key);
        remove_in(c, keys, i + 1);
    }
}

/// Parses `text`, removes the key path and renders the document: refused when `text` is no TOML
/// document. The result's tree is the input's without the path; the path is then absent.
pub fn toml_remove_path(text: &str, keys: &[String]) -> (r: Result<String, String>)
    requires
        keys@.len() > 0,
    ensures
        match toml_tree_of(text@) {
            None => r matches Err(e) && e@ == parse_failed_message(text@),
            Some(m) => r matches Ok(out) && toml_tree_of(out@) is Some && shown(
                toml_tree_of(out@)->0,
                removed(m, crate::roles::strings_view(keys@)),
            ) && !toml_tree_of(out@)->0.dom().contains(crate::roles::strings_view(keys@)),
        },
{
    let mut d = match doc_parse_tree(text) {
        Ok(d) => d,
        Err(e) => {
            proof {
                reveal_strlit("");
            }
            let m = with_text("TOML parse failed; nothing written: ", e.as_str(), "");
            assert(m@ =~= parse_failed_message(text@));
            return Err(m);
        },
    };
    let ghost m = doc_tree(d);
    assert(crate::roles::strings_view(keys@).skip(0) =~= crate::roles::strings_view(keys@));
    let root = doc_root_mut(&mut d);
    remove_in(root, keys, 0);
    proof {
        law_removed_path_is_gone(m, crate::roles::strings_view(keys@));
        lemma_removed_root(m, crate::roles::strings_view(keys@));
    }
    Ok(doc_render_tree(&d))
}

proof fn lemma_graft_root(m: Tree, k: Seq<char>, t: Tree)
    ensures
        table_like(m) ==> table_like(graft(m, k, t)),
{
    assert(Seq::<Seq<char>>::empty().len() == 0);
}

/// Setting a path keeps the root a table.
proof fn lemma_assigned_root(m: Tree, keys: Seq<Seq<char>>, leaf: Option<ScalarView>)
    ensures
        table_like(m) ==> table_like(assigned(m, keys, leaf)),
{
    if keys.len() == 1 {
        lemma_graft_root(m, keys[0], single(leaf));
    } else if keys.len() > 1 {
        let child = if m.dom().contains(seq![keys[0]]) { subtree(m, keys[0]) } else { single(None) };
        lemma_graft_root(m, keys[0], assigned(child, keys.drop_first(), leaf));
    }
}

/// Removing a path keeps the root a table.
proof fn lemma_removed_root(m: Tree, keys: Seq<Seq<char>>)
    ensures
        table_like(m) ==> table_like(removed(m, keys)),
{
    assert(Seq::<Seq<char>>::empty().len() == 0);
    if keys.len() > 1 && m.dom().contains(seq![keys[0]]) {
        lemma_graft_root(m, keys[0], removed(subtree(m, keys[0]), keys.drop_first()));
    }
}

proof fn lemma_subtree_wf(m: Tree, k: Seq<char>)
    requires
        tree_wf(m),
    ensures
        tree_wf(subtree(m, k)),
{
    let s = subtree(m, k);
    assert forall|p: Seq<Seq<char>>, q: Seq<Seq<char>>|
        q.len() > 0 && #[trigger] s.dom().contains(p + q) implies s.dom().contains(p) && s[p] is None by {
        assert(seq![k] + (p + q) =~= (seq![k] + p) + q);
        assert(m.dom().contains((seq![k] + p) + q));
    }
}

/// In a well-formed tree, a removed path is gone.
pub proof fn law_removed_path_is_gone(m: Tree, keys: Seq<Seq<char>>)
    requires
        keys.len() > 0,
        tree_wf(m),
    ensures
        !removed(m, keys).dom().contains(keys),
    decreases keys.len(),
{
    let k = keys[0];
    if keys.len() == 1 {
        if !table_like(m) {
            assert(Seq::<Seq<char>>::empty() + keys =~= keys);
            if m.dom().contains(Seq::<Seq<char>>::empty() + keys) {
                assert(m.dom().contains(Seq::<Seq<char>>::empty()));
            }
        }
    } else if m.dom().contains(seq![k]) {
        lemma_subtree_wf(m, k);
        law_removed_path_is_gone(subtree(m, k), keys.drop_first());
    } else {
        assert(seq![k] + keys.drop_first() =~= keys);
        if m.dom().contains(seq![k] + keys.drop_first()) {
            assert(m.dom().contains(seq![k]));
        }
    }
}

/// The failure of parsing `text` before a write, if it does not parse.
pub fn parse_failure(text: &str) -> (r: Option<String>)
    ensures
        match toml_tree_of(text@) {
            None => r matches Some(e) && e@ == parse_failed_message(text@),
            Some(_) => r is None,
        },
{
    match doc_parse_tree(text) {
        Ok(_) => None,
        Err(e) => {
            proof {
                reveal_strlit("");
            }
            let m = with_text("TOML parse failed; nothing written: ", e.as_str(), "");
            assert(m@ =~= parse_failed_message(text@));
            Some(m)
        },
    }
}

/// The root item of a document (`DocumentMut::as_item`).
#[verifier::external_body]
pub(crate) fn doc_root(d: &toml_edit::DocumentMut) -> (r: &toml_edit::Item)
    ensures
        item_tree(*r) == doc_tree(*d),
{
    d.as_item()
}

/// The child under a key (`Item::get`); `None` when there is none.
#[verifier::external_body]
pub(crate) fn item_get<'a>(it: &'a toml_edit::Item, key: &str) -> (r: Option<&'a toml_edit::Item>)
    ensures
        r is Some <==> item_tree(*it).dom().contains(seq![key@]),
        r matches Some(c) ==> item_tree(*c) == subtree(item_tree(*it), key@),
{
    it.get(key)
}

/// An item taken apart by its variant: a boolean, integer or string value, or anything else
/// as its `to_string`. A table gives `Other` with its text, which is not stated.
#[verifier::external_body]
pub(crate) fn item_scalar(it: &toml_edit::Item) -> (r: TomlScalar)
    requires
        item_tree(*it).dom().contains(Seq::empty()),
    ensures
        item_tree(*it)[Seq::empty()] matches Some(v) ==> scalar_view(r) == v,
        item_tree(*it)[Seq::empty()] is None ==> r is Other,
{
    match it {
        toml_edit::Item::Value(toml_edit::Value::Boolean(b)) => TomlScalar::Bool(*b.value()),
        toml_edit::Item::Value(toml_edit::Value::Integer(i)) => TomlScalar::Int(*i.value()),
        toml_edit::Item::Value(toml_edit::Value::String(s)) => TomlScalar::Str(s.value().clone()),
        other => TomlScalar::Other(other.to_string()),
    }
}

/// The part of a tree below a key path.
pub open spec fn subtree_at(m: Tree, p: Seq<Seq<char>>) -> Tree {
    Map::new(|q: Seq<Seq<char>>| m.dom().contains(p + q), |q: Seq<Seq<char>>| m[p + q])
}

/// What `toml_item_at` finds: the parse error's message, nothing when the path is missing,
/// else what stands at the path (`None` for a table).
pub open spec fn toml_lookup(text: Seq<char>, path: Seq<Seq<char>>) -> Result<Option<Option<ScalarView>>, Seq<char>> {
    match toml_tree_of(text) {
        None => Err(toml_parse_message(text)),
        Some(m) => if m.dom().contains(path) {
            Ok(Some(m[path]))
        } else {
            Ok(None)
        },
    }
}

/// The item at a key path of `text`: refused with the parse error's message when `text` is no
/// TOML document; `None` when a key on the way is missing; else the item taken apart.
pub fn toml_item_at(text: &str, path: &[String]) -> (r: Result<Option<TomlScalar>, String>)
    ensures
        match toml_lookup(text@, crate::roles::strings_view(path@)) {
            Err(e) => r matches Err(x) && x@ == e,
            Ok(None) => r matches Ok(None),
            Ok(Some(leaf)) => r matches Ok(Some(s)) && match leaf {
                Some(v) => scalar_view(s) == v,
                None => s is Other,
            },
        },
{
    let d = match doc_parse_tree(text) {
        Ok(d) => d,
        Err(e) => {
            return Err(e);
        },
    };
    let ghost m = doc_tree(d);
    let ghost keys = crate::roles::strings_view(path@);
    let mut it = doc_root(&d);
    let mut i: usize = 0;
    assert(keys.subrange(0, 0) =~= Seq::<Seq<char>>::empty());
    assert(subtree_at(m, keys.subrange(0, 0)) =~= m) by {
        assert forall|q: Seq<Seq<char>>| #![auto] keys.subrange(0, 0) + q == q by {
            assert(keys.subrange(0, 0) + q =~= q);
        }
    }
    while i < path.len()
        invariant
            i <= path@.len(),
            keys == crate::roles::strings_view(path@),
            Some(m) == toml_tree_of(text@),
            tree_wf(m),
            m.dom().contains(keys.subrange(0, i as int)),
            item_tree(*it) == subtree_at(m, keys.subrange(0, i as int)),
        decreases path@.len() - i,
    {
        let ghost pre = keys.subrange(0, i as int);
        assert(keys[i as int] == path@[i as int]@);
        assert(pre + seq![keys[i as int]] =~= keys.subrange(0, i + 1));
        match item_get(it, path[i].as_str()) {
            Some(c) => {
                assert(subtree(subtree_at(m, pre), keys[i as int]) =~= subtree_at(m, keys.subrange(0, i + 1))) by {
                    assert forall|q: Seq<Seq<char>>| #![auto] pre + (seq![keys[i as int]] + q) == keys.subrange(0, i + 1) + q by {
                        assert(pre + (seq![keys[i as int]] + q) =~= keys.subrange(0, i + 1) + q);
                    }
                }
                assert(pre + (seq![keys[i as int]] + Seq::<Seq<char>>::empty()) =~= keys.subrange(0, i + 1));
                it = c;
            },
            None => {
                proof {
                    assert(!m.dom().contains(pre + (seq![keys[i as int]] + Seq::<Seq<char>>::empty())));
                    assert(pre + (seq![keys[i as int]] + Seq::<Seq<char>>::empty()) =~= keys.subrange(0, i + 1));
                    let rest = keys.subrange(i + 1, keys.len() as int);
                    assert(keys =~= keys.subrange(0, i + 1) + rest);
                    if rest.len() > 0 && m.dom().contains(keys.subrange(0, i + 1) + rest) {
                        assert(m.dom().contains(keys.subrange(0, i + 1)));
                    }
                    if rest.len() == 0 {
                        assert(keys =~= keys.subrange(0, i + 1));
                    }
                }
                return Ok(None);
            },
        }
        i += 1;
    }
    proof {
        assert(keys.subrange(0, keys.len() as int) =~= keys);
        assert(keys + Seq::<Seq<char>>::empty() =~= keys);
    }
    Ok(Some(item_scalar(it)))
}

} // verus!
