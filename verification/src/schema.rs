//! The parameter schema: the built-in parameters merged with those stored on disk, and the
//! file identities that older stored parameters lack.
use vstd::prelude::*;
use crate::guard::GuardFile;
use crate::model::GuardParam;
use crate::roles::strings_view;
use crate::text::{owned, push_str, str_eq};

verus! {

/// Where a merged parameter, or its English texts, comes from.
#[derive(Debug, Clone, Copy, PartialEq, Eq, Structural)]
pub enum SchemaSource {
    Builtin(usize),
    Disk(usize),
}

/// One parameter of the merged schema: the parameter it is, and the one whose English
/// texts it carries.
#[derive(Debug, Clone, Copy, PartialEq, Eq, Structural)]
pub struct SchemaSlot {
    pub main: SchemaSource,
    pub english: SchemaSource,
}

pub open spec fn source_id(s: SchemaSource, b: Seq<Seq<char>>, d: Seq<Seq<char>>) -> Seq<char> {
    match s {
        SchemaSource::Builtin(i) => b[i as int],
        SchemaSource::Disk(j) => d[j as int],
    }
}

/// The first slot whose parameter has this id.
pub open spec fn first_slot(slots: Seq<SchemaSlot>, b: Seq<Seq<char>>, d: Seq<Seq<char>>, id: Seq<char>) -> Option<int>
    decreases slots.len(),
{
    if slots.len() == 0 {
        None
    } else {
        match first_slot(slots.drop_last(), b, d, id) {
            Some(p) => Some(p),
            None => if source_id(slots.last().main, b, d) == id { Some(slots.len() - 1) } else { None },
        }
    }
}

/// The built-in schema, each parameter carrying its own texts.
pub open spec fn builtin_slots(n: nat) -> Seq<SchemaSlot> {
    Seq::new(n, |i: int| SchemaSlot { main: SchemaSource::Builtin(i as usize), english: SchemaSource::Builtin(i as usize) })
}

/// The schema after the first `n` disk parameters: a disk parameter takes the place of the
/// first one with its id and keeps that one's English texts; a new id is added at the end.
pub open spec fn merged_slots(b: Seq<Seq<char>>, d: Seq<Seq<char>>, n: nat) -> Seq<SchemaSlot>
    decreases n,
{
    if n == 0 {
        builtin_slots(b.len())
    } else {
        let prev = merged_slots(b, d, (n - 1) as nat);
        let j = (n - 1) as int;
        match first_slot(prev, b, d, d[j]) {
            Some(p) => prev.update(p, SchemaSlot { main: SchemaSource::Disk(j as usize), english: prev[p].english }),
            None => prev.push(SchemaSlot { main: SchemaSource::Disk(j as usize), english: SchemaSource::Disk(j as usize) }),
        }
    }
}

pub open spec fn source_ok(s: SchemaSource, blen: nat, dlen: nat) -> bool {
    match s {
        SchemaSource::Builtin(i) => i < blen,
        SchemaSource::Disk(j) => j < dlen,
    }
}

pub open spec fn slots_ok(slots: Seq<SchemaSlot>, blen: nat, dlen: nat) -> bool {
    forall|k: int| 0 <= k < slots.len() ==> source_ok((#[trigger] slots[k]).main, blen, dlen) && source_ok(slots[k].english, blen, dlen)
}

fn id_of<'a>(s: SchemaSource, builtin_ids: &'a [String], disk_ids: &'a [String]) -> (r: &'a String)
    requires
        source_ok(s, builtin_ids@.len(), disk_ids@.len()),
    ensures
        r@ == source_id(s, strings_view(builtin_ids@), strings_view(disk_ids@)),
{
    match s {
        SchemaSource::Builtin(i) => &builtin_ids[i],
        SchemaSource::Disk(j) => &disk_ids[j],
    }
}

fn find_slot(slots: &Vec<SchemaSlot>, builtin_ids: &[String], disk_ids: &[String], id: &str) -> (r: Option<usize>)
    requires
        slots_ok(slots@, builtin_ids@.len(), disk_ids@.len()),
    ensures
        match r {
            Some(p) => p < slots@.len() && first_slot(slots@, strings_view(builtin_ids@), strings_view(disk_ids@), id@) == Some(p as int),
            None => first_slot(slots@, strings_view(builtin_ids@), strings_view(disk_ids@), id@) is None,
        },
{
    let ghost s = slots@;
    let ghost b = strings_view(builtin_ids@);
    let ghost d = strings_view(disk_ids@);
    let mut p: usize = 0;
    assert(s.subrange(0, 0) =~= Seq::<SchemaSlot>::empty());
    while p < slots.len()
        invariant
            p <= s.len(),
            s == slots@,
            b == strings_view(builtin_ids@),
            d == strings_view(disk_ids@),
            slots_ok(s, builtin_ids@.len(), disk_ids@.len()),
            first_slot(s.subrange(0, p as int), b, d, id@) is None,
        decreases s.len() - p,
    {
        assert(s.subrange(0, p + 1).drop_last() =~= s.subrange(0, p as int));
        assert(s.subrange(0, p + 1).last() == s[p as int]);
        let sid = id_of(slots[p].main, builtin_ids, disk_ids);
        if str_eq(sid.as_str(), id) {
            proof {
                lemma_first_slot_prefix(s, b, d, id@, p as int + 1);
            }
            return Some(p);
        }
        p += 1;
    }
    assert(s.subrange(0, s.len() as int) =~= s);
    None
}

/// How the built-in and disk schemas merge, given their parameter ids in order.
pub fn merge_schema_plan(builtin_ids: &[String], disk_ids: &[String]) -> (r: Vec<SchemaSlot>)
    ensures
        r@ == merged_slots(strings_view(builtin_ids@), strings_view(disk_ids@), disk_ids@.len()),
        slots_ok(r@, builtin_ids@.len(), disk_ids@.len()),
{
    let ghost b = strings_view(builtin_ids@);
    let ghost d = strings_view(disk_ids@);
    let mut slots: Vec<SchemaSlot> = Vec::new();
    let mut i: usize = 0;
    while i < builtin_ids.len()
        invariant
            i <= builtin_ids@.len(),
            slots@ == builtin_slots(i as nat),
        decreases builtin_ids@.len() - i,
    {
        slots.push(SchemaSlot { main: SchemaSource::Builtin(i), english: SchemaSource::Builtin(i) });
        assert(slots@ =~= builtin_slots((i + 1) as nat));
        i += 1;
    }
    let mut j: usize = 0;
    while j < disk_ids.len()
        invariant
            j <= disk_ids@.len(),
            b == strings_view(builtin_ids@),
            d == strings_view(disk_ids@),
            slots@ == merged_slots(b, d, j as nat),
            slots_ok(slots@, builtin_ids@.len(), j as nat),
        decreases disk_ids@.len() - j,
    {
        let ghost prev = slots@;
        match find_slot(&slots, builtin_ids, disk_ids, disk_ids[j].as_str()) {
            Some(p) => {
                let english = slots[p].english;
                slots.set(p, SchemaSlot { main: SchemaSource::Disk(j), english });
            },
            None => {
                slots.push(SchemaSlot { main: SchemaSource::Disk(j), english: SchemaSource::Disk(j) });
            },
        }
        assert(d[j as int] == disk_ids@[j as int]@);
        j += 1;
    }
    slots
}

proof fn lemma_first_slot_prefix(s: Seq<SchemaSlot>, b: Seq<Seq<char>>, d: Seq<Seq<char>>, id: Seq<char>, k: int)
    requires
        0 <= k <= s.len(),
        first_slot(s.subrange(0, k), b, d, id) is Some,
    ensures
        first_slot(s, b, d, id) == first_slot(s.subrange(0, k), b, d, id),
    decreases s.len() - k,
{
    if k < s.len() {
        assert(s.subrange(0, k + 1).drop_last() =~= s.subrange(0, k));
        lemma_first_slot_prefix(s, b, d, id, k + 1);
    } else {
        assert(s.subrange(0, k) =~= s);
    }
}

proof fn lemma_first_slot_found(s: Seq<SchemaSlot>, b: Seq<Seq<char>>, d: Seq<Seq<char>>, id: Seq<char>)
    ensures
        first_slot(s, b, d, id) matches Some(p) ==> 0 <= p < s.len() && source_id(s[p].main, b, d) == id,
    decreases s.len(),
{
    if s.len() > 0 {
        lemma_first_slot_found(s.drop_last(), b, d, id);
    }
}

/// Merging never moves a built-in parameter nor takes its English texts: the first slots are
/// the built-in ones, in order, each with its id and its built-in English texts, however the
/// disk schema overrides them.
pub proof fn law_builtin_texts_survive_merge(b: Seq<Seq<char>>, d: Seq<Seq<char>>, n: nat)
    requires
        n <= d.len(),
        b.len() <= usize::MAX,
        d.len() <= usize::MAX,
    ensures
        merged_slots(b, d, n).len() >= b.len(),
        forall|k: int| 0 <= k < b.len() ==> (#[trigger] merged_slots(b, d, n)[k]).english == SchemaSource::Builtin(k as usize)
            && source_id(merged_slots(b, d, n)[k].main, b, d) == b[k],
    decreases n,
{
    if n > 0 {
        law_builtin_texts_survive_merge(b, d, (n - 1) as nat);
        let prev = merged_slots(b, d, (n - 1) as nat);
        let j = (n - 1) as int;
        lemma_first_slot_found(prev, b, d, d[j]);
        let cur = merged_slots(b, d, n);
        assert forall|k: int| 0 <= k < b.len() implies (#[trigger] cur[k]).english == SchemaSource::Builtin(k as usize)
            && source_id(cur[k].main, b, d) == b[k] by {
            assert(prev[k].english == SchemaSource::Builtin(k as usize));
            match first_slot(prev, b, d, d[j]) {
                Some(p) => {
                    if k == p {
                        assert(cur[k].main == SchemaSource::Disk(j as usize));
                        assert(source_id(cur[k].main, b, d) == d[j]);
                    } else {
                        assert(cur[k] == prev[k]);
                    }
                },
                None => {
                    assert(cur[k] == prev[k]);
                },
            }
        }
    } else {
        assert forall|k: int| 0 <= k < b.len() implies (#[trigger] merged_slots(b, d, n)[k]).english == SchemaSource::Builtin(k as usize)
            && source_id(merged_slots(b, d, n)[k].main, b, d) == b[k] by {
            assert(merged_slots(b, d, n)[k] == SchemaSlot { main: SchemaSource::Builtin(k as usize), english: SchemaSource::Builtin(k as usize) });
        }
    }
}

pub open spec fn params_ids(v: Seq<GuardParam>) -> Seq<Seq<char>> {
    v.map_values(|p: GuardParam| p.id@)
}

pub open spec fn source_param(s: SchemaSource, b: Seq<GuardParam>, d: Seq<GuardParam>) -> GuardParam {
    match s {
        SchemaSource::Builtin(i) => b[i as int],
        SchemaSource::Disk(j) => d[j as int],
    }
}

/// The parameter a slot stands for: its parameter, with the English resources (label,
/// description and default) of its text source.
pub open spec fn slot_param(slot: SchemaSlot, b: Seq<GuardParam>, d: Seq<GuardParam>) -> GuardParam {
    GuardParam {
        label_en: source_param(slot.english, b, d).label_en,
        description_en: source_param(slot.english, b, d).description_en,
        default_en: source_param(slot.english, b, d).default_en,
        ..source_param(slot.main, b, d)
    }
}

fn ids_of(params: &[GuardParam]) -> (r: Vec<String>)
    ensures
        strings_view(r@) == params_ids(params@),
        r@.len() == params@.len(),
{
    let mut out: Vec<String> = Vec::new();
    let mut i: usize = 0;
    while i < params.len()
        invariant
            i <= params@.len(),
            strings_view(out@) == params_ids(params@.subrange(0, i as int)),
            out@.len() == i,
        decreases params@.len() - i,
    {
        let ghost before = out@;
        out.push(params[i].id.clone());
        assert(strings_view(out@) =~= strings_view(before).push(params@[i as int].id@));
        assert(params_ids(params@.subrange(0, i + 1)) =~= params_ids(params@.subrange(0, i as int)).push(params@[i as int].id@));
        i += 1;
    }
    assert(params@.subrange(0, params@.len() as int) =~= params@);
    out
}

/// The schema in use: a disk parameter replaces the built-in one with its id but keeps the
/// built-in English label, description and default, which ship with the program; disk
/// parameters with new ids are kept.
pub fn merge_schema(builtin: &[GuardParam], disk: &[GuardParam]) -> (r: Vec<GuardParam>)
    ensures
        ({
            let plan = merged_slots(params_ids(builtin@), params_ids(disk@), disk@.len());
            &&& r@.len() == plan.len()
            &&& forall|k: int| 0 <= k < plan.len() ==> #[trigger] r@[k] == slot_param(plan[k], builtin@, disk@)
        }),
{
    let plan = merge_schema_plan(&ids_of(builtin), &ids_of(disk));
    let mut out: Vec<GuardParam> = Vec::new();
    let mut k: usize = 0;
    while k < plan.len()
        invariant
            k <= plan@.len(),
            slots_ok(plan@, builtin@.len(), disk@.len()),
            out@.len() == k,
            forall|m: int| 0 <= m < k ==> #[trigger] out@[m] == slot_param(plan@[m], builtin@, disk@),
        decreases plan@.len() - k,
    {
        let slot = plan[k];
        let main = match slot.main {
            SchemaSource::Builtin(i) => &builtin[i],
            SchemaSource::Disk(j) => &disk[j],
        };
        let en = match slot.english {
            SchemaSource::Builtin(i) => &builtin[i],
            SchemaSource::Disk(j) => &disk[j],
        };
        let mut p = main.duplicate();
        p.label_en = en.label_en.clone();
        p.description_en = en.description_en.clone();
        p.default_en = match &en.default_en {
            Some(v) => Some(v.duplicate()),
            None => None,
        };
        out.push(p);
        k += 1;
    }
    out
}

/// The file identity of an older parameter: that of the guarded file at its path, else one
/// derived from the path.
pub open spec fn file_id_for(path: Seq<char>, files: Seq<GuardFile>) -> Seq<char>
    decreases files.len(),
{
    if files.len() == 0 {
        "path:"@ + path
    } else if files[0].file@ == path {
        files[0].id@
    } else {
        file_id_for(path, files.drop_first())
    }
}

pub fn stable_file_id_for_path(path: &str, files: &[GuardFile]) -> (r: String)
    ensures
        r@ == file_id_for(path@, files@),
{
    let ghost fs = files@;
    let mut k: usize = 0;
    assert(fs.skip(0) =~= fs);
    while k < files.len()
        invariant
            k <= fs.len(),
            fs == files@,
            file_id_for(path@, fs) == file_id_for(path@, fs.skip(k as int)),
        decreases fs.len() - k,
    {
        assert(fs.skip(k as int)[0] == fs[k as int]);
        assert(fs.skip(k as int).drop_first() =~= fs.skip(k + 1));
        if str_eq(files[k].file.as_str(), path) {
            return files[k].id.clone();
        }
        k += 1;
    }
    let mut v = crate::text::chars_of("path:");
    push_str(&mut v, path);
    crate::text::string_of(&v)
}

/// Gives each parameter without a file identity the one its path resolves to.
pub fn backfill_file_ids(params: &mut Vec<GuardParam>, files: &[GuardFile])
    ensures
        final(params)@.len() == old(params)@.len(),
        forall|k: int| 0 <= k < old(params)@.len() ==> (#[trigger] final(params)@[k]) == (if old(params)@[k].file_id@.len() == 0 {
            GuardParam { file_id: final(params)@[k].file_id, ..old(params)@[k] }
        } else {
            old(params)@[k]
        }),
        forall|k: int| 0 <= k < old(params)@.len() && old(params)@[k].file_id@.len() == 0 ==> (#[trigger] final(params)@[k]).file_id@
            == file_id_for(old(params)@[k].file@, files@),
{
    let ghost before = params@;
    let mut k: usize = 0;
    while k < params.len()
        invariant
            k <= params@.len(),
            params@.len() == before.len(),
            forall|m: int| k <= m < before.len() ==> #[trigger] params@[m] == before[m],
            forall|m: int| 0 <= m < k ==> (#[trigger] params@[m]) == (if before[m].file_id@.len() == 0 {
                GuardParam { file_id: params@[m].file_id, ..before[m] }
            } else {
                before[m]
            }),
            forall|m: int| 0 <= m < k && before[m].file_id@.len() == 0 ==> (#[trigger] params@[m]).file_id@ == file_id_for(before[m].file@, files@),
        decreases params@.len() - k,
    {
        if crate::text::chars_of(params[k].file_id.as_str()).len() == 0 {
            let id = stable_file_id_for_path(params[k].file.as_str(), files);
            let mut p = params.remove(k);
            p.file_id = id;
            params.insert(k, p);
        }
        k += 1;
    }
}

/// The default shown and applied is the English one only in English and only where the
/// parameter has English content.
pub fn prefers_english_default(lang: &str, has_english_default: bool) -> (r: bool)
    ensures
        r == (lang@ == "en"@ && has_english_default),
{
    str_eq(lang, "en") && has_english_default
}

/// The recommended value for the interface language: the English one in English where the
/// parameter has one, else the default.
pub fn default_for_lang(p: &GuardParam, lang: &str) -> (r: crate::engine::GuardValue)
    ensures
        r == (if lang@ == "en"@ && p.default_en is Some { p.default_en->0 } else { p.default }),
{
    match &p.default_en {
        Some(v) => if prefers_english_default(lang, true) { v.duplicate() } else { p.default.duplicate() },
        None => p.default.duplicate(),
    }
}

/// After a merge, every built-in parameter's English label, description and default are the
/// built-in ones, whatever the disk holds.
pub proof fn law_builtin_english_resources_win(b: Seq<GuardParam>, d: Seq<GuardParam>, k: int)
    requires
        0 <= k < b.len(),
        b.len() <= usize::MAX,
        d.len() <= usize::MAX,
    ensures
        ({
            let plan = merged_slots(params_ids(b), params_ids(d), d.len());
            let m = slot_param(plan[k], b, d);
            &&& k < plan.len()
            &&& source_id(plan[k].main, params_ids(b), params_ids(d)) == b[k].id@
            &&& m.label_en == b[k].label_en
            &&& m.description_en == b[k].description_en
            &&& m.default_en == b[k].default_en
        }),
{
    law_builtin_texts_survive_merge(params_ids(b), params_ids(d), d.len());
    assert(params_ids(b)[k] == b[k].id@);
}

} // verus!
