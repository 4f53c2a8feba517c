//! How the Guard view lays out its groups: which groups it shows and in what order, and the
//! files, names and summaries of each.
use vstd::prelude::*;
use crate::guard::{canonical_config_group, canonical_config_group_id, group_spec, groups_view, GroupSpec, GuardGroup};
use crate::model::GuardFileFormat;
use crate::roles::strings_view;
use crate::lifecycle::{health_summary, lifecycle_summary, HealthStatus, LifecycleSummary, ParameterLifecycle};
use crate::model::opt_view;
use crate::view::{action_eligibility_spec, action_states, eligibility_view, ActionStatesView, MemberSnapshot};
use crate::batch::BatchAction;
use crate::text::{lemma_seq_lt_irreflexive, lemma_seq_lt_total, lemma_seq_lt_transitive, seq_lt, str_eq, str_lt};

verus! {

/// The configured group that a view group id stands for: the first whose canonical id it is.
pub open spec fn group_def(groups: Seq<GroupSpec>, id: Seq<char>) -> Option<GroupSpec>
    decreases groups.len(),
{
    if groups.len() == 0 {
        None
    } else if canonical_config_group(groups[0].id) == id {
        Some(groups[0])
    } else {
        group_def(groups.drop_first(), id)
    }
}

/// Where a group sorts: configured built-in groups, then configured custom groups, each by
/// their order; then the groups that no configuration names.
pub open spec fn group_rank(groups: Seq<GroupSpec>, id: Seq<char>) -> (int, int) {
    match group_def(groups, id) {
        Some(g) => (if g.builtin { 0int } else { 1int }, g.order as int),
        None => (2int, u32::MAX as int),
    }
}

/// The view's order on group ids: by rank, then by id.
pub open spec fn group_before(groups: Seq<GroupSpec>, a: Seq<char>, b: Seq<char>) -> bool {
    let ka = group_rank(groups, a);
    let kb = group_rank(groups, b);
    ka.0 < kb.0 || (ka.0 == kb.0 && (ka.1 < kb.1 || (ka.1 == kb.1 && seq_lt(a, b))))
}

pub open spec fn sorted_ids(groups: Seq<GroupSpec>, s: Seq<Seq<char>>) -> bool {
    forall|i: int, j: int| 0 <= i < j < s.len() ==> group_before(groups, #[trigger] s[i], #[trigger] s[j])
}

/// One of the first `n` configured groups has this canonical id.
pub open spec fn configured_among(groups: Seq<GroupSpec>, n: int, x: Seq<char>) -> bool {
    exists|k: int| 0 <= k < n && canonical_config_group(#[trigger] groups[k].id) == x
}

/// The group ids that the view shows: those of its members and of the configured groups.
pub open spec fn shown_group(member_groups: Seq<Seq<char>>, groups: Seq<GroupSpec>, x: Seq<char>) -> bool {
    member_groups.contains(x) || configured_among(groups, groups.len() as int, x)
}

pub proof fn lemma_group_before_irreflexive(groups: Seq<GroupSpec>, a: Seq<char>)
    ensures
        !group_before(groups, a, a),
{
    lemma_seq_lt_irreflexive(a);
}

pub proof fn lemma_group_before_transitive(groups: Seq<GroupSpec>, a: Seq<char>, b: Seq<char>, c: Seq<char>)
    requires
        group_before(groups, a, b),
        group_before(groups, b, c),
    ensures
        group_before(groups, a, c),
{
    if seq_lt(a, b) && seq_lt(b, c) {
        lemma_seq_lt_transitive(a, b, c);
    }
}

pub proof fn lemma_group_before_total(groups: Seq<GroupSpec>, a: Seq<char>, b: Seq<char>)
    ensures
        a == b || group_before(groups, a, b) || group_before(groups, b, a),
{
    lemma_seq_lt_total(a, b);
}

fn group_rank_of(groups: &[GuardGroup], id: &str) -> (r: (u8, u32))
    ensures
        r.0 as int == group_rank(groups_view(groups@), id@).0,
        r.1 as int == group_rank(groups_view(groups@), id@).1,
{
    let ghost gv = groups_view(groups@);
    let mut k: usize = 0;
    assert(gv.skip(0) =~= gv);
    while k < groups.len()
        invariant
            k <= groups@.len(),
            gv == groups_view(groups@),
            group_def(gv, id@) == group_def(gv.skip(k as int), id@),
        decreases groups@.len() - k,
    {
        assert(gv.skip(k as int)[0] == group_spec(groups@[k as int]));
        assert(gv.skip(k as int).drop_first() =~= gv.skip(k + 1));
        let c = canonical_config_group_id(groups[k].id.as_str());
        if str_eq(c.as_str(), id) {
            return (if groups[k].builtin { 0 } else { 1 }, groups[k].order);
        }
        k += 1;
    }
    (2, u32::MAX)
}

fn group_is_before(groups: &[GuardGroup], a: &str, b: &str) -> (r: bool)
    ensures
        r == group_before(groups_view(groups@), a@, b@),
{
    let ka = group_rank_of(groups, a);
    let kb = group_rank_of(groups, b);
    ka.0 < kb.0 || (ka.0 == kb.0 && (ka.1 < kb.1 || (ka.1 == kb.1 && str_lt(a, b))))
}

fn insert_group_id(out: &mut Vec<String>, x: &str, groups: &[GuardGroup])
    requires
        sorted_ids(groups_view(groups@), strings_view(old(out)@)),
    ensures
        sorted_ids(groups_view(groups@), strings_view(final(out)@)),
        forall|y: Seq<char>| strings_view(final(out)@).contains(y) <==> (strings_view(old(out)@).contains(y) || y == x@),
{
    let ghost gv = groups_view(groups@);
    let ghost s = strings_view(out@);
    let mut p: usize = 0;
    while p < out.len() && group_is_before(groups, out[p].as_str(), x)
        invariant
            p <= out@.len(),
            s == strings_view(out@),
            gv == groups_view(groups@),
            forall|k: int| 0 <= k < p ==> group_before(gv, #[trigger] s[k], x@),
        decreases out@.len() - p,
    {
        p += 1;
    }
    if p < out.len() && str_eq(out[p].as_str(), x) {
        assert forall|y: Seq<char>| s.contains(y) <==> (s.contains(y) || y == x@) by {
            if y == x@ {
                assert(s[p as int] == y);
            }
        }
        return;
    }
    proof {
        assert forall|k: int| p <= k < s.len() implies group_before(gv, x@, #[trigger] s[k]) by {
            assert(s[p as int] == out@[p as int]@);
            lemma_group_before_total(gv, s[p as int], x@);
            if k > p {
                lemma_group_before_transitive(gv, x@, s[p as int], s[k]);
            }
        }
    }
    out.insert(p, crate::text::owned(x));
    let ghost t = strings_view(out@);
    assert(t =~= s.subrange(0, p as int).push(x@) + s.subrange(p as int, s.len() as int));
    assert forall|i: int, j: int| 0 <= i < j < t.len() implies group_before(gv, #[trigger] t[i], #[trigger] t[j]) by {
        if j < p {
            assert(t[i] == s[i] && t[j] == s[j]);
        } else if j == p {
            assert(t[i] == s[i]);
        } else if i < p {
            assert(t[i] == s[i] && t[j] == s[j - 1]);
            lemma_group_before_transitive(gv, s[i], x@, s[j - 1]);
        } else if i == p {
            assert(t[j] == s[j - 1]);
        } else {
            assert(t[i] == s[i - 1] && t[j] == s[j - 1]);
        }
    }
    assert forall|y: Seq<char>| t.contains(y) <==> (s.contains(y) || y == x@) by {
        if t.contains(y) {
            let k = choose|k: int| 0 <= k < t.len() && #[trigger] t[k] == y;
            if k < p {
                assert(s[k] == y);
            } else if k > p {
                assert(s[k - 1] == y);
            }
        }
        if s.contains(y) {
            let k = choose|k: int| 0 <= k < s.len() && #[trigger] s[k] == y;
            if k < p {
                assert(t[k] == y);
            } else {
                assert(t[k + 1] == y);
            }
        }
        if y == x@ {
            assert(t[p as int] == y);
        }
    }
}

/// The group ids that the view shows, each once, in the view's order.
pub fn ordered_group_ids(member_groups: &[String], groups: &[GuardGroup]) -> (r: Vec<String>)
    ensures
        sorted_ids(groups_view(groups@), strings_view(r@)),
        forall|x: Seq<char>| strings_view(r@).contains(x) <==> shown_group(strings_view(member_groups@), groups_view(groups@), x),
{
    let ghost gv = groups_view(groups@);
    let ghost mv = strings_view(member_groups@);
    let mut out: Vec<String> = Vec::new();
    let mut i: usize = 0;
    while i < member_groups.len()
        invariant
            i <= member_groups@.len(),
            gv == groups_view(groups@),
            mv == strings_view(member_groups@),
            sorted_ids(gv, strings_view(out@)),
            forall|x: Seq<char>| strings_view(out@).contains(x) <==> mv.subrange(0, i as int).contains(x),
        decreases member_groups@.len() - i,
    {
        let ghost before = strings_view(out@);
        insert_group_id(&mut out, member_groups[i].as_str(), groups);
        assert(mv[i as int] == member_groups@[i as int]@);
        assert forall|x: Seq<char>| #[trigger] strings_view(out@).contains(x) <==> mv.subrange(0, i + 1).contains(x) by {
            if mv.subrange(0, i + 1).contains(x) {
                let k = choose|k: int| 0 <= k < i + 1 && #[trigger] mv.subrange(0, i + 1)[k] == x;
                if k < i {
                    assert(mv.subrange(0, i as int)[k] == x);
                    assert(before.contains(x));
                }
            }
            if before.contains(x) {
                assert(mv.subrange(0, i as int).contains(x));
                let k = choose|k: int| 0 <= k < i && #[trigger] mv.subrange(0, i as int)[k] == x;
                assert(mv.subrange(0, i + 1)[k] == x);
            }
            if x == mv[i as int] {
                assert(mv.subrange(0, i + 1)[i as int] == x);
            }
        }
        i += 1;
    }
    assert(mv.subrange(0, mv.len() as int) =~= mv);
    let mut k: usize = 0;
    while k < groups.len()
        invariant
            k <= groups@.len(),
            gv == groups_view(groups@),
            mv == strings_view(member_groups@),
            sorted_ids(gv, strings_view(out@)),
            forall|x: Seq<char>| strings_view(out@).contains(x) <==> (mv.contains(x) || configured_among(gv, k as int, x)),
        decreases groups@.len() - k,
    {
        let c = canonical_config_group_id(groups[k].id.as_str());
        assert(gv[k as int] == group_spec(groups@[k as int]));
        let ghost before = strings_view(out@);
        insert_group_id(&mut out, c.as_str(), groups);
        assert(c@ == canonical_config_group(gv[k as int].id));
        assert forall|x: Seq<char>| #[trigger] strings_view(out@).contains(x) <==> (mv.contains(x) || configured_among(gv, k + 1, x)) by {
            assert(before.contains(x) <==> (mv.contains(x) || configured_among(gv, k as int, x)));
            assert(strings_view(out@).contains(x) <==> (before.contains(x) || x == c@));
            if configured_among(gv, k + 1, x) {
                let m = choose|m: int| 0 <= m < k + 1 && canonical_config_group(#[trigger] gv[m].id) == x;
                if m < k {
                    assert(configured_among(gv, k as int, x));
                }
            }
            if configured_among(gv, k as int, x) {
                let m = choose|m: int| 0 <= m < k && canonical_config_group(#[trigger] gv[m].id) == x;
                assert(configured_among(gv, k + 1, x));
            }
            if x == c@ {
                assert(configured_among(gv, k + 1, x));
            }
        }
        k += 1;
    }
    assert forall|x: Seq<char>| #[trigger] strings_view(out@).contains(x) <==> shown_group(mv, gv, x) by {
        assert(strings_view(out@).contains(x) <==> (mv.contains(x) || configured_among(gv, k as int, x)));
    }
    out
}

/// A physical file of a group.
#[derive(Debug, Clone, PartialEq, Eq)]
pub struct GroupFileRef {
    pub file: String,
    pub format: GuardFileFormat,
}

pub open spec fn refs_view(v: Seq<GroupFileRef>) -> Seq<(Seq<char>, GuardFileFormat)> {
    v.map_values(|r: GroupFileRef| (r.file@, r.format))
}

/// The format that the last member with this file gives it.
pub open spec fn last_format(ms: Seq<MemberSnapshot>, f: Seq<char>) -> Option<GuardFileFormat>
    decreases ms.len(),
{
    if ms.len() == 0 {
        None
    } else if ms.last().file@ == f {
        Some(ms.last().format)
    } else {
        last_format(ms.drop_last(), f)
    }
}

/// The files of a list of members, each once, ordered by path, with the format the last
/// member with that file gives it.
pub open spec fn files_of(ms: Seq<MemberSnapshot>, r: Seq<(Seq<char>, GuardFileFormat)>) -> bool {
    &&& forall|i: int, j: int| 0 <= i < j < r.len() ==> seq_lt(#[trigger] r[i].0, #[trigger] r[j].0)
    &&& forall|k: int| 0 <= k < r.len() ==> last_format(ms, (#[trigger] r[k]).0) == Some(r[k].1)
    &&& forall|f: Seq<char>| #[trigger] last_format(ms, f) is Some ==> exists|k: int| 0 <= k < r.len() && (#[trigger] r[k]).0 == f
}

/// The files of the members, each once, ordered by path.
pub fn group_files(members: &[MemberSnapshot]) -> (r: Vec<GroupFileRef>)
    ensures
        files_of(members@, refs_view(r@)),
        r@.len() <= members@.len(),
{
    let ghost ms = members@;
    let mut out: Vec<GroupFileRef> = Vec::new();
    let mut i: usize = 0;
    while i < members.len()
        invariant
            i <= ms.len(),
            ms == members@,
            files_of(ms.subrange(0, i as int), refs_view(out@)),
            out@.len() <= i,
        decreases ms.len() - i,
    {
        let ghost pre = ms.subrange(0, i as int);
        let ghost next = ms.subrange(0, i + 1);
        assert(next.drop_last() =~= pre);
        assert(next.last() == ms[i as int]);
        let ghost s = refs_view(out@);
        let m = &members[i];
        let mut p: usize = 0;
        while p < out.len() && str_lt(out[p].file.as_str(), m.file.as_str())
            invariant
                p <= out@.len(),
                s == refs_view(out@),
                forall|k: int| 0 <= k < p ==> seq_lt(#[trigger] s[k].0, m.file@),
            decreases out@.len() - p,
        {
            p += 1;
        }
        if p < out.len() && str_eq(out[p].file.as_str(), m.file.as_str()) {
            let f = out[p].file.clone();
            out.set(p, GroupFileRef { file: f, format: m.format });
            let ghost t = refs_view(out@);
            assert(s[p as int].0 == m.file@);
            assert(t =~= s.update(p as int, (m.file@, m.format)));
            assert forall|a: int, b: int| 0 <= a < b < t.len() implies seq_lt(#[trigger] t[a].0, #[trigger] t[b].0) by {
                assert(t[a].0 == s[a].0 && t[b].0 == s[b].0);
            }
            assert forall|f2: Seq<char>| #[trigger] last_format(next, f2) is Some implies exists|k: int| 0 <= k < t.len() && (#[trigger] t[k]).0 == f2 by {
                if f2 != m.file@ {
                    assert(last_format(next, f2) == last_format(pre, f2));
                    assert(last_format(pre, f2) is Some);
                    let k = choose|k: int| 0 <= k < s.len() && (#[trigger] s[k]).0 == f2;
                    assert(t[k].0 == f2);
                } else {
                    assert(t[p as int].0 == f2);
                }
            }
            assert forall|k: int| 0 <= k < t.len() implies last_format(next, (#[trigger] t[k]).0) == Some(t[k].1) by {
                if k != p {
                    assert(t[k] == s[k]);
                    if s[k].0 == m.file@ {
                        lemma_seq_lt_irreflexive(s[k].0);
                        if k < p {
                            lemma_seq_lt_transitive(s[k].0, s[p as int].0, s[k].0);
                        } else {
                            lemma_seq_lt_transitive(s[p as int].0, s[k].0, s[p as int].0);
                        }
                    }
                }
            }
        } else {
            proof {
                assert forall|k: int| p <= k < s.len() implies seq_lt(m.file@, #[trigger] s[k].0) by {
                    lemma_seq_lt_total(s[p as int].0, m.file@);
                    if k > p {
                        lemma_seq_lt_transitive(m.file@, s[p as int].0, s[k].0);
                    }
                }
            }
            let ghost e = (m.file@, m.format);
            out.insert(p, GroupFileRef { file: m.file.clone(), format: m.format });
            let ghost t = refs_view(out@);
            assert(t =~= s.subrange(0, p as int).push(e) + s.subrange(p as int, s.len() as int));
            assert forall|a: int, b: int| 0 <= a < b < t.len() implies seq_lt(#[trigger] t[a].0, #[trigger] t[b].0) by {
                if b < p {
                    assert(t[a] == s[a] && t[b] == s[b]);
                } else if b == p {
                    assert(t[a] == s[a]);
                } else if a < p {
                    assert(t[a] == s[a] && t[b] == s[b - 1]);
                    lemma_seq_lt_transitive(s[a].0, m.file@, s[b - 1].0);
                } else if a == p {
                    assert(t[b] == s[b - 1]);
                } else {
                    assert(t[a] == s[a - 1] && t[b] == s[b - 1]);
                }
            }
            assert forall|k: int| 0 <= k < t.len() implies last_format(next, (#[trigger] t[k]).0) == Some(t[k].1) by {
                if k < p {
                    assert(t[k] == s[k]);
                    lemma_seq_lt_irreflexive(m.file@);
                } else if k > p {
                    assert(t[k] == s[k - 1]);
                    lemma_seq_lt_irreflexive(m.file@);
                }
            }
            assert forall|f2: Seq<char>| #[trigger] last_format(next, f2) is Some implies exists|k: int| 0 <= k < t.len() && (#[trigger] t[k]).0 == f2 by {
                if f2 != m.file@ {
                    assert(last_format(next, f2) == last_format(pre, f2));
                    assert(last_format(pre, f2) is Some);
                    let k = choose|k: int| 0 <= k < s.len() && (#[trigger] s[k]).0 == f2;
                    if k < p {
                        assert(t[k].0 == f2);
                    } else {
                        assert(t[k + 1].0 == f2);
                    }
                } else {
                    assert(t[p as int].0 == f2);
                }
            }
        }
        i += 1;
    }
    assert(ms.subrange(0, ms.len() as int) =~= ms);
    out
}

/// The members of one group, in order.
pub open spec fn group_of(ms: Seq<MemberSnapshot>, g: Seq<char>) -> Seq<MemberSnapshot> {
    ms.filter(|m: MemberSnapshot| m.group_id@ == g)
}

/// The members of one file, in order.
pub open spec fn file_of(ms: Seq<MemberSnapshot>, f: Seq<char>) -> Seq<MemberSnapshot> {
    ms.filter(|m: MemberSnapshot| m.file@ == f)
}

pub open spec fn lifecycles(ms: Seq<MemberSnapshot>) -> Seq<ParameterLifecycle> {
    ms.map_values(|m: MemberSnapshot| m.lifecycle)
}

pub open spec fn healths(ms: Seq<MemberSnapshot>) -> Seq<HealthStatus> {
    ms.map_values(|m: MemberSnapshot| m.health)
}

/// The error of the first member whose check failed.
pub open spec fn first_error(ms: Seq<MemberSnapshot>) -> Option<Seq<char>>
    decreases ms.len(),
{
    if ms.len() == 0 {
        None
    } else if ms[0].error is Some {
        opt_view(ms[0].error)
    } else {
        first_error(ms.drop_first())
    }
}

/// A group's name: its configured name, else `Uncategorized` for the fallback group, else
/// its id.
pub open spec fn group_name(def: Option<GroupSpec>, id: Seq<char>) -> Seq<char> {
    match def {
        Some(g) => g.name,
        None => if id == "uncategorized"@ { "Uncategorized"@ } else { id },
    }
}

pub fn group_members(members: &[MemberSnapshot], group_id: &str) -> (r: Vec<MemberSnapshot>)
    ensures
        r@ == group_of(members@, group_id@),
{
    let ghost ms = members@;
    let mut out: Vec<MemberSnapshot> = Vec::new();
    let mut i: usize = 0;
    while i < members.len()
        invariant
            i <= ms.len(),
            ms == members@,
            out@ == group_of(ms.subrange(0, i as int), group_id@),
        decreases ms.len() - i,
    {
        proof {
            reveal(Seq::filter);
            assert(ms.subrange(0, i + 1).drop_last() =~= ms.subrange(0, i as int));
            assert(ms.subrange(0, i + 1).last() == ms[i as int]);
        }
        if str_eq(members[i].group_id.as_str(), group_id) {
            out.push(members[i].duplicate());
        }
        i += 1;
    }
    assert(ms.subrange(0, ms.len() as int) =~= ms);
    out
}

pub fn file_members(members: &[MemberSnapshot], file: &str) -> (r: Vec<MemberSnapshot>)
    ensures
        r@ == file_of(members@, file@),
{
    let ghost ms = members@;
    let mut out: Vec<MemberSnapshot> = Vec::new();
    let mut i: usize = 0;
    while i < members.len()
        invariant
            i <= ms.len(),
            ms == members@,
            out@ == file_of(ms.subrange(0, i as int), file@),
        decreases ms.len() - i,
    {
        proof {
            reveal(Seq::filter);
            assert(ms.subrange(0, i + 1).drop_last() =~= ms.subrange(0, i as int));
            assert(ms.subrange(0, i + 1).last() == ms[i as int]);
        }
        if str_eq(members[i].file.as_str(), file) {
            out.push(members[i].duplicate());
        }
        i += 1;
    }
    assert(ms.subrange(0, ms.len() as int) =~= ms);
    out
}

fn lifecycles_of(members: &[MemberSnapshot]) -> (r: Vec<ParameterLifecycle>)
    ensures
        r@ == lifecycles(members@),
{
    let mut out: Vec<ParameterLifecycle> = Vec::new();
    let mut i: usize = 0;
    while i < members.len()
        invariant
            i <= members@.len(),
            out@ == lifecycles(members@.subrange(0, i as int)),
        decreases members@.len() - i,
    {
        out.push(members[i].lifecycle);
        assert(lifecycles(members@.subrange(0, i + 1)) =~= lifecycles(members@.subrange(0, i as int)).push(members@[i as int].lifecycle));
        i += 1;
    }
    assert(members@.subrange(0, members@.len() as int) =~= members@);
    out
}

fn healths_of(members: &[MemberSnapshot]) -> (r: Vec<HealthStatus>)
    ensures
        r@ == healths(members@),
{
    let mut out: Vec<HealthStatus> = Vec::new();
    let mut i: usize = 0;
    while i < members.len()
        invariant
            i <= members@.len(),
            out@ == healths(members@.subrange(0, i as int)),
        decreases members@.len() - i,
    {
        out.push(members[i].health);
        assert(healths(members@.subrange(0, i + 1)) =~= healths(members@.subrange(0, i as int)).push(members@[i as int].health));
        i += 1;
    }
    assert(members@.subrange(0, members@.len() as int) =~= members@);
    out
}

fn first_member_error(members: &[MemberSnapshot]) -> (r: Option<String>)
    ensures
        opt_view(r) == first_error(members@),
{
    let ghost ms = members@;
    let mut k: usize = 0;
    assert(ms.skip(0) =~= ms);
    while k < members.len()
        invariant
            k <= ms.len(),
            ms == members@,
            first_error(ms) == first_error(ms.skip(k as int)),
        decreases ms.len() - k,
    {
        assert(ms.skip(k as int)[0] == ms[k as int]);
        assert(ms.skip(k as int).drop_first() =~= ms.skip(k + 1));
        if members[k].error.is_some() {
            return crate::model::opt_clone(&members[k].error);
        }
        k += 1;
    }
    None
}

/// The health of a physical file: that of its members together.
pub fn file_health(members: &[MemberSnapshot], file: &str) -> (r: HealthStatus)
    ensures
        r == health_summary(healths(file_of(members@, file@))),
{
    let fm = file_members(members, file);
    crate::lifecycle::aggregate_health(&healths_of(&fm))
}

/// What the view shows of a group, but its parameters and diagnostics.
#[derive(Debug, Clone, PartialEq, Eq)]
pub struct GroupSummary {
    pub id: String,
    pub name: String,
    /// The first of its files, for older clients; empty when it has none.
    pub file: String,
    pub format: GuardFileFormat,
    pub builtin: bool,
    pub lifecycle: LifecycleSummary,
    pub health: HealthStatus,
    pub actions: ActionStatesView,
    pub affected_members: u32,
    pub affected_files: u32,
    pub error: Option<String>,
    pub files: Vec<GroupFileRef>,
}

fn group_of_id(groups: &[GuardGroup], id: &str) -> (r: Option<usize>)
    ensures
        match r {
            Some(k) => k < groups@.len() && group_def(groups_view(groups@), id@) == Some(groups_view(groups@)[k as int]),
            None => group_def(groups_view(groups@), id@) is None,
        },
{
    let ghost gv = groups_view(groups@);
    let mut k: usize = 0;
    assert(gv.skip(0) =~= gv);
    while k < groups.len()
        invariant
            k <= groups@.len(),
            gv == groups_view(groups@),
            group_def(gv, id@) == group_def(gv.skip(k as int), id@),
        decreases groups@.len() - k,
    {
        assert(gv.skip(k as int)[0] == group_spec(groups@[k as int]));
        assert(gv.skip(k as int).drop_first() =~= gv.skip(k + 1));
        let c = canonical_config_group_id(groups[k].id.as_str());
        if str_eq(c.as_str(), id) {
            return Some(k);
        }
        k += 1;
    }
    None
}

/// What `group_summary` gives for a group: its name and files, its lifecycle, health and
/// actions over its members, and their reach.
pub open spec fn summary_of(r: GroupSummary, group_id: Seq<char>, members: Seq<MemberSnapshot>, groups: Seq<GuardGroup>) -> bool {
        let gm = group_of(members, group_id);
        let def = group_def(groups_view(groups), group_id);
        &&& r.id@ == group_id
        &&& r.name@ == group_name(def, group_id)
        &&& r.builtin == (def matches Some(g) && g.builtin)
        &&& files_of(gm, refs_view(r.files@))
        &&& r.file@ == (if r.files@.len() > 0 { r.files@[0].file@ } else { Seq::<char>::empty() })
        &&& r.format == (if r.files@.len() > 0 { r.files@[0].format } else { GuardFileFormat::PlainText })
        &&& r.lifecycle == lifecycle_summary(lifecycles(gm))
        &&& r.health == health_summary(healths(gm))
        &&& eligibility_view(r.actions.apply) == action_eligibility_spec(BatchAction::Apply, gm)
        &&& eligibility_view(r.actions.lock) == action_eligibility_spec(BatchAction::Lock, gm)
        &&& eligibility_view(r.actions.unlock) == action_eligibility_spec(BatchAction::Unlock, gm)
        &&& eligibility_view(r.actions.disable) == action_eligibility_spec(BatchAction::Disable, gm)
        &&& r.affected_members == gm.len()
        &&& r.affected_files == r.files@.len()
        &&& opt_view(r.error) == first_error(gm)
}

/// The summary of one group of the view, from all the view's members.
pub fn group_summary(group_id: &str, members: &[MemberSnapshot], groups: &[GuardGroup]) -> (r: GroupSummary)
    requires
        members@.len() <= u32::MAX,
    ensures
        summary_of(r, group_id@, members@, groups@),
{
    proof {
        reveal_strlit("uncategorized");
        reveal_strlit("Uncategorized");
    }
    let gm = group_members(members, group_id);
    proof {
        members@.filter_lemma(|m: MemberSnapshot| m.group_id@ == group_id@);
    }
    let files = group_files(&gm);
    let (name, builtin) = match group_of_id(groups, group_id) {
        Some(k) => (groups[k].name.clone(), groups[k].builtin),
        None => (if str_eq(group_id, "uncategorized") { crate::text::owned("Uncategorized") } else { crate::text::owned(group_id) }, false),
    };
    let (file, format) = if files.len() > 0 {
        (files[0].file.clone(), files[0].format)
    } else {
        (String::new(), GuardFileFormat::PlainText)
    };
    let lifecycle = crate::lifecycle::aggregate_lifecycle(&lifecycles_of(&gm));
    let health = crate::lifecycle::aggregate_health(&healths_of(&gm));
    let actions = action_states(&gm);
    let error = first_member_error(&gm);
    let affected_members = gm.len() as u32;
    let affected_files = files.len() as u32;
    GroupSummary {
        id: crate::text::owned(group_id),
        name,
        file,
        format,
        builtin,
        lifecycle,
        health,
        actions,
        affected_members,
        affected_files,
        error,
        files,
    }
}

/// What the view shows of one parameter besides its values: its actions and their reach.
#[derive(Debug, Clone, PartialEq, Eq)]
pub struct ParamSummary {
    pub applied: bool,
    pub locked: bool,
    pub actions: ActionStatesView,
    pub affected_members: u32,
    /// One when applying or locking it would write its file.
    pub affected_files: u32,
}

pub fn param_summary(member: &MemberSnapshot) -> (r: ParamSummary)
    ensures
        r.applied == member.lifecycle.spec_enabled(),
        r.locked == member.lifecycle.spec_locked(),
        eligibility_view(r.actions.apply) == action_eligibility_spec(BatchAction::Apply, seq![*member]),
        eligibility_view(r.actions.lock) == action_eligibility_spec(BatchAction::Lock, seq![*member]),
        eligibility_view(r.actions.unlock) == action_eligibility_spec(BatchAction::Unlock, seq![*member]),
        eligibility_view(r.actions.disable) == action_eligibility_spec(BatchAction::Disable, seq![*member]),
        r.affected_members == 1,
        r.affected_files == (if r.actions.apply.affected_files > 0 || r.actions.lock.affected_files > 0 { 1u32 } else { 0u32 }),
{
    let one = vec![member.duplicate()];
    assert(one@ =~= seq![*member]);
    let actions = action_states(one.as_slice());
    let affected_files: u32 = if actions.apply.affected_files > 0 || actions.lock.affected_files > 0 { 1 } else { 0 };
    ParamSummary {
        applied: member.lifecycle.is_enabled(),
        locked: member.lifecycle.is_locked(),
        actions,
        affected_members: 1,
        affected_files,
    }
}

/// A member whose check failed carries one plan conflict diagnostic; others carry none.
pub fn member_diagnostics(param_id: &str, file: &str, failed: bool) -> (r: Vec<crate::model::ValidationDiagnostic>)
    ensures
        failed ==> r@.len() == 1 && r@[0].code == crate::model::DiagnosticCode::PlanConflict && r@[0].scope_id@ == param_id@
            && opt_view(r@[0].relative_file) == Some(file@) && r@[0].line is None && r@[0].column is None,
        !failed ==> r@.len() == 0,
{
    let mut v: Vec<crate::model::ValidationDiagnostic> = Vec::new();
    if failed {
        v.push(crate::model::ValidationDiagnostic::new(param_id, Some(file), crate::model::DiagnosticCode::PlanConflict, None, None));
    }
    v
}

/// The Guard view as its decisions make it: whether it runs, the recovery it shows, and the
/// summary of each group it shows, in its order.
#[derive(Debug, Clone, PartialEq, Eq)]
pub struct GuardViewSummary {
    pub runtime: crate::view::GuardRuntimeState,
    pub recovery: crate::coordinator::GuardRecoveryStatus,
    pub groups: Vec<GroupSummary>,
}

pub open spec fn summary_ids(v: Seq<GroupSummary>) -> Seq<Seq<char>> {
    v.map_values(|g: GroupSummary| g.id@)
}

pub open spec fn member_group_ids(v: Seq<MemberSnapshot>) -> Seq<Seq<char>> {
    v.map_values(|m: MemberSnapshot| m.group_id@)
}

/// Assembles the view from loaded values: the runtime state from `enabled`, the recovery from
/// the coordinator and the pending migrations, and one summary per shown group in the view's
/// order.
pub fn assemble_view(
    members: &[MemberSnapshot],
    groups: &[GuardGroup],
    enabled: bool,
    recovery: crate::coordinator::GuardRecoveryStatus,
    format_pending: bool,
    lifecycle_pending: bool,
) -> (r: GuardViewSummary)
    requires
        members@.len() <= u32::MAX,
    ensures
        r.runtime == (if enabled { crate::view::GuardRuntimeState::Running } else { crate::view::GuardRuntimeState::Suspended }),
        (r.recovery.blocked, opt_view(r.recovery.code)) == crate::view::view_recovery_spec(recovery, format_pending, lifecycle_pending),
        sorted_ids(groups_view(groups@), summary_ids(r.groups@)),
        forall|x: Seq<char>| summary_ids(r.groups@).contains(x) <==> shown_group(member_group_ids(members@), groups_view(groups@), x),
        forall|k: int| 0 <= k < r.groups@.len() ==> summary_of(#[trigger] r.groups@[k], r.groups@[k].id@, members@, groups@),
{
    let mut ids_in: Vec<String> = Vec::new();
    let mut i: usize = 0;
    while i < members.len()
        invariant
            i <= members@.len(),
            strings_view(ids_in@) == member_group_ids(members@).subrange(0, i as int),
        decreases members@.len() - i,
    {
        let ghost before = strings_view(ids_in@);
        let gid = members[i].group_id.clone();
        ids_in.push(gid);
        assert(strings_view(ids_in@) =~= before.push(members@[i as int].group_id@));
        assert(member_group_ids(members@).subrange(0, i + 1) =~= member_group_ids(members@).subrange(0, i as int).push(
            members@[i as int].group_id@,
        ));
        i += 1;
    }
    assert(member_group_ids(members@).subrange(0, members@.len() as int) =~= member_group_ids(members@));
    let ids = ordered_group_ids(&ids_in, groups);
    let mut out: Vec<GroupSummary> = Vec::new();
    let mut k: usize = 0;
    while k < ids.len()
        invariant
            k <= ids@.len(),
            members@.len() <= u32::MAX,
            summary_ids(out@) == strings_view(ids@).subrange(0, k as int),
            forall|m: int| 0 <= m < out@.len() ==> summary_of(#[trigger] out@[m], out@[m].id@, members@, groups@),
        decreases ids@.len() - k,
    {
        let g = group_summary(ids[k].as_str(), members, groups);
        let ghost before = summary_ids(out@);
        let ghost gid = g.id@;
        out.push(g);
        assert(summary_ids(out@) =~= before.push(gid));
        assert(strings_view(ids@).subrange(0, k + 1) =~= strings_view(ids@).subrange(0, k as int).push(ids@[k as int]@));
        k += 1;
    }
    assert(strings_view(ids@).subrange(0, ids@.len() as int) =~= strings_view(ids@));
    GuardViewSummary {
        runtime: crate::view::runtime_state(enabled),
        recovery: crate::view::view_recovery(recovery, format_pending, lifecycle_pending),
        groups: out,
    }
}

} // verus!
