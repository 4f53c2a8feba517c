//! The decisions of a runtime audit after the rollout files and log databases were read:
//! which threads the databases are asked about, how their evidence joins the rollout
//! verdicts, and what incomplete evidence costs.
use vstd::prelude::*;
use crate::audit::{
    noted, notice_codes, outbound_merged, outbound_view, push_notice, AuditNotice, AuditSourceSupport, AuditVerdict,
    ObservationView, OutboundObservation, OutboundView, ParsedRollout, ResultView, RolloutObservation, SubagentAuditResult,
};
use crate::audit_merge::{downgrade_all, downgraded};
use crate::audit_sqlite::{evidence_view, evidences_view, EvidenceView, SamplingEvidence, SqliteAuditResult, SqliteNoticeCode};
use crate::text::{seq_lt, str_eq, str_lt};

verus! {

pub open spec fn sqlite_notice_name(c: SqliteNoticeCode) -> Seq<char> {
    match c {
        SqliteNoticeCode::SourceMissing => "audit_sqlite_source_missing"@,
        SqliteNoticeCode::SourceBusy => "audit_sqlite_source_busy"@,
        SqliteNoticeCode::MissingLogsTable => "audit_sqlite_missing_logs_table"@,
        SqliteNoticeCode::SchemaDrift => "audit_sqlite_schema_drift"@,
        SqliteNoticeCode::BodyTooLarge => "audit_sqlite_body_too_large"@,
        SqliteNoticeCode::InvalidMarker => "audit_sqlite_invalid_marker"@,
        SqliteNoticeCode::ConflictingEvidence => "audit_sqlite_conflicting_evidence"@,
    }
}

/// The audit notice of a log database notice.
pub fn sqlite_notice_code(c: SqliteNoticeCode) -> (r: &'static str)
    ensures
        r@ == sqlite_notice_name(c),
{
    match c {
        SqliteNoticeCode::SourceMissing => "audit_sqlite_source_missing",
        SqliteNoticeCode::SourceBusy => "audit_sqlite_source_busy",
        SqliteNoticeCode::MissingLogsTable => "audit_sqlite_missing_logs_table",
        SqliteNoticeCode::SchemaDrift => "audit_sqlite_schema_drift",
        SqliteNoticeCode::BodyTooLarge => "audit_sqlite_body_too_large",
        SqliteNoticeCode::InvalidMarker => "audit_sqlite_invalid_marker",
        SqliteNoticeCode::ConflictingEvidence => "audit_sqlite_conflicting_evidence",
    }
}

/// Notices added in order, each once.
pub open spec fn noted_all(ns: Seq<Seq<char>>, codes: Seq<Seq<char>>) -> Seq<Seq<char>>
    decreases codes.len(),
{
    if codes.len() == 0 {
        ns
    } else {
        noted(noted_all(ns, codes.drop_last()), codes.last())
    }
}

/// The outbound observations of one piece of sampling evidence: the requested model and the
/// model the client streamed with, each where known.
pub open spec fn evidence_models(e: EvidenceView) -> Seq<OutboundView> {
    let r = if e.requested.len() > 0 {
        seq![OutboundView { thread_id: e.thread, turn_id: e.turn, requested_model: e.requested }]
    } else {
        Seq::empty()
    };
    if e.client.len() > 0 {
        r.push(OutboundView { thread_id: e.thread, turn_id: e.turn, requested_model: e.client })
    } else {
        r
    }
}

pub open spec fn outbound_of(es: Seq<EvidenceView>) -> Seq<OutboundView>
    decreases es.len(),
{
    if es.len() == 0 {
        Seq::empty()
    } else {
        outbound_of(es.drop_last()) + evidence_models(es.last())
    }
}

/// The audit result once the sampling evidence is joined: the database notices, a notice
/// when the evidence is incomplete, the outbound models merged in; and incomplete evidence
/// leaves every agent at best incomplete and the audit at best rollout-only.
pub open spec fn sampled_result(r: ResultView, evidence: Seq<EvidenceView>, notices: Seq<SqliteNoticeCode>, complete: bool) -> ResultView {
    let n1 = noted_all(r.notices, notices.map_values(|c: SqliteNoticeCode| sqlite_notice_name(c)));
    let n2 = if !complete { noted(n1, "audit_sqlite_incomplete"@) } else { n1 };
    let m = outbound_merged(ResultView { notices: n2, ..r }, outbound_of(evidence));
    if !complete {
        ResultView {
            agents: downgraded(m.agents, AuditVerdict::Incomplete),
            source_support: if m.source_support == AuditSourceSupport::Full { AuditSourceSupport::RolloutOnly } else { m.source_support },
            ..m
        }
    } else {
        m
    }
}

/// Sampling evidence that is not complete never lets the audit claim full support, nor any
/// agent a verdict better than incomplete, and it is always noticed.
pub proof fn law_incomplete_sampling_is_never_full(r: ResultView, evidence: Seq<EvidenceView>, notices: Seq<SqliteNoticeCode>)
    ensures
        sampled_result(r, evidence, notices, false).source_support != AuditSourceSupport::Full,
        sampled_result(r, evidence, notices, false).notices.contains("audit_sqlite_incomplete"@),
        forall|k: int| 0 <= k < sampled_result(r, evidence, notices, false).agents.len() ==> crate::audit::verdict_rank(
            (#[trigger] sampled_result(r, evidence, notices, false).agents[k]).verdict,
        ) >= crate::audit::verdict_rank(AuditVerdict::Incomplete),
{
    let out = sampled_result(r, evidence, notices, false);
    let n1 = noted_all(r.notices, notices.map_values(|c: SqliteNoticeCode| sqlite_notice_name(c)));
    let n2 = noted(n1, "audit_sqlite_incomplete"@);
    assert(n2.contains("audit_sqlite_incomplete"@)) by {
        if !n1.contains("audit_sqlite_incomplete"@) {
            assert(n2[n1.len() as int] == "audit_sqlite_incomplete"@);
        }
    }
    let m = outbound_merged(ResultView { notices: n2, ..r }, outbound_of(evidence));
    assert forall|k: int| 0 <= k < out.agents.len() implies crate::audit::verdict_rank((#[trigger] out.agents[k]).verdict)
        >= crate::audit::verdict_rank(AuditVerdict::Incomplete) by {
        crate::audit::law_worst_is_a_maximum(m.agents[k].verdict, AuditVerdict::Incomplete, AuditVerdict::Incomplete);
    }
}

pub open spec fn notice_list(v: Seq<crate::audit_sqlite::SqliteNotice>) -> Seq<SqliteNoticeCode> {
    v.map_values(|n: crate::audit_sqlite::SqliteNotice| n.code)
}

fn outbound_observations(evidence: &Vec<SamplingEvidence>) -> (r: Vec<OutboundObservation>)
    ensures
        outbound_view(r@) == outbound_of(evidences_view(evidence@)),
{
    let ghost ev = evidences_view(evidence@);
    let mut out: Vec<OutboundObservation> = Vec::new();
    let mut i: usize = 0;
    assert(ev.subrange(0, 0) =~= Seq::<EvidenceView>::empty());
    assert(outbound_view(out@) =~= Seq::<OutboundView>::empty());
    while i < evidence.len()
        invariant
            i <= evidence@.len(),
            ev == evidences_view(evidence@),
            outbound_view(out@) == outbound_of(ev.subrange(0, i as int)),
        decreases evidence@.len() - i,
    {
        assert(ev.subrange(0, i + 1).drop_last() =~= ev.subrange(0, i as int));
        assert(ev.subrange(0, i + 1).last() == evidence_view(evidence@[i as int]));
        let e = &evidence[i];
        let ghost before = outbound_view(out@);
        let ghost first = out@.len();
        if e.requested_model.as_str().as_bytes().len() > 0 {
            out.push(OutboundObservation {
                thread_id: e.thread_id.clone(),
                turn_id: e.turn_id.clone(),
                requested_model: e.requested_model.clone(),
                observed_at_ms: None,
            });
        }
        proof {
            vstd::utf8::encode_utf8_decode_utf8(e.requested_model@);
            vstd::utf8::encode_utf8_decode_utf8(e.client_model@);
        }
        if e.client_model.as_str().as_bytes().len() > 0 {
            out.push(OutboundObservation {
                thread_id: e.thread_id.clone(),
                turn_id: e.turn_id.clone(),
                requested_model: e.client_model.clone(),
                observed_at_ms: None,
            });
        }
        assert(outbound_view(out@) =~= before + evidence_models(evidence_view(*e)));
        i += 1;
    }
    assert(ev.subrange(0, ev.len() as int) =~= ev);
    out
}

/// Joins the sampling evidence of the log databases to an audit result.
pub fn finish_with_sampling(result: SubagentAuditResult, sqlite: &SqliteAuditResult) -> (r: SubagentAuditResult)
    ensures
        r@ == sampled_result(result@, evidences_view(sqlite.evidence@), notice_list(sqlite.notices@), sqlite.complete),
{
    let mut result = result;
    let ghost base = result@;
    let ghost codes = notice_list(sqlite.notices@).map_values(|c: SqliteNoticeCode| sqlite_notice_name(c));
    let mut k: usize = 0;
    assert(codes.subrange(0, 0) =~= Seq::<Seq<char>>::empty());
    while k < sqlite.notices.len()
        invariant
            k <= sqlite.notices@.len(),
            codes == notice_list(sqlite.notices@).map_values(|c: SqliteNoticeCode| sqlite_notice_name(c)),
            result@ == (ResultView { notices: noted_all(base.notices, codes.subrange(0, k as int)), ..base }),
        decreases sqlite.notices@.len() - k,
    {
        assert(codes.subrange(0, k + 1).drop_last() =~= codes.subrange(0, k as int));
        assert(codes.subrange(0, k + 1).last() == sqlite_notice_name(sqlite.notices@[k as int].code));
        push_notice(&mut result.notices, sqlite_notice_code(sqlite.notices[k].code));
        k += 1;
    }
    assert(codes.subrange(0, codes.len() as int) =~= codes);
    let complete = sqlite.complete;
    if !complete {
        push_notice(&mut result.notices, "audit_sqlite_incomplete");
    }
    let outbound = outbound_observations(&sqlite.evidence);
    let mut merged = crate::audit::merge_outbound_evidence(&result, &outbound);
    if !complete {
        downgrade_all(&mut merged.agents, AuditVerdict::Incomplete);
        if matches!(merged.source_support, AuditSourceSupport::Full) {
            merged.source_support = AuditSourceSupport::RolloutOnly;
        }
    }
    merged
}

/// The child threads of a parsed rollout: sessions that name a parent.
pub open spec fn child_thread(o: ObservationView, id: Seq<char>) -> bool {
    o matches ObservationView::Session(s) && s.parent_thread_id is Some && s.thread_id == id
}

pub open spec fn strictly_sorted(s: Seq<Seq<char>>) -> bool {
    forall|i: int, j: int| 0 <= i < j < s.len() ==> seq_lt(#[trigger] s[i], #[trigger] s[j])
}

fn insert_id(out: &mut Vec<String>, x: &str)
    requires
        strictly_sorted(crate::roles::strings_view(old(out)@)),
    ensures
        strictly_sorted(crate::roles::strings_view(final(out)@)),
        forall|y: Seq<char>| crate::roles::strings_view(final(out)@).contains(y) <==> (crate::roles::strings_view(old(out)@).contains(y) || y == x@),
{
    let ghost s = crate::roles::strings_view(out@);
    let mut p: usize = 0;
    while p < out.len() && str_lt(out[p].as_str(), x)
        invariant
            p <= out@.len(),
            s == crate::roles::strings_view(out@),
            forall|k: int| 0 <= k < p ==> seq_lt(#[trigger] s[k], x@),
        decreases out@.len() - p,
    {
        p += 1;
    }
    if p < out.len() && str_eq(out[p].as_str(), x) {
        assert forall|y: Seq<char>| s.contains(y) <==> (s.contains(y) || y == x@) by {
            if y == x@ {
                assert(s[p as int] == y);
            }
        }
        return;
    }
    proof {
        assert forall|k: int| p <= k < s.len() implies seq_lt(x@, #[trigger] s[k]) by {
            assert(s[p as int] == out@[p as int]@);
            crate::text::lemma_seq_lt_total(s[p as int], x@);
            if k > p {
                crate::text::lemma_seq_lt_transitive(x@, s[p as int], s[k]);
            }
        }
    }
    out.insert(p, crate::text::owned(x));
    let ghost t = crate::roles::strings_view(out@);
    assert(t =~= s.subrange(0, p as int).push(x@) + s.subrange(p as int, s.len() as int));
    assert forall|i: int, j: int| 0 <= i < j < t.len() implies seq_lt(#[trigger] t[i], #[trigger] t[j]) by {
        if j < p {
            assert(t[i] == s[i] && t[j] == s[j]);
        } else if j == p {
            assert(t[i] == s[i]);
        } else if i < p {
            assert(t[i] == s[i] && t[j] == s[j - 1]);
            crate::text::lemma_seq_lt_transitive(s[i], x@, s[j - 1]);
        } else if i == p {
            assert(t[j] == s[j - 1]);
        } else {
            assert(t[i] == s[i - 1] && t[j] == s[j - 1]);
        }
    }
    assert forall|y: Seq<char>| t.contains(y) <==> (s.contains(y) || y == x@) by {
        if t.contains(y) {
            let k = choose|k: int| 0 <= k < t.len() && #[trigger] t[k] == y;
            if k < p {
                assert(s[k] == y);
            } else if k > p {
                assert(s[k - 1] == y);
            }
        }
        if s.contains(y) {
            let k = choose|k: int| 0 <= k < s.len() && #[trigger] s[k] == y;
            if k < p {
                assert(t[k] == y);
            } else {
                assert(t[k + 1] == y);
            }
        }
        if y == x@ {
            assert(t[p as int] == y);
        }
    }
}

pub open spec fn has_child(os: Seq<ObservationView>, id: Seq<char>) -> bool {
    exists|k: int| 0 <= k < os.len() && child_thread(#[trigger] os[k], id)
}

/// The threads the log databases are asked about: every child session's thread, once each,
/// in order.
pub fn known_thread_ids(parsed: &ParsedRollout) -> (r: Vec<String>)
    ensures
        strictly_sorted(crate::roles::strings_view(r@)),
        forall|id: Seq<char>| crate::roles::strings_view(r@).contains(id) <==> has_child(crate::audit::observations_view(parsed.observations@), id),
{
    let ghost os = crate::audit::observations_view(parsed.observations@);
    let mut out: Vec<String> = Vec::new();
    let mut i: usize = 0;
    while i < parsed.observations.len()
        invariant
            i <= os.len(),
            os == crate::audit::observations_view(parsed.observations@),
            strictly_sorted(crate::roles::strings_view(out@)),
            forall|id: Seq<char>| crate::roles::strings_view(out@).contains(id) <==> has_child(os.subrange(0, i as int), id),
        decreases os.len() - i,
    {
        let ghost before = crate::roles::strings_view(out@);
        assert(os[i as int] == parsed.observations@[i as int]@);
        match &parsed.observations[i] {
            RolloutObservation::Session(s) => {
                match &s.parent_thread_id {
                    Some(_) => {
                        insert_id(&mut out, s.thread_id.as_str());
                    },
                    None => {},
                }
            },
            _ => {},
        }
        assert forall|id: Seq<char>| #[trigger] crate::roles::strings_view(out@).contains(id) <==> has_child(os.subrange(0, i + 1), id) by {
            let pre = os.subrange(0, i as int);
            let nxt = os.subrange(0, i + 1);
            assert(before.contains(id) <==> has_child(pre, id));
            if has_child(nxt, id) {
                let k = choose|k: int| 0 <= k < nxt.len() && child_thread(#[trigger] nxt[k], id);
                if k < i {
                    assert(pre[k] == nxt[k]);
                    assert(has_child(pre, id));
                } else {
                    assert(nxt[k] == os[i as int]);
                }
            }
            if has_child(pre, id) {
                let k = choose|k: int| 0 <= k < pre.len() && child_thread(#[trigger] pre[k], id);
                assert(nxt[k] == pre[k]);
            }
            if child_thread(os[i as int], id) {
                assert(nxt[i as int] == os[i as int]);
            }
        }
        i += 1;
    }
    assert(os.subrange(0, os.len() as int) =~= os);
    out
}

fn duplicate_observation(o: &RolloutObservation) -> (r: RolloutObservation)
    ensures
        r@ == o@,
{
    match o {
        RolloutObservation::Session(s) => RolloutObservation::Session(s.duplicate()),
        RolloutObservation::Turn(t) => RolloutObservation::Turn(t.duplicate()),
        RolloutObservation::Spawn(p) => RolloutObservation::Spawn(p.duplicate()),
    }
}

/// Joins the rollout of one more file: its observations follow, truncation carries over,
/// and its notices are added once each.
pub fn merge_parsed(destination: &mut ParsedRollout, source: ParsedRollout)
    ensures
        crate::audit::observations_view(final(destination).observations@) == crate::audit::observations_view(old(destination).observations@)
            + crate::audit::observations_view(source.observations@),
        final(destination).truncated == (old(destination).truncated || source.truncated),
        notice_codes(final(destination).notices@) == noted_all(notice_codes(old(destination).notices@), notice_codes(source.notices@)),
{
    let ghost obs0 = crate::audit::observations_view(destination.observations@);
    let ghost src_obs = crate::audit::observations_view(source.observations@);
    let ghost n0 = notice_codes(destination.notices@);
    let ghost sn = notice_codes(source.notices@);
    let mut k: usize = 0;
    while k < source.observations.len()
        invariant
            k <= source.observations@.len(),
            src_obs == crate::audit::observations_view(source.observations@),
            crate::audit::observations_view(destination.observations@) == obs0 + src_obs.subrange(0, k as int),
            destination.truncated == old(destination).truncated,
            notice_codes(destination.notices@) == n0,
            n0 == notice_codes(old(destination).notices@),
            obs0 == crate::audit::observations_view(old(destination).observations@),
        decreases source.observations@.len() - k,
    {
        let ghost before = destination.observations@;
        let o = duplicate_observation(&source.observations[k]);
        destination.observations.push(o);
        assert(crate::audit::observations_view(destination.observations@) =~= crate::audit::observations_view(before).push(src_obs[k as int]));
        assert(obs0 + src_obs.subrange(0, k + 1) =~= (obs0 + src_obs.subrange(0, k as int)).push(src_obs[k as int]));
        k += 1;
    }
    assert(src_obs.subrange(0, src_obs.len() as int) =~= src_obs);
    destination.truncated = destination.truncated || source.truncated;
    let mut j: usize = 0;
    assert(sn.subrange(0, 0) =~= Seq::<Seq<char>>::empty());
    while j < source.notices.len()
        invariant
            j <= source.notices@.len(),
            sn == notice_codes(source.notices@),
            n0 == notice_codes(old(destination).notices@),
            obs0 == crate::audit::observations_view(old(destination).observations@),
            crate::audit::observations_view(destination.observations@) == obs0 + src_obs,
            destination.truncated == (old(destination).truncated || source.truncated),
            notice_codes(destination.notices@) == noted_all(n0, sn.subrange(0, j as int)),
        decreases source.notices@.len() - j,
    {
        assert(sn.subrange(0, j + 1).drop_last() =~= sn.subrange(0, j as int));
        assert(sn.subrange(0, j + 1).last() == source.notices@[j as int].code@);
        push_notice(&mut destination.notices, source.notices[j].code.as_str());
        j += 1;
    }
    assert(sn.subrange(0, sn.len() as int) =~= sn);
}

/// Adds what reading the rollout files noticed: its notices, and truncation.
pub fn note_rollout_reads(parsed: &mut ParsedRollout, read_notices: &[String], truncated: bool)
    ensures
        crate::audit::observations_view(final(parsed).observations@) == crate::audit::observations_view(old(parsed).observations@),
        final(parsed).truncated == (old(parsed).truncated || truncated),
        notice_codes(final(parsed).notices@) == (if truncated {
            noted(noted_all(notice_codes(old(parsed).notices@), crate::roles::strings_view(read_notices@)), "audit_truncated"@)
        } else {
            noted_all(notice_codes(old(parsed).notices@), crate::roles::strings_view(read_notices@))
        }),
{
    let ghost n0 = notice_codes(parsed.notices@);
    let ghost rn = crate::roles::strings_view(read_notices@);
    let mut j: usize = 0;
    assert(rn.subrange(0, 0) =~= Seq::<Seq<char>>::empty());
    while j < read_notices.len()
        invariant
            j <= read_notices@.len(),
            rn == crate::roles::strings_view(read_notices@),
            notice_codes(parsed.notices@) == noted_all(n0, rn.subrange(0, j as int)),
            crate::audit::observations_view(parsed.observations@) == crate::audit::observations_view(old(parsed).observations@),
            parsed.truncated == old(parsed).truncated,
        decreases read_notices@.len() - j,
    {
        assert(rn.subrange(0, j + 1).drop_last() =~= rn.subrange(0, j as int));
        assert(rn.subrange(0, j + 1).last() == read_notices@[j as int]@);
        push_notice(&mut parsed.notices, read_notices[j].as_str());
        j += 1;
    }
    assert(rn.subrange(0, rn.len() as int) =~= rn);
    if truncated {
        parsed.truncated = true;
        push_notice(&mut parsed.notices, "audit_truncated");
    }
}

} // verus!
