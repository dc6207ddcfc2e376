//! DMARC aggregate reports: the feedback document as its XML schema shapes it,
//! and the flat report that the library stores.

use vstd::prelude::*;

verus! {

/// One aggregate report, as it is stored.
pub struct DmarcReport {
    pub org_name: String,
    pub email: String,
    pub report_id: String,
    pub begin_date: i64,
    pub end_date: i64,
    pub domain: String,
    pub records: Vec<DmarcRecord>,
}

/// One row of an aggregate report: a sending source and how its mail fared.
pub struct DmarcRecord {
    pub source_ip: String,
    pub count: i64,
    pub disposition: String,
    pub dkim_result: Option<String>,
    pub spf_result: Option<String>,
}

/// The `<feedback>` document of a DMARC aggregate report (RFC 7489,
/// appendix C), restricted to the elements the library reads.
pub struct Feedback {
    pub report_metadata: ReportMetadata,
    pub policy_published: PolicyPublished,
    pub record: Vec<Record>,
}

/// `<report_metadata>`.
pub struct ReportMetadata {
    pub org_name: String,
    pub email: String,
    pub report_id: String,
    pub date_range: DateRange,
}

/// `<date_range>`: the reporting period, in seconds since the UNIX epoch.
pub struct DateRange {
    pub begin: i64,
    pub end: i64,
}

/// `<policy_published>`.
pub struct PolicyPublished {
    pub domain: String,
}

/// `<record>`.
pub struct Record {
    pub row: Row,
    pub auth_results: AuthResults,
}

/// `<row>`.
pub struct Row {
    pub source_ip: String,
    pub count: i64,
    pub policy_evaluated: PolicyEvaluated,
}

/// `<policy_evaluated>`.
pub struct PolicyEvaluated {
    pub disposition: String,
}

/// `<auth_results>`.
pub struct AuthResults {
    pub dkim: Option<DkimResult>,
    pub spf: Option<SpfResult>,
}

/// `<dkim>` within `<auth_results>`.
pub struct DkimResult {
    pub result: String,
}

/// `<spf>` within `<auth_results>`.
pub struct SpfResult {
    pub result: String,
}

/// The stored row for one `<record>`: its source, message count and
/// disposition, and the DKIM and SPF results where the record has them.
pub open spec fn record_of(rec: Record) -> DmarcRecord {
    DmarcRecord {
        source_ip: rec.row.source_ip,
        count: rec.row.count,
        disposition: rec.row.policy_evaluated.disposition,
        dkim_result: match rec.auth_results.dkim {
            Some(d) => Some(d.result),
            None => None,
        },
        spf_result: match rec.auth_results.spf {
            Some(s) => Some(s.result),
            None => None,
        },
    }
}

/// `report` is the stored report for the feedback document `fb`: it carries
/// the metadata and the published domain, and one row per `<record>`, in
/// document order.
pub open spec fn is_report_of(report: DmarcReport, fb: Feedback) -> bool {
    &&& report.org_name == fb.report_metadata.org_name
    &&& report.email == fb.report_metadata.email
    &&& report.report_id == fb.report_metadata.report_id
    &&& report.begin_date == fb.report_metadata.date_range.begin
    &&& report.end_date == fb.report_metadata.date_range.end
    &&& report.domain == fb.policy_published.domain
    &&& report.records@ == fb.record@.map_values(|r: Record| record_of(r))
}

/// Builds the stored row for one record.
pub fn record_from(rec: Record) -> (out: DmarcRecord)
    ensures
        out == record_of(rec),
        out.source_ip == rec.row.source_ip,
        out.count == rec.row.count,
        out.disposition == rec.row.policy_evaluated.disposition,
        rec.auth_results.dkim is None ==> out.dkim_result is None,
        rec.auth_results.dkim matches Some(d) ==> out.dkim_result == Some(d.result),
        rec.auth_results.spf is None ==> out.spf_result is None,
        rec.auth_results.spf matches Some(s) ==> out.spf_result == Some(s.result),
{
    let Record { row, auth_results } = rec;
    let dkim_result = match auth_results.dkim {
        Some(d) => Some(d.result),
        None => None,
    };
    let spf_result = match auth_results.spf {
        Some(s) => Some(s.result),
        None => None,
    };
    DmarcRecord {
        source_ip: row.source_ip,
        count: row.count,
        disposition: row.policy_evaluated.disposition,
        dkim_result,
        spf_result,
    }
}

/// Builds the stored report for a feedback document.
pub fn feedback_to_report(fb: Feedback) -> (report: DmarcReport)
    ensures
        is_report_of(report, fb),
{
    let ghost fb0 = fb;
    let Feedback { report_metadata, policy_published, record } = fb;
    let mut records: Vec<DmarcRecord> = Vec::new();
    for rec in it: record
        invariant
            it.seq() == fb0.record@,
            records@ == it.seq().take(it.index()).map_values(|r: Record| record_of(r)),
    {
        let ghost before = records@;
        records.push(record_from(rec));
        assert(it.seq().take(it.index() + 1) == it.seq().take(it.index() as int).push(rec));
    }
    assert(fb0.record@.take(fb0.record@.len() as int) == fb0.record@);
    DmarcReport {
        org_name: report_metadata.org_name,
        email: report_metadata.email,
        report_id: report_metadata.report_id,
        begin_date: report_metadata.date_range.begin,
        end_date: report_metadata.date_range.end,
        domain: policy_published.domain,
        records,
    }
}

/// The feedback documents that were read, in order, skipping the ones that
/// could not be read (`None`).
pub open spec fn read_feedback(parsed: Seq<Option<Feedback>>) -> Seq<Feedback>
    decreases parsed.len(),
{
    if parsed.len() == 0 {
        Seq::empty()
    } else {
        let earlier = read_feedback(parsed.drop_last());
        match parsed.last() {
            Some(fb) => earlier.push(fb),
            None => earlier,
        }
    }
}

/// The stored reports for the documents of one message, in order: one for
/// each document that could be read as a feedback document; the others are
/// skipped.
pub fn reports_from_feedback(parsed: Vec<Option<Feedback>>) -> (reports: Vec<DmarcReport>)
    ensures
        reports@.len() == read_feedback(parsed@).len(),
        forall|k: int| 0 <= k < reports@.len() ==> is_report_of(#[trigger] reports@[k], read_feedback(parsed@)[k]),
{
    let ghost all = parsed@;
    let mut reports: Vec<DmarcReport> = Vec::new();
    for item in it: parsed
        invariant
            it.seq() == all,
            reports@.len() == read_feedback(it.seq().take(it.index())).len(),
            forall|k: int| 0 <= k < reports@.len()
                ==> is_report_of(#[trigger] reports@[k], read_feedback(it.seq().take(it.index()))[k]),
    {
        let ghost i = it.index();
        assert(it.seq().take(i + 1).drop_last() == it.seq().take(i));
        assert(it.seq().take(i + 1).last() == item);
        match item {
            Some(fb) => {
                reports.push(feedback_to_report(fb));
            },
            None => {},
        }
    }
    assert(all.take(all.len() as int) == all);
    reports
}

/// A stored row holds the record's own source, count and disposition, its
/// own DKIM result and its own SPF result, each present exactly when the
/// record has it: the two results never stand in for each other.
pub proof fn lemma_record_of_fields(rec: Record)
    ensures
        record_of(rec).source_ip == rec.row.source_ip,
        record_of(rec).count == rec.row.count,
        record_of(rec).disposition == rec.row.policy_evaluated.disposition,
        rec.auth_results.dkim is None ==> record_of(rec).dkim_result is None,
        rec.auth_results.dkim matches Some(d) ==> record_of(rec).dkim_result == Some(d.result),
        rec.auth_results.spf is None ==> record_of(rec).spf_result is None,
        rec.auth_results.spf matches Some(s) ==> record_of(rec).spf_result == Some(s.result),
{
}

/// The stored report of a feedback document has one row per `<record>`, in
/// document order, and row `k` holds exactly what record `k` says.
pub proof fn lemma_report_rows(report: DmarcReport, fb: Feedback)
    requires
        is_report_of(report, fb),
    ensures
        report.records@.len() == fb.record@.len(),
        forall|k: int| 0 <= k < fb.record@.len() ==> {
            let row = #[trigger] report.records@[k];
            let rec = fb.record@[k];
            &&& row.source_ip == rec.row.source_ip
            &&& row.count == rec.row.count
            &&& row.disposition == rec.row.policy_evaluated.disposition
            &&& (rec.auth_results.dkim is None ==> row.dkim_result is None)
            &&& (rec.auth_results.dkim matches Some(d) ==> row.dkim_result == Some(d.result))
            &&& (rec.auth_results.spf is None ==> row.spf_result is None)
            &&& (rec.auth_results.spf matches Some(s) ==> row.spf_result == Some(s.result))
        },
{
    assert forall|k: int| 0 <= k < fb.record@.len() implies {
        let row = #[trigger] report.records@[k];
        let rec = fb.record@[k];
        &&& row.source_ip == rec.row.source_ip
        &&& row.count == rec.row.count
        &&& row.disposition == rec.row.policy_evaluated.disposition
        &&& (rec.auth_results.dkim is None ==> row.dkim_result is None)
        &&& (rec.auth_results.dkim matches Some(d) ==> row.dkim_result == Some(d.result))
        &&& (rec.auth_results.spf is None ==> row.spf_result is None)
        &&& (rec.auth_results.spf matches Some(s) ==> row.spf_result == Some(s.result))
    } by {
        lemma_record_of_fields(fb.record@[k]);
    }
}

/// Every readable document yields a report, wherever it stands, and every
/// unreadable one is skipped: no documents give no reports; a readable
/// document after some others adds its own report after theirs; an
/// unreadable one adds nothing.
pub proof fn lemma_read_feedback_steps(earlier: Seq<Option<Feedback>>, fb: Feedback)
    ensures
        read_feedback(Seq::<Option<Feedback>>::empty()) == Seq::<Feedback>::empty(),
        read_feedback(earlier.push(Some(fb))) == read_feedback(earlier).push(fb),
        read_feedback(earlier.push(None)) == read_feedback(earlier),
        read_feedback(seq![Some(fb)]) == seq![fb],
{
    assert(earlier.push(Some(fb)).drop_last() == earlier);
    assert(earlier.push(None::<Feedback>).drop_last() == earlier);
    let single = seq![Some(fb)];
    assert(single.drop_last() =~= Seq::<Option<Feedback>>::empty());
    assert(Seq::<Feedback>::empty().push(fb) =~= seq![fb]);
}

/// The number of reports is the number of readable documents.
pub open spec fn readable_count(parsed: Seq<Option<Feedback>>) -> nat
    decreases parsed.len(),
{
    if parsed.len() == 0 {
        0
    } else {
        readable_count(parsed.drop_last()) + if parsed.last() is Some { 1nat } else { 0nat }
    }
}

/// As many reports as readable documents, each readable document's report
/// standing at the position given by the readable documents before it.
pub proof fn lemma_read_feedback_positions(parsed: Seq<Option<Feedback>>)
    ensures
        read_feedback(parsed).len() == readable_count(parsed),
        forall|i: int| 0 <= i < parsed.len() && parsed[i] is Some ==>
            read_feedback(parsed)[readable_count(#[trigger] parsed.take(i)) as int] == parsed[i]->Some_0,
    decreases parsed.len(),
{
    if parsed.len() > 0 {
        let init = parsed.drop_last();
        lemma_read_feedback_positions(init);
        assert forall|i: int| 0 <= i < parsed.len() && parsed[i] is Some implies
            read_feedback(parsed)[readable_count(#[trigger] parsed.take(i)) as int] == parsed[i]->Some_0 by {
            if i < parsed.len() - 1 {
                assert(parsed.take(i) == init.take(i));
                assert(init[i] == parsed[i]);
                assert(init.take(i) =~= init.take(i));
                lemma_readable_count_le(init, i);
            } else {
                assert(parsed.take(i) == init);
            }
        }
    }
}

/// A prefix holds no more readable documents than the whole.
proof fn lemma_readable_count_le(parsed: Seq<Option<Feedback>>, i: int)
    requires
        0 <= i < parsed.len(),
        parsed[i] is Some,
    ensures
        readable_count(parsed.take(i)) < readable_count(parsed),
    decreases parsed.len(),
{
    if i < parsed.len() - 1 {
        let init = parsed.drop_last();
        assert(parsed.take(i) == init.take(i));
        lemma_readable_count_le(init, i);
    } else {
        assert(parsed.take(i) == parsed.drop_last());
    }
}

} // verus!
