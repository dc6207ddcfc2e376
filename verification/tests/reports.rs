use dmarc_explorer::report::{
    feedback_to_report, record_from, reports_from_feedback, AuthResults, DateRange, DkimResult,
    Feedback, PolicyEvaluated, PolicyPublished, Record, ReportMetadata, Row, SpfResult,
};

fn record(ip: &str, count: i64, disposition: &str, dkim: Option<&str>, spf: Option<&str>) -> Record {
    Record {
        row: Row {
            source_ip: ip.to_string(),
            count,
            policy_evaluated: PolicyEvaluated { disposition: disposition.to_string() },
        },
        auth_results: AuthResults {
            dkim: dkim.map(|r| DkimResult { result: r.to_string() }),
            spf: spf.map(|r| SpfResult { result: r.to_string() }),
        },
    }
}

fn feedback(id: &str, records: Vec<Record>) -> Feedback {
    Feedback {
        report_metadata: ReportMetadata {
            org_name: "google.com".to_string(),
            email: "noreply-dmarc-support@google.com".to_string(),
            report_id: id.to_string(),
            date_range: DateRange { begin: 1700000000, end: 1700086399 },
        },
        policy_published: PolicyPublished { domain: "example.com".to_string() },
        record: records,
    }
}

#[test]
fn report_carries_metadata_and_records_in_order() {
    let fb = feedback(
        "r1",
        vec![
            record("192.0.2.1", 12, "none", Some("pass"), Some("pass")),
            record("198.51.100.7", 3, "quarantine", None, Some("fail")),
        ],
    );
    let r = feedback_to_report(fb);
    assert_eq!(r.org_name, "google.com");
    assert_eq!(r.email, "noreply-dmarc-support@google.com");
    assert_eq!(r.report_id, "r1");
    assert_eq!(r.begin_date, 1700000000);
    assert_eq!(r.end_date, 1700086399);
    assert_eq!(r.domain, "example.com");
    assert_eq!(r.records.len(), 2);
    assert_eq!(r.records[0].source_ip, "192.0.2.1");
    assert_eq!(r.records[0].count, 12);
    assert_eq!(r.records[0].dkim_result.as_deref(), Some("pass"));
    assert_eq!(r.records[1].source_ip, "198.51.100.7");
    assert_eq!(r.records[1].disposition, "quarantine");
    assert_eq!(r.records[1].dkim_result, None);
    assert_eq!(r.records[1].spf_result.as_deref(), Some("fail"));
}

#[test]
fn report_without_records() {
    let r = feedback_to_report(feedback("empty", vec![]));
    assert!(r.records.is_empty());
    assert_eq!(r.report_id, "empty");
}

#[test]
fn record_results_are_optional() {
    let r = record_from(record("10.0.0.1", 1, "reject", None, None));
    assert_eq!(r.dkim_result, None);
    assert_eq!(r.spf_result, None);
    assert_eq!(r.disposition, "reject");
}

#[test]
fn unreadable_documents_are_skipped() {
    let parsed = vec![
        None,
        Some(feedback("a", vec![record("192.0.2.1", 1, "none", None, None)])),
        None,
        Some(feedback("b", vec![])),
    ];
    let reports = reports_from_feedback(parsed);
    assert_eq!(reports.len(), 2);
    assert_eq!(reports[0].report_id, "a");
    assert_eq!(reports[0].records.len(), 1);
    assert_eq!(reports[1].report_id, "b");
    assert!(reports_from_feedback(vec![None, None]).is_empty());
}
