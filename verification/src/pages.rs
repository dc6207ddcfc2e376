//! The rows that the report pages show, as the database queries yield them.

use vstd::prelude::*;

verus! {

/// One line of the overview: a domain, when its last report period ended,
/// how many messages its reports cover and how many of them failed.
pub struct DomainSummary {
    pub domain: String,
    pub last_report: String,
    pub total_messages: i64,
    pub failures: i64,
}

/// One report of a domain, with its period and its failed message count.
pub struct ReportSummary {
    pub id: i64,
    pub org_name: String,
    pub domain: String,
    pub begin_date: String,
    pub end_date: String,
    pub failures: i64,
}

/// A source whose messages failed DMARC for a domain.
pub struct FailedSource {
    pub source_ip: String,
    pub count: i64,
    pub org_name: String,
    pub disposition: String,
    pub dkim: String,
    pub spf: String,
    pub report_id: i64,
}

/// The header of one report.
pub struct ReportDetail {
    pub id: i64,
    pub org_name: String,
    pub email: String,
    pub domain: String,
    pub report_id: String,
}

/// One record of a report.
pub struct RecordDetail {
    pub source_ip: String,
    pub count: i64,
    pub disposition: String,
    pub dkim: String,
    pub spf: String,
}

} // verus!
