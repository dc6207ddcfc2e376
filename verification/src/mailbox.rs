//! The decisions of the mailbox watcher. The watcher itself (connecting,
//! fetching, storing, moving messages) is I/O and runs outside the library;
//! it asks these functions what to do and does it.

use vstd::prelude::*;
use crate::extract::{email_documents, docs_view, extract_report_documents};

verus! {

/// The port of IMAP over TLS.
pub const IMAP_TLS_PORT: u16 = 993;

/// How long to wait before reconnecting after a failed session, in seconds.
pub const RETRY_DELAY_SECS: u64 = 10;

/// How a mailbox session ended.
#[derive(Debug, Clone, Copy, PartialEq, Eq, Structural)]
pub enum SessionOutcome {
    /// The session processed the inbox and idled until a new message came.
    Finished,
    /// The session failed (connection, login, or a mailbox or storage error).
    Failed,
}

/// What to do with one message of the inbox.
pub enum MessageDecision {
    /// Leave the message where it is: it has no body, or its attachments
    /// could not be extracted.
    Leave,
    /// Store the reports read from these documents, then copy the message
    /// to the destination folder and flag it seen and deleted in the inbox.
    Archive(Vec<Vec<u8>>),
}

/// Seconds to wait before the next session: none after a finished session,
/// [`RETRY_DELAY_SECS`] after a failed one.
pub fn reconnect_delay_secs(outcome: SessionOutcome) -> (secs: u64)
    ensures
        outcome == SessionOutcome::Finished ==> secs == 0,
        outcome == SessionOutcome::Failed ==> secs == RETRY_DELAY_SECS,
{
    match outcome {
        SessionOutcome::Finished => 0,
        SessionOutcome::Failed => RETRY_DELAY_SECS,
    }
}

/// Decides what to do with a message whose fetched body is `body` (`None`
/// when the server returned none): it is archived with its report documents
/// exactly when it has a body whose documents can be extracted.
pub fn decide_message(body: Option<&[u8]>) -> (decision: MessageDecision)
    ensures
        match body {
            None => decision is Leave,
            Some(raw) => match email_documents(raw@) {
                Ok(docs) => decision matches MessageDecision::Archive(found) && docs_view(found@) == docs,
                Err(_) => decision is Leave,
            },
        },
{
    match body {
        None => MessageDecision::Leave,
        Some(raw) => match extract_report_documents(raw) {
            Ok(found) => MessageDecision::Archive(found),
            Err(_) => MessageDecision::Leave,
        },
    }
}

} // verus!
