use dmarc_explorer::mailbox::{
    decide_message, reconnect_delay_secs, MessageDecision, SessionOutcome, IMAP_TLS_PORT,
    RETRY_DELAY_SECS,
};

#[test]
fn failed_sessions_wait_before_reconnecting() {
    assert_eq!(reconnect_delay_secs(SessionOutcome::Finished), 0);
    assert_eq!(reconnect_delay_secs(SessionOutcome::Failed), 10);
    assert_eq!(RETRY_DELAY_SECS, 10);
    assert_eq!(IMAP_TLS_PORT, 993);
}

#[test]
fn message_without_body_is_left() {
    assert!(matches!(decide_message(None), MessageDecision::Leave));
}

#[test]
fn unparsable_message_is_left() {
    let raw = b"Content-Type: text/plain\r\nContent-Transfer-Encoding: base64\r\n\r\n!!!!\r\n";
    assert!(matches!(decide_message(Some(raw)), MessageDecision::Leave));
    assert!(matches!(decide_message(Some(b" bad header\r\n\r\n")), MessageDecision::Leave));
}

#[test]
fn message_with_extractable_attachments_is_archived() {
    let plain = b"Subject: not a report\r\n\r\nhello\r\n";
    match decide_message(Some(plain)) {
        MessageDecision::Archive(docs) => assert!(docs.is_empty()),
        MessageDecision::Leave => panic!("a readable message is archived"),
    }
}
