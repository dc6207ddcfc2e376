use std::io::{Cursor, Write};

use dmarc_explorer::extract::{
    attachment_filename, classify_attachment, documents_from_parts, extract_report_documents,
    gzip_documents, leaf_part_documents, zip_documents, AttachmentKind, ExtractError,
};
use dmarc_explorer::mime::MailPart;
use dmarc_explorer::text::{bytes_contain, bytes_end_with, bytes_equal};

fn base64(data: &[u8]) -> String {
    const ALPHABET: &[u8] = b"ABCDEFGHIJKLMNOPQRSTUVWXYZabcdefghijklmnopqrstuvwxyz0123456789+/";
    let mut out = String::new();
    for (n, chunk) in data.chunks(3).enumerate() {
        if n > 0 && n % 19 == 0 {
            out.push_str("\r\n");
        }
        let b = [chunk[0], *chunk.get(1).unwrap_or(&0), *chunk.get(2).unwrap_or(&0)];
        let v = ((b[0] as u32) << 16) | ((b[1] as u32) << 8) | b[2] as u32;
        for i in 0..4 {
            if i <= chunk.len() {
                out.push(ALPHABET[((v >> (18 - 6 * i)) & 63) as usize] as char);
            } else {
                out.push('=');
            }
        }
    }
    out
}

fn gzip(data: &[u8]) -> Vec<u8> {
    let mut enc = flate2::write::GzEncoder::new(Vec::new(), flate2::Compression::default());
    enc.write_all(data).unwrap();
    enc.finish().unwrap()
}

fn zip(entries: &[(&str, &[u8])]) -> Vec<u8> {
    let mut w = zip::ZipWriter::new(Cursor::new(Vec::new()));
    let opts = zip::write::SimpleFileOptions::default()
        .compression_method(zip::CompressionMethod::Stored);
    for (name, data) in entries {
        w.start_file(*name, opts).unwrap();
        w.write_all(data).unwrap();
    }
    w.finish().unwrap().into_inner()
}

/// A multipart message with one text part and the given attachments
/// (Content-Type, file name, bytes).
fn message(attachments: &[(&str, &str, &[u8])]) -> Vec<u8> {
    let mut m = String::new();
    m.push_str("From: reports@example.net\r\nTo: dmarc@example.com\r\n");
    m.push_str("Subject: Report domain: example.com\r\nMIME-Version: 1.0\r\n");
    m.push_str("Content-Type: multipart/mixed; boundary=\"BOUND\"\r\n\r\n");
    m.push_str("--BOUND\r\nContent-Type: text/plain\r\n\r\nThis is a DMARC report.\r\n");
    for (ctype, name, data) in attachments {
        m.push_str(&format!(
            "--BOUND\r\nContent-Type: {}; name=\"{}\"\r\nContent-Transfer-Encoding: base64\r\n\r\n{}\r\n",
            ctype,
            name,
            base64(data)
        ));
    }
    m.push_str("--BOUND--\r\n");
    m.into_bytes()
}

const XML_A: &[u8] = b"<feedback><report_metadata><org_name>a</org_name></report_metadata></feedback>";
const XML_B: &[u8] = b"<feedback><report_metadata><org_name>b</org_name></report_metadata></feedback>";

fn leaf(mimetype: &str, name: Option<&str>, body: Option<Vec<u8>>) -> MailPart {
    MailPart {
        mimetype: mimetype.as_bytes().to_vec(),
        params: name.map(|n| vec![(b"name".to_vec(), n.as_bytes().to_vec())]).unwrap_or_default(),
        body,
        subpart_count: 0,
    }
}

#[test]
fn gzip_attachment_yields_its_decompressed_report() {
    let gz = gzip(XML_A);
    let raw = message(&[("application/gzip", "report.xml.gz", &gz)]);
    // application/gzip mentions "zip": the attachment is taken for a ZIP archive.
    assert_eq!(extract_report_documents(&raw), Err(ExtractError::BadArchive));
    let raw = message(&[("application/octet-stream", "report.xml.gz", &gz)]);
    assert_eq!(extract_report_documents(&raw), Ok(vec![XML_A.to_vec()]));
}

#[test]
fn zip_attachment_yields_its_xml_entries_in_order() {
    let z = zip(&[("b.xml", XML_B), ("readme.txt", b"hello"), ("a.xml", XML_A)]);
    let raw = message(&[("application/zip", "report.zip", &z)]);
    assert_eq!(
        extract_report_documents(&raw),
        Ok(vec![XML_B.to_vec(), XML_A.to_vec()])
    );
}

#[test]
fn attachments_are_taken_in_message_order() {
    let z = zip(&[("a.xml", XML_A)]);
    let gz = gzip(XML_B);
    let raw = message(&[
        ("application/octet-stream", "second.xml.gz", &gz),
        ("application/x-zip-compressed", "first.bin", &z),
    ]);
    assert_eq!(
        extract_report_documents(&raw),
        Ok(vec![XML_B.to_vec(), XML_A.to_vec()])
    );
}

#[test]
fn nested_multipart_is_walked_depth_first() {
    let gz_a = gzip(XML_A);
    let gz_b = gzip(XML_B);
    let raw = format!(
        "Content-Type: multipart/mixed; boundary=\"OUT\"\r\n\r\n\
         --OUT\r\nContent-Type: multipart/mixed; boundary=\"IN\"\r\n\r\n\
         --IN\r\nContent-Type: application/octet-stream; name=\"a.gz\"\r\nContent-Transfer-Encoding: base64\r\n\r\n{}\r\n\
         --IN--\r\n\
         --OUT\r\nContent-Type: application/octet-stream; name=\"b.gz\"\r\nContent-Transfer-Encoding: base64\r\n\r\n{}\r\n\
         --OUT--\r\n",
        base64(&gz_a),
        base64(&gz_b)
    );
    assert_eq!(
        extract_report_documents(raw.as_bytes()),
        Ok(vec![XML_A.to_vec(), XML_B.to_vec()])
    );
}

#[test]
fn message_without_attachments_yields_nothing() {
    let raw = message(&[]);
    assert_eq!(extract_report_documents(&raw), Ok(vec![]));
    let plain = b"Subject: hi\r\n\r\njust text\r\n";
    assert_eq!(extract_report_documents(plain), Ok(vec![]));
}

#[test]
fn malformed_message_is_refused() {
    assert_eq!(
        extract_report_documents(b" Subject: starts with a space\r\n\r\nbody"),
        Err(ExtractError::MalformedMessage)
    );
}

#[test]
fn undecodable_body_fails_the_whole_message() {
    let gz = gzip(XML_A);
    let mut raw = String::from("Content-Type: multipart/mixed; boundary=\"B\"\r\n\r\n");
    raw.push_str(&format!(
        "--B\r\nContent-Type: application/octet-stream; name=\"r.gz\"\r\nContent-Transfer-Encoding: base64\r\n\r\n{}\r\n",
        base64(&gz)
    ));
    raw.push_str("--B\r\nContent-Type: text/plain\r\nContent-Transfer-Encoding: base64\r\n\r\n!!!!\r\n--B--\r\n");
    assert_eq!(extract_report_documents(raw.as_bytes()), Err(ExtractError::UndecodableBody));
}

#[test]
fn corrupt_gzip_attachment_fails() {
    let raw = message(&[("application/octet-stream", "r.xml.gz", b"not gzip at all")]);
    assert_eq!(extract_report_documents(&raw), Err(ExtractError::BadGzip));
}

#[test]
fn corrupt_zip_attachment_fails() {
    let raw = message(&[("application/zip", "r.zip", b"not a zip archive")]);
    assert_eq!(extract_report_documents(&raw), Err(ExtractError::BadArchive));
}

#[test]
fn unreadable_xml_entry_fails_but_unreadable_other_entry_does_not() {
    // Stored entries: flipping a byte of an entry's data breaks its CRC.
    let corrupt = |name: &str| {
        let mut z = zip(&[(name, XML_A)]);
        let pos = z.windows(XML_A.len()).position(|w| w == XML_A).unwrap();
        z[pos] ^= 0x20;
        z
    };
    assert_eq!(zip_documents(&corrupt("a.xml")), Err(ExtractError::BadArchive));
    assert_eq!(zip_documents(&corrupt("a.txt")), Ok(vec![]));
}

#[test]
fn gzip_documents_decompresses() {
    assert_eq!(gzip_documents(&gzip(b"abc")), Ok(vec![b"abc".to_vec()]));
    assert_eq!(gzip_documents(b"abc"), Err(ExtractError::BadGzip));
}

#[test]
fn classification_follows_name_then_content_type() {
    assert_eq!(classify_attachment(b"r.zip", b"text/plain"), AttachmentKind::Zip);
    assert_eq!(classify_attachment(b"r.gz", b"application/zip"), AttachmentKind::Zip);
    assert_eq!(classify_attachment(b"r.gz", b"application/gzip"), AttachmentKind::Zip);
    assert_eq!(classify_attachment(b"", b"application/x-gzip"), AttachmentKind::Zip);
    assert_eq!(classify_attachment(b"r.xml.gz", b"application/octet-stream"), AttachmentKind::Gzip);
    assert_eq!(classify_attachment(b"r.xml", b"text/xml"), AttachmentKind::Other);
    assert_eq!(classify_attachment(b"r.ZIP", b"text/plain"), AttachmentKind::Other);
}

#[test]
fn filename_comes_from_the_name_parameter() {
    let mut p = leaf("application/zip", Some("r.zip"), Some(vec![]));
    p.params.insert(0, (b"charset".to_vec(), b"x".to_vec()));
    assert_eq!(attachment_filename(&p), b"r.zip".to_vec());
    assert_eq!(attachment_filename(&leaf("a/b", None, None)), Vec::<u8>::new());
}

#[test]
fn parts_are_processed_leaves_only() {
    let gz = gzip(XML_A);
    let container = MailPart {
        mimetype: b"multipart/mixed".to_vec(),
        params: vec![],
        body: None,
        subpart_count: 2,
    };
    let parts = vec![
        container,
        leaf("text/plain", None, Some(b"hello".to_vec())),
        leaf("application/octet-stream", Some("r.gz"), Some(gz)),
    ];
    assert_eq!(documents_from_parts(&parts), Ok(vec![XML_A.to_vec()]));
    assert_eq!(
        leaf_part_documents(&leaf("text/plain", None, None)),
        Err(ExtractError::UndecodableBody)
    );
}

#[test]
fn byte_predicates() {
    assert!(bytes_end_with(b"report.zip", b".zip"));
    assert!(!bytes_end_with(b"zip", b".zip"));
    assert!(bytes_end_with(b"abc", b""));
    assert!(bytes_contain(b"application/gzip", b"zip"));
    assert!(!bytes_contain(b"application/xml", b"zip"));
    assert!(bytes_contain(b"", b""));
    assert!(bytes_equal(b"name", b"name"));
    assert!(!bytes_equal(b"name", b"names"));
}
