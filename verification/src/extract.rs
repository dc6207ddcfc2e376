//! Finding the report documents that a DMARC report message carries.
//!
//! A report arrives as an attachment: a ZIP archive holding one or more
//! `.xml` files, or a gzip-compressed XML file. Every leaf part of the
//! message is looked at in depth-first order; the first failure to decode a
//! body, open an archive or decompress a file makes the whole message fail.

use vstd::prelude::*;
use crate::text::{ends_with, contains, bytes_end_with, bytes_contain, bytes_equal};
use crate::mime::{MailPart, MailPartView, mime_parts, parse_mime_parts, parts_view};
use crate::archive::{zip_listing, zip_entries, zip_open, zip_len, zip_entry_name, zip_entry_contents, gzip_decoded, gunzip};

verus! {

/// Why a message's documents could not be extracted.
#[derive(Debug, Clone, Copy, PartialEq, Eq, Structural)]
pub enum ExtractError {
    /// The message is not a MIME message that `mailparse` accepts.
    MalformedMessage,
    /// A leaf part's Content-Transfer-Encoding could not be undone.
    UndecodableBody,
    /// A ZIP attachment could not be opened, or one of its entries could
    /// not be read.
    BadArchive,
    /// A gzip attachment could not be decompressed.
    BadGzip,
}

/// How an attachment is unpacked.
#[derive(Debug, Clone, Copy, PartialEq, Eq, Structural)]
pub enum AttachmentKind {
    /// A ZIP archive whose `.xml` entries are reports.
    Zip,
    /// A gzip-compressed report.
    Gzip,
    /// Anything else, which carries no report.
    Other,
}

/// One entry of a ZIP archive: `None` when it cannot be opened, else its
/// name and, when it can be read, its contents.
pub type ZipEntry = Option<(Seq<u8>, Option<Seq<u8>>)>;

/// The outcome of extracting documents, as mathematical values.
pub type Documents = Result<Seq<Seq<u8>>, ExtractError>;

/// `.zip`
pub open spec fn zip_ext() -> Seq<u8> {
    seq!['.' as u8, 'z' as u8, 'i' as u8, 'p' as u8]
}

/// `.gz`
pub open spec fn gz_ext() -> Seq<u8> {
    seq!['.' as u8, 'g' as u8, 'z' as u8]
}

/// `.xml`
pub open spec fn xml_ext() -> Seq<u8> {
    seq!['.' as u8, 'x' as u8, 'm' as u8, 'l' as u8]
}

/// `zip`
pub open spec fn zip_word() -> Seq<u8> {
    seq!['z' as u8, 'i' as u8, 'p' as u8]
}

/// `gzip`
pub open spec fn gzip_word() -> Seq<u8> {
    seq!['g' as u8, 'z' as u8, 'i' as u8, 'p' as u8]
}

/// `name`, the Content-Type parameter that carries an attachment's file name.
pub open spec fn name_key() -> Seq<u8> {
    seq!['n' as u8, 'a' as u8, 'm' as u8, 'e' as u8]
}

/// The kind of an attachment with the given file name and Content-Type: a
/// `.zip` name or a Content-Type containing `zip` makes it a ZIP archive;
/// otherwise a `.gz` name or a Content-Type containing `gzip` makes it gzip.
pub open spec fn spec_classify(filename: Seq<u8>, mimetype: Seq<u8>) -> AttachmentKind {
    if ends_with(filename, zip_ext()) || contains(mimetype, zip_word()) {
        AttachmentKind::Zip
    } else if ends_with(filename, gz_ext()) || contains(mimetype, gzip_word()) {
        AttachmentKind::Gzip
    } else {
        AttachmentKind::Other
    }
}

/// The value of the first parameter named `key`, if any.
pub open spec fn param_lookup(params: Seq<(Seq<u8>, Seq<u8>)>, key: Seq<u8>) -> Option<Seq<u8>>
    decreases params.len(),
{
    if params.len() == 0 {
        None
    } else if params[0].0 == key {
        Some(params[0].1)
    } else {
        param_lookup(params.drop_first(), key)
    }
}

/// A part's file name: its `name` Content-Type parameter, or empty.
pub open spec fn filename_of(part: MailPartView) -> Seq<u8> {
    match param_lookup(part.params, name_key()) {
        Some(v) => v,
        None => Seq::empty(),
    }
}

/// Runs `step` over `items` in order and concatenates what it yields; the
/// first failure is the result.
pub open spec fn collect_documents<T>(items: Seq<T>, step: spec_fn(T) -> Documents) -> Documents
    decreases items.len(),
{
    if items.len() == 0 {
        Ok(Seq::empty())
    } else {
        match collect_documents(items.drop_last(), step) {
            Err(e) => Err(e),
            Ok(done) => match step(items.last()) {
                Err(e) => Err(e),
                Ok(more) => Ok(done + more),
            },
        }
    }
}

/// What one ZIP entry yields: its contents when its name ends in `.xml`,
/// nothing for other entries, and a failure when the entry cannot be
/// opened or, being `.xml`, cannot be read.
pub open spec fn entry_documents(entry: ZipEntry) -> Documents {
    match entry {
        None => Err(ExtractError::BadArchive),
        Some((name, contents)) => if ends_with(name, xml_ext()) {
            match contents {
                Some(c) => Ok(seq![c]),
                None => Err(ExtractError::BadArchive),
            }
        } else {
            Ok(Seq::empty())
        },
    }
}

/// The documents of a ZIP archive's entries, in index order.
pub open spec fn entries_documents(entries: Seq<ZipEntry>) -> Documents {
    collect_documents(entries, |e: ZipEntry| entry_documents(e))
}

/// What a leaf part yields: nothing when its body cannot be decoded (a
/// failure); else, by its kind, the `.xml` entries of the ZIP archive in its
/// body, the gzip-decompressed body, or nothing.
pub open spec fn leaf_documents(part: MailPartView) -> Documents {
    match part.body {
        None => Err(ExtractError::UndecodableBody),
        Some(body) => match spec_classify(filename_of(part), part.mimetype) {
            AttachmentKind::Zip => match zip_listing(body) {
                None => Err(ExtractError::BadArchive),
                Some(entries) => entries_documents(entries),
            },
            AttachmentKind::Gzip => match gzip_decoded(body) {
                None => Err(ExtractError::BadGzip),
                Some(xml) => Ok(seq![xml]),
            },
            AttachmentKind::Other => Ok(Seq::empty()),
        },
    }
}

/// What a part yields: a leaf by [`leaf_documents`]; a multipart container
/// nothing of its own (its subparts follow it in the list of parts).
pub open spec fn part_documents(part: MailPartView) -> Documents {
    if part.subpart_count == 0 {
        leaf_documents(part)
    } else {
        Ok(Seq::empty())
    }
}

/// The documents of a message whose parts, in depth-first pre-order, are `parts`.
pub open spec fn message_documents(parts: Seq<MailPartView>) -> Documents {
    collect_documents(parts, |p: MailPartView| part_documents(p))
}

/// The documents of a raw message.
pub open spec fn email_documents(raw: Seq<u8>) -> Documents {
    match mime_parts(raw) {
        None => Err(ExtractError::MalformedMessage),
        Some(parts) => message_documents(parts),
    }
}

/// The byte contents of a list of documents.
pub open spec fn docs_view(docs: Seq<Vec<u8>>) -> Seq<Seq<u8>> {
    docs.map_values(|d: Vec<u8>| d@)
}

/// An extraction outcome as mathematical values.
pub open spec fn outcome_view(r: Result<Vec<Vec<u8>>, ExtractError>) -> Documents {
    match r {
        Ok(docs) => Ok(docs_view(docs@)),
        Err(e) => Err(e),
    }
}

/// One more item: the fold over `items.take(i + 1)` extends the fold over
/// `items.take(i)` by what `items[i]` yields.
pub proof fn lemma_collect_step<T>(items: Seq<T>, step: spec_fn(T) -> Documents, i: int)
    requires
        0 <= i < items.len(),
    ensures
        collect_documents(items.take(i + 1), step) == match collect_documents(items.take(i), step) {
            Err(e) => Err(e),
            Ok(done) => match step(items[i]) {
                Err(e) => Err(e),
                Ok(more) => Ok(done + more),
            },
        },
{
    assert(items.take(i + 1).drop_last() == items.take(i));
}

/// A failure in a prefix is the failure of the whole list.
pub proof fn lemma_collect_prefix_error<T>(items: Seq<T>, step: spec_fn(T) -> Documents, i: int)
    requires
        0 <= i <= items.len(),
        collect_documents(items.take(i), step) is Err,
    ensures
        collect_documents(items, step) == collect_documents(items.take(i), step),
    decreases items.len() - i,
{
    if i == items.len() {
        assert(items.take(i) == items);
    } else {
        lemma_collect_step(items, step, i);
        lemma_collect_prefix_error(items, step, i + 1);
    }
}

fn zip_ext_bytes() -> (r: Vec<u8>)
    ensures
        r@ == zip_ext(),
{
    vec!['.' as u8, 'z' as u8, 'i' as u8, 'p' as u8]
}

fn gz_ext_bytes() -> (r: Vec<u8>)
    ensures
        r@ == gz_ext(),
{
    vec!['.' as u8, 'g' as u8, 'z' as u8]
}

fn xml_ext_bytes() -> (r: Vec<u8>)
    ensures
        r@ == xml_ext(),
{
    vec!['.' as u8, 'x' as u8, 'm' as u8, 'l' as u8]
}

fn zip_word_bytes() -> (r: Vec<u8>)
    ensures
        r@ == zip_word(),
{
    vec!['z' as u8, 'i' as u8, 'p' as u8]
}

fn gzip_word_bytes() -> (r: Vec<u8>)
    ensures
        r@ == gzip_word(),
{
    vec!['g' as u8, 'z' as u8, 'i' as u8, 'p' as u8]
}

fn name_key_bytes() -> (r: Vec<u8>)
    ensures
        r@ == name_key(),
{
    vec!['n' as u8, 'a' as u8, 'm' as u8, 'e' as u8]
}

/// Decides how an attachment with the given file name and Content-Type is unpacked.
pub fn classify_attachment(filename: &[u8], mimetype: &[u8]) -> (kind: AttachmentKind)
    ensures
        kind == spec_classify(filename@, mimetype@),
        ends_with(filename@, zip_ext()) ==> kind == AttachmentKind::Zip,
        contains(mimetype@, zip_word()) ==> kind == AttachmentKind::Zip,
        kind == AttachmentKind::Zip ==> ends_with(filename@, zip_ext()) || contains(mimetype@, zip_word()),
        kind == AttachmentKind::Gzip <==> !ends_with(filename@, zip_ext()) && !contains(mimetype@, zip_word())
            && (ends_with(filename@, gz_ext()) || contains(mimetype@, gzip_word())),
{
    let zip_suffix = zip_ext_bytes();
    let zip_infix = zip_word_bytes();
    if bytes_end_with(filename, zip_suffix.as_slice()) || bytes_contain(mimetype, zip_infix.as_slice()) {
        return AttachmentKind::Zip;
    }
    let gz_suffix = gz_ext_bytes();
    let gzip_infix = gzip_word_bytes();
    if bytes_end_with(filename, gz_suffix.as_slice()) || bytes_contain(mimetype, gzip_infix.as_slice()) {
        AttachmentKind::Gzip
    } else {
        AttachmentKind::Other
    }
}

/// The file name of an attachment: its `name` Content-Type parameter, or empty.
pub fn attachment_filename(part: &MailPart) -> (name: Vec<u8>)
    ensures
        name@ == filename_of(part@),
        forall|i: int| #![trigger part@.params[i]] 0 <= i < part@.params.len() && part@.params[i].0 == name_key()
            && (forall|j: int| 0 <= j < i ==> part@.params[j].0 != name_key())
            ==> name@ == part@.params[i].1,
        (forall|j: int| 0 <= j < part@.params.len() ==> part@.params[j].0 != name_key()) ==> name@.len() == 0,
{
    proof {
        lemma_param_lookup(part@.params, name_key());
    }
    let key = name_key_bytes();
    let ghost params = part@.params;
    let mut i: usize = 0;
    assert(params.skip(0) == params);
    while i < part.params.len()
        invariant
            params == crate::mime::pairs_view(part.params@),
            i <= params.len(),
            key@ == name_key(),
            param_lookup(params, name_key()) == param_lookup(params.skip(i as int), name_key()),
        decreases part.params.len() - i,
    {
        assert(params.skip(i as int)[0] == params[i as int]);
        if bytes_equal(part.params[i].0.as_slice(), key.as_slice()) {
            let v = part.params[i].1.clone();
            assert(v@ =~= params[i as int].1);
            proof {
                lemma_param_lookup(part@.params, name_key());
            }
            return v;
        }
        assert(params.skip(i as int).drop_first() == params.skip(i + 1));
        i = i + 1;
    }
    assert(params.skip(i as int) =~= Seq::<(Seq<u8>, Seq<u8>)>::empty());
    Vec::new()
}

/// Folding over two lists one after the other: the documents of `a + b` are
/// those of `a` followed by those of `b`, and a failure in `a` comes first.
pub proof fn lemma_collect_concat<T>(a: Seq<T>, b: Seq<T>, step: spec_fn(T) -> Documents)
    ensures
        collect_documents(a + b, step) == match collect_documents(a, step) {
            Err(e) => Err(e),
            Ok(x) => match collect_documents(b, step) {
                Err(e) => Err(e),
                Ok(y) => Ok(x + y),
            },
        },
    decreases b.len(),
{
    if b.len() == 0 {
        assert(a + b == a);
        match collect_documents(a, step) {
            Err(e) => {},
            Ok(x) => { assert(x + Seq::<Seq<u8>>::empty() == x); },
        }
    } else {
        lemma_collect_concat(a, b.drop_last(), step);
        assert((a + b).drop_last() == a + b.drop_last());
        assert((a + b).last() == b.last());
        match collect_documents(a, step) {
            Err(e) => {},
            Ok(x) => match collect_documents(b.drop_last(), step) {
                Err(e) => {},
                Ok(y) => match step(b.last()) {
                    Err(e) => {},
                    Ok(z) => { assert(x + y + z == x + (y + z)); },
                },
            },
        }
    }
}

/// The fold succeeds exactly when every item succeeds.
pub proof fn lemma_collect_ok<T>(items: Seq<T>, step: spec_fn(T) -> Documents)
    ensures
        collect_documents(items, step) is Ok <==> forall|i: int| 0 <= i < items.len() ==> #[trigger] step(items[i]) is Ok,
    decreases items.len(),
{
    if items.len() > 0 {
        lemma_collect_ok(items.drop_last(), step);
        if collect_documents(items, step) is Ok {
            assert forall|i: int| 0 <= i < items.len() implies #[trigger] step(items[i]) is Ok by {
                if i < items.len() - 1 {
                    assert(items.drop_last()[i] == items[i]);
                }
            }
        } else {
            if collect_documents(items.drop_last(), step) is Err {
                let i = choose|i: int| 0 <= i < items.drop_last().len() && !(#[trigger] step(items.drop_last()[i]) is Ok);
                assert(items.drop_last()[i] == items[i]);
            } else {
                assert(!(step(items[items.len() - 1]) is Ok));
            }
        }
    }
}

/// A message's parts are looked at in order: the documents of the parts
/// `a` followed by the parts `b` are those of `a` followed by those of `b`,
/// and a failure among `a` is reported before any among `b`.
pub proof fn lemma_message_documents_concat(a: Seq<MailPartView>, b: Seq<MailPartView>)
    ensures
        message_documents(a + b) == match message_documents(a) {
            Err(e) => Err(e),
            Ok(x) => match message_documents(b) {
                Err(e) => Err(e),
                Ok(y) => Ok(x + y),
            },
        },
{
    lemma_collect_concat(a, b, |p: MailPartView| part_documents(p));
}

/// A message yields its documents exactly when every one of its leaf parts
/// does: one undecodable body, unreadable archive or corrupt gzip file
/// among them makes the whole message fail.
pub proof fn lemma_message_ok_iff_every_part_ok(parts: Seq<MailPartView>)
    ensures
        message_documents(parts) is Ok <==> forall|i: int| 0 <= i < parts.len() && parts[i].subpart_count == 0
            ==> #[trigger] leaf_documents(parts[i]) is Ok,
{
    let step = |p: MailPartView| part_documents(p);
    lemma_collect_ok(parts, step);
    if message_documents(parts) is Ok {
        assert forall|i: int| 0 <= i < parts.len() && parts[i].subpart_count == 0
            implies #[trigger] leaf_documents(parts[i]) is Ok by {
            assert(step(parts[i]) is Ok);
        }
    } else {
        let i = choose|i: int| 0 <= i < parts.len() && !(#[trigger] step(parts[i]) is Ok);
        assert(parts[i].subpart_count == 0);
        assert(!(leaf_documents(parts[i]) is Ok));
    }
}

/// A ZIP archive yields its `.xml` entries exactly when each entry can be
/// opened and each `.xml` entry can be read.
pub proof fn lemma_entries_ok_iff_every_entry_ok(entries: Seq<ZipEntry>)
    ensures
        entries_documents(entries) is Ok <==> forall|i: int| 0 <= i < entries.len()
            ==> #[trigger] entry_documents(entries[i]) is Ok,
{
    let step = |e: ZipEntry| entry_documents(e);
    lemma_collect_ok(entries, step);
    if entries_documents(entries) is Ok {
        assert forall|i: int| 0 <= i < entries.len() implies #[trigger] entry_documents(entries[i]) is Ok by {
            assert(step(entries[i]) is Ok);
        }
    } else {
        let i = choose|i: int| 0 <= i < entries.len() && !(#[trigger] step(entries[i]) is Ok);
        assert(!(entry_documents(entries[i]) is Ok));
    }
}

/// A `.zip` file name, or a Content-Type that mentions `zip`, always makes
/// an attachment a ZIP archive; in particular a Content-Type mentioning
/// `gzip` (such as `application/gzip`) does too, so an attachment is taken
/// for gzip only by a `.gz` file name whose Content-Type does not mention `zip`.
pub proof fn lemma_gzip_only_by_name(filename: Seq<u8>, mimetype: Seq<u8>)
    ensures
        contains(mimetype, gzip_word()) ==> spec_classify(filename, mimetype) == AttachmentKind::Zip,
        spec_classify(filename, mimetype) == AttachmentKind::Gzip ==> {
            &&& ends_with(filename, gz_ext())
            &&& !ends_with(filename, zip_ext())
            &&& !contains(mimetype, zip_word())
        },
{
    if contains(mimetype, gzip_word()) {
        let i = choose|i: int| crate::text::occurs_at(mimetype, gzip_word(), i);
        assert(mimetype.subrange(i + 1, i + 4) =~= mimetype.subrange(i, i + 4).subrange(1, 4));
        assert(gzip_word().subrange(1, 4) =~= zip_word());
        assert(crate::text::occurs_at(mimetype, zip_word(), i + 1));
    }
}

/// Every document of a successful fold is one that some item yielded.
pub proof fn lemma_collect_sources<T>(items: Seq<T>, step: spec_fn(T) -> Documents)
    requires
        collect_documents(items, step) is Ok,
    ensures
        forall|k: int| #![trigger collect_documents(items, step)->Ok_0[k]]
            0 <= k < collect_documents(items, step)->Ok_0.len() ==> exists|i: int| #![trigger items[i]]
            0 <= i < items.len() && step(items[i]) is Ok && step(items[i])->Ok_0.contains(
                collect_documents(items, step)->Ok_0[k]),
    decreases items.len(),
{
    if items.len() > 0 {
        let init = items.drop_last();
        lemma_collect_sources(init, step);
        let done = collect_documents(init, step)->Ok_0;
        let more = step(items.last())->Ok_0;
        let all = collect_documents(items, step)->Ok_0;
        assert(all == done + more);
        assert forall|k: int| #![trigger all[k]] 0 <= k < all.len() implies exists|i: int| #![trigger items[i]]
            0 <= i < items.len() && step(items[i]) is Ok && step(items[i])->Ok_0.contains(all[k]) by {
            if k < done.len() {
                assert(all[k] == done[k]);
                let i = choose|i: int| #![trigger init[i]]
                    0 <= i < init.len() && step(init[i]) is Ok && step(init[i])->Ok_0.contains(done[k]);
                assert(init[i] == items[i]);
            } else {
                assert(all[k] == more[k - done.len()]);
                assert(more.contains(all[k]));
                assert(items[items.len() - 1] == items.last());
            }
        }
    }
}

/// `entry` is an `.xml` entry, readable, whose contents are `doc`.
pub open spec fn xml_entry_holds(entry: ZipEntry, doc: Seq<u8>) -> bool {
    match entry {
        Some((name, Some(contents))) => ends_with(name, xml_ext()) && contents == doc,
        _ => false,
    }
}

/// `doc` is what the leaf `part` carries as an attachment: the decompressed
/// body of a gzip attachment, or an `.xml` entry of a ZIP attachment.
pub open spec fn attachment_holds(part: MailPartView, doc: Seq<u8>) -> bool {
    &&& part.subpart_count == 0
    &&& part.body is Some
    &&& match spec_classify(filename_of(part), part.mimetype) {
        AttachmentKind::Gzip => gzip_decoded(part.body->Some_0) == Some(doc),
        AttachmentKind::Zip => match zip_listing(part.body->Some_0) {
            Some(entries) => exists|j: int| 0 <= j < entries.len() && #[trigger] xml_entry_holds(entries[j], doc),
            None => false,
        },
        AttachmentKind::Other => false,
    }
}

/// The `k`-th document of a message comes from one of its attachments.
proof fn lemma_document_source(parts: Seq<MailPartView>, k: int) -> (i: int)
    requires
        message_documents(parts) is Ok,
        0 <= k < message_documents(parts)->Ok_0.len(),
    ensures
        0 <= i < parts.len(),
        attachment_holds(parts[i], message_documents(parts)->Ok_0[k]),
{
    let step = |p: MailPartView| part_documents(p);
    lemma_collect_sources(parts, step);
    let docs = message_documents(parts)->Ok_0;
    let doc = docs[k];
    let i = choose|i: int| #![trigger parts[i]]
        0 <= i < parts.len() && step(parts[i]) is Ok && step(parts[i])->Ok_0.contains(doc);
    let p = parts[i];
    let yielded = step(p)->Ok_0;
    let m = choose|m: int| 0 <= m < yielded.len() && yielded[m] == doc;
    assert(p.subpart_count == 0);
    let body = p.body->Some_0;
    match spec_classify(filename_of(p), p.mimetype) {
        AttachmentKind::Zip => {
            let entries = zip_listing(body)->Some_0;
            let estep = |e: ZipEntry| entry_documents(e);
            lemma_collect_sources(entries, estep);
            assert(yielded == collect_documents(entries, estep)->Ok_0);
            let j = choose|j: int| #![trigger entries[j]]
                0 <= j < entries.len() && estep(entries[j]) is Ok && estep(entries[j])->Ok_0.contains(doc);
            let ej = entries[j];
            assert(xml_entry_holds(ej, doc));
            assert(attachment_holds(p, doc));
        },
        AttachmentKind::Gzip => {
            assert(attachment_holds(p, doc));
        },
        AttachmentKind::Other => {
            assert(yielded.len() == 0);
        },
    }
    i
}

/// `doc` is what some leaf part among `parts` carries as an attachment.
pub open spec fn carried_by(parts: Seq<MailPartView>, doc: Seq<u8>) -> bool {
    exists|i: int| 0 <= i < parts.len() && #[trigger] attachment_holds(parts[i], doc)
}

/// Nothing is made up: every document extracted from a message is the
/// decompressed body of one of its gzip attachments or an `.xml` entry of
/// one of its ZIP attachments.
pub proof fn lemma_documents_come_from_attachments(parts: Seq<MailPartView>, docs: Seq<Seq<u8>>)
    requires
        message_documents(parts) == Ok::<Seq<Seq<u8>>, ExtractError>(docs),
    ensures
        forall|k: int| 0 <= k < docs.len() ==> #[trigger] carried_by(parts, docs[k]),
{
    assert forall|k: int| 0 <= k < docs.len() implies #[trigger] carried_by(parts, docs[k]) by {
        let i = lemma_document_source(parts, k);
    }
}

/// The attachment kinds, with the suffixes and words written out: a name
/// ending in `.zip` or a Content-Type containing `zip` makes a ZIP archive,
/// whatever the other says; failing that, a name ending in `.gz` or a
/// Content-Type containing `gzip` makes gzip; anything else carries no report.
pub proof fn lemma_classification(filename: Seq<u8>, mimetype: Seq<u8>)
    ensures
        ends_with(filename, seq!['.' as u8, 'z' as u8, 'i' as u8, 'p' as u8])
            ==> spec_classify(filename, mimetype) == AttachmentKind::Zip,
        contains(mimetype, seq!['z' as u8, 'i' as u8, 'p' as u8])
            ==> spec_classify(filename, mimetype) == AttachmentKind::Zip,
        spec_classify(filename, mimetype) == AttachmentKind::Zip
            ==> ends_with(filename, seq!['.' as u8, 'z' as u8, 'i' as u8, 'p' as u8])
                || contains(mimetype, seq!['z' as u8, 'i' as u8, 'p' as u8]),
        spec_classify(filename, mimetype) == AttachmentKind::Gzip <==> {
            &&& !ends_with(filename, seq!['.' as u8, 'z' as u8, 'i' as u8, 'p' as u8])
            &&& !contains(mimetype, seq!['z' as u8, 'i' as u8, 'p' as u8])
            &&& (ends_with(filename, seq!['.' as u8, 'g' as u8, 'z' as u8])
                || contains(mimetype, seq!['g' as u8, 'z' as u8, 'i' as u8, 'p' as u8]))
        },
        spec_classify(filename, mimetype) == AttachmentKind::Other <==> {
            &&& !ends_with(filename, seq!['.' as u8, 'z' as u8, 'i' as u8, 'p' as u8])
            &&& !contains(mimetype, seq!['z' as u8, 'i' as u8, 'p' as u8])
            &&& !ends_with(filename, seq!['.' as u8, 'g' as u8, 'z' as u8])
            &&& !contains(mimetype, seq!['g' as u8, 'z' as u8, 'i' as u8, 'p' as u8])
        },
{
    assert(zip_ext() =~= seq!['.' as u8, 'z' as u8, 'i' as u8, 'p' as u8]);
    assert(zip_word() =~= seq!['z' as u8, 'i' as u8, 'p' as u8]);
    assert(gz_ext() =~= seq!['.' as u8, 'g' as u8, 'z' as u8]);
    assert(gzip_word() =~= seq!['g' as u8, 'z' as u8, 'i' as u8, 'p' as u8]);
}

/// Looking a parameter up gives the whole value of the first pair with that
/// name, and nothing when no pair has it.
pub proof fn lemma_param_lookup(params: Seq<(Seq<u8>, Seq<u8>)>, key: Seq<u8>)
    ensures
        forall|i: int| #![trigger params[i]] 0 <= i < params.len() && params[i].0 == key
            && (forall|j: int| 0 <= j < i ==> params[j].0 != key)
            ==> param_lookup(params, key) == Some(params[i].1),
        (forall|j: int| 0 <= j < params.len() ==> params[j].0 != key) ==> param_lookup(params, key) is None,
    decreases params.len(),
{
    if params.len() > 0 {
        let rest = params.drop_first();
        lemma_param_lookup(rest, key);
        assert forall|i: int| #![trigger params[i]] 0 <= i < params.len() && params[i].0 == key
            && (forall|j: int| 0 <= j < i ==> params[j].0 != key)
            implies param_lookup(params, key) == Some(params[i].1) by {
            if i > 0 {
                assert(params[0].0 != key);
                assert(rest[i - 1] == params[i]);
                assert forall|j: int| 0 <= j < i - 1 implies rest[j].0 != key by {
                    assert(rest[j] == params[j + 1]);
                }
            }
        }
        if forall|j: int| 0 <= j < params.len() ==> params[j].0 != key {
            assert(params[0].0 != key);
            assert forall|j: int| 0 <= j < rest.len() implies rest[j].0 != key by {
                assert(rest[j] == params[j + 1]);
            }
        }
    }
}

/// An attachment's file name is the whole value of its first `name`
/// parameter, however long, and empty when it has none.
pub proof fn lemma_filename_is_name_value(part: MailPartView)
    ensures
        forall|i: int| #![trigger part.params[i]] 0 <= i < part.params.len()
            && part.params[i].0 == seq!['n' as u8, 'a' as u8, 'm' as u8, 'e' as u8]
            && (forall|j: int| 0 <= j < i ==> part.params[j].0 != seq!['n' as u8, 'a' as u8, 'm' as u8, 'e' as u8])
            ==> filename_of(part) == part.params[i].1,
        (forall|j: int| 0 <= j < part.params.len() ==> part.params[j].0 != seq!['n' as u8, 'a' as u8, 'm' as u8, 'e' as u8])
            ==> filename_of(part).len() == 0,
{
    assert(name_key() =~= seq!['n' as u8, 'a' as u8, 'm' as u8, 'e' as u8]);
    lemma_param_lookup(part.params, name_key());
}

/// A message's documents are those of its parts: a message that `mailparse`
/// refuses is malformed; otherwise its documents are the fold over all its
/// parts, the message itself first (so a message that is itself the
/// attachment yields the attachment's documents).
pub proof fn lemma_email_documents_are_parts_documents(raw: Seq<u8>)
    ensures
        mime_parts(raw) is None ==> email_documents(raw) == Err::<Seq<Seq<u8>>, ExtractError>(ExtractError::MalformedMessage),
        mime_parts(raw) matches Some(parts) ==> email_documents(raw) == message_documents(parts),
        mime_parts(raw) matches Some(parts) ==> (parts.len() == 1 ==> email_documents(raw) == part_documents(parts[0])),
{
    if let Some(parts) = mime_parts(raw) {
        if parts.len() == 1 {
            assert(parts == seq![parts[0]]);
            lemma_message_documents_small(parts[0]);
        }
    }
}

/// No parts yield no documents; a single part yields its own documents: a
/// leaf those of its attachment, a container none.
pub proof fn lemma_message_documents_small(part: MailPartView)
    ensures
        message_documents(Seq::<MailPartView>::empty()) == Ok::<Seq<Seq<u8>>, ExtractError>(Seq::empty()),
        message_documents(seq![part]) == part_documents(part),
        part.subpart_count == 0 ==> part_documents(part) == leaf_documents(part),
        part.subpart_count != 0 ==> part_documents(part) == Ok::<Seq<Seq<u8>>, ExtractError>(Seq::empty()),
{
    let single = seq![part];
    assert(single.drop_last() =~= Seq::<MailPartView>::empty());
    assert(single.last() == part);
    match part_documents(part) {
        Ok(more) => { assert(Seq::<Seq<u8>>::empty() + more =~= more); },
        Err(_) => {},
    }
}

/// Every document an item yields is among the documents of a successful fold.
pub proof fn lemma_collect_keeps<T>(items: Seq<T>, step: spec_fn(T) -> Documents, i: int, doc: Seq<u8>)
    requires
        collect_documents(items, step) is Ok,
        0 <= i < items.len(),
        step(items[i]) is Ok,
        step(items[i])->Ok_0.contains(doc),
    ensures
        collect_documents(items, step)->Ok_0.contains(doc),
    decreases items.len(),
{
    let init = items.drop_last();
    let done = collect_documents(init, step)->Ok_0;
    let more = step(items.last())->Ok_0;
    let all = collect_documents(items, step)->Ok_0;
    assert(all == done + more);
    if i < items.len() - 1 {
        assert(init[i] == items[i]);
        lemma_collect_keeps(init, step, i, doc);
        let k = choose|k: int| 0 <= k < done.len() && done[k] == doc;
        assert(all[k] == doc);
    } else {
        let k = choose|k: int| 0 <= k < more.len() && more[k] == doc;
        assert(all[done.len() + k] == doc);
    }
}

/// Nothing is lost: when a message yields its documents, every attachment's
/// report (each decompressed gzip body, each `.xml` entry of each ZIP
/// archive) is among them.
pub proof fn lemma_attachments_are_kept(parts: Seq<MailPartView>, docs: Seq<Seq<u8>>, i: int, doc: Seq<u8>)
    requires
        message_documents(parts) == Ok::<Seq<Seq<u8>>, ExtractError>(docs),
        0 <= i < parts.len(),
        attachment_holds(parts[i], doc),
    ensures
        docs.contains(doc),
{
    let step = |p: MailPartView| part_documents(p);
    lemma_message_ok_iff_every_part_ok(parts);
    let p = parts[i];
    let body = p.body->Some_0;
    assert(leaf_documents(p) is Ok);
    match spec_classify(filename_of(p), p.mimetype) {
        AttachmentKind::Zip => {
            let entries = zip_listing(body)->Some_0;
            let estep = |e: ZipEntry| entry_documents(e);
            let j = choose|j: int| 0 <= j < entries.len() && #[trigger] xml_entry_holds(entries[j], doc);
            assert(estep(entries[j]) == Ok::<Seq<Seq<u8>>, ExtractError>(seq![doc]));
            assert(seq![doc][0] == doc);
            lemma_collect_keeps(entries, estep, j, doc);
        },
        AttachmentKind::Gzip => {
            assert(leaf_documents(p)->Ok_0 == seq![doc]);
            assert(seq![doc][0] == doc);
        },
        AttachmentKind::Other => {},
    }
    assert(step(parts[i]) == leaf_documents(p));
    lemma_collect_keeps(parts, step, i, doc);
}

/// What one more ZIP entry adds, with `.xml` written out: an entry that
/// cannot be opened fails the archive; an `.xml` entry adds its contents
/// after the earlier documents, or fails the archive when it cannot be read;
/// any other entry adds nothing. A failure among earlier entries stands.
pub proof fn lemma_entries_step(earlier: Seq<ZipEntry>, entry: ZipEntry)
    ensures
        entries_documents(Seq::<ZipEntry>::empty()) == Ok::<Seq<Seq<u8>>, ExtractError>(Seq::empty()),
        entries_documents(earlier) is Err ==> entries_documents(earlier.push(entry)) == entries_documents(earlier),
        entries_documents(earlier) matches Ok(done) ==> entries_documents(earlier.push(entry)) == match entry {
            None => Err(ExtractError::BadArchive),
            Some((name, contents)) => if ends_with(name, seq!['.' as u8, 'x' as u8, 'm' as u8, 'l' as u8]) {
                match contents {
                    Some(c) => Ok(done.push(c)),
                    None => Err(ExtractError::BadArchive),
                }
            } else {
                Ok(done)
            },
        },
{
    assert(xml_ext() =~= seq!['.' as u8, 'x' as u8, 'm' as u8, 'l' as u8]);
    assert(earlier.push(entry).drop_last() == earlier);
    if let Ok(done) = entries_documents(earlier) {
        assert(done + Seq::<Seq<u8>>::empty() =~= done);
        if let Some((name, Some(c))) = entry {
            assert(done + seq![c] =~= done.push(c));
        }
    }
}

/// What a leaf part carries, with the names written out: an undecodable body
/// fails; a ZIP attachment (`.zip` name or `zip` in the Content-Type) gives
/// the documents of its archive's entries, or fails when the body is not an
/// archive; a gzip attachment (`.gz` name or `gzip` Content-Type, and not
/// ZIP) gives its decompressed body as its one document, or fails; any other
/// part gives nothing.
pub proof fn lemma_leaf_documents_by_kind(part: MailPartView)
    ensures
        part.body is None ==> leaf_documents(part) == Err::<Seq<Seq<u8>>, ExtractError>(ExtractError::UndecodableBody),
        part.body matches Some(body) ==> {
            let f = filename_of(part);
            let m = part.mimetype;
            let zip = ends_with(f, seq!['.' as u8, 'z' as u8, 'i' as u8, 'p' as u8])
                || contains(m, seq!['z' as u8, 'i' as u8, 'p' as u8]);
            let gz = ends_with(f, seq!['.' as u8, 'g' as u8, 'z' as u8])
                || contains(m, seq!['g' as u8, 'z' as u8, 'i' as u8, 'p' as u8]);
            &&& zip ==> leaf_documents(part) == match zip_listing(body) {
                None => Err(ExtractError::BadArchive),
                Some(entries) => entries_documents(entries),
            }
            &&& (!zip && gz) ==> leaf_documents(part) == match gzip_decoded(body) {
                None => Err(ExtractError::BadGzip),
                Some(xml) => Ok::<Seq<Seq<u8>>, ExtractError>(seq![xml]),
            }
            &&& (!zip && !gz) ==> leaf_documents(part) == Ok::<Seq<Seq<u8>>, ExtractError>(Seq::empty())
        },
{
    if let Some(body) = part.body {
        lemma_classification(filename_of(part), part.mimetype);
    }
}

/// Appending a list of documents to another appends their contents.
proof fn lemma_docs_view_append(a: Seq<Vec<u8>>, b: Seq<Vec<u8>>)
    ensures
        docs_view(a + b) == docs_view(a) + docs_view(b),
{
    assert(docs_view(a + b) =~= docs_view(a) + docs_view(b));
}

/// The `.xml` entries of the ZIP archive held in `body`, in index order.
pub fn zip_documents(body: &[u8]) -> (res: Result<Vec<Vec<u8>>, ExtractError>)
    ensures
        outcome_view(res) == match zip_listing(body@) {
            None => Err(ExtractError::BadArchive),
            Some(entries) => entries_documents(entries),
        },
{
    let mut archive = match zip_open(body) {
        Ok(a) => a,
        Err(_) => return Err(ExtractError::BadArchive),
    };
    let ghost entries = zip_entries(archive);
    let ghost step = |e: ZipEntry| entry_documents(e);
    let xml_suffix = xml_ext_bytes();
    let n = zip_len(&archive);
    let mut docs: Vec<Vec<u8>> = Vec::new();
    let mut i: usize = 0;
    assert(entries.take(0) =~= Seq::<ZipEntry>::empty());
    assert(docs_view(docs@) =~= Seq::<Seq<u8>>::empty());
    while i < n
        invariant
            zip_listing(body@) == Some(entries),
            zip_entries(archive) == entries,
            n == entries.len(),
            i <= n,
            xml_suffix@ == xml_ext(),
            step == (|e: ZipEntry| entry_documents(e)),
            collect_documents(entries.take(i as int), step) == Ok::<Seq<Seq<u8>>, ExtractError>(docs_view(docs@)),
        decreases n - i,
    {
        proof {
            lemma_collect_step(entries, step, i as int);
        }
        let name = match zip_entry_name(&mut archive, i) {
            Ok(name) => name,
            Err(_) => {
                proof {
                    lemma_collect_prefix_error(entries, step, i + 1);
                }
                return Err(ExtractError::BadArchive);
            },
        };
        if bytes_end_with(name.as_slice(), xml_suffix.as_slice()) {
            match zip_entry_contents(&mut archive, i) {
                Ok(data) => {
                    let ghost before = docs@;
                    docs.push(data);
                    proof {
                        assert(docs@ == before + seq![data]);
                        lemma_docs_view_append(before, seq![data]);
                        assert(docs_view(seq![data]) =~= seq![data@]);
                    }
                },
                Err(_) => {
                    proof {
                        lemma_collect_prefix_error(entries, step, i + 1);
                    }
                    return Err(ExtractError::BadArchive);
                },
            }
        } else {
            assert(docs_view(docs@) + Seq::<Seq<u8>>::empty() == docs_view(docs@));
        }
        i = i + 1;
    }
    assert(entries.take(n as int) == entries);
    Ok(docs)
}

/// The gzip-decompressed contents of `body`, as the one document it holds.
pub fn gzip_documents(body: &[u8]) -> (res: Result<Vec<Vec<u8>>, ExtractError>)
    ensures
        outcome_view(res) == match gzip_decoded(body@) {
            None => Err(ExtractError::BadGzip),
            Some(xml) => Ok::<Seq<Seq<u8>>, ExtractError>(seq![xml]),
        },
{
    match gunzip(body) {
        Ok(xml) => {
            let mut docs: Vec<Vec<u8>> = Vec::new();
            docs.push(xml);
            assert(docs_view(docs@) =~= seq![xml@]);
            Ok(docs)
        },
        Err(_) => Err(ExtractError::BadGzip),
    }
}

/// The documents that one leaf part of a message carries.
pub fn leaf_part_documents(part: &MailPart) -> (res: Result<Vec<Vec<u8>>, ExtractError>)
    ensures
        outcome_view(res) == leaf_documents(part@),
{
    let body = match &part.body {
        Some(b) => b,
        None => return Err(ExtractError::UndecodableBody),
    };
    let filename = attachment_filename(part);
    match classify_attachment(filename.as_slice(), part.mimetype.as_slice()) {
        AttachmentKind::Zip => zip_documents(body.as_slice()),
        AttachmentKind::Gzip => gzip_documents(body.as_slice()),
        AttachmentKind::Other => {
            let docs: Vec<Vec<u8>> = Vec::new();
            assert(docs_view(docs@) =~= Seq::<Seq<u8>>::empty());
            Ok(docs)
        },
    }
}

/// The documents of a message given as its parts in depth-first pre-order:
/// those of each leaf part, in order; the first failure is the result.
pub fn documents_from_parts(parts: &Vec<MailPart>) -> (res: Result<Vec<Vec<u8>>, ExtractError>)
    ensures
        outcome_view(res) == message_documents(parts_view(parts@)),
{
    let ghost views = parts_view(parts@);
    let ghost step = |p: MailPartView| part_documents(p);
    let mut docs: Vec<Vec<u8>> = Vec::new();
    let mut i: usize = 0;
    assert(views.take(0) =~= Seq::<MailPartView>::empty());
    assert(docs_view(docs@) =~= Seq::<Seq<u8>>::empty());
    while i < parts.len()
        invariant
            views == parts_view(parts@),
            i <= parts.len(),
            step == (|p: MailPartView| part_documents(p)),
            collect_documents(views.take(i as int), step) == Ok::<Seq<Seq<u8>>, ExtractError>(docs_view(docs@)),
        decreases parts.len() - i,
    {
        proof {
            lemma_collect_step(views, step, i as int);
        }
        let part = &parts[i];
        if part.subpart_count == 0 {
            match leaf_part_documents(part) {
                Ok(mut more) => {
                    let ghost before = docs@;
                    let ghost added = more@;
                    docs.append(&mut more);
                    proof {
                        lemma_docs_view_append(before, added);
                    }
                },
                Err(e) => {
                    proof {
                        lemma_collect_prefix_error(views, step, i + 1);
                    }
                    return Err(e);
                },
            }
        } else {
            assert(docs_view(docs@) + Seq::<Seq<u8>>::empty() == docs_view(docs@));
        }
        i = i + 1;
    }
    assert(views.take(parts.len() as int) == views);
    Ok(docs)
}

/// The report documents carried by a raw e-mail message: the `.xml` entries
/// of its ZIP attachments and its decompressed gzip attachments, in the order
/// the attachments appear (depth-first) and, within an archive, in index
/// order. The first failure to parse the message, decode a leaf part's body,
/// open or read a ZIP archive, or decompress a gzip attachment is the result.
pub fn extract_report_documents(raw_email: &[u8]) -> (res: Result<Vec<Vec<u8>>, ExtractError>)
    ensures
        outcome_view(res) == email_documents(raw_email@),
        mime_parts(raw_email@) is None ==> res == Err::<Vec<Vec<u8>>, ExtractError>(ExtractError::MalformedMessage),
        mime_parts(raw_email@) matches Some(parts) ==> outcome_view(res) == message_documents(parts),
{
    match parse_mime_parts(raw_email) {
        Ok(parts) => documents_from_parts(&parts),
        Err(_) => Err(ExtractError::MalformedMessage),
    }
}

} // verus!
