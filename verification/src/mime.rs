//! The parts of a MIME message, as the `mailparse` crate parses them.

use vstd::prelude::*;

verus! {

/// `mailparse`'s error type.
#[verifier::external_type_specification]
#[verifier::external_body]
pub struct ExMailParseError(mailparse::MailParseError);

/// One part of a parsed message: the message itself or one of its
/// (possibly nested) subparts.
pub struct MailPart {
    /// The part's Content-Type (for example `application/zip`).
    pub mimetype: Vec<u8>,
    /// The Content-Type parameters as (name, value) pairs, names lowercased,
    /// in ascending order of name.
    pub params: Vec<(Vec<u8>, Vec<u8>)>,
    /// The body with its Content-Transfer-Encoding undone, or `None` when
    /// that decoding failed.
    pub body: Option<Vec<u8>>,
    /// How many direct subparts this part has (0 for a leaf).
    pub subpart_count: usize,
}

/// What a [`MailPart`] holds, as mathematical values.
pub struct MailPartView {
    pub mimetype: Seq<u8>,
    pub params: Seq<(Seq<u8>, Seq<u8>)>,
    pub body: Option<Seq<u8>>,
    pub subpart_count: nat,
}

/// The byte contents of a list of name/value pairs.
pub open spec fn pairs_view(v: Seq<(Vec<u8>, Vec<u8>)>) -> Seq<(Seq<u8>, Seq<u8>)> {
    v.map_values(|p: (Vec<u8>, Vec<u8>)| (p.0@, p.1@))
}

impl View for MailPart {
    type V = MailPartView;

    open spec fn view(&self) -> MailPartView {
        MailPartView {
            mimetype: self.mimetype@,
            params: pairs_view(self.params@),
            body: match self.body {
                Some(b) => Some(b@),
                None => None,
            },
            subpart_count: self.subpart_count as nat,
        }
    }
}

/// The views of a list of parts.
pub open spec fn parts_view(parts: Seq<MailPart>) -> Seq<MailPartView> {
    parts.map_values(|p: MailPart| p@)
}

/// What `mailparse::parse_mail` makes of a raw message: `None` when it
/// refuses the message, else every part of the message in depth-first
/// pre-order (the message itself first), as `ParsedMail::parts` lists them.
pub uninterp spec fn mime_parts(raw: Seq<u8>) -> Option<Seq<MailPartView>>;

/// Parses a raw message with `mailparse::parse_mail` and lists its parts with
/// `ParsedMail::parts`, each with its Content-Type, parameters, the result of
/// `ParsedMail::get_body_raw` and the number of its subparts.
/// Trusted: the result is `mime_parts` of the input, which names what
/// `mailparse` computes; nothing here states how MIME is parsed.
#[verifier::external_body]
pub(crate) fn parse_mime_parts(raw: &[u8]) -> (res: Result<Vec<MailPart>, mailparse::MailParseError>)
    ensures
        res is Ok <==> mime_parts(raw@) is Some,
        res matches Ok(parts) ==> Some(parts_view(parts@)) == mime_parts(raw@),
{
    let mail = mailparse::parse_mail(raw)?;
    Ok(mail.parts().map(|p| MailPart {
        mimetype: p.ctype.mimetype.clone().into_bytes(),
        params: p.ctype.params.iter().map(|(k, v)| (k.clone().into_bytes(), v.clone().into_bytes())).collect(),
        body: p.get_body_raw().ok(),
        subpart_count: p.subparts.len(),
    }).collect())
}

} // verus!
