use vstd::prelude::*;

verus! {

/// The readable text of an HTML-formatted notice body; a function of the
/// input text alone.
pub uninterp spec fn notice_text_of(s: Seq<char>) -> Seq<char>;

/// Relies on `librus_rs::Client::notice_content_to_text`: it strips HTML tags
/// and decodes a few common entities, from the input text alone.
#[verifier::external_body]
pub fn notice_content_to_text(content: &str) -> (r: String)
    ensures
        r@ == notice_text_of(content@),
{
    librus_rs::Client::notice_content_to_text(content)
}

/// The decoded text of a transport-encoded message body, `None` when the
/// encoding is invalid; a function of the input text alone.
pub uninterp spec fn decoded_message_of(s: Seq<char>) -> Option<Seq<char>>;

/// Relies on `librus_rs::Client::decode_message_content`: it base64-decodes
/// the transport encoding into UTF-8 text, from the input text alone, and
/// returns `None` when the content is not valid base64 or UTF-8.
#[verifier::external_body]
pub fn decode_message_content(content: &str) -> (r: Option<String>)
    ensures
        match r {
            Some(s) => decoded_message_of(content@) == Some(s@),
            None => decoded_message_of(content@) is None,
        },
{
    librus_rs::Client::decode_message_content(content)
}

/// The body a message item carries: the decoded content, or empty when
/// decoding fails.
pub open spec fn spec_message_body(s: Seq<char>) -> Seq<char> {
    match decoded_message_of(s) {
        Some(t) => t,
        None => Seq::empty(),
    }
}

} // verus!
