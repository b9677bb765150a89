//! The email value carried by the protocol, and the decoding of a frame
//! payload — a JSON text with a `subject` and a `body` string — into it.
use vstd::prelude::*;

verus! {

/// One email as received from a client and handed to the mail transport.
pub struct Email {
    pub subject: String,
    pub body: String,
}

impl Email {
    /// Build an email from its two parts.
    pub fn new(subject: String, body: String) -> (r: Email)
        ensures
            r.subject == subject,
            r.body == body,
    {
        Email { subject, body }
    }

    /// An identical copy.
    pub fn duplicate(&self) -> (r: Email)
        ensures
            r == *self,
    {
        Email { subject: self.subject.clone(), body: self.body.clone() }
    }
}

/// What a payload decodes to: the subject and body strings when the
/// bytes are a JSON object whose `subject` and `body` keys hold
/// strings, nothing otherwise. The JSON parse is a function of the
/// bytes alone; nothing here states its value on given bytes.
pub uninterp spec fn email_of(payload: Seq<u8>) -> Option<(Seq<char>, Seq<char>)>;

/// Relies on serde_json's from_slice and the Value accessors `get` and
/// `as_str`: whether the bytes parse as a JSON object with string
/// `subject` and `body` keys, and which strings those are, is decided
/// by the outside parser and depends on the bytes alone.
#[verifier::external_body]
fn parse_email_json(payload: &[u8]) -> (r: Option<(String, String)>)
    ensures
        match r {
            Some(sb) => email_of(payload@) == Some((sb.0@, sb.1@)),
            None => email_of(payload@) is None,
        },
{
    let parsed: serde_json::Value = serde_json::from_slice(payload).ok()?;
    let subject = parsed.get("subject")?.as_str()?.to_string();
    let body = parsed.get("body")?.as_str()?.to_string();
    Some((subject, body))
}

/// Decode a frame payload into an email: exactly the payloads whose
/// bytes hold a JSON object with string `subject` and `body` keys
/// decode, and the email carries those two strings.
pub fn decode_email(payload: &[u8]) -> (r: Option<Email>)
    ensures
        r is Some <==> email_of(payload@) is Some,
        (r matches Some(e) ==> email_of(payload@) == Some((e.subject@, e.body@))),
{
    match parse_email_json(payload) {
        Some((subject, body)) => Some(Email { subject, body }),
        None => None,
    }
}

} // verus!
