//! Conversation identifiers: version-4 UUIDs, held as their 128 bits.

use crate::errors::BmailError;
use vstd::prelude::*;

verus! {

/// The 128 bits that name a conversation.
#[derive(Clone, Copy, Debug, PartialEq, Eq, PartialOrd, Ord, Hash, Structural)]
pub struct ConversationId(pub u128);

/// The error of the `uuid` parser.
#[verifier::external_type_specification]
#[verifier::external_body]
pub struct ExUuidError(uuid::Error);

/// The identifier that the `uuid` crate reads from `text`, if it reads one.
pub uninterp spec fn uuid_value(text: Seq<char>) -> Option<u128>;

/// The hyphenated lower-case text that the `uuid` crate writes for `value`.
pub uninterp spec fn uuid_text(value: u128) -> Seq<char>;

/// The bits that mark a UUID as random (version 4, RFC 4122 variant).
pub open spec fn is_version_4(value: u128) -> bool {
    value & 0x0000_0000_0000_f000_c000_0000_0000_0000u128
        == 0x0000_0000_0000_4000_8000_0000_0000_0000u128
}

/// `uuid::Uuid::parse_str`, with `as_u128` on what it returns.
#[verifier::external_body]
fn uuid_parse(text: &str) -> (r: Result<u128, uuid::Error>)
    ensures
        r.is_ok() == uuid_value(text@).is_some(),
        r.is_ok() ==> r.unwrap() == uuid_value(text@).unwrap(),
{
    uuid::Uuid::parse_str(text).map(|u| u.as_u128())
}

/// `uuid::Uuid::from_u128` and the `Display` of the result: the hyphenated
/// lower-case text, which `parse_str` reads back as the same identifier.
#[verifier::external_body]
fn uuid_format(value: u128) -> (text: String)
    ensures
        text@ == uuid_text(value),
        uuid_value(text@) == Some(value),
{
    uuid::Uuid::from_u128(value).to_string()
}

/// `uuid::Uuid::new_v4`, with `as_u128` on what it returns: random bits
/// under the marks of version 4. The crate aborts when the operating system
/// hands out no randomness.
#[verifier::external_body]
fn uuid_random() -> (value: u128)
    ensures
        is_version_4(value),
{
    uuid::Uuid::new_v4().as_u128()
}

impl ConversationId {
    /// A fresh random identifier.
    pub fn new_v4() -> (id: ConversationId)
        ensures
            is_version_4(id.0),
    {
        ConversationId(uuid_random())
    }

    /// Reads an identifier from its text. Fails with `MalformedBmail` on a
    /// text that is no UUID.
    pub fn parse_str(text: &str) -> (r: Result<ConversationId, BmailError>)
        ensures
            match r {
                Ok(id) => uuid_value(text@) == Some(id.0),
                Err(e) => uuid_value(text@).is_none() && e == BmailError::MalformedBmail,
            },
    {
        match uuid_parse(text) {
            Ok(value) => Ok(ConversationId(value)),
            Err(_) => Err(BmailError::MalformedBmail),
        }
    }

    /// The identifier as hyphenated lower-case text, from which `parse_str`
    /// reads it back.
    pub fn to_text(&self) -> (text: String)
        ensures
            text@ == uuid_text(self.0),
            uuid_value(text@) == Some(self.0),
    {
        uuid_format(self.0)
    }
}

} // verus!
