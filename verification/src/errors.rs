//! What can go wrong in the engine.

use vstd::prelude::*;
use vstd::string::*;

verus! {

/// Every failure the engine reports.
#[derive(Debug, PartialEq, Eq)]
pub enum BmailError {
    /// The engine was asked for something it is in no state to do.
    InternalServerError,
    /// The task that reads the firehose has ended.
    FirehoseProcessCrashed,
    /// No conversation of that name is known.
    ConversationNotFound,
    /// A record lacks what a message or notification must have.
    MalformedBmail,
    /// The network client has no session.
    MissingSession,
    /// There is no local identity.
    MissingIdentity,
    /// A recipient has no identity.
    MissingRecipientIdentity,
    /// The account named has not advertised a public key.
    MissingRecipient(String),
    /// A recipient advertises more than one key.
    MultipleRecipientKeys,
    /// The participants given do not match those of the conversation.
    ParticipantMismatch,
    /// The settings could not be read.
    ConfigError,
    /// A record off the firehose could not be read.
    SerdeCborError,
    /// A file could not be read or written.
    IoError,
    /// A payload was not sealed to the local identity, or is damaged.
    DecryptError,
    /// A payload could not be sealed.
    EncryptError,
    /// The bytes of a message are not UTF-8.
    FromStringError,
    /// A text is not base64.
    Base64DecodeError,
    /// Bytes are not the CBOR expected.
    CborDecodeError,
    /// A value could not be written as CBOR.
    CborEncodeError,
    /// The channel to the engine is closed.
    TokioSendError(String),
    /// The firehose could not be read.
    StreamError,
    /// The network failed.
    BiskyError,
    /// The text advertised as a public key is none.
    ParseRecipientError,
    /// The identity file holds text that is not a secret key.
    ParseIdentityError,
}

impl BmailError {
    /// The text shown to the user for this failure.
    pub open spec fn spec_message(self) -> Seq<char> {
        match self {
            BmailError::InternalServerError => "Internal Server Error"@,
            BmailError::FirehoseProcessCrashed => "Firehose Process Crashed"@,
            BmailError::ConversationNotFound => "Conversation Not Found"@,
            BmailError::MalformedBmail => "Malformed Bmail"@,
            BmailError::MissingSession => "Missing Session"@,
            BmailError::MissingIdentity => "Missing Identity"@,
            BmailError::MissingRecipientIdentity => "Missing Recipient Identity"@,
            BmailError::MissingRecipient(did) => "Missing Recipient "@ + did@,
            BmailError::MultipleRecipientKeys => "Missing Recipient Keys"@,
            BmailError::ParticipantMismatch => "Participant Mismatch"@,
            BmailError::ConfigError => "Configuration Error"@,
            BmailError::SerdeCborError => "Record Decode Error"@,
            BmailError::IoError => "I/O Error"@,
            BmailError::DecryptError => "Decrypt Error"@,
            BmailError::EncryptError => "Encrypt Error"@,
            BmailError::FromStringError => "Invalid UTF-8"@,
            BmailError::Base64DecodeError => "Base64 Decode Error"@,
            BmailError::CborDecodeError => "CBOR Decode Error"@,
            BmailError::CborEncodeError => "CBOR Encode Error"@,
            BmailError::TokioSendError(what) => "Tokio Send Error "@ + what@,
            BmailError::StreamError => "Stream Error"@,
            BmailError::BiskyError => "Network Error"@,
            BmailError::ParseRecipientError => "Failed to Parse Recipient Key String"@,
            BmailError::ParseIdentityError => "Failed to Parse Identity"@,
        }
    }

    /// The text shown to the user for this failure.
    pub fn message(&self) -> (text: String)
        ensures
            text@ == self.spec_message(),
    {
        match self {
            BmailError::InternalServerError => "Internal Server Error".to_owned(),
            BmailError::FirehoseProcessCrashed => "Firehose Process Crashed".to_owned(),
            BmailError::ConversationNotFound => "Conversation Not Found".to_owned(),
            BmailError::MalformedBmail => "Malformed Bmail".to_owned(),
            BmailError::MissingSession => "Missing Session".to_owned(),
            BmailError::MissingIdentity => "Missing Identity".to_owned(),
            BmailError::MissingRecipientIdentity => "Missing Recipient Identity".to_owned(),
            BmailError::MissingRecipient(did) => "Missing Recipient ".to_owned().concat(
                did.as_str(),
            ),
            BmailError::MultipleRecipientKeys => "Missing Recipient Keys".to_owned(),
            BmailError::ParticipantMismatch => "Participant Mismatch".to_owned(),
            BmailError::ConfigError => "Configuration Error".to_owned(),
            BmailError::SerdeCborError => "Record Decode Error".to_owned(),
            BmailError::IoError => "I/O Error".to_owned(),
            BmailError::DecryptError => "Decrypt Error".to_owned(),
            BmailError::EncryptError => "Encrypt Error".to_owned(),
            BmailError::FromStringError => "Invalid UTF-8".to_owned(),
            BmailError::Base64DecodeError => "Base64 Decode Error".to_owned(),
            BmailError::CborDecodeError => "CBOR Decode Error".to_owned(),
            BmailError::CborEncodeError => "CBOR Encode Error".to_owned(),
            BmailError::TokioSendError(what) => "Tokio Send Error ".to_owned().concat(
                what.as_str(),
            ),
            BmailError::StreamError => "Stream Error".to_owned(),
            BmailError::BiskyError => "Network Error".to_owned(),
            BmailError::ParseRecipientError => "Failed to Parse Recipient Key String".to_owned(),
            BmailError::ParseIdentityError => "Failed to Parse Identity".to_owned(),
        }
    }
}

} // verus!
