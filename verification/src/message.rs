//! The conversation data model and the collision-safe message log.

use crate::errors::BmailError;
use crate::ids::{uuid_value, ConversationId};
use crate::key::{
    can_seal_to, cbor_of_bytes, decrypt_and_decode, encrypt_and_encode, keys_of, opened,
    is_sealing, lemma_round_trip, opens_for, Identity, Recipient,
};
use crate::text::{clone_texts, same_texts, string_from_utf8, texts};
use vstd::prelude::*;
use vstd::string::*;
use vstd::utf8::*;

verus! {

/// A point in time: whole seconds since the Unix epoch and the nanoseconds
/// into that second. Ordered by seconds, then nanoseconds.
#[derive(Clone, Copy, Debug, PartialEq, Eq, PartialOrd, Ord, Hash, Structural)]
pub struct Timestamp {
    pub secs: i64,
    pub nanos: u32,
}

/// Where a message sits in a conversation: its timestamp, then a counter that
/// tells apart messages sharing one timestamp.
#[derive(Clone, Copy, Debug, PartialEq, Eq, PartialOrd, Ord, Hash, Structural)]
pub struct MessageKey {
    pub created_at: Timestamp,
    pub count: u32,
}

/// A message in the clear.
#[derive(Debug, PartialEq)]
pub struct DecryptedMessage {
    pub created_at: Timestamp,
    pub creator: String,
    pub creator_handle: String,
    pub conversation_id: ConversationId,
    pub message: String,
    pub recipients: Vec<String>,
    pub version: usize,
}

/// What a `DecryptedMessage` says, as mathematical values.
pub struct MessageView {
    pub created_at: Timestamp,
    pub creator: Seq<char>,
    pub creator_handle: Seq<char>,
    pub conversation_id: ConversationId,
    pub message: Seq<char>,
    pub recipients: Seq<Seq<char>>,
    pub version: usize,
}

/// `chrono::Utc::now`, with `timestamp` and `timestamp_subsec_nanos` on what
/// it returns: the reading of the clock. Of the instant nothing is known;
/// the nanoseconds are in the range that chrono gives every time of day,
/// where a value from one thousand million on stands for a leap second.
/// chrono aborts where the clock stands before the Unix epoch.
#[verifier::external_body]
fn utc_now() -> (t: Timestamp)
    ensures
        t.in_range(),
{
    let now = chrono::Utc::now();
    Timestamp { secs: now.timestamp(), nanos: now.timestamp_subsec_nanos() }
}

impl Timestamp {
    /// The nanoseconds are those of a second, or of the leap second that
    /// follows it: fewer than two thousand million.
    pub open spec fn in_range(self) -> bool {
        self.nanos < 2_000_000_000
    }

    /// The present instant, as the clock reads it.
    pub fn now() -> (t: Timestamp)
        ensures
            t.in_range(),
    {
        utc_now()
    }

    /// Strictly earlier than `other`.
    pub open spec fn earlier_than(self, other: Timestamp) -> bool {
        self.secs < other.secs || (self.secs == other.secs && self.nanos < other.nanos)
    }

    /// The Unix epoch.
    pub fn epoch() -> (t: Timestamp)
        ensures
            t == (Timestamp { secs: 0, nanos: 0 }),
    {
        Timestamp { secs: 0, nanos: 0 }
    }

    /// Whether this instant is strictly earlier than `other`.
    pub fn before(&self, other: &Timestamp) -> (r: bool)
        ensures
            r == self.earlier_than(*other),
    {
        self.secs < other.secs || (self.secs == other.secs && self.nanos < other.nanos)
    }
}

impl MessageKey {
    /// Strictly before `other`: by timestamp, then by counter.
    pub open spec fn sorts_before(self, other: MessageKey) -> bool {
        self.created_at.earlier_than(other.created_at) || (self.created_at == other.created_at && self.count
            < other.count)
    }

    /// The first key at the present instant, as the clock reads it.
    pub fn new() -> (k: MessageKey)
        ensures
            k.count == 0,
            k.created_at.in_range(),
    {
        MessageKey { created_at: Timestamp::now(), count: 0 }
    }

    /// The key with the given counter at the given time.
    pub fn new_with_count(count: u32, created_at: &Timestamp) -> (k: MessageKey)
        ensures
            k == (MessageKey { created_at: *created_at, count }),
    {
        MessageKey { created_at: *created_at, count }
    }

    /// Sets the counter and hands the key back.
    pub fn update_count(&mut self, count: u32) -> (r: &Self)
        ensures
            *final(self) == (MessageKey { created_at: old(self).created_at, count }),
            *r == *final(self),
    {
        self.count = count;
        self
    }

    /// Whether this key sorts strictly before `other`.
    pub fn before(&self, other: &MessageKey) -> (r: bool)
        ensures
            r == self.sorts_before(*other),
    {
        self.created_at.before(&other.created_at) || (self.created_at == other.created_at
            && self.count < other.count)
    }
}

impl View for DecryptedMessage {
    type V = MessageView;

    open spec fn view(&self) -> MessageView {
        MessageView {
            created_at: self.created_at,
            creator: self.creator@,
            creator_handle: self.creator_handle@,
            conversation_id: self.conversation_id,
            message: self.message@,
            recipients: texts(self.recipients@),
            version: self.version,
        }
    }
}

impl Clone for DecryptedMessage {
    fn clone(&self) -> (r: Self)
        ensures
            r@ == self@,
    {
        DecryptedMessage {
            created_at: self.created_at,
            creator: self.creator.clone(),
            creator_handle: self.creator_handle.clone(),
            conversation_id: self.conversation_id,
            message: self.message.clone(),
            recipients: clone_texts(&self.recipients),
            version: self.version,
        }
    }
}

impl DecryptedMessage {
    /// Whether two messages agree in text and in every piece of metadata.
    pub fn same_as(&self, other: &DecryptedMessage) -> (r: bool)
        ensures
            r == (self@ == other@),
    {
        self.created_at == other.created_at && self.creator == other.creator
            && self.creator_handle == other.creator_handle && self.conversation_id
            == other.conversation_id && self.message == other.message && same_texts(
            &self.recipients,
            &other.recipients,
        ) && self.version == other.version
    }
}


/// A message as it is published: sealed, with its metadata in the clear.
#[derive(Debug, PartialEq)]
pub struct BmailMessageRecord {
    pub rust_type: String,
    pub bmail_created_at: Timestamp,
    pub bmail_conversation_id: ConversationId,
    pub bmail_cipher_text: String,
    pub bmail_type: String,
    pub bmail_creator: String,
    pub bmail_creator_handle: String,
    pub bmail_version: usize,
    pub bmail_recipients: Vec<String>,
}

/// A published message as the firehose delivers it, the identifier of its
/// conversation still as text.
#[derive(Debug, PartialEq)]
pub struct FirehoseBmailMessageRecord {
    pub rust_type: String,
    pub bmail_created_at: Timestamp,
    pub bmail_conversation_id: String,
    pub bmail_cipher_text: String,
    pub bmail_type: String,
    pub bmail_creator: String,
    pub bmail_creator_handle: String,
    pub bmail_version: usize,
    pub bmail_recipients: Vec<String>,
}

impl Clone for BmailMessageRecord {
    fn clone(&self) -> (r: Self)
        ensures
            r.same_record(*self),
    {
        BmailMessageRecord {
            rust_type: self.rust_type.clone(),
            bmail_created_at: self.bmail_created_at,
            bmail_conversation_id: self.bmail_conversation_id,
            bmail_cipher_text: self.bmail_cipher_text.clone(),
            bmail_type: self.bmail_type.clone(),
            bmail_creator: self.bmail_creator.clone(),
            bmail_creator_handle: self.bmail_creator_handle.clone(),
            bmail_version: self.bmail_version,
            bmail_recipients: clone_texts(&self.bmail_recipients),
        }
    }
}

/// The collection in which messages are published.
pub open spec fn profile_collection() -> Seq<char> {
    "actor.profile"@
}

/// The mark of a published message.
pub open spec fn bmail_mark() -> Seq<char> {
    "bmail"@
}

impl BmailMessageRecord {
    /// Two records say the same, field by field.
    pub open spec fn same_record(self, other: BmailMessageRecord) -> bool {
        &&& self.rust_type@ == other.rust_type@
        &&& self.bmail_created_at == other.bmail_created_at
        &&& self.bmail_conversation_id == other.bmail_conversation_id
        &&& self.bmail_cipher_text@ == other.bmail_cipher_text@
        &&& self.bmail_type@ == other.bmail_type@
        &&& self.bmail_creator@ == other.bmail_creator@
        &&& self.bmail_creator_handle@ == other.bmail_creator_handle@
        &&& self.bmail_version == other.bmail_version
        &&& texts(self.bmail_recipients@) == texts(other.bmail_recipients@)
    }

    /// The message with the given text and the metadata of this record.
    pub open spec fn with_text(self, text: Seq<char>) -> MessageView {
        MessageView {
            created_at: self.bmail_created_at,
            creator: self.bmail_creator@,
            creator_handle: self.bmail_creator_handle@,
            conversation_id: self.bmail_conversation_id,
            message: text,
            recipients: texts(self.bmail_recipients@),
            version: self.bmail_version,
        }
    }

    /// What this record opens to under the secret key `secret`: the message,
    /// or the error of the first step that fails.
    pub open spec fn decrypted(self, secret: Seq<char>) -> Result<MessageView, BmailError> {
        match opened(secret, self.bmail_cipher_text@) {
            Err(e) => Err(e),
            Ok(bytes) => if valid_utf8(bytes) {
                Ok(self.with_text(decode_utf8(bytes)))
            } else {
                Err(BmailError::FromStringError)
            },
        }
    }

    /// Opens the record with the local identity. Fails as
    /// `decrypt_and_decode` does, and with `FromStringError` where the bytes
    /// sealed are not UTF-8.
    pub fn into_decrypted_message(&self, identity: &Identity) -> (r: Result<
        DecryptedMessage,
        BmailError,
    >)
        ensures
            match (r, self.decrypted(identity.secret())) {
                (Ok(message), Ok(expected)) => message@ == expected,
                (Err(e), Err(expected)) => e == expected,
                _ => false,
            },
    {
        let bytes = match decrypt_and_decode(identity, self.bmail_cipher_text.as_str()) {
            Ok(bytes) => bytes,
            Err(e) => {
                return Err(e);
            },
        };
        let text = match string_from_utf8(bytes) {
            Some(text) => text,
            None => {
                return Err(BmailError::FromStringError);
            },
        };
        Ok(
            DecryptedMessage {
                created_at: self.bmail_created_at,
                creator: self.bmail_creator.clone(),
                creator_handle: self.bmail_creator_handle.clone(),
                conversation_id: self.bmail_conversation_id,
                message: text,
                recipients: clone_texts(&self.bmail_recipients),
                version: self.bmail_version,
            },
        )
    }

    /// The record that a record off the firehose stands for. Fails with
    /// `MalformedBmail` where the identifier of its conversation is no UUID.
    pub fn try_from(message: FirehoseBmailMessageRecord) -> (r: Result<
        BmailMessageRecord,
        BmailError,
    >)
        ensures
            match r {
                Ok(record) => {
                    &&& uuid_value(message.bmail_conversation_id@) == Some(
                        record.bmail_conversation_id.0,
                    )
                    &&& record.rust_type@ == message.rust_type@
                    &&& record.bmail_created_at == message.bmail_created_at
                    &&& record.bmail_cipher_text@ == message.bmail_cipher_text@
                    &&& record.bmail_type@ == message.bmail_type@
                    &&& record.bmail_creator@ == message.bmail_creator@
                    &&& record.bmail_creator_handle@ == message.bmail_creator_handle@
                    &&& record.bmail_version == message.bmail_version
                    &&& texts(record.bmail_recipients@) == texts(message.bmail_recipients@)
                },
                Err(e) => uuid_value(message.bmail_conversation_id@).is_none() && e
                    == BmailError::MalformedBmail,
            },
    {
        let id = match ConversationId::parse_str(message.bmail_conversation_id.as_str()) {
            Ok(id) => id,
            Err(e) => {
                return Err(e);
            },
        };
        Ok(
            BmailMessageRecord {
                bmail_conversation_id: id,
                rust_type: message.rust_type,
                bmail_created_at: message.bmail_created_at,
                bmail_cipher_text: message.bmail_cipher_text,
                bmail_type: message.bmail_type,
                bmail_creator: message.bmail_creator,
                bmail_creator_handle: message.bmail_creator_handle,
                bmail_version: message.bmail_version,
                bmail_recipients: message.bmail_recipients,
            },
        )
    }
}

impl DecryptedMessage {
    /// The record that publishes this message under the given cipher text.
    pub open spec fn published(self, cipher_text: Seq<char>, record: BmailMessageRecord) -> bool {
        &&& record.bmail_created_at == self.created_at
        &&& record.bmail_conversation_id == self.conversation_id
        &&& record.bmail_cipher_text@ == cipher_text
        &&& record.bmail_type@ == bmail_mark()
        &&& record.bmail_version == self.version
        &&& texts(record.bmail_recipients@) == texts(self.recipients@)
        &&& record.bmail_creator@ == self.creator@
        &&& record.rust_type@ == profile_collection()
        &&& record.bmail_creator_handle@ == self.creator_handle@
    }

    /// The record that publishes this message under the given cipher text.
    pub fn record_with(&self, cipher_text: String) -> (record: BmailMessageRecord)
        ensures
            self.published(cipher_text@, record),
    {
        BmailMessageRecord {
            bmail_created_at: self.created_at,
            bmail_conversation_id: self.conversation_id,
            bmail_cipher_text: cipher_text,
            bmail_type: "bmail".to_owned(),
            bmail_version: self.version,
            bmail_recipients: clone_texts(&self.recipients),
            bmail_creator: self.creator.clone(),
            rust_type: "actor.profile".to_owned(),
            bmail_creator_handle: self.creator_handle.clone(),
        }
    }

    /// Seals the text of the message to the given keys and builds the record
    /// that publishes it: each of the keys opens its cipher text to the text
    /// of the message. Fails as `encrypt_and_encode` does.
    pub fn into_bmail_record(&self, recipient_keys: &Vec<Recipient>) -> (r: Result<
        BmailMessageRecord,
        BmailError,
    >)
        ensures
            match r {
                Ok(record) => {
                    &&& cbor_of_bytes(encode_utf8(self.message@)).is_some()
                    &&& can_seal_to(keys_of(recipient_keys@))
                    &&& is_sealing(
                        record.bmail_cipher_text@,
                        keys_of(recipient_keys@),
                        encode_utf8(self.message@),
                    )
                    &&& self.published(record.bmail_cipher_text@, record)
                },
                Err(e) => if cbor_of_bytes(encode_utf8(self.message@)).is_none() {
                    e == BmailError::CborEncodeError
                } else {
                    e == BmailError::EncryptError
                },
            },
    {
        let payload = self.message.as_str().as_bytes_vec();
        match encrypt_and_encode(recipient_keys, &payload) {
            Ok(cipher_text) => Ok(self.record_with(cipher_text)),
            Err(e) => Err(e),
        }
    }
}

/// The record that publishes a message opens again to that message, for
/// every recipient it was sealed to: where `record` publishes `message`
/// under a cipher text that is its text sealed to `keys`, and `secret`
/// belongs to one of the keys, opening the record with `secret` gives the
/// message.
pub proof fn lemma_published_record_opens(
    message: DecryptedMessage,
    record: BmailMessageRecord,
    keys: Seq<Seq<char>>,
    secret: Seq<char>,
)
    requires
        message.published(record.bmail_cipher_text@, record),
        is_sealing(record.bmail_cipher_text@, keys, encode_utf8(message.message@)),
        opens_for(keys, secret),
    ensures
        record.decrypted(secret) == Ok::<MessageView, BmailError>(message@),
{
    lemma_round_trip(record.bmail_cipher_text@, keys, encode_utf8(message.message@), secret);
    encode_utf8_valid_utf8(message.message@);
    encode_utf8_decode_utf8(message.message@);
}

} // verus!
