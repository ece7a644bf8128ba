//! The filter between the network-wide stream of commits and the engine.
//!
//! Of every frame only the first operation is looked at. It must write into
//! the profile collection and carry a content identifier; the record found
//! under that identifier in the block store of the commit must be a message
//! sealed to the local account, or a notification. Everything else is
//! dropped.

use crate::blocks::{block_of_link, find_linked_block, opt_bytes};
use crate::errors::BmailError;
use crate::ids::uuid_value;
use crate::message::{bmail_mark, BmailMessageRecord, FirehoseBmailMessageRecord};
use crate::profile::{notification_mark, BmailLike};
use crate::text::{contains_text, text_same, texts};
use vstd::prelude::*;
use vstd::string::*;

verus! {

/// One operation of a commit: the path it writes to, and the content
/// identifier of what it wrote, if it wrote anything.
pub struct Operation {
    pub path: String,
    pub cid: Option<Vec<u8>>,
}

/// The body of a frame.
pub enum FirehoseBody {
    /// A commit with its operations.
    Commit(Vec<Operation>),
    /// Anything else the stream carries.
    Other,
}

/// A record as it was read out of a commit.
pub enum FirehoseRecord {
    /// A record that reads as a published message.
    Message(FirehoseBmailMessageRecord),
    /// A record that reads as a notification.
    Like(BmailLike),
    /// Any other record.
    Other,
}

/// What kind of record a type mark announces.
#[derive(Clone, Copy, Debug, PartialEq, Eq, Structural)]
pub enum RecordKind {
    Bmail,
    Notification,
    Other,
}

/// What the filter hands to the engine.
#[derive(Debug, PartialEq)]
pub enum FirehoseMessages {
    Bmail(BmailMessageRecord),
    BmailLike(BmailLike),
}

/// How many events may wait between the filter and the engine. The filter
/// blocks while that many wait.
pub const CHANNEL_CAPACITY: usize = 32;

/// The start of every path into the profile collection.
pub open spec fn profile_prefix() -> Seq<char> {
    "actor.profile/"@
}

/// `text` begins with `prefix`.
pub open spec fn has_prefix(text: Seq<char>, prefix: Seq<char>) -> bool {
    prefix.len() <= text.len() && text.subrange(0, prefix.len() as int) == prefix
}

/// The first operation of a commit that writes a record into the profile
/// collection, where the frame has one.
pub open spec fn profile_write(body: FirehoseBody) -> Option<Operation> {
    match body {
        FirehoseBody::Commit(operations) => if operations@.len() > 0 && has_prefix(
            operations@[0].path@,
            profile_prefix(),
        ) && operations@[0].cid.is_some() {
            Some(operations@[0])
        } else {
            None
        },
        FirehoseBody::Other => None,
    }
}

/// The kind that a type mark announces.
pub open spec fn kind_of(mark: Seq<char>) -> RecordKind {
    if mark == bmail_mark() {
        RecordKind::Bmail
    } else if mark == notification_mark() {
        RecordKind::Notification
    } else {
        RecordKind::Other
    }
}

/// Whether `text` begins with `prefix`.
pub fn starts_with(text: &str, prefix: &str) -> (b: bool)
    ensures
        b == has_prefix(text@, prefix@),
{
    let n = prefix.unicode_len();
    if text.unicode_len() < n {
        return false;
    }
    let mut i: usize = 0;
    while i < n
        invariant
            i <= n,
            n == prefix@.len(),
            n <= text@.len(),
            forall|k: int| 0 <= k < i ==> text@[k] == prefix@[k],
        decreases n - i,
    {
        if text.get_char(i) != prefix.get_char(i) {
            assert(text@.subrange(0, n as int)[i as int] != prefix@[i as int]);
            return false;
        }
        i += 1;
    }
    assert(text@.subrange(0, n as int) =~= prefix@);
    true
}

/// The content identifier of the record that the frame is about, where the
/// frame passes the filter: it is a commit, and its first operation writes
/// into the profile collection and carries a content identifier.
pub fn record_wanted(body: &FirehoseBody) -> (cid: Option<&Vec<u8>>)
    ensures
        match (cid, profile_write(*body)) {
            (Some(c), Some(operation)) => operation.cid == Some(*c),
            (None, None) => true,
            _ => false,
        },
{
    match body {
        FirehoseBody::Commit(operations) => {
            if operations.len() == 0 {
                return None;
            }
            let operation = &operations[0];
            if !starts_with(operation.path.as_str(), "actor.profile/") {
                return None;
            }
            match &operation.cid {
                Some(cid) => Some(cid),
                None => None,
            }
        },
        FirehoseBody::Other => None,
    }
}

/// The bytes of the record that the frame is about, where the frame passes
/// the filter and the block store of its commit holds a block under the
/// content identifier that the operation links to.
pub open spec fn written_block(body: FirehoseBody, store: Seq<u8>) -> Option<Seq<u8>> {
    match profile_write(body) {
        Some(operation) => block_of_link(store, operation.cid.unwrap()@),
        None => None,
    }
}

/// Reads the record that the frame is about out of the block store of its
/// commit.
pub fn record_block(body: &FirehoseBody, store: &[u8]) -> (r: Option<Vec<u8>>)
    ensures
        opt_bytes(r) == written_block(*body, store@),
{
    match record_wanted(body) {
        Some(link) => find_linked_block(store, link.as_slice()),
        None => None,
    }
}

/// The kind of record that a type mark announces.
pub fn classify(mark: &str) -> (kind: RecordKind)
    ensures
        kind == kind_of(mark@),
{
    if text_same(mark, "bmail") {
        RecordKind::Bmail
    } else if text_same(mark, "notification") {
        RecordKind::Notification
    } else {
        RecordKind::Other
    }
}

/// What is to be done with a frame and the record read out of it.
pub enum Verdict {
    /// The record is a message for the local account: it is handed on.
    Message,
    /// The record is a notification: it is handed on.
    Notification,
    /// The frame or the record is of no interest: it is dropped.
    Nothing,
    /// The record is a message for the local account, but names its
    /// conversation by a text that is no UUID.
    Malformed,
}

/// What is to be done with a frame and the record read out of it. Nothing
/// is handed on unless the frame passes the filter; a message is handed on
/// only where the record is marked as one and the local account is among
/// its recipients; a notification only where the record is marked as one.
pub open spec fn verdict(
    body: FirehoseBody,
    record: FirehoseRecord,
    user_did: Seq<char>,
) -> Verdict {
    if profile_write(body).is_none() {
        Verdict::Nothing
    } else {
        match record {
            FirehoseRecord::Message(message) => if message.bmail_type@ != bmail_mark() || !texts(
                message.bmail_recipients@,
            ).contains(user_did) {
                Verdict::Nothing
            } else if uuid_value(message.bmail_conversation_id@).is_none() {
                Verdict::Malformed
            } else {
                Verdict::Message
            },
            FirehoseRecord::Like(like) => if like.bmail_type@ == notification_mark() {
                Verdict::Notification
            } else {
                Verdict::Nothing
            },
            FirehoseRecord::Other => Verdict::Nothing,
        }
    }
}

/// The record `out` is the record `message` off the firehose, the
/// identifier of its conversation read.
pub open spec fn same_message(
    out: BmailMessageRecord,
    message: FirehoseBmailMessageRecord,
) -> bool {
    &&& uuid_value(message.bmail_conversation_id@) == Some(out.bmail_conversation_id.0)
    &&& out.bmail_created_at == message.bmail_created_at
    &&& out.bmail_cipher_text@ == message.bmail_cipher_text@
    &&& out.bmail_type@ == message.bmail_type@
    &&& out.bmail_creator@ == message.bmail_creator@
    &&& out.bmail_creator_handle@ == message.bmail_creator_handle@
    &&& out.bmail_version == message.bmail_version
    &&& out.rust_type@ == message.rust_type@
    &&& texts(out.bmail_recipients@) == texts(message.bmail_recipients@)
}

/// A frame whose first operation does not write into the profile
/// collection gives no event, whatever record comes with it.
pub proof fn lemma_other_collections_give_no_event(
    operations: Vec<Operation>,
    record: FirehoseRecord,
    user_did: Seq<char>,
)
    requires
        operations@.len() > 0,
        !has_prefix(operations@[0].path@, profile_prefix()),
    ensures
        verdict(FirehoseBody::Commit(operations), record, user_did) is Nothing,
{
}

/// A record that is not marked as a message gives no message.
pub proof fn lemma_other_types_give_no_message(
    body: FirehoseBody,
    message: FirehoseBmailMessageRecord,
    user_did: Seq<char>,
)
    requires
        message.bmail_type@ != bmail_mark(),
    ensures
        verdict(body, FirehoseRecord::Message(message), user_did) is Nothing,
{
}

/// A message that is not sealed to the local account gives no message.
pub proof fn lemma_messages_for_others_give_no_message(
    body: FirehoseBody,
    message: FirehoseBmailMessageRecord,
    user_did: Seq<char>,
)
    requires
        !texts(message.bmail_recipients@).contains(user_did),
    ensures
        verdict(body, FirehoseRecord::Message(message), user_did) is Nothing,
{
}

/// What the engine is told of a frame and the record read out of it: the
/// record where the verdict is to hand it on, nothing where it is to drop
/// it. Fails with `MalformedBmail` where the verdict is that a message
/// names its conversation by a text that is no UUID.
pub fn process_message(body: &FirehoseBody, record: FirehoseRecord, user_did: &str) -> (r: Result<
    Option<FirehoseMessages>,
    BmailError,
>)
    ensures
        match (r, verdict(*body, record, user_did@)) {
            (Ok(Some(FirehoseMessages::Bmail(out))), Verdict::Message) => record matches FirehoseRecord::Message(
                message,
            ) && same_message(out, message),
            (Ok(Some(FirehoseMessages::BmailLike(out))), Verdict::Notification) => record
                == FirehoseRecord::Like(out),
            (Ok(None), Verdict::Nothing) => true,
            (Err(e), Verdict::Malformed) => e == BmailError::MalformedBmail,
            _ => false,
        },
{
    if record_wanted(body).is_none() {
        return Ok(None);
    }
    match record {
        FirehoseRecord::Message(message) => {
            if !text_same(message.bmail_type.as_str(), "bmail") {
                return Ok(None);
            }
            if !contains_text(&message.bmail_recipients, user_did) {
                return Ok(None);
            }
            match BmailMessageRecord::try_from(message) {
                Ok(out) => Ok(Some(FirehoseMessages::Bmail(out))),
                Err(e) => Err(e),
            }
        },
        FirehoseRecord::Like(like) => {
            if !text_same(like.bmail_type.as_str(), "notification") {
                return Ok(None);
            }
            Ok(Some(FirehoseMessages::BmailLike(like)))
        },
        FirehoseRecord::Other => Ok(None),
    }
}

} // verus!
