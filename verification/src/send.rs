//! Sending a message and taking one in.
//!
//! A send goes to the participants of the conversation, sealed to the
//! public keys that their profiles advertise. Fetching the profiles and
//! publishing the record is left to the caller.

use crate::conversation::Conversation;
use crate::engine::{counter_free_in, knows, selects_last, taken_in, App};
use crate::errors::BmailError;
use crate::firehose::FirehoseMessages;
use crate::ids::ConversationId;
use crate::key::{
    can_seal_to, cbor_of_bytes, is_sealing, keys_of, recipient_text, Recipient,
};
use crate::message::{BmailMessageRecord, DecryptedMessage, MessageView, Timestamp};
use crate::participants::{canonical_participants, is_canonical_for, lemma_canonical_unique};
use crate::profile::{
    get_recipient_for_bskyer, notification_mark, opt_text, BmailEnabledProfile, BmailLike,
};
use crate::text::{clone_texts, contains_text, same_texts, text_same, texts};
use vstd::prelude::*;
use vstd::utf8::*;

verus! {

/// A message on its way out: in the clear for the local log, and sealed
/// for publication.
pub struct Outgoing {
    pub message: DecryptedMessage,
    pub record: BmailMessageRecord,
}

/// A recipient with the profile that was fetched for it.
pub struct Addressee {
    pub did: String,
    pub profile: BmailEnabledProfile,
}

/// Why the profile of a recipient yields no key.
pub enum KeyProblem {
    /// The profile advertises no key.
    Missing,
    /// The profile advertises a text that is no key.
    Unreadable,
}

/// Why a send is refused before anything is sealed.
pub enum Refusal {
    /// The local account is unknown.
    NoAccount,
    /// No conversation of that name is known.
    UnknownConversation,
    /// The addressees are not the participants of the conversation.
    Mismatch,
    /// The profile of the addressee at this position advertises no key.
    MissingKey(int),
    /// The profile of the addressee at this position advertises a text that
    /// is no key.
    UnreadableKey(int),
    /// The text cannot be serialised.
    Unserialisable,
    /// The key of an addressee is of low order.
    UnusableKey,
}

/// The identifiers of the addressees, in order.
pub open spec fn dids_of(addressees: Seq<Addressee>) -> Seq<Seq<char>> {
    Seq::new(addressees.len(), |i: int| addressees[i].did@)
}

/// Why a profile yields no key, if it yields none.
pub open spec fn key_problem(profile: BmailEnabledProfile) -> Option<KeyProblem> {
    match profile.bmail_pub_key {
        None => Some(KeyProblem::Missing),
        Some(text) => if recipient_text(text@).is_some() {
            None
        } else {
            Some(KeyProblem::Unreadable)
        },
    }
}

/// The first position from `from` on whose profile yields no key.
pub open spec fn first_key_problem(addressees: Seq<Addressee>, from: int) -> Option<int>
    decreases addressees.len() - from,
{
    if from < 0 || from >= addressees.len() {
        None
    } else if key_problem(addressees[from].profile).is_some() {
        Some(from)
    } else {
        first_key_problem(addressees, from + 1)
    }
}

/// The keys that the profiles of the addressees advertise, as age reads
/// them.
pub open spec fn advertised_keys(addressees: Seq<Addressee>) -> Seq<Seq<char>> {
    Seq::new(
        addressees.len(),
        |i: int| recipient_text(addressees[i].profile.bmail_pub_key.unwrap()@).unwrap(),
    )
}

/// The refusal for the first profile that yields no key, if there is one.
pub open spec fn key_refusal(addressees: Seq<Addressee>) -> Option<Refusal> {
    match first_key_problem(addressees, 0) {
        Some(i) => match key_problem(addressees[i].profile) {
            Some(KeyProblem::Unreadable) => Some(Refusal::UnreadableKey(i)),
            _ => Some(Refusal::MissingKey(i)),
        },
        None => None,
    }
}

/// The participants of the conversation named `id`, where it is known.
pub open spec fn participants_of(
    list: Seq<Conversation>,
    id: ConversationId,
) -> Option<Seq<Seq<char>>> {
    if knows(list, id) {
        let i = choose|i: int| 0 <= i < list.len() && (#[trigger] list[i]).conversation_id == id;
        Some(texts(list[i].participants@))
    } else {
        None
    }
}

/// Why the send of `text` to `addressees` is refused, if it is: the first
/// of the refusals that applies, in the order in which they are listed.
pub open spec fn refusal(
    app: App,
    conversation_id: ConversationId,
    addressees: Seq<Addressee>,
    text: Seq<char>,
) -> Option<
    Refusal,
> {
    if app.user_did.is_none() {
        Some(Refusal::NoAccount)
    } else if participants_of(app.conversations@, conversation_id).is_none() {
        Some(Refusal::UnknownConversation)
    } else if participants_of(app.conversations@, conversation_id) != Some(dids_of(addressees)) {
        Some(Refusal::Mismatch)
    } else if key_refusal(addressees).is_some() {
        key_refusal(addressees)
    } else if cbor_of_bytes(encode_utf8(text)).is_none() {
        Some(Refusal::Unserialisable)
    } else if !can_seal_to(advertised_keys(addressees)) {
        Some(Refusal::UnusableKey)
    } else {
        None
    }
}

/// The error that tells of a refusal.
pub open spec fn tells(e: BmailError, why: Refusal, addressees: Seq<Addressee>) -> bool {
    match why {
        Refusal::NoAccount => e == BmailError::InternalServerError,
        Refusal::UnknownConversation => e == BmailError::ConversationNotFound,
        Refusal::Mismatch => e == BmailError::ParticipantMismatch,
        Refusal::MissingKey(i) => e matches BmailError::MissingRecipient(did) && did@
            == addressees[i].did@,
        Refusal::UnreadableKey(i) => e == BmailError::ParseRecipientError,
        Refusal::Unserialisable => e == BmailError::CborEncodeError,
        Refusal::UnusableKey => e == BmailError::EncryptError,
    }
}

/// The like that `profile` asks for, or the failure where it names no
/// sentinel post.
pub open spec fn is_notification(
    profile: BmailEnabledProfile,
    conversation_id: ConversationId,
    recipients: Seq<Seq<char>>,
    created_at: Timestamp,
    r: Result<BmailLike, BmailError>,
) -> bool {
    match r {
        Ok(like) => {
            &&& opt_text(profile.bmail_notification_cid) == Some(like.subject.cid@)
            &&& opt_text(profile.bmail_notification_uri) == Some(like.subject.uri@)
            &&& like.created_at == created_at
            &&& texts(like.bmail_recipients@) == recipients
            &&& like.bmail_conversation_id == conversation_id
            &&& like.bmail_type@ == notification_mark()
        },
        Err(e) => (profile.bmail_notification_cid.is_none()
            || profile.bmail_notification_uri.is_none()) && e == BmailError::MalformedBmail,
    }
}

/// `likes` are the likes for the addressees as of `created_at`: none for
/// the local account, and for every other addressee the like that its
/// profile asks for, or the failure.
pub open spec fn are_notifications(
    local: Option<Seq<char>>,
    conversation_id: ConversationId,
    addressees: Seq<Addressee>,
    created_at: Timestamp,
    likes: Seq<Option<Result<BmailLike, BmailError>>>,
) -> bool {
    &&& likes.len() == addressees.len()
    &&& forall|i: int|
        0 <= i < addressees.len() ==> match #[trigger] likes[i] {
            None => local == Some(addressees[i].did@),
            Some(like) => local != Some(addressees[i].did@) && is_notification(
                addressees[i].profile,
                conversation_id,
                dids_of(addressees),
                created_at,
                like,
            ),
        }
}

/// The message that the local account `local`, known as `handle`, sends.
pub open spec fn composed(
    local: Seq<char>,
    handle: Seq<char>,
    conversation_id: ConversationId,
    recipients: Seq<Seq<char>>,
    text: Seq<char>,
    created_at: Timestamp,
) -> MessageView {
    MessageView {
        created_at,
        creator: local,
        creator_handle: handle,
        conversation_id,
        message: text,
        recipients,
        version: 0,
    }
}

/// The message that the account `local`, known as `handle`, sends.
pub fn compose(
    local: &str,
    handle: &str,
    conversation_id: ConversationId,
    recipients: &Vec<String>,
    text: &str,
    created_at: Timestamp,
) -> (message: DecryptedMessage)
    ensures
        message@ == composed(local@, handle@, conversation_id, texts(recipients@), text@, created_at),
{
    DecryptedMessage {
        created_at,
        creator: local.to_owned(),
        message: text.to_owned(),
        conversation_id,
        recipients: clone_texts(recipients),
        version: 0,
        creator_handle: handle.to_owned(),
    }
}

/// The identifiers of the addressees, in order.
pub fn addressee_dids(addressees: &Vec<Addressee>) -> (dids: Vec<String>)
    ensures
        texts(dids@) == dids_of(addressees@),
{
    let mut dids: Vec<String> = Vec::new();
    let mut i: usize = 0;
    while i < addressees.len()
        invariant
            i <= addressees@.len(),
            dids@.len() == i,
            forall|j: int| 0 <= j < i ==> dids@[j]@ == addressees@[j].did@,
        decreases addressees@.len() - i,
    {
        dids.push(addressees[i].did.clone());
        i += 1;
    }
    assert(texts(dids@) =~= dids_of(addressees@));
    dids
}

/// The public keys that the profiles of the addressees advertise, in
/// order. Fails at the first profile that yields none: with
/// `MissingRecipient` and the addressee's identifier where it advertises
/// no key, with `ParseRecipientError` where what it advertises is no key.
pub fn recipient_keys(addressees: &Vec<Addressee>) -> (r: Result<Vec<Recipient>, BmailError>)
    ensures
        match (r, key_refusal(addressees@)) {
            (Ok(keys), None) => keys_of(keys@) == advertised_keys(addressees@),
            (Err(e), Some(why)) => tells(e, why, addressees@),
            _ => false,
        },
{
    let mut keys: Vec<Recipient> = Vec::new();
    let mut i: usize = 0;
    while i < addressees.len()
        invariant
            i <= addressees@.len(),
            keys@.len() == i,
            first_key_problem(addressees@, 0) == first_key_problem(addressees@, i as int),
            forall|j: int|
                0 <= j < i ==> (#[trigger] keys@[j]).key() == advertised_keys(addressees@)[j],
        decreases addressees@.len() - i,
    {
        match get_recipient_for_bskyer(&addressees[i].profile) {
            Ok(Some(key)) => {
                keys.push(key);
            },
            Ok(None) => {
                return Err(BmailError::MissingRecipient(addressees[i].did.clone()));
            },
            Err(e) => {
                return Err(e);
            },
        }
        i += 1;
    }
    assert(keys_of(keys@) =~= advertised_keys(addressees@));
    Ok(keys)
}

impl App {
    /// The accounts whose profiles a send into the conversation
    /// `conversation_id` needs, where the user addresses it to `dids`: the
    /// participants of the conversation.
    ///
    /// Fails with `InternalServerError` where the local account is unknown,
    /// with `ConversationNotFound` where the conversation is, and with
    /// `ParticipantMismatch` where `dids`, together with the local account,
    /// are not exactly its participants.
    pub fn send_recipients(
        &self,
        conversation_id: ConversationId,
        dids: &Vec<String>,
    ) -> (r: Result<
        Vec<String>,
        BmailError,
    >)
        requires
            self.wf(),
        ensures
            match r {
                Ok(recipients) => {
                    &&& self.user_did.is_some()
                    &&& is_canonical_for(texts(recipients@), texts(dids@), self.user_did.unwrap()@)
                    &&& participants_of(self.conversations@, conversation_id) == Some(
                        texts(recipients@),
                    )
                },
                Err(e) => if self.user_did.is_none() {
                    e == BmailError::InternalServerError
                } else {
                    match participants_of(self.conversations@, conversation_id) {
                        None => e == BmailError::ConversationNotFound,
                        Some(stored) => e == BmailError::ParticipantMismatch && !is_canonical_for(
                            stored,
                            texts(dids@),
                            self.user_did.unwrap()@,
                        ),
                    }
                },
            },
    {
        let local = match &self.user_did {
            Some(local) => local,
            None => {
                return Err(BmailError::InternalServerError);
            },
        };
        let at = match self.find_participants(conversation_id) {
            Some(at) => at,
            None => {
                return Err(BmailError::ConversationNotFound);
            },
        };
        let recipients = canonical_participants(dids, local.as_str());
        if same_texts(&recipients, &self.conversations[at].participants) {
            Ok(recipients)
        } else {
            proof {
                let stored = texts(self.conversations@[at as int].participants@);
                if is_canonical_for(stored, texts(dids@), local@) {
                    assert forall|x: Seq<char>| stored.contains(x) <==> texts(
                        recipients@,
                    ).contains(x) by {}
                    lemma_canonical_unique(stored, texts(recipients@));
                }
            }
            Err(BmailError::ParticipantMismatch)
        }
    }

    /// Where the conversation named `id` is kept, if it is known.
    fn find_participants(&self, id: ConversationId) -> (r: Option<usize>)
        requires
            self.wf(),
        ensures
            match r {
                Some(i) => i < self.conversations@.len() && participants_of(
                    self.conversations@,
                    id,
                ) == Some(texts(self.conversations@[i as int].participants@)),
                None => participants_of(self.conversations@, id).is_none(),
            },
    {
        let r = self.find_conversation(id);
        proof {
            if let Some(i) = r {
                let j = choose|j: int|
                    0 <= j < self.conversations@.len() && (
                    #[trigger] self.conversations@[j]).conversation_id == id;
                if j < i {
                    assert(self.conversations@[j].conversation_id
                        != self.conversations@[i as int].conversation_id);
                } else if i < j {
                    assert(self.conversations@[i as int].conversation_id
                        != self.conversations@[j].conversation_id);
                }
            }
        }
        r
    }

    /// The message that the local user sends at `created_at`. Fails with
    /// `InternalServerError` where the local account is unknown.
    pub fn compose_bmail(
        &self,
        conversation_id: ConversationId,
        recipients: &Vec<String>,
        text: &str,
        created_at: Timestamp,
    ) -> (r: Result<DecryptedMessage, BmailError>)
        ensures
            match r {
                Ok(message) => self.user_did.is_some() && message@ == composed(
                    self.user_did.unwrap()@,
                    self.conf.user.handle@,
                    conversation_id,
                    texts(recipients@),
                    text@,
                    created_at,
                ),
                Err(e) => self.user_did.is_none() && e == BmailError::InternalServerError,
            },
    {
        match &self.user_did {
            Some(local) => Ok(
                compose(
                    local.as_str(),
                    self.conf.user.handle.as_str(),
                    conversation_id,
                    recipients,
                    text,
                    created_at,
                ),
            ),
            None => Err(BmailError::InternalServerError),
        }
    }

    /// Prepares a message for publication: composes it as of now and seals
    /// it to the keys that the profiles of the addressees advertise.
    ///
    /// The send is refused for the first reason that `refusal` names.
    /// Where it is not refused, the message is sealed, unless the encryptor
    /// fails, which gives `EncryptError`. The cipher text of the record is
    /// the text sealed to the keys that the profiles advertise: each of the
    /// addressees opens it to the text.
    pub fn send_bmail(
        &self,
        conversation_id: ConversationId,
        addressees: &Vec<Addressee>,
        text: &str,
    ) -> (r: Result<Outgoing, BmailError>)
        requires
            self.wf(),
        ensures
            match (r, refusal(*self, conversation_id, addressees@, text@)) {
                (Ok(out), None) => {
                    &&& out.message@ == composed(
                        self.user_did.unwrap()@,
                        self.conf.user.handle@,
                        conversation_id,
                        dids_of(addressees@),
                        text@,
                        out.message.created_at,
                    )
                    &&& out.message.published(out.record.bmail_cipher_text@, out.record)
                    &&& is_sealing(
                        out.record.bmail_cipher_text@,
                        advertised_keys(addressees@),
                        encode_utf8(text@),
                    )
                },
                (Err(e), None) => e == BmailError::EncryptError,
                (Err(e), Some(why)) => tells(e, why, addressees@),
                (Ok(_), Some(_)) => false,
            },
    {
        let local = match &self.user_did {
            Some(local) => local,
            None => {
                return Err(BmailError::InternalServerError);
            },
        };
        let at = match self.find_participants(conversation_id) {
            Some(at) => at,
            None => {
                return Err(BmailError::ConversationNotFound);
            },
        };
        let recipients = addressee_dids(addressees);
        if !same_texts(&recipients, &self.conversations[at].participants) {
            return Err(BmailError::ParticipantMismatch);
        }
        let keys = match recipient_keys(addressees) {
            Ok(keys) => keys,
            Err(e) => {
                return Err(e);
            },
        };
        let message = compose(
            local.as_str(),
            self.conf.user.handle.as_str(),
            conversation_id,
            &recipients,
            text,
            Timestamp::now(),
        );
        match message.into_bmail_record(&keys) {
            Ok(record) => Ok(Outgoing { message, record }),
            Err(e) => Err(e),
        }
    }

    /// The likes that tell the addressees of a new message, one for each
    /// but the local account, in order. An addressee whose profile names no
    /// sentinel post gets the failure in place of a like; the others are
    /// not affected.
    pub fn notify_recipients_at(
        &self,
        conversation_id: ConversationId,
        addressees: &Vec<Addressee>,
        created_at: Timestamp,
    ) -> (r: Vec<Option<Result<BmailLike, BmailError>>>)
        ensures
            are_notifications(
                opt_text(self.user_did),
                conversation_id,
                addressees@,
                created_at,
                r@,
            ),
    {
        let recipients = addressee_dids(addressees);
        let mut likes: Vec<Option<Result<BmailLike, BmailError>>> = Vec::new();
        let mut i: usize = 0;
        while i < addressees.len()
            invariant
                i <= addressees@.len(),
                likes@.len() == i,
                texts(recipients@) == dids_of(addressees@),
                forall|j: int|
                    0 <= j < i ==> match #[trigger] likes@[j] {
                        None => opt_text(self.user_did) == Some(addressees@[j].did@),
                        Some(like) => opt_text(self.user_did) != Some(addressees@[j].did@)
                            && is_notification(
                            addressees@[j].profile,
                            conversation_id,
                            dids_of(addressees@),
                            created_at,
                            like,
                        ),
                    },
            decreases addressees@.len() - i,
        {
            let own = match &self.user_did {
                Some(local) => text_same(local.as_str(), addressees[i].did.as_str()),
                None => false,
            };
            if own {
                likes.push(None);
            } else {
                likes.push(
                    Some(
                        addressees[i].profile.notification(
                            conversation_id,
                            &recipients,
                            created_at,
                        ),
                    ),
                );
            }
            i += 1;
        }
        likes
    }

    /// The likes that tell the addressees of a new message as of now.
    pub fn notify_recipients(
        &self,
        conversation_id: ConversationId,
        addressees: &Vec<Addressee>,
    ) -> (r:
        Vec<Option<Result<BmailLike, BmailError>>>)
        ensures
            exists|created_at: Timestamp| #[trigger]
                are_notifications(
                    opt_text(self.user_did),
                    conversation_id,
                    addressees@,
                    created_at,
                    r@,
                ),
    {
        let now = Timestamp::now();
        self.notify_recipients_at(conversation_id, addressees, now)
    }
}

/// Where every addressee before `at` advertises a key that reads, the first
/// profile from `from` on that yields none is the one at `at`, if that one
/// yields none.
proof fn lemma_first_key_problem(addressees: Seq<Addressee>, from: int, at: int)
    requires
        0 <= from <= at < addressees.len(),
        forall|i: int| from <= i < at ==> key_problem(addressees[i].profile).is_none(),
        key_problem(addressees[at].profile).is_some(),
    ensures
        first_key_problem(addressees, from) == Some(at),
    decreases at - from,
{
    if from < at {
        lemma_first_key_problem(addressees, from + 1, at);
    }
}

/// A send to the participants of a known conversation is refused for the
/// first addressee without a key: where the profile at `at` advertises no
/// key and every profile before it advertises one that reads, the send
/// fails with `MissingRecipient` and the account of that addressee, and
/// nothing is sealed.
pub proof fn lemma_first_missing_key_refuses(
    app: App,
    conversation_id: ConversationId,
    addressees: Seq<Addressee>,
    text: Seq<char>,
    at: int,
    e: BmailError,
)
    requires
        app.user_did.is_some(),
        participants_of(app.conversations@, conversation_id) == Some(dids_of(addressees)),
        0 <= at < addressees.len(),
        addressees[at].profile.bmail_pub_key.is_none(),
        forall|i: int| 0 <= i < at ==> key_problem(addressees[i].profile).is_none(),
    ensures
        refusal(app, conversation_id, addressees, text) == Some(Refusal::MissingKey(at)),
        tells(e, Refusal::MissingKey(at), addressees) <==> (e matches BmailError::MissingRecipient(
            did,
        ) && did@ == addressees[at].did@),
{
    lemma_first_key_problem(addressees, 0, at);
}

/// What `ingest` does with what the filter handed on.
pub open spec fn ingested(
    pre: App,
    post: App,
    event: FirehoseMessages,
    r: Result<(), BmailError>,
) -> bool {
    match event {
        FirehoseMessages::BmailLike(_) => r.is_ok() && post == pre,
        FirehoseMessages::Bmail(record) => match pre.user_did {
            None => r == Err::<(), BmailError>(BmailError::InternalServerError) && post == pre,
            Some(local) => if !texts(record.bmail_recipients@).contains(local@) {
                r == Err::<(), BmailError>(BmailError::MalformedBmail) && post == pre
            } else {
                match record.decrypted(pre.identity.secret()) {
                    Err(e) => r == Err::<(), BmailError>(e) && post == pre,
                    Ok(message) => if !counter_free_in(
                        pre.conversations@,
                        message.conversation_id,
                        message,
                    ) {
                        r == Err::<(), BmailError>(BmailError::InternalServerError) && post == pre
                    } else {
                        &&& r.is_ok()
                        &&& post.same_settings(&pre)
                        &&& post.recipients_conversation_map == pre.recipients_conversation_map
                        &&& post.current_conversation_id == pre.current_conversation_id
                        &&& taken_in(
                            pre.conversations@,
                            post.conversations@,
                            message.conversation_id,
                            message,
                            Some(local@),
                        )
                        &&& selects_last(post, message.conversation_id)
                    },
                }
            },
        },
    }
}

impl App {
    /// Takes in what the filter handed on. A message is opened with the
    /// local identity and stored in the conversation it names; where that
    /// conversation is not known yet, it is created among the recipients of
    /// the message. A notification changes nothing.
    ///
    /// Fails, with nothing changed: with `InternalServerError` where the
    /// local account is unknown, with `MalformedBmail` where it is not among
    /// the recipients of the message, as `into_decrypted_message` does, and
    /// with `InternalServerError` where every counter at the timestamp of
    /// the message is taken.
    pub fn ingest(&mut self, event: FirehoseMessages) -> (r: Result<(), BmailError>)
        requires
            old(self).wf(),
        ensures
            final(self).wf(),
            ingested(*old(self), *final(self), event, r),
    {
        match event {
            FirehoseMessages::BmailLike(_) => Ok(()),
            FirehoseMessages::Bmail(record) => {
                let local = match &self.user_did {
                    Some(local) => local,
                    None => {
                        return Err(BmailError::InternalServerError);
                    },
                };
                if !contains_text(&record.bmail_recipients, local.as_str()) {
                    return Err(BmailError::MalformedBmail);
                }
                let message = match record.into_decrypted_message(&self.identity) {
                    Ok(message) => message,
                    Err(e) => {
                        return Err(e);
                    },
                };
                if !self.has_counter_for(message.conversation_id, &message) {
                    return Err(BmailError::InternalServerError);
                }
                self.add_bmail_to_conversation(message.conversation_id, &message)
            },
        }
    }
}

} // verus!
