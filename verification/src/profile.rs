//! What the engine keeps in profile records: the advertised public key, the
//! sentinel post that takes notifications, and the directory of
//! conversations.

use crate::directory::{
    lemma_listing_of_wire_distinct, lemma_listing_put, listing_map, listing_of_wire, listing_put,
    wire_of, Listing, RcMap,
};
use crate::errors::BmailError;
use crate::ids::ConversationId;
use crate::key::{decode, decoded, encode, encoded, recipient_text, Recipient};
use crate::message::Timestamp;
use crate::text::{clone_texts, texts};
use vstd::prelude::*;

verus! {

/// A profile record with the fields that the engine adds to it.
#[derive(Debug, PartialEq)]
pub struct BmailEnabledProfile {
    pub rust_type: Option<String>,
    pub description: Option<String>,
    pub display_name: Option<String>,
    /// The public key to which messages for this account are sealed.
    pub bmail_pub_key: Option<String>,
    /// Where the sentinel post of this account is found.
    pub bmail_notification_uri: Option<String>,
    /// The content identifier of the sentinel post.
    pub bmail_notification_cid: Option<String>,
    /// The directory of conversations, as text.
    pub bmail_rc_map: Option<String>,
}

/// A reference to a record by location and content.
#[derive(Debug, PartialEq)]
pub struct StrongRef {
    pub cid: String,
    pub uri: String,
}

/// A like of a sentinel post, which tells its owner of a new message.
#[derive(Debug, PartialEq)]
pub struct BmailLike {
    pub created_at: Timestamp,
    pub subject: StrongRef,
    pub bmail_recipients: Vec<String>,
    pub bmail_conversation_id: ConversationId,
    pub bmail_type: String,
}

/// A feed post.
#[derive(Debug, PartialEq)]
pub struct Post {
    pub rust_type: Option<String>,
    pub text: String,
    pub created_at: Timestamp,
}

/// The text of an optional string.
pub open spec fn opt_text(s: Option<String>) -> Option<Seq<char>> {
    match s {
        Some(t) => Some(t@),
        None => None,
    }
}

/// The mark of a notification.
pub open spec fn notification_mark() -> Seq<char> {
    "notification"@
}

/// The text of the sentinel post.
pub open spec fn sentinel_text() -> Seq<char> {
    "You've got Bmail"@
}

/// The collection of feed posts.
pub open spec fn post_collection() -> Seq<char> {
    "feed.post"@
}

/// The lines that the text of a directory stands for.
pub open spec fn directory_of_text(text: Seq<char>) -> Result<Listing, BmailError> {
    match decoded(text) {
        Err(e) => Err(e),
        Ok(w) => match listing_of_wire(w) {
            None => Err(BmailError::MalformedBmail),
            Some(l) => Ok(l),
        },
    }
}

/// The lines of the directory that a profile holds: none where it holds no
/// directory.
pub open spec fn directory_of_profile(rc_map: Option<Seq<char>>) -> Result<Listing, BmailError> {
    match rc_map {
        None => Ok(Seq::empty()),
        Some(text) => directory_of_text(text),
    }
}

/// The text of the directory of a profile after `key` was bound to `id`.
pub open spec fn directory_text_after(
    rc_map: Option<Seq<char>>,
    key: Seq<Seq<char>>,
    id: ConversationId,
) -> Result<
    Seq<char>,
    BmailError,
> {
    match directory_of_profile(rc_map) {
        Err(e) => Err(e),
        Ok(l) => encoded(wire_of(listing_put(l, key, id))),
    }
}

/// Reading the directory written as `text` yields the lines of the
/// directory `rc_map` with `key` bound to `id`.
pub open spec fn reads_back(
    text: Seq<char>,
    rc_map: Option<Seq<char>>,
    key: Seq<Seq<char>>,
    id: ConversationId,
) -> bool {
    directory_of_profile(rc_map).is_ok() && directory_of_text(text) == Ok::<Listing, BmailError>(
        listing_put(directory_of_profile(rc_map).unwrap(), key, id),
    )
}

fn clone_opt(s: &Option<String>) -> (r: Option<String>)
    ensures
        opt_text(r) == opt_text(*s),
{
    match s {
        Some(t) => Some(t.clone()),
        None => None,
    }
}

impl BmailEnabledProfile {
    /// Two profiles agree in everything but the fields named by the flags.
    pub open spec fn same_but(
        self,
        other: BmailEnabledProfile,
        pub_key: bool,
        notification: bool,
        rc_map: bool,
    ) -> bool {
        &&& opt_text(self.rust_type) == opt_text(other.rust_type)
        &&& opt_text(self.description) == opt_text(other.description)
        &&& opt_text(self.display_name) == opt_text(other.display_name)
        &&& pub_key || opt_text(self.bmail_pub_key) == opt_text(other.bmail_pub_key)
        &&& notification || (opt_text(self.bmail_notification_uri) == opt_text(
            other.bmail_notification_uri,
        ) && opt_text(self.bmail_notification_cid) == opt_text(other.bmail_notification_cid))
        &&& rc_map || opt_text(self.bmail_rc_map) == opt_text(other.bmail_rc_map)
    }

    /// Whether the profile advertises no public key yet.
    pub fn needs_pub_key(&self) -> (b: bool)
        ensures
            b == self.bmail_pub_key.is_none(),
    {
        self.bmail_pub_key.is_none()
    }

    /// Whether the profile names no sentinel post yet.
    pub fn needs_notification_post(&self) -> (b: bool)
        ensures
            b == self.bmail_notification_uri.is_none(),
    {
        self.bmail_notification_uri.is_none()
    }

    /// The profile with `key` as its advertised public key.
    pub fn with_pub_key(self, key: &Recipient) -> (p: BmailEnabledProfile)
        ensures
            opt_text(p.bmail_pub_key) == Some(key.key()),
            p.same_but(self, true, false, false),
    {
        BmailEnabledProfile {
            rust_type: self.rust_type,
            description: self.description,
            display_name: self.display_name,
            bmail_pub_key: Some(key.to_text()),
            bmail_notification_uri: self.bmail_notification_uri,
            bmail_notification_cid: self.bmail_notification_cid,
            bmail_rc_map: self.bmail_rc_map,
        }
    }

    /// The profile with the given post as its sentinel.
    pub fn with_notification_post(self, uri: String, cid: String) -> (p: BmailEnabledProfile)
        ensures
            opt_text(p.bmail_notification_uri) == Some(uri@),
            opt_text(p.bmail_notification_cid) == Some(cid@),
            p.same_but(self, false, true, false),
    {
        BmailEnabledProfile {
            rust_type: self.rust_type,
            description: self.description,
            display_name: self.display_name,
            bmail_pub_key: self.bmail_pub_key,
            bmail_notification_uri: Some(uri),
            bmail_notification_cid: Some(cid),
            bmail_rc_map: self.bmail_rc_map,
        }
    }

    /// The profile without a directory.
    pub fn without_rc_map(self) -> (p: BmailEnabledProfile)
        ensures
            p.bmail_rc_map.is_none(),
            p.same_but(self, false, false, true),
    {
        BmailEnabledProfile {
            rust_type: self.rust_type,
            description: self.description,
            display_name: self.display_name,
            bmail_pub_key: self.bmail_pub_key,
            bmail_notification_uri: self.bmail_notification_uri,
            bmail_notification_cid: self.bmail_notification_cid,
            bmail_rc_map: None,
        }
    }

    /// The directory that the profile holds, if it holds one. Fails where
    /// the text does not decode or an identifier in it is no UUID.
    pub fn rc_map(&self) -> (r: Result<Option<RcMap>, BmailError>)
        ensures
            match r {
                Ok(Some(map)) => self.bmail_rc_map.is_some() && directory_of_text(
                    self.bmail_rc_map.unwrap()@,
                ) == Ok::<Listing, BmailError>(map.listing()),
                Ok(None) => self.bmail_rc_map.is_none(),
                Err(e) => self.bmail_rc_map.is_some() && directory_of_text(
                    self.bmail_rc_map.unwrap()@,
                ) == Err::<Listing, BmailError>(e),
            },
    {
        match &self.bmail_rc_map {
            None => Ok(None),
            Some(text) => {
                let entries = match decode(text.as_str()) {
                    Ok(entries) => entries,
                    Err(e) => {
                        return Err(e);
                    },
                };
                match RcMap::from_wire(&entries) {
                    Ok(map) => Ok(Some(map)),
                    Err(e) => Err(e),
                }
            },
        }
    }

    /// The profile with `key` bound to `id` in its directory, the other
    /// lines kept: reading the directory of the new profile yields the
    /// lines of the old with the key bound. Fails where the directory it
    /// holds cannot be read, or the new one cannot be written.
    pub fn with_rc_entry(self, key: Vec<String>, id: ConversationId) -> (r: Result<
        BmailEnabledProfile,
        BmailError,
    >)
        ensures
            match (r, directory_text_after(opt_text(self.bmail_rc_map), texts(key@), id)) {
                (Ok(p), Ok(text)) => opt_text(p.bmail_rc_map) == Some(text) && p.same_but(
                    self,
                    false,
                    false,
                    true,
                ) && reads_back(text, opt_text(self.bmail_rc_map), texts(key@), id),
                (Err(e), Err(expected)) => e == expected,
                _ => false,
            },
    {
        let mut map = match self.rc_map() {
            Ok(Some(map)) => map,
            Ok(None) => RcMap::new(),
            Err(e) => {
                return Err(e);
            },
        };
        map.insert(key, id);
        let text = match encode(&map.to_wire()) {
            Ok(text) => text,
            Err(e) => {
                return Err(e);
            },
        };
        Ok(
            BmailEnabledProfile {
                rust_type: self.rust_type,
                description: self.description,
                display_name: self.display_name,
                bmail_pub_key: self.bmail_pub_key,
                bmail_notification_uri: self.bmail_notification_uri,
                bmail_notification_cid: self.bmail_notification_cid,
                bmail_rc_map: Some(text),
            },
        )
    }

    /// The like that tells the owner of this profile of a new message in
    /// the conversation `conversation_id`. Fails with `MalformedBmail` where
    /// the profile names no sentinel post.
    pub fn notification(
        &self,
        conversation_id: ConversationId,
        recipients: &Vec<String>,
        created_at: Timestamp,
    ) -> (r: Result<BmailLike, BmailError>)
        ensures
            match r {
                Ok(like) => {
                    &&& opt_text(self.bmail_notification_cid) == Some(like.subject.cid@)
                    &&& opt_text(self.bmail_notification_uri) == Some(like.subject.uri@)
                    &&& like.created_at == created_at
                    &&& texts(like.bmail_recipients@) == texts(recipients@)
                    &&& like.bmail_conversation_id == conversation_id
                    &&& like.bmail_type@ == notification_mark()
                },
                Err(e) => (self.bmail_notification_cid.is_none()
                    || self.bmail_notification_uri.is_none()) && e == BmailError::MalformedBmail,
            },
    {
        let cid = match &self.bmail_notification_cid {
            Some(cid) => cid.clone(),
            None => {
                return Err(BmailError::MalformedBmail);
            },
        };
        let uri = match &self.bmail_notification_uri {
            Some(uri) => uri.clone(),
            None => {
                return Err(BmailError::MalformedBmail);
            },
        };
        Ok(
            BmailLike {
                subject: StrongRef { cid, uri },
                created_at,
                bmail_recipients: clone_texts(recipients),
                bmail_conversation_id: conversation_id,
                bmail_type: "notification".to_owned(),
            },
        )
    }
}

impl Clone for BmailEnabledProfile {
    fn clone(&self) -> (p: Self)
        ensures
            p.same_but(*self, false, false, false),
    {
        BmailEnabledProfile {
            rust_type: clone_opt(&self.rust_type),
            description: clone_opt(&self.description),
            display_name: clone_opt(&self.display_name),
            bmail_pub_key: clone_opt(&self.bmail_pub_key),
            bmail_notification_uri: clone_opt(&self.bmail_notification_uri),
            bmail_notification_cid: clone_opt(&self.bmail_notification_cid),
            bmail_rc_map: clone_opt(&self.bmail_rc_map),
        }
    }
}

/// The sentinel post: a post from the epoch whose only purpose is to be
/// liked.
pub fn sentinel_post() -> (post: Post)
    ensures
        opt_text(post.rust_type) == Some(post_collection()),
        post.text@ == sentinel_text(),
        post.created_at == (Timestamp { secs: 0, nanos: 0 }),
{
    Post {
        rust_type: Some("feed.post".to_owned()),
        text: "You've got Bmail".to_owned(),
        created_at: Timestamp::epoch(),
    }
}

/// The public key that a profile advertises, if it advertises one. Fails
/// with `ParseRecipientError` where the text is no public key.
pub fn get_recipient_for_bskyer(profile: &BmailEnabledProfile) -> (r: Result<
    Option<Recipient>,
    BmailError,
>)
    ensures
        match r {
            Ok(Some(recipient)) => profile.bmail_pub_key.is_some() && recipient_text(
                profile.bmail_pub_key.unwrap()@,
            ) == Some(recipient.key()),
            Ok(None) => profile.bmail_pub_key.is_none(),
            Err(e) => profile.bmail_pub_key.is_some() && recipient_text(
                profile.bmail_pub_key.unwrap()@,
            ).is_none() && e == BmailError::ParseRecipientError,
        },
{
    match &profile.bmail_pub_key {
        Some(key) => match Recipient::parse(key.as_str()) {
            Ok(recipient) => Ok(Some(recipient)),
            Err(e) => Err(e),
        },
        None => Ok(None),
    }
}

/// The directory that a profile is given by `with_rc_entry` binds the key
/// to the identifier: where `text` reads back as the directory `rc_map`
/// with `key` bound to `id`, the directory read from `text` holds `key`
/// with `id`, and every other key as the old directory held it.
pub proof fn lemma_stored_directory_binds(
    text: Seq<char>,
    rc_map: Option<Seq<char>>,
    key: Seq<Seq<char>>,
    id: ConversationId,
)
    requires
        reads_back(text, rc_map, key, id),
    ensures
        directory_of_text(text).is_ok(),
        listing_map(directory_of_text(text).unwrap()).contains_key(key),
        listing_map(directory_of_text(text).unwrap())[key] == id,
        listing_map(directory_of_text(text).unwrap()) == listing_map(
            directory_of_profile(rc_map).unwrap(),
        ).insert(key, id),
{
    let l = directory_of_profile(rc_map).unwrap();
    match rc_map {
        None => {},
        Some(old) => {
            lemma_listing_of_wire_distinct(decoded(old).unwrap());
        },
    }
    lemma_listing_put(l, key, id);
}

} // verus!
