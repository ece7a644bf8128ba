//! Loading a conversation: finding the identifier that goes with a set of
//! participants, and bringing the conversation up to date.
//!
//! The identifier is looked for in the directory in memory, then in the
//! directory of the local profile, then in the directories of the peers in
//! key order; where none holds it, a fresh one is drawn. An identifier that
//! was not in memory is bound there only once it is stored in the local
//! profile, so that what memory binds the profile binds too. The engine
//! decides;
//! fetching and storing is left to the caller, who is told what to do next
//! by the value of `Load` and answers with a `LoadEvent`.

use crate::conversation::{after_listing, after_listings, BackfillState, ParticipantRecords};
use crate::directory::{listing_map, Listing, RcMap};
use crate::engine::{knows, lemma_all_include_kept, lemma_wf_kept, with_conversation, App};
use crate::errors::BmailError;
use crate::ids::{is_version_4, ConversationId};
use crate::participants::{
    canonical_participants, is_canonical_for, lemma_canonical_ignores_order, same_members,
};
use crate::key::{recipient_text, Recipient};
use crate::message::{BmailMessageRecord, MessageKey, MessageView};
use crate::profile::{
    directory_of_profile, directory_of_text, directory_text_after, get_recipient_for_bskyer,
    opt_text, reads_back, BmailEnabledProfile,
};
use crate::text::{clone_texts, strictly_sorted, text_same, texts};
use vstd::prelude::*;

verus! {

/// How far a load has come, and with it what the caller is to do next.
#[derive(Debug, PartialEq)]
pub enum Load {
    /// Fetch the profile of the local account.
    FetchOwnProfile { key: Vec<String> },
    /// Fetch the profile of the participant `key[next]`.
    FetchPeerProfile { key: Vec<String>, next: usize },
    /// Bind `key` to `id` in the directory of the local profile.
    StoreEntry { key: Vec<String>, id: ConversationId },
    /// List what every participant of `key` has published.
    ListRecords { key: Vec<String>, id: ConversationId },
    /// The conversation `id` among `key` is loaded.
    Done { key: Vec<String>, id: ConversationId },
    /// The load has failed.
    Failed { error: BmailError },
}

/// What the caller has done or found.
pub enum LoadEvent {
    /// The profile of the local account, or why it could not be had.
    OwnProfile(Result<BmailEnabledProfile, BmailError>),
    /// The profile of the peer asked for; `None` where it could not be had.
    PeerProfile(Option<BmailEnabledProfile>),
    /// Whether the entry was stored in the local profile.
    Stored(Result<(), BmailError>),
    /// What the participants have published; a participant whose records
    /// could not be had is left out.
    Listed(Vec<ParticipantRecords>),
}

/// The first position from `from` on at which `key` holds a participant
/// other than `local`.
pub open spec fn next_peer(key: Seq<Seq<char>>, local: Seq<char>, from: int) -> Option<int>
    decreases key.len() - from,
{
    if from < 0 || from >= key.len() {
        None
    } else if key[from] != local {
        Some(from)
    } else {
        next_peer(key, local, from + 1)
    }
}

/// The identifier that the directory of a profile binds to `key`.
pub open spec fn found_in_profile(profile: BmailEnabledProfile, key: Seq<Seq<char>>) -> Result<
    Option<ConversationId>,
    BmailError,
> {
    match directory_of_profile(opt_text(profile.bmail_rc_map)) {
        Err(e) => Err(e),
        Ok(l) => Ok(
            if listing_map(l).contains_key(key) {
                Some(listing_map(l)[key])
            } else {
                None
            },
        ),
    }
}

/// The identifier that a peer offers for `key`: the one its directory binds
/// to it, none where the profile could not be had or read.
pub open spec fn peer_offer(profile: Option<BmailEnabledProfile>, key: Seq<Seq<char>>) -> Option<
    ConversationId,
> {
    match profile {
        None => None,
        Some(p) => match found_in_profile(p, key) {
            Ok(Some(id)) => Some(id),
            _ => None,
        },
    }
}

/// `post` is `pre` after `id` was adopted for `key`: it is on display, the
/// directory binds `key` to it, and a conversation of that name is known.
pub open spec fn adopted(pre: App, post: App, key: Seq<Seq<char>>, id: ConversationId) -> bool {
    &&& post.same_settings(&pre)
    &&& post.current_conversation_id == Some(id)
    &&& post.conversation_state == pre.conversation_state
    &&& post.recipients_conversation_map@ == pre.recipients_conversation_map@.insert(key, id)
    &&& with_conversation(pre.conversations@, post.conversations@, id, key)
}

/// `post` is `pre` after the conversation `id` took in `listings`.
pub open spec fn backfilled(
    pre: App,
    post: App,
    id: ConversationId,
    listings: Seq<ParticipantRecords>,
) -> bool {
    &&& post.same_settings(&pre)
    &&& post.current_conversation_id == pre.current_conversation_id
    &&& post.recipients_conversation_map == pre.recipients_conversation_map
    &&& post.conversation_state.is_none()
    &&& post.conversations@.len() == pre.conversations@.len()
    &&& exists|i: int|
        {
            &&& 0 <= i < pre.conversations@.len()
            &&& (#[trigger] pre.conversations@[i]).conversation_id == id
            &&& post.conversations@[i].conversation_id == id
            &&& post.conversations@[i].participants == pre.conversations@[i].participants
            &&& post.conversations@[i].backfill_state() == after_listings(
                pre.conversations@[i].backfill_state(),
                pre.identity.secret(),
                id,
                pre.user_did.unwrap()@,
                listings,
            )
            &&& forall|j: int|
                0 <= j < pre.conversations@.len() && j != i ==> #[trigger] post.conversations@[j]
                    == pre.conversations@[j]
        }
}

/// The engine holds the conversation `id` among `key`: the key is in
/// canonical form and names the local account, the directory in memory
/// binds it to `id`, and a conversation of that name is known.
pub open spec fn bound(app: App, key: Seq<Seq<char>>, id: ConversationId) -> bool {
    &&& app.user_did.is_some()
    &&& strictly_sorted(key)
    &&& key.contains(app.user_did.unwrap()@)
    &&& app.recipients_conversation_map@.contains_key(key)
    &&& app.recipients_conversation_map@[key] == id
    &&& knows(app.conversations@, id)
}

impl Load {
    /// The state fits the engine: the key is in canonical form and holds
    /// the local account, and from the listing of records on, the key is
    /// bound in memory to the identifier.
    pub open spec fn wf_for(self, app: App) -> bool {
        match self {
            Load::FetchOwnProfile { key } => app.user_did.is_some() && strictly_sorted(texts(key@))
                && texts(key@).contains(app.user_did.unwrap()@),
            Load::FetchPeerProfile { key, next } => app.user_did.is_some() && strictly_sorted(
                texts(key@),
            ) && texts(key@).contains(app.user_did.unwrap()@) && next < key@.len(),
            Load::StoreEntry { key, id } => app.user_did.is_some() && strictly_sorted(texts(key@))
                && texts(key@).contains(app.user_did.unwrap()@),
            Load::ListRecords { key, id } => bound(app, texts(key@), id),
            Load::Done { key, id } => bound(app, texts(key@), id),
            Load::Failed { error } => true,
        }
    }

    /// Two states ask for the same thing.
    pub open spec fn same_as(self, other: Load) -> bool {
        match (self, other) {
            (Load::FetchOwnProfile { key: a }, Load::FetchOwnProfile { key: b }) => texts(a@)
                == texts(b@),
            (
                Load::FetchPeerProfile { key: a, next: m },
                Load::FetchPeerProfile { key: b, next: n },
            ) => texts(a@) == texts(b@) && m == n,
            (Load::StoreEntry { key: a, id: x }, Load::StoreEntry { key: b, id: y }) => texts(a@)
                == texts(b@) && x == y,
            (Load::ListRecords { key: a, id: x }, Load::ListRecords { key: b, id: y }) => texts(a@)
                == texts(b@) && x == y,
            (Load::Done { key: a, id: x }, Load::Done { key: b, id: y }) => texts(a@) == texts(b@)
                && x == y,
            (Load::Failed { error: x }, Load::Failed { error: y }) => x == y,
            _ => false,
        }
    }
}

/// What `load_conversation` does: with the canonical form of the peers and
/// the local account as key, the identifier that the directory in memory
/// binds to it is put on display and its records are asked for; where the
/// directory binds none, the local profile is asked for.
pub open spec fn load_started(pre: App, post: App, peers: Seq<Seq<char>>, next: Load) -> bool {
    match next {
        Load::ListRecords { key, id } => {
            &&& pre.user_did.is_some()
            &&& is_canonical_for(texts(key@), peers, pre.user_did.unwrap()@)
            &&& pre.recipients_conversation_map@.contains_key(texts(key@))
            &&& pre.recipients_conversation_map@[texts(key@)] == id
            &&& post.same_settings(&pre)
            &&& post.current_conversation_id == Some(id)
            &&& post.conversation_state == pre.conversation_state
            &&& post.recipients_conversation_map == pre.recipients_conversation_map
            &&& with_conversation(pre.conversations@, post.conversations@, id, texts(key@))
        },
        Load::FetchOwnProfile { key } => {
            &&& pre.user_did.is_some()
            &&& is_canonical_for(texts(key@), peers, pre.user_did.unwrap()@)
            &&& !pre.recipients_conversation_map@.contains_key(texts(key@))
            &&& post == pre
        },
        Load::Failed { error } => pre.user_did.is_none() && error == BmailError::InternalServerError
            && post == pre,
        _ => false,
    }
}

/// The step taken where no directory holds the key: the next peer is asked,
/// or, where there is none left, the fresh identifier is to be stored.
pub open spec fn asked_on(
    app: App,
    key: Vec<String>,
    from: int,
    fresh: ConversationId,
    next: Load,
) -> bool {
    match next_peer(texts(key@), app.user_did.unwrap()@, from) {
        Some(p) => next.same_as(Load::FetchPeerProfile { key, next: p as usize }),
        None => next.same_as(Load::StoreEntry { key, id: fresh }),
    }
}

/// What `continue_load_with` does with an event in a state. The engine
/// changes at two steps only: when the entry is stored, the identifier is
/// adopted; when the records are listed, they are taken in.
pub open spec fn load_continued(
    pre: App,
    post: App,
    load: Load,
    event: LoadEvent,
    fresh: ConversationId,
    next: Load,
) -> bool {
    match (load, event) {
        (Load::FetchOwnProfile { key }, LoadEvent::OwnProfile(Ok(profile))) => match found_in_profile(
            profile,
            texts(key@),
        ) {
            Err(e) => post == pre && next == (Load::Failed { error: e }),
            Ok(Some(id)) => post == pre && next.same_as(Load::StoreEntry { key, id }),
            Ok(None) => post == pre && asked_on(pre, key, 0, fresh, next),
        },
        (Load::FetchOwnProfile { key }, LoadEvent::OwnProfile(Err(e))) => post == pre && next == (
        Load::Failed { error: e }),
        (Load::FetchPeerProfile { key, next: at }, LoadEvent::PeerProfile(profile)) => match peer_offer(
            profile,
            texts(key@),
        ) {
            Some(id) => post == pre && next.same_as(Load::StoreEntry { key, id }),
            None => post == pre && asked_on(pre, key, at + 1, fresh, next),
        },
        (Load::StoreEntry { key, id }, LoadEvent::Stored(Ok(()))) => adopted(
            pre,
            post,
            texts(key@),
            id,
        ) && next.same_as(Load::ListRecords { key, id }),
        (Load::StoreEntry { key, id }, LoadEvent::Stored(Err(e))) => post == pre && next == (
        Load::Failed { error: e }),
        (Load::ListRecords { key, id }, LoadEvent::Listed(listings)) => backfilled(
            pre,
            post,
            id,
            listings@,
        ) && next.same_as(Load::Done { key, id }),
        _ => post == pre && next == (Load::Failed { error: BmailError::InternalServerError }),
    }
}

/// The first identifier that a peer offers for `key`, going through the
/// participants from `from` on: the local account is passed over, and so
/// is a peer whose profile could not be had or read, or holds no entry.
pub open spec fn first_offer(
    key: Seq<Seq<char>>,
    local: Option<Seq<char>>,
    profiles: Seq<Option<BmailEnabledProfile>>,
    from: int,
) -> Option<ConversationId>
    decreases key.len() - from,
{
    if from < 0 || from >= key.len() || from >= profiles.len() {
        None
    } else if local != Some(key[from]) && peer_offer(profiles[from], key).is_some() {
        peer_offer(profiles[from], key)
    } else {
        first_offer(key, local, profiles, from + 1)
    }
}

fn cid_in_profile(profile: &BmailEnabledProfile, key: &Vec<String>) -> (r: Result<
    Option<ConversationId>,
    BmailError,
>)
    ensures
        r == found_in_profile(*profile, texts(key@)),
{
    match profile.rc_map() {
        Ok(Some(map)) => {
            proof {
                map.lemma_view_spells_listing();
            }
            Ok(map.get(key))
        },
        Ok(None) => {
            assert(listing_map(Seq::empty()) =~= Map::<Seq<Seq<char>>, ConversationId>::empty());
            Ok(None)
        },
        Err(e) => Err(e),
    }
}

/// The first position from `from` on at which `key` holds a participant
/// other than `local`.
pub fn find_peer(key: &Vec<String>, local: &str, from: usize) -> (r: Option<usize>)
    ensures
        match (r, next_peer(texts(key@), local@, from as int)) {
            (Some(p), Some(q)) => p == q && p < key@.len(),
            (None, None) => true,
            _ => false,
        },
{
    let mut i: usize = from;
    while i < key.len()
        invariant
            from <= i,
            next_peer(texts(key@), local@, from as int) == next_peer(texts(key@), local@, i as int),
        decreases key@.len() - i,
    {
        if !text_same(key[i].as_str(), local) {
            return Some(i);
        }
        i += 1;
    }
    None
}

impl App {
    /// The directory that a profile holds, if it holds one. Fails where
    /// the text does not decode or an identifier in it is no UUID.
    pub fn get_rc_map_from_profile(&self, profile: &BmailEnabledProfile) -> (r: Result<
        Option<RcMap>,
        BmailError,
    >)
        ensures
            match r {
                Ok(Some(map)) => profile.bmail_rc_map.is_some() && directory_of_text(
                    profile.bmail_rc_map.unwrap()@,
                ) == Ok::<Listing, BmailError>(map.listing()),
                Ok(None) => profile.bmail_rc_map.is_none(),
                Err(e) => profile.bmail_rc_map.is_some() && directory_of_text(
                    profile.bmail_rc_map.unwrap()@,
                ) == Err::<Listing, BmailError>(e),
            },
    {
        profile.rc_map()
    }

    /// The identifier that the directory of a profile binds to
    /// `participants`. Fails where the directory cannot be read.
    pub fn get_cid_from_rc_map_from_profile(
        &self,
        profile: &BmailEnabledProfile,
        participants: &Vec<String>,
    ) -> (r: Result<Option<ConversationId>, BmailError>)
        ensures
            r == found_in_profile(*profile, texts(participants@)),
    {
        cid_in_profile(profile, participants)
    }

    /// The identifier that the first peer with an entry for `participants`
    /// offers. `profiles` holds, for each participant in turn, the profile
    /// that was fetched, or nothing where none could be had. The local
    /// account is passed over, and so is a profile that cannot be read.
    pub fn get_cid_from_rc_map_from_participants_profiles(
        &self,
        participants: &Vec<String>,
        profiles: &Vec<Option<BmailEnabledProfile>>,
    ) -> (r: Option<ConversationId>)
        ensures
            r == first_offer(texts(participants@), opt_text(self.user_did), profiles@, 0),
    {
        let mut i: usize = 0;
        while i < participants.len() && i < profiles.len()
            invariant
                first_offer(texts(participants@), opt_text(self.user_did), profiles@, 0)
                    == first_offer(
                    texts(participants@),
                    opt_text(self.user_did),
                    profiles@,
                    i as int,
                ),
            decreases participants@.len() - i,
        {
            let own = match &self.user_did {
                Some(local) => text_same(local.as_str(), participants[i].as_str()),
                None => false,
            };
            if !own {
                match &profiles[i] {
                    Some(p) => match cid_in_profile(p, participants) {
                        Ok(Some(id)) => {
                            return Some(id);
                        },
                        _ => {},
                    },
                    None => {},
                }
            }
            i += 1;
        }
        None
    }

    /// The profile with `key` bound to `value` in its directory, the other
    /// lines kept: reading the directory of the new profile yields the
    /// lines of the old with the key bound. Fails where the directory it
    /// holds cannot be read, or the new one cannot be written.
    pub fn upload_rc_map_to_profile(
        &self,
        profile: BmailEnabledProfile,
        key: Vec<String>,
        value: ConversationId,
    ) -> (r: Result<BmailEnabledProfile, BmailError>)
        ensures
            match (r, directory_text_after(opt_text(profile.bmail_rc_map), texts(key@), value)) {
                (Ok(p), Ok(text)) => opt_text(p.bmail_rc_map) == Some(text) && p.same_but(
                    profile,
                    false,
                    false,
                    true,
                ) && reads_back(text, opt_text(profile.bmail_rc_map), texts(key@), value),
                (Err(e), Err(expected)) => e == expected,
                _ => false,
            },
    {
        profile.with_rc_entry(key, value)
    }

    /// The profile without a directory.
    pub fn delete_rc_map_from_profile(&self, profile: BmailEnabledProfile) -> (p:
        BmailEnabledProfile)
        ensures
            p.bmail_rc_map.is_none(),
            p.same_but(profile, false, false, true),
    {
        profile.without_rc_map()
    }

    /// The public key that a profile advertises, if it advertises one.
    /// Fails with `ParseRecipientError` where the text is no public key.
    pub fn get_recipient_for_bskyer(&self, profile: &BmailEnabledProfile) -> (r: Result<
        Option<Recipient>,
        BmailError,
    >)
        ensures
            match r {
                Ok(Some(recipient)) => profile.bmail_pub_key.is_some() && recipient_text(
                    profile.bmail_pub_key.unwrap()@,
                ) == Some(recipient.key()),
                Ok(None) => profile.bmail_pub_key.is_none(),
                Err(e) => profile.bmail_pub_key.is_some() && recipient_text(
                    profile.bmail_pub_key.unwrap()@,
                ).is_none() && e == BmailError::ParseRecipientError,
            },
    {
        get_recipient_for_bskyer(profile)
    }

    /// Puts `id` on display as the conversation among `key`, binds `key` to
    /// it in the directory in memory, and makes sure a conversation of that
    /// name is known.
    fn adopt(&mut self, key: &Vec<String>, id: ConversationId)
        requires
            old(self).wf(),
            old(self).user_did.is_some(),
            strictly_sorted(texts(key@)),
            texts(key@).contains(old(self).user_did.unwrap()@),
        ensures
            final(self).wf(),
            adopted(*old(self), *final(self), texts(key@), id),
            knows(final(self).conversations@, id),
    {
        self.current_conversation_id = Some(id);
        self.recipients_conversation_map.insert(clone_texts(key), id);
        let at = self.ensure_conversation(id, key);
    }

    /// Asks the next peer from `from` on, or has `fresh` stored where none
    /// is left.
    fn ask_on(&self, key: Vec<String>, from: usize, fresh: ConversationId) -> (next: Load)
        requires
            self.user_did.is_some(),
            strictly_sorted(texts(key@)),
            texts(key@).contains(self.user_did.unwrap()@),
        ensures
            next.wf_for(*self),
            asked_on(*self, key, from as int, fresh, next),
    {
        let peer = match &self.user_did {
            Some(local) => find_peer(&key, local.as_str(), from),
            None => None,
        };
        match peer {
            Some(p) => Load::FetchPeerProfile { key, next: p },
            None => Load::StoreEntry { key, id: fresh },
        }
    }

    /// Starts to load the conversation among `peers` and the local account.
    /// Fails with `InternalServerError` where the local account is unknown.
    pub fn load_conversation(&mut self, peers: Vec<String>) -> (next: Load)
        requires
            old(self).wf(),
        ensures
            final(self).wf(),
            next.wf_for(*final(self)),
            load_started(*old(self), *final(self), texts(peers@), next),
    {
        let key = match &self.user_did {
            Some(local) => canonical_participants(&peers, local.as_str()),
            None => {
                return Load::Failed { error: BmailError::InternalServerError };
            },
        };
        proof {
            self.recipients_conversation_map.lemma_view_spells_listing();
        }
        match self.recipients_conversation_map.get(&key) {
            Some(id) => {
                self.current_conversation_id = Some(id);
                let at = self.ensure_conversation(id, &key);
                Load::ListRecords { key, id }
            },
            None => Load::FetchOwnProfile { key },
        }
    }

    /// Takes the next step of a load, with `fresh` as the identifier to
    /// adopt where no directory holds the key.
    pub fn continue_load_with(
        &mut self,
        load: Load,
        event: LoadEvent,
        fresh: ConversationId,
    ) -> (next:
        Load)
        requires
            old(self).wf(),
            load.wf_for(*old(self)),
        ensures
            final(self).wf(),
            next.wf_for(*final(self)),
            load_continued(*old(self), *final(self), load, event, fresh, next),
    {
        match (load, event) {
            (Load::FetchOwnProfile { key }, LoadEvent::OwnProfile(Ok(profile))) => {
                match cid_in_profile(&profile, &key) {
                    Err(e) => Load::Failed { error: e },
                    Ok(Some(id)) => Load::StoreEntry { key, id },
                    Ok(None) => self.ask_on(key, 0, fresh),
                }
            },
            (Load::FetchOwnProfile { key }, LoadEvent::OwnProfile(Err(e))) => Load::Failed {
                error: e,
            },
            (Load::FetchPeerProfile { key, next: at }, LoadEvent::PeerProfile(profile)) => {
                assert(key@.len() == key.len());
                let offer = match &profile {
                    Some(p) => match cid_in_profile(p, &key) {
                        Ok(Some(id)) => Some(id),
                        _ => None,
                    },
                    None => None,
                };
                match offer {
                    Some(id) => Load::StoreEntry { key, id },
                    None => self.ask_on(key, at + 1, fresh),
                }
            },
            (Load::StoreEntry { key, id }, LoadEvent::Stored(Ok(()))) => {
                self.adopt(&key, id);
                Load::ListRecords { key, id }
            },
            (Load::StoreEntry { key, id }, LoadEvent::Stored(Err(e))) => Load::Failed { error: e },
            (Load::ListRecords { key, id }, LoadEvent::Listed(listings)) => {
                let found = match &self.user_did {
                    Some(local) => match self.find_conversation(id) {
                        Some(i) => Some((i, local.clone())),
                        None => None,
                    },
                    None => None,
                };
                match found {
                    Some((i, local)) => {
                        let skipped = self.conversations[i].update_with_messages_from_participants(
                            local.as_str(),
                            &self.identity,
                            &listings,
                        );
                        self.conversation_state = None;
                        proof {
                            let pre = old(self).conversations@;
                            let post = self.conversations@;
                            lemma_wf_kept(pre, post, i as int);
                            if self.user_did.is_some() {
                                lemma_all_include_kept(pre, post, i as int, self.user_did.unwrap()@);
                            }
                        }
                        Load::Done { key, id }
                    },
                    None => Load::Failed { error: BmailError::InternalServerError },
                }
            },
            _ => Load::Failed { error: BmailError::InternalServerError },
        }
    }

    /// Takes the next step of a load. Where no directory holds the key, a
    /// fresh random identifier is adopted.
    pub fn continue_load(&mut self, load: Load, event: LoadEvent) -> (next: Load)
        requires
            old(self).wf(),
            load.wf_for(*old(self)),
        ensures
            final(self).wf(),
            next.wf_for(*final(self)),
            exists|fresh: ConversationId|
                is_version_4(fresh.0) && load_continued(
                    *old(self),
                    *final(self),
                    load,
                    event,
                    fresh,
                    next,
                ),
    {
        let fresh = ConversationId::new_v4();
        let next = self.continue_load_with(load, event, fresh);
        proof {
            assert(is_version_4(fresh.0) && load_continued(
                *old(self),
                *self,
                load,
                event,
                fresh,
                next,
            ));
        }
        next
    }
}

/// When a load is done, the directory in memory binds the key of the load
/// to the identifier that the load returns, the conversation of that name
/// is known, and the local account is among its key. The directory in
/// memory binds a key only on `Stored(Ok(()))`, that is, once the caller has
/// stored the same key and identifier in the local profile, which
/// `upload_rc_map_to_profile` binds there.
pub proof fn lemma_loaded_is_bound(app: App, key: Vec<String>, id: ConversationId)
    requires
        (Load::Done { key, id }).wf_for(app),
    ensures
        app.recipients_conversation_map@.contains_key(texts(key@)),
        app.recipients_conversation_map@[texts(key@)] == id,
        knows(app.conversations@, id),
        texts(key@).contains(app.user_did.unwrap()@),
        strictly_sorted(texts(key@)),
{
}

/// The directory in memory holds nothing that `stored`, the directory of
/// the local profile, does not hold.
pub open spec fn mirrored(app: App, stored: Map<Seq<Seq<char>>, ConversationId>) -> bool {
    forall|key: Seq<Seq<char>>| #[trigger]
        app.recipients_conversation_map@.contains_key(key) ==> stored.contains_key(key)
            && stored[key] == app.recipients_conversation_map@[key]
}

/// The directory of the local profile after a step of a load, where the
/// caller stores what it is asked to store and reports it, and nobody else
/// writes the profile.
pub open spec fn stored_after(
    stored: Map<Seq<Seq<char>>, ConversationId>,
    load: Load,
    event: LoadEvent,
) -> Map<Seq<Seq<char>>, ConversationId> {
    match (load, event) {
        (Load::StoreEntry { key, id }, LoadEvent::Stored(Ok(()))) => stored.insert(texts(key@), id),
        _ => stored,
    }
}

/// Starting a load binds nothing in memory.
pub proof fn lemma_start_keeps_mirrored(
    pre: App,
    post: App,
    peers: Seq<Seq<char>>,
    next: Load,
    stored: Map<Seq<Seq<char>>, ConversationId>,
)
    requires
        mirrored(pre, stored),
        load_started(pre, post, peers, next),
    ensures
        mirrored(post, stored),
{
}

/// A step of a load binds in memory only what the step has stored in the
/// local profile.
pub proof fn lemma_step_keeps_mirrored(
    pre: App,
    post: App,
    load: Load,
    event: LoadEvent,
    fresh: ConversationId,
    next: Load,
    stored: Map<Seq<Seq<char>>, ConversationId>,
)
    requires
        mirrored(pre, stored),
        load_continued(pre, post, load, event, fresh, next),
    ensures
        mirrored(post, stored_after(stored, load, event)),
{
    let after = stored_after(stored, load, event);
    assert forall|key: Seq<Seq<char>>| #[trigger]
        post.recipients_conversation_map@.contains_key(key) implies after.contains_key(key)
        && after[key] == post.recipients_conversation_map@[key] by {
        if pre.recipients_conversation_map@.contains_key(key) {
        }
    }
}

/// When a load is done, the local profile and the directory in memory bind
/// the key of the load to the identifier that the load returns, provided
/// that memory held nothing but what the profile held when the load began.
pub proof fn lemma_loaded_is_stored(
    app: App,
    key: Vec<String>,
    id: ConversationId,
    stored: Map<Seq<Seq<char>>, ConversationId>,
)
    requires
        (Load::Done { key, id }).wf_for(app),
        mirrored(app, stored),
    ensures
        stored.contains_key(texts(key@)),
        stored[texts(key@)] == id,
        app.recipients_conversation_map@[texts(key@)] == id,
{
}

/// `listings` hold no record.
pub open spec fn nothing_listed(listings: Seq<ParticipantRecords>) -> bool {
    forall|i: int| 0 <= i < listings.len() ==> (#[trigger] listings[i]).records@.len() == 0
}

/// Listings without records change nothing.
pub proof fn lemma_nothing_listed(
    s: BackfillState,
    secret: Seq<char>,
    id: ConversationId,
    local: Seq<char>,
    listings: Seq<ParticipantRecords>,
)
    requires
        nothing_listed(listings),
    ensures
        after_listings(s, secret, id, local, listings) == s,
    decreases listings.len(),
{
    if listings.len() > 0 {
        let last = listings[listings.len() - 1];
        lemma_nothing_listed(s, secret, id, local, listings.drop_last());
        assert(last.records@ =~= Seq::<BmailMessageRecord>::empty());
        let after = after_listing(s, secret, id, local, last);
        assert(after.messages == s.messages);
        assert(after.times =~= s.times);
    }
}

/// A fresh identifier that names no conversation yet is adopted with an
/// empty conversation among the key: once it is stored, and where nothing
/// has been published yet, the load is done with that identifier, the
/// conversations are the old ones followed by one of that name among the
/// key, and that one holds no message.
pub proof fn lemma_fresh_load_makes_an_empty_conversation(
    pre: App,
    mid: App,
    post: App,
    key: Vec<String>,
    fresh: ConversationId,
    listings: Vec<ParticipantRecords>,
    listing: Load,
    done: Load,
    unused: ConversationId,
)
    requires
        !knows(pre.conversations@, fresh),
        load_continued(
            pre,
            mid,
            Load::StoreEntry { key, id: fresh },
            LoadEvent::Stored(Ok(())),
            unused,
            listing,
        ),
        load_continued(mid, post, listing, LoadEvent::Listed(listings), unused, done),
        nothing_listed(listings@),
    ensures
        done.same_as(Load::Done { key, id: fresh }),
        post.current_conversation_id == Some(fresh),
        post.recipients_conversation_map@.contains_key(texts(key@)),
        post.recipients_conversation_map@[texts(key@)] == fresh,
        post.conversations@.len() == pre.conversations@.len() + 1,
        post.conversations@.subrange(0, pre.conversations@.len() as int) == pre.conversations@,
        post.conversations@.last().conversation_id == fresh,
        texts(post.conversations@.last().participants@) == texts(key@),
        post.conversations@.last().messages@ == Map::<MessageKey, MessageView>::empty(),
{
    let old = pre.conversations@;
    let held = mid.conversations@;
    let new = post.conversations@;
    match listing {
        Load::ListRecords { key: k, id } => {
            let i = choose|i: int|
                {
                    &&& 0 <= i < held.len()
                    &&& (#[trigger] held[i]).conversation_id == id
                    &&& new[i].conversation_id == id
                    &&& new[i].participants == held[i].participants
                    &&& new[i].backfill_state() == after_listings(
                        held[i].backfill_state(),
                        mid.identity.secret(),
                        id,
                        mid.user_did.unwrap()@,
                        listings@,
                    )
                    &&& forall|j: int| 0 <= j < held.len() && j != i ==> #[trigger] new[j] == held[j]
                };
            lemma_nothing_listed(
                held[i].backfill_state(),
                mid.identity.secret(),
                id,
                mid.user_did.unwrap()@,
                listings@,
            );
            if i < old.len() {
                assert(held.subrange(0, old.len() as int)[i] == held[i]);
                assert(knows(old, fresh));
            }
            assert(new.subrange(0, old.len() as int) =~= old) by {
                assert forall|j: int| 0 <= j < old.len() implies new[j] == old[j] by {
                    assert(held.subrange(0, old.len() as int)[j] == held[j]);
                }
            }
        },
        _ => {},
    }
}

/// Loading does not depend on the order in which the peers are given, nor
/// on how often: from one state of the engine, two lists with the same
/// members lead to the same request, for the same key and identifier.
pub proof fn lemma_load_ignores_order(
    pre: App,
    peers1: Seq<Seq<char>>,
    peers2: Seq<Seq<char>>,
    post1: App,
    post2: App,
    next1: Load,
    next2: Load,
)
    requires
        same_members(peers1, peers2),
        load_started(pre, post1, peers1, next1),
        load_started(pre, post2, peers2, next2),
    ensures
        next1.same_as(next2),
        post1.current_conversation_id == post2.current_conversation_id,
{
    if pre.user_did.is_some() {
        let local = pre.user_did.unwrap()@;
        let k1 = match next1 {
            Load::ListRecords { key, id } => texts(key@),
            Load::FetchOwnProfile { key } => texts(key@),
            _ => Seq::empty(),
        };
        let k2 = match next2 {
            Load::ListRecords { key, id } => texts(key@),
            Load::FetchOwnProfile { key } => texts(key@),
            _ => Seq::empty(),
        };
        lemma_canonical_ignores_order(peers1, peers2, local, k1, k2);
    }
}

} // verus!
