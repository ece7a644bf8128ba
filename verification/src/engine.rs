//! The engine's own state: the conversations it knows, the directory that
//! names them, and what it does with a message that comes in.

use crate::conf::Settings;
use crate::conversation::Conversation;
use crate::directory::RcMap;
use crate::errors::BmailError;
use crate::ids::ConversationId;
use crate::key::{public_key_text, Identity};
use crate::log::{insert_with_collisions, inserted, lemma_slot_within_len, slot};
use crate::participants::{canonical_participants, is_canonical_for};
use crate::message::{DecryptedMessage, MessageKey, MessageView, Timestamp};
use crate::profile::{opt_text, BmailEnabledProfile};
use crate::text::{clone_texts, strictly_sorted, texts};
use vstd::prelude::*;

verus! {

/// What the keyboard is currently bound to.
#[derive(Clone, Copy, Debug, PartialEq, Eq, Structural)]
pub enum InputMode {
    Normal,
    Editing,
    EditingRecipient,
    ScrollingMessages,
}

/// What is to be done to the local profile at start-up.
#[derive(Clone, Copy, Debug, PartialEq, Eq, Structural)]
pub struct Bootstrap {
    /// The profile advertises no public key yet: publish it.
    pub upload_key: bool,
    /// The profile names no sentinel post yet: create one.
    pub create_notification_post: bool,
}

/// The state of the engine.
pub struct App {
    /// Current value of the recipient box.
    pub recipient: String,
    /// Current value of the input box.
    pub input: String,
    /// Current value of the status field.
    pub status: String,
    /// Current input mode.
    pub input_mode: InputMode,
    /// The identity that opens incoming messages.
    pub identity: Identity,
    /// The conversation on display.
    pub current_conversation_id: Option<ConversationId>,
    /// The conversations known, each under its own identifier.
    pub conversations: Vec<Conversation>,
    /// The message selected in the conversation on display.
    pub conversation_state: Option<usize>,
    /// Which identifier goes with which participants.
    pub recipients_conversation_map: RcMap,
    /// Settings.
    pub conf: Settings,
    /// The account identifier of the local user.
    pub user_did: Option<String>,
}

/// Some conversation of `list` has the identifier `id`.
pub open spec fn knows(list: Seq<Conversation>, id: ConversationId) -> bool {
    exists|i: int| 0 <= i < list.len() && (#[trigger] list[i]).conversation_id == id
}

/// `c` is an empty conversation named `id` among the participants `key`.
pub open spec fn is_shell(c: Conversation, id: ConversationId, key: Seq<Seq<char>>) -> bool {
    &&& c.conversation_id == id
    &&& texts(c.participants@) == key
    &&& c.messages@ == Map::<MessageKey, MessageView>::empty()
    &&& c.messages.keys().len() == 0
    &&& c.recipient_active_time@ == Map::<Seq<char>, Timestamp>::empty()
}

/// `post` is `pre` with a conversation named `id`: `pre` itself where it
/// knows one, otherwise `pre` with an empty one among `key` at its end.
pub open spec fn with_conversation(
    pre: Seq<Conversation>,
    post: Seq<Conversation>,
    id: ConversationId,
    key: Seq<Seq<char>>,
) -> bool {
    if knows(pre, id) {
        post == pre
    } else {
        post.len() == pre.len() + 1 && post.subrange(0, pre.len() as int) == pre && is_shell(
            post.last(),
            id,
            key,
        )
    }
}

/// `post` is `pre` but for the messages of the conversation at `i`, which
/// are `messages`.
pub open spec fn with_messages(
    pre: Seq<Conversation>,
    post: Seq<Conversation>,
    i: int,
    messages: Map<MessageKey, MessageView>,
) -> bool {
    &&& 0 <= i < pre.len()
    &&& post.len() == pre.len()
    &&& forall|j: int| 0 <= j < pre.len() && j != i ==> #[trigger] post[j] == pre[j]
    &&& post[i].conversation_id == pre[i].conversation_id
    &&& post[i].participants == pre[i].participants
    &&& post[i].recipient_active_time == pre[i].recipient_active_time
    &&& post[i].messages@ == messages
}

/// No two conversations share an identifier, and each lists its
/// participants in canonical form.
pub open spec fn conversations_wf(list: Seq<Conversation>) -> bool {
    &&& forall|i: int, j: int|
        0 <= i < j < list.len() ==> (#[trigger] list[i]).conversation_id != (
        #[trigger] list[j]).conversation_id
    &&& forall|i: int|
        0 <= i < list.len() ==> strictly_sorted(texts((#[trigger] list[i]).participants@))
}

/// Every conversation has `did` among its participants.
pub open spec fn all_include(list: Seq<Conversation>, did: Seq<char>) -> bool {
    forall|i: int| 0 <= i < list.len() ==> texts((#[trigger] list[i]).participants@).contains(did)
}

/// A counter is free for `msg` at its timestamp in the log of the
/// conversation `id`. Where no such conversation is known, one is.
pub open spec fn counter_free_in(list: Seq<Conversation>, id: ConversationId, msg: MessageView) -> bool {
    forall|i: int|
        0 <= i < list.len() && (#[trigger] list[i]).conversation_id == id ==> slot(
            list[i].messages@,
            msg,
        ) <= u32::MAX
}

/// `post` is `pre` after `message` was stored in the conversation `id`: in
/// that conversation where it is known, otherwise in a new one among the
/// recipients of the message and the account `local`, which holds the
/// message alone and has no marks.
pub open spec fn taken_in(
    pre: Seq<Conversation>,
    post: Seq<Conversation>,
    id: ConversationId,
    message: MessageView,
    local: Option<Seq<char>>,
) -> bool {
    if knows(pre, id) {
        exists|i: int|
            0 <= i < pre.len() && (#[trigger] pre[i]).conversation_id == id && with_messages(
                pre,
                post,
                i,
                inserted(pre[i].messages@, message),
            )
    } else {
        &&& local.is_some()
        &&& post.len() == pre.len() + 1
        &&& post.subrange(0, pre.len() as int) == pre
        &&& post.last().conversation_id == id
        &&& is_canonical_for(texts(post.last().participants@), message.recipients, local.unwrap())
        &&& post.last().messages@ == inserted(Map::empty(), message)
        &&& post.last().recipient_active_time@ == Map::<Seq<char>, Timestamp>::empty()
    }
}

/// The selection of `app` is on the last message of the conversation `id`.
pub open spec fn selects_last(app: App, id: ConversationId) -> bool {
    exists|i: int|
        0 <= i < app.conversations@.len() && (#[trigger] app.conversations@[i]).conversation_id
            == id && app.conversations@[i].messages.keys().len() >= 1 && app.conversation_state
            == Some((app.conversations@[i].messages.keys().len() - 1) as usize)
}

/// Where no two conversations share an identifier, the conversation at `i`
/// is the only one of its name.
pub proof fn lemma_found_is_the_one(list: Seq<Conversation>, i: int)
    requires
        conversations_wf(list),
        0 <= i < list.len(),
    ensures
        forall|j: int|
            0 <= j < list.len() && (#[trigger] list[j]).conversation_id == list[i].conversation_id
                ==> j == i,
{
    assert forall|j: int|
        0 <= j < list.len() && (#[trigger] list[j]).conversation_id
            == list[i].conversation_id implies j == i by {
        if j < i {
            assert(list[j].conversation_id != list[i].conversation_id);
        } else if i < j {
            assert(list[i].conversation_id != list[j].conversation_id);
        }
    }
}

/// A change to one conversation that keeps its name and its participants
/// keeps the conversations well formed.
pub proof fn lemma_wf_kept(pre: Seq<Conversation>, post: Seq<Conversation>, i: int)
    requires
        conversations_wf(pre),
        0 <= i < pre.len(),
        post.len() == pre.len(),
        forall|j: int| 0 <= j < pre.len() && j != i ==> #[trigger] post[j] == pre[j],
        post[i].conversation_id == pre[i].conversation_id,
        post[i].participants == pre[i].participants,
    ensures
        conversations_wf(post),
{
    assert forall|a: int, b: int| 0 <= a < b < post.len() implies (
    #[trigger] post[a]).conversation_id != (#[trigger] post[b]).conversation_id by {
        assert(pre[a].conversation_id != pre[b].conversation_id);
    }
    assert forall|a: int| 0 <= a < post.len() implies strictly_sorted(
        texts((#[trigger] post[a]).participants@),
    ) by {
        assert(strictly_sorted(texts(pre[a].participants@)));
    }
}

/// A change to one conversation that keeps its participants keeps `did`
/// among the participants of every conversation.
pub proof fn lemma_all_include_kept(
    pre: Seq<Conversation>,
    post: Seq<Conversation>,
    i: int,
    did: Seq<char>,
)
    requires
        all_include(pre, did),
        0 <= i < pre.len(),
        post.len() == pre.len(),
        forall|j: int| 0 <= j < pre.len() && j != i ==> #[trigger] post[j] == pre[j],
        post[i].participants == pre[i].participants,
    ensures
        all_include(post, did),
{
    assert forall|a: int| 0 <= a < post.len() implies texts(
        (#[trigger] post[a]).participants@,
    ).contains(did) by {
        assert(texts(pre[a].participants@).contains(did));
    }
}

/// The local account takes part in every conversation that the engine
/// knows, and the participants of each are in canonical form.
pub proof fn lemma_local_account_takes_part(app: App, i: int)
    requires
        app.wf(),
        app.user_did.is_some(),
        0 <= i < app.conversations@.len(),
    ensures
        texts(app.conversations@[i].participants@).contains(app.user_did.unwrap()@),
        strictly_sorted(texts(app.conversations@[i].participants@)),
{
}

impl App {
    /// What holds of the engine between any two of its operations: no two
    /// conversations share an identifier, each lists its participants in
    /// canonical form, and the local account takes part in each.
    pub open spec fn wf(&self) -> bool {
        &&& conversations_wf(self.conversations@)
        &&& self.user_did.is_some() ==> all_include(self.conversations@, self.user_did.unwrap()@)
    }

    /// Everything but the conversations, the directory, and what is on
    /// display is as in `pre`.
    pub open spec fn same_settings(&self, pre: &App) -> bool {
        &&& self.recipient == pre.recipient
        &&& self.input == pre.input
        &&& self.status == pre.status
        &&& self.input_mode == pre.input_mode
        &&& self.identity == pre.identity
        &&& self.conf == pre.conf
        &&& self.user_did == pre.user_did
    }

    /// An engine for the account `user_did` with the given identity and
    /// settings, which knows no conversation yet.
    pub fn new(conf: Settings, identity: Identity, user_did: String) -> (app: App)
        ensures
            app.wf(),
            app.conversations@.len() == 0,
            app.recipients_conversation_map@ == Map::<Seq<Seq<char>>, ConversationId>::empty(),
            app.current_conversation_id.is_none(),
            app.conversation_state.is_none(),
            app.input_mode == InputMode::Normal,
            app.identity == identity,
            app.conf == conf,
            app.user_did == Some(user_did),
            app.status@ == "ALL GOOD"@,
            app.input@.len() == 0,
            app.recipient@.len() == 0,
    {
        App {
            input: String::new(),
            recipient: String::new(),
            input_mode: InputMode::Normal,
            identity,
            status: "ALL GOOD".to_owned(),
            conversations: Vec::new(),
            conf,
            user_did: Some(user_did),
            current_conversation_id: None,
            recipients_conversation_map: RcMap::new(),
            conversation_state: None,
        }
    }

    /// Where the conversation named `id` is kept, if it is known.
    pub fn find_conversation(&self, id: ConversationId) -> (r: Option<usize>)
        ensures
            match r {
                Some(i) => i < self.conversations@.len() && self.conversations@[i as int].conversation_id
                    == id,
                None => !knows(self.conversations@, id),
            },
    {
        let mut i: usize = 0;
        while i < self.conversations.len()
            invariant
                i <= self.conversations@.len(),
                forall|j: int| 0 <= j < i ==> (#[trigger] self.conversations@[j]).conversation_id != id,
            decreases self.conversations@.len() - i,
        {
            if self.conversations[i].conversation_id == id {
                return Some(i);
            }
            i += 1;
        }
        None
    }

    /// Whether a counter is free for `msg` in the log of the conversation
    /// named `id`. Where no such conversation is known, one is.
    pub fn has_counter_for(&self, id: ConversationId, msg: &DecryptedMessage) -> (b: bool)
        requires
            self.wf(),
        ensures
            b == counter_free_in(self.conversations@, id, msg@),
    {
        match self.find_conversation(id) {
            Some(i) => {
                proof {
                    lemma_found_is_the_one(self.conversations@, i as int);
                }
                self.conversations[i].messages.has_counter_for(msg)
            },
            None => true,
        }
    }

    /// Makes sure that a conversation named `id` is known: where none is,
    /// an empty one among the participants `key` is created.
    pub fn ensure_conversation(&mut self, id: ConversationId, key: &Vec<String>) -> (at: usize)
        requires
            old(self).wf(),
            strictly_sorted(texts(key@)),
            old(self).user_did.is_some() ==> texts(key@).contains(old(self).user_did.unwrap()@),
        ensures
            final(self).wf(),
            with_conversation(old(self).conversations@, final(self).conversations@, id, texts(key@)),
            at < final(self).conversations@.len(),
            final(self).conversations@[at as int].conversation_id == id,
            final(self).same_settings(old(self)),
            final(self).recipients_conversation_map == old(self).recipients_conversation_map,
            final(self).current_conversation_id == old(self).current_conversation_id,
            final(self).conversation_state == old(self).conversation_state,
    {
        match self.find_conversation(id) {
            Some(i) => i,
            None => {
                let shell = Conversation::new(id, clone_texts(key));
                let ghost pre = self.conversations@;
                self.conversations.push(shell);
                proof {
                    let post = self.conversations@;
                    assert(post.subrange(0, pre.len() as int) =~= pre);
                    assert forall|i: int, j: int| 0 <= i < j < post.len() implies (
                    #[trigger] post[i]).conversation_id != (#[trigger] post[j]).conversation_id by {
                        if j < pre.len() {
                            assert(pre[i].conversation_id != pre[j].conversation_id);
                        } else {
                            assert(pre[i].conversation_id != id);
                        }
                    }
                }
                self.conversations.len() - 1
            },
        }
    }

    /// Adds a message to the conversation named `conv_id` and selects it.
    /// Where no such conversation is known, one is made among the
    /// recipients of the message and the local account, and holds the
    /// message alone. Fails with `ConversationNotFound`, and changes
    /// nothing, only where neither the conversation nor the local account
    /// is known.
    pub fn add_bmail_to_conversation(
        &mut self,
        conv_id: ConversationId,
        msg: &DecryptedMessage,
    ) -> (r: Result<(), BmailError>)
        requires
            old(self).wf(),
            counter_free_in(old(self).conversations@, conv_id, msg@),
        ensures
            final(self).wf(),
            final(self).same_settings(old(self)),
            final(self).recipients_conversation_map == old(self).recipients_conversation_map,
            final(self).current_conversation_id == old(self).current_conversation_id,
            match r {
                Ok(()) => {
                    &&& knows(old(self).conversations@, conv_id) || old(self).user_did.is_some()
                    &&& taken_in(
                        old(self).conversations@,
                        final(self).conversations@,
                        conv_id,
                        msg@,
                        opt_text(old(self).user_did),
                    )
                    &&& selects_last(*final(self), conv_id)
                },
                Err(e) => {
                    &&& e == BmailError::ConversationNotFound
                    &&& !knows(old(self).conversations@, conv_id)
                    &&& old(self).user_did.is_none()
                    &&& final(self).conversations == old(self).conversations
                    &&& final(self).conversation_state == old(self).conversation_state
                },
            },
    {
        let at = match self.find_conversation(conv_id) {
            Some(i) => i,
            None => {
                let key = match &self.user_did {
                    Some(local) => canonical_participants(&msg.recipients, local.as_str()),
                    None => {
                        return Err(BmailError::ConversationNotFound);
                    },
                };
                self.ensure_conversation(conv_id, &key)
            },
        };
        let ghost mid = self.conversations@;
        proof {
            lemma_slot_within_len(Map::<MessageKey, MessageView>::empty(), msg@);
        }
        insert_with_collisions(&mut self.conversations[at].messages, msg);
        let n = self.conversations[at].messages.len();
        self.conversation_state = Some(n - 1);
        proof {
            let pre = old(self).conversations@;
            let post = self.conversations@;
            lemma_wf_kept(mid, post, at as int);
            if self.user_did.is_some() {
                lemma_all_include_kept(mid, post, at as int, self.user_did.unwrap()@);
            }
            if !knows(pre, conv_id) {
                assert(at == pre.len()) by {
                    if at < pre.len() {
                        assert(mid.subrange(0, pre.len() as int)[at as int] == mid[at as int]);
                    }
                }
                assert(post.subrange(0, pre.len() as int) =~= pre) by {
                    assert forall|j: int| 0 <= j < pre.len() implies post[j] == pre[j] by {
                        assert(mid.subrange(0, pre.len() as int)[j] == mid[j]);
                    }
                }
            }
            assert(post[at as int].conversation_id == conv_id);
        }
        Ok(())
    }
}

impl App {
    /// What is to be done to the local profile at start-up.
    pub fn initialize(&self, profile: &BmailEnabledProfile) -> (todo: Bootstrap)
        ensures
            todo.upload_key == profile.bmail_pub_key.is_none(),
            todo.create_notification_post == profile.bmail_notification_uri.is_none(),
    {
        Bootstrap {
            upload_key: profile.needs_pub_key(),
            create_notification_post: profile.needs_notification_post(),
        }
    }

    /// The local profile with the public key of the local identity.
    pub fn upload_bmail_recipient(&self, profile: BmailEnabledProfile) -> (p: BmailEnabledProfile)
        ensures
            opt_text(p.bmail_pub_key) == Some(
                public_key_text(self.identity.secret()),
            ),
            p.same_but(profile, true, false, false),
    {
        let key = self.identity.to_public();
        profile.with_pub_key(&key)
    }

    /// The local profile with the sentinel post that was created at `uri`
    /// with the content identifier `cid`.
    pub fn create_notification_post(
        &self,
        profile: BmailEnabledProfile,
        uri: String,
        cid: String,
    ) -> (p:
        BmailEnabledProfile)
        ensures
            opt_text(p.bmail_notification_uri) == Some(uri@),
            opt_text(p.bmail_notification_cid) == Some(cid@),
            p.same_but(profile, false, true, false),
    {
        profile.with_notification_post(uri, cid)
    }
}

impl Default for App {
    /// An engine with a fresh identity that knows neither its account nor
    /// any conversation.
    fn default() -> (app: App)
        ensures
            app.wf(),
            app.conversations@.len() == 0,
            app.recipients_conversation_map@ == Map::<Seq<Seq<char>>, ConversationId>::empty(),
            app.current_conversation_id.is_none(),
            app.conversation_state.is_none(),
            app.input_mode == InputMode::Normal,
            app.user_did.is_none(),
            app.status@ == "ALL GOOD"@,
            app.input@.len() == 0,
            app.recipient@.len() == 0,
    {
        App {
            input: String::new(),
            recipient: String::new(),
            input_mode: InputMode::Normal,
            identity: Identity::generate(),
            status: "ALL GOOD".to_owned(),
            conversations: Vec::new(),
            conf: Settings::default(),
            user_did: None,
            current_conversation_id: None,
            recipients_conversation_map: RcMap::new(),
            conversation_state: None,
        }
    }
}

} // verus!
