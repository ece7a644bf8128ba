use bmail::conf::{KeySettings, Settings, UserSettings};
use bmail::conversation::{Conversation, ParticipantRecords};
use bmail::engine::{App, InputMode};
use bmail::errors::BmailError;
use bmail::firehose::{process_message, FirehoseBody, FirehoseMessages, FirehoseRecord, Operation};
use bmail::ids::ConversationId;
use bmail::key::Identity;
use bmail::loader::{Load, LoadEvent};
use bmail::message::{
    BmailMessageRecord, DecryptedMessage, FirehoseBmailMessageRecord, MessageKey, Timestamp,
};
use bmail::profile::BmailEnabledProfile;
use bmail::send::Addressee;

fn names(items: &[&str]) -> Vec<String> {
    items.iter().map(|s| s.to_string()).collect()
}

fn settings(handle: &str) -> Settings {
    Settings {
        user: UserSettings { handle: handle.to_string(), password: "pw".to_string() },
        key: KeySettings { file_path: "keys/identity".to_string() },
    }
}

fn app_for(did: &str, handle: &str) -> App {
    App::new(settings(handle), Identity::generate(), did.to_string())
}

fn profile_of(app: &App, sentinel: &str) -> BmailEnabledProfile {
    BmailEnabledProfile {
        rust_type: Some("actor.profile".to_string()),
        description: None,
        display_name: None,
        bmail_pub_key: Some(app.identity.to_public().to_text()),
        bmail_notification_uri: Some(format!("at://{}/feed.post/sentinel", sentinel)),
        bmail_notification_cid: Some(format!("cid-{}", sentinel)),
        bmail_rc_map: None,
    }
}

fn addressees(list: &[(&str, &BmailEnabledProfile)]) -> Vec<Addressee> {
    list.iter().map(|(did, p)| Addressee { did: did.to_string(), profile: (*p).clone() }).collect()
}

fn off_the_firehose(record: &BmailMessageRecord) -> FirehoseBmailMessageRecord {
    FirehoseBmailMessageRecord {
        rust_type: record.rust_type.clone(),
        bmail_created_at: record.bmail_created_at,
        bmail_conversation_id: record.bmail_conversation_id.to_text(),
        bmail_cipher_text: record.bmail_cipher_text.clone(),
        bmail_type: record.bmail_type.clone(),
        bmail_creator: record.bmail_creator.clone(),
        bmail_creator_handle: record.bmail_creator_handle.clone(),
        bmail_version: record.bmail_version,
        bmail_recipients: record.bmail_recipients.clone(),
    }
}

fn profile_commit() -> FirehoseBody {
    FirehoseBody::Commit(vec![Operation { path: "actor.profile/3kabc".to_string(), cid: Some(vec![1, 2, 3]) }])
}

/// Runs a load to its end against the given profiles, and hands back the
/// identifier together with the local profile as it was stored.
fn load(
    app: &mut App,
    peers: &[&str],
    own: BmailEnabledProfile,
    others: &[(&str, Option<BmailEnabledProfile>)],
    listings: Vec<ParticipantRecords>,
) -> (Result<ConversationId, BmailError>, BmailEnabledProfile) {
    let mut own = own;
    let mut listings = Some(listings);
    let mut state = app.load_conversation(names(peers));
    loop {
        let event = match &state {
            Load::FetchOwnProfile { .. } => LoadEvent::OwnProfile(Ok(own.clone())),
            Load::FetchPeerProfile { key, next } => {
                let did = &key[*next];
                let found = others.iter().find(|(d, _)| d == did).and_then(|(_, p)| p.clone());
                LoadEvent::PeerProfile(found)
            }
            Load::StoreEntry { key, id } => match own.clone().with_rc_entry(key.clone(), *id) {
                Ok(p) => {
                    own = p;
                    LoadEvent::Stored(Ok(()))
                }
                Err(e) => LoadEvent::Stored(Err(e)),
            },
            Load::ListRecords { .. } => LoadEvent::Listed(listings.take().unwrap_or_default()),
            Load::Done { id, .. } => return (Ok(*id), own),
            Load::Failed { error } => {
                let copy = match error {
                    BmailError::MissingRecipient(d) => BmailError::MissingRecipient(d.clone()),
                    BmailError::InternalServerError => BmailError::InternalServerError,
                    BmailError::Base64DecodeError => BmailError::Base64DecodeError,
                    BmailError::BiskyError => BmailError::BiskyError,
                    _ => BmailError::MalformedBmail,
                };
                return (Err(copy), own);
            }
        };
        state = app.continue_load(state, event);
    }
}

#[test]
fn new_engine_knows_nothing() {
    let app = app_for("did:A", "alice");
    assert_eq!(app.conversations.len(), 0);
    assert_eq!(app.current_conversation_id, None);
    assert_eq!(app.conversation_state, None);
    assert_eq!(app.input_mode, InputMode::Normal);
    assert_eq!(app.status, "ALL GOOD");
    assert_eq!(app.user_did, Some("did:A".to_string()));
    assert_eq!(app.recipients_conversation_map.len(), 0);
    let blank = App::default();
    assert_eq!(blank.user_did, None);
    assert_eq!(blank.status, "ALL GOOD");
    assert_eq!(blank.conversations.len(), 0);
    assert_eq!(blank.conf.user.handle, "");
}

#[test]
fn fresh_load_draws_an_identifier_and_stores_it() {
    let mut alice = app_for("did:A", "alice");
    let bob = app_for("did:B", "bob");
    let own = profile_of(&alice, "did:A");
    let (id, stored) = load(&mut alice, &["did:B"], own, &[("did:B", Some(profile_of(&bob, "did:B")))], vec![]);
    let id = id.ok().unwrap();
    let key = names(&["did:A", "did:B"]);
    assert_eq!(id.0 & 0x0000_0000_0000_f000_c000_0000_0000_0000, 0x0000_0000_0000_4000_8000_0000_0000_0000);
    assert_eq!(alice.current_conversation_id, Some(id));
    assert_eq!(alice.recipients_conversation_map.get(&key), Some(id));
    assert_eq!(stored.rc_map().ok().unwrap().unwrap().get(&key), Some(id));
    assert_eq!(alice.conversations.len(), 1);
    assert_eq!(alice.conversations[0].conversation_id, id);
    assert_eq!(alice.conversations[0].participants, key);
    assert_eq!(alice.conversations[0].messages.len(), 0);
}

#[test]
fn load_steps_in_order() {
    let mut alice = app_for("did:B", "alice");
    let key = names(&["did:A", "did:B", "did:C"]);
    let state = alice.load_conversation(names(&["did:C", "did:A"]));
    assert_eq!(state, Load::FetchOwnProfile { key: key.clone() });
    let own = profile_of(&alice, "did:B");
    let state = alice.continue_load(state, LoadEvent::OwnProfile(Ok(own)));
    assert_eq!(state, Load::FetchPeerProfile { key: key.clone(), next: 0 });
    let state = alice.continue_load(state, LoadEvent::PeerProfile(None));
    assert_eq!(state, Load::FetchPeerProfile { key: key.clone(), next: 2 });
    let state = alice.continue_load_with(state, LoadEvent::PeerProfile(None), ConversationId(42));
    assert_eq!(state, Load::StoreEntry { key: key.clone(), id: ConversationId(42) });
    assert_eq!(alice.recipients_conversation_map.get(&key), None);
    assert_eq!(alice.conversations.len(), 0);
    assert_eq!(alice.current_conversation_id, None);
    let state = alice.continue_load(state, LoadEvent::Stored(Ok(())));
    assert_eq!(state, Load::ListRecords { key: key.clone(), id: ConversationId(42) });
    assert_eq!(alice.recipients_conversation_map.get(&key), Some(ConversationId(42)));
    assert_eq!(alice.current_conversation_id, Some(ConversationId(42)));
    assert_eq!(alice.conversations.len(), 1);
    let state = alice.continue_load(state, LoadEvent::Listed(vec![]));
    assert_eq!(state, Load::Done { key: key.clone(), id: ConversationId(42) });
    assert_eq!(alice.conversation_state, None);
    let again = alice.load_conversation(names(&["did:A", "did:C", "did:B"]));
    assert_eq!(again, Load::ListRecords { key, id: ConversationId(42) });
}

#[test]
fn load_fails_where_the_own_profile_or_the_store_fails() {
    let mut alice = app_for("did:A", "alice");
    let state = alice.load_conversation(names(&["did:B"]));
    let state = alice.continue_load(state, LoadEvent::OwnProfile(Err(BmailError::BiskyError)));
    assert_eq!(state, Load::Failed { error: BmailError::BiskyError });
    assert_eq!(alice.conversations.len(), 0);

    let state = alice.load_conversation(names(&["did:B"]));
    let mut broken = profile_of(&alice, "did:A");
    broken.bmail_rc_map = Some("***".to_string());
    let state = alice.continue_load(state, LoadEvent::OwnProfile(Ok(broken)));
    assert_eq!(state, Load::Failed { error: BmailError::Base64DecodeError });

    let state = alice.load_conversation(names(&["did:B"]));
    let state = alice.continue_load(state, LoadEvent::OwnProfile(Ok(profile_of(&alice, "did:A"))));
    let state = alice.continue_load(state, LoadEvent::PeerProfile(None));
    assert!(matches!(state, Load::StoreEntry { .. }));
    let state = alice.continue_load(state, LoadEvent::Stored(Err(BmailError::BiskyError)));
    assert_eq!(state, Load::Failed { error: BmailError::BiskyError });
    assert_eq!(alice.recipients_conversation_map.len(), 0);
    assert_eq!(alice.conversations.len(), 0);
    let again = alice.load_conversation(names(&["did:B"]));
    assert_eq!(again, Load::FetchOwnProfile { key: names(&["did:A", "did:B"]) });
}

#[test]
fn load_refuses_an_event_that_does_not_fit() {
    let mut alice = app_for("did:A", "alice");
    let state = alice.load_conversation(names(&["did:B"]));
    let state = alice.continue_load(state, LoadEvent::Stored(Ok(())));
    assert_eq!(state, Load::Failed { error: BmailError::InternalServerError });
    let state = alice.continue_load(state, LoadEvent::Listed(vec![]));
    assert_eq!(state, Load::Failed { error: BmailError::InternalServerError });
}

#[test]
fn load_without_an_account_fails() {
    let mut blank = App::default();
    assert_eq!(blank.load_conversation(names(&["did:B"])), Load::Failed { error: BmailError::InternalServerError });
}

#[test]
fn load_does_not_depend_on_the_order_of_the_peers() {
    let mut alice = app_for("did:M", "alice");
    let own = profile_of(&alice, "did:M");
    let (first, stored) = load(&mut alice, &["did:Z", "did:B", "did:K"], own, &[], vec![]);
    let (second, stored) = load(&mut alice, &["did:K", "did:Z", "did:B"], stored, &[], vec![]);
    let (third, _) = load(&mut alice, &["did:B", "did:K", "did:Z", "did:K", "did:M"], stored, &[], vec![]);
    assert!(first.is_ok());
    assert_eq!(first, second);
    assert_eq!(first, third);
    assert_eq!(alice.conversations.len(), 1);
    assert_eq!(alice.recipients_conversation_map.len(), 1);
}

#[test]
fn every_conversation_includes_the_local_account() {
    let mut alice = app_for("did:M", "alice");
    let mut own = profile_of(&alice, "did:M");
    for peers in [vec!["did:Z"], vec!["did:A", "did:B"], vec![], vec!["did:M", "did:Q"]] {
        let (id, stored) = load(&mut alice, &peers, own, &[], vec![]);
        assert!(id.is_ok());
        own = stored;
    }
    assert_eq!(alice.conversations.len(), 4);
    for c in &alice.conversations {
        assert!(c.participants.contains(&"did:M".to_string()));
        let mut sorted = c.participants.clone();
        sorted.sort();
        sorted.dedup();
        assert_eq!(sorted, c.participants);
    }
}

#[test]
fn a_second_client_finds_the_conversation_in_the_own_profile() {
    let mut first = app_for("did:A", "alice");
    let bob = app_for("did:B", "bob");
    let own = profile_of(&first, "did:A");
    let (c1, stored) = load(&mut first, &["did:B"], own, &[("did:B", Some(profile_of(&bob, "did:B")))], vec![]);
    let c1 = c1.ok().unwrap();

    let mut second = app_for("did:A", "alice");
    let state = second.load_conversation(names(&["did:B"]));
    assert_eq!(state, Load::FetchOwnProfile { key: names(&["did:A", "did:B"]) });
    let state = second.continue_load(state, LoadEvent::OwnProfile(Ok(stored.clone())));
    assert_eq!(state, Load::StoreEntry { key: names(&["did:A", "did:B"]), id: c1 });
    let state = second.continue_load(state, LoadEvent::Stored(Ok(())));
    assert_eq!(state, Load::ListRecords { key: names(&["did:A", "did:B"]), id: c1 });
    assert_eq!(second.current_conversation_id, Some(c1));
    assert_eq!(second.recipients_conversation_map.get(&names(&["did:A", "did:B"])), Some(c1));
    let (again, _) = load(&mut app_for("did:A", "alice"), &["did:B"], stored, &[], vec![]);
    assert_eq!(again, Ok(c1));
}

#[test]
fn a_conversation_that_a_peer_began_is_adopted() {
    let mut bob = app_for("did:B", "bob");
    let mut alice = app_for("did:A", "alice");
    let bobs = profile_of(&bob, "did:B");
    let (c2, bobs) = load(&mut bob, &["did:A"], bobs, &[("did:A", Some(profile_of(&alice, "did:A")))], vec![]);
    let c2 = c2.ok().unwrap();

    let own = profile_of(&alice, "did:A");
    let (adopted, stored) = load(&mut alice, &["did:B"], own, &[("did:B", Some(bobs))], vec![]);
    assert_eq!(adopted, Ok(c2));
    let key = names(&["did:A", "did:B"]);
    assert_eq!(alice.recipients_conversation_map.get(&key), Some(c2));
    assert_eq!(bob.recipients_conversation_map.get(&key), Some(c2));
    assert_eq!(stored.rc_map().ok().unwrap().unwrap().get(&key), Some(c2));
}

#[test]
fn the_first_peer_with_an_entry_wins() {
    let mut alice = app_for("did:B", "alice");
    let key = names(&["did:A", "did:B", "did:C"]);
    let with_entry = |id: u128| {
        profile_of(&app_for("x", "x"), "x").with_rc_entry(key.clone(), ConversationId(id)).ok().unwrap()
    };
    let mut unreadable = profile_of(&app_for("y", "y"), "y");
    unreadable.bmail_rc_map = Some("***".to_string());
    let own = profile_of(&alice, "did:B");
    let (id, _) = load(
        &mut alice,
        &["did:C", "did:A"],
        own,
        &[("did:A", Some(unreadable)), ("did:C", Some(with_entry(3)))],
        vec![],
    );
    assert_eq!(id, Ok(ConversationId(3)));

    let mut alice = app_for("did:B", "alice");
    let own = profile_of(&alice, "did:B");
    let (id, _) = load(
        &mut alice,
        &["did:C", "did:A"],
        own,
        &[("did:A", Some(with_entry(1))), ("did:C", Some(with_entry(3)))],
        vec![],
    );
    assert_eq!(id, Ok(ConversationId(1)));
}

#[test]
fn fresh_send_and_receive() {
    let mut alice = app_for("did:A", "alice");
    let mut bob = app_for("did:B", "bob");
    let alices = profile_of(&alice, "did:A");
    let bobs = profile_of(&bob, "did:B");
    let (c1, _) = load(&mut alice, &["did:B"], alices.clone(), &[("did:B", Some(bobs.clone()))], vec![]);
    let c1 = c1.ok().unwrap();

    let recipients = alice.send_recipients(c1, &names(&["did:B"])).ok().unwrap();
    assert_eq!(recipients, names(&["did:A", "did:B"]));
    let to = addressees(&[("did:A", &alices), ("did:B", &bobs)]);
    let out = alice.send_bmail(c1, &to, "hi").ok().unwrap();
    assert_eq!(out.record.bmail_type, "bmail");
    assert_eq!(out.record.rust_type, "actor.profile");
    assert_eq!(out.record.bmail_conversation_id, c1);
    assert_eq!(out.record.bmail_recipients, names(&["did:A", "did:B"]));
    assert_eq!(out.record.bmail_creator, "did:A");
    assert_eq!(out.record.bmail_creator_handle, "alice");
    assert_eq!(out.record.bmail_version, 0);
    assert_eq!(out.record.bmail_created_at, out.message.created_at);
    assert_ne!(out.record.bmail_cipher_text, "hi");
    assert_eq!(out.message.message, "hi");
    assert_eq!(out.message.version, 0);
    assert_eq!(alice.add_bmail_to_conversation(c1, &out.message), Ok(()));
    assert_eq!(alice.conversations[0].messages.len(), 1);
    assert_eq!(alice.conversation_state, Some(0));

    let likes = alice.notify_recipients(c1, &to);
    assert_eq!(likes.len(), 2);
    assert!(likes[0].is_none());
    let like = likes[1].as_ref().unwrap().as_ref().ok().unwrap();
    assert_eq!(like.subject.uri, "at://did:B/feed.post/sentinel");
    assert_eq!(like.subject.cid, "cid-did:B");
    assert_eq!(like.bmail_type, "notification");
    assert_eq!(like.bmail_conversation_id, c1);
    assert_eq!(like.bmail_recipients, recipients);

    assert_eq!(out.record.into_decrypted_message(&alice.identity).ok().unwrap(), out.message);
    assert_eq!(out.record.into_decrypted_message(&bob.identity).ok().unwrap(), out.message);
    let event = process_message(
        &profile_commit(),
        FirehoseRecord::Message(off_the_firehose(&out.record)),
        "did:B",
    )
    .ok()
    .unwrap()
    .unwrap();
    assert_eq!(bob.ingest(event), Ok(()));
    assert_eq!(bob.conversations.len(), 1);
    let conversation = &bob.conversations[0];
    assert_eq!(conversation.conversation_id, c1);
    assert_eq!(conversation.participants, names(&["did:A", "did:B"]));
    assert_eq!(conversation.messages.len(), 1);
    let entry = conversation.messages.entry(0);
    assert_eq!(entry.message.message, "hi");
    assert_eq!(entry.message.creator, "did:A");
    assert_eq!(entry.key, MessageKey { created_at: out.message.created_at, count: 0 });
    assert_eq!(bob.conversation_state, Some(0));
}

#[test]
fn the_own_send_coming_back_changes_nothing() {
    let mut alice = app_for("did:A", "alice");
    let alices = profile_of(&alice, "did:A");
    let bobs = profile_of(&app_for("did:B", "bob"), "did:B");
    let (c1, _) = load(&mut alice, &["did:B"], alices.clone(), &[], vec![]);
    let c1 = c1.ok().unwrap();
    let to = addressees(&[("did:A", &alices), ("did:B", &bobs)]);
    let out = alice.send_bmail(c1, &to, "yo").ok().unwrap();
    assert_eq!(alice.add_bmail_to_conversation(c1, &out.message), Ok(()));
    assert_eq!(alice.conversations[0].messages.len(), 1);
    for _ in 0..2 {
        let event = process_message(
            &profile_commit(),
            FirehoseRecord::Message(off_the_firehose(&out.record)),
            "did:A",
        )
        .ok()
        .unwrap()
        .unwrap();
        assert_eq!(alice.ingest(event), Ok(()));
    }
    assert_eq!(alice.conversations.len(), 1);
    assert_eq!(alice.conversations[0].messages.len(), 1);
    assert_eq!(alice.conversations[0].messages.entry(0).message.message, "yo");
}

#[test]
fn a_recipient_without_a_key_stops_the_send() {
    let mut alice = app_for("did:A", "alice");
    let alices = profile_of(&alice, "did:A");
    let mut carols = profile_of(&app_for("did:C", "carol"), "did:C");
    carols.bmail_pub_key = None;
    let (c, _) = load(&mut alice, &["did:C"], alices.clone(), &[], vec![]);
    let c = c.ok().unwrap();
    let recipients = alice.send_recipients(c, &names(&["did:C"])).ok().unwrap();
    assert_eq!(recipients, names(&["did:A", "did:C"]));
    let r = alice.send_bmail(c, &addressees(&[("did:A", &alices), ("did:C", &carols)]), "hello");
    assert_eq!(r.err(), Some(BmailError::MissingRecipient("did:C".to_string())));
    assert_eq!(alice.conversations[0].messages.len(), 0);
    carols.bmail_pub_key = Some("age1broken".to_string());
    let r = alice.send_bmail(c, &addressees(&[("did:A", &alices), ("did:C", &carols)]), "hello");
    assert_eq!(r.err(), Some(BmailError::ParseRecipientError));
    carols.bmail_pub_key =
        Some("age1qqqqqqqqqqqqqqqqqqqqqqqqqqqqqqqqqqqqqqqqqqqqqqqqqqqq5cu47z".to_string());
    let r = alice.send_bmail(c, &addressees(&[("did:A", &alices), ("did:C", &carols)]), "hello");
    assert_eq!(r.err(), Some(BmailError::EncryptError));
}

#[test]
fn a_send_must_address_the_participants() {
    let mut alice = app_for("did:A", "alice");
    let alices = profile_of(&alice, "did:A");
    let (c, _) = load(&mut alice, &["did:B", "did:C"], alices, &[], vec![]);
    let c = c.ok().unwrap();
    assert_eq!(alice.send_recipients(c, &names(&["did:C", "did:B"])), Ok(names(&["did:A", "did:B", "did:C"])));
    assert_eq!(alice.send_recipients(c, &names(&["did:A", "did:C", "did:B", "did:B"])), Ok(names(&["did:A", "did:B", "did:C"])));
    assert_eq!(alice.send_recipients(c, &names(&["did:B"])), Err(BmailError::ParticipantMismatch));
    assert_eq!(alice.send_recipients(c, &names(&["did:B", "did:C", "did:D"])), Err(BmailError::ParticipantMismatch));
    assert_eq!(alice.send_recipients(ConversationId(1), &names(&["did:B"])), Err(BmailError::ConversationNotFound));
    assert_eq!(App::default().send_recipients(c, &names(&["did:B"])), Err(BmailError::InternalServerError));
}

#[test]
fn a_send_is_refused_for_the_first_reason_that_applies() {
    let mut alice = app_for("did:A", "alice");
    let alices = profile_of(&alice, "did:A");
    let mut bobs = profile_of(&app_for("did:B", "bob"), "did:B");
    bobs.bmail_pub_key = None;
    let (c, _) = load(&mut alice, &["did:B"], alices.clone(), &[], vec![]);
    let c = c.ok().unwrap();
    let to = addressees(&[("did:A", &alices), ("did:B", &bobs)]);
    assert_eq!(App::default().send_bmail(c, &to, "x").err(), Some(BmailError::InternalServerError));
    assert_eq!(alice.send_bmail(ConversationId(1), &to, "x").err(), Some(BmailError::ConversationNotFound));
    let wrong = addressees(&[("did:B", &bobs), ("did:A", &alices)]);
    assert_eq!(alice.send_bmail(c, &wrong, "x").err(), Some(BmailError::ParticipantMismatch));
    let fewer = addressees(&[("did:A", &alices)]);
    assert_eq!(alice.send_bmail(c, &fewer, "x").err(), Some(BmailError::ParticipantMismatch));
    assert_eq!(alice.send_bmail(c, &to, "x").err(), Some(BmailError::MissingRecipient("did:B".to_string())));
}

#[test]
fn peers_are_asked_in_key_order_all_at_once() {
    let alice = app_for("did:B", "alice");
    let key = names(&["did:A", "did:B", "did:C"]);
    let with_entry = |id: u128| {
        profile_of(&app_for("x", "x"), "x").with_rc_entry(key.clone(), ConversationId(id)).ok().unwrap()
    };
    let mut unreadable = profile_of(&app_for("y", "y"), "y");
    unreadable.bmail_rc_map = Some("***".to_string());
    let ask = |profiles: Vec<Option<BmailEnabledProfile>>| {
        alice.get_cid_from_rc_map_from_participants_profiles(&key, &profiles)
    };
    assert_eq!(ask(vec![]), None);
    assert_eq!(ask(vec![None, None, None]), None);
    assert_eq!(ask(vec![Some(with_entry(1)), Some(with_entry(2)), Some(with_entry(3))]), Some(ConversationId(1)));
    assert_eq!(ask(vec![None, Some(with_entry(2)), Some(with_entry(3))]), Some(ConversationId(3)));
    assert_eq!(ask(vec![Some(unreadable), Some(with_entry(2))]), None);
    assert_eq!(ask(vec![Some(profile_of(&alice, "z")), None, Some(with_entry(3))]), Some(ConversationId(3)));
    let own = profile_of(&alice, "did:B");
    assert!(alice.get_rc_map_from_profile(&own).ok().unwrap().is_none());
    assert_eq!(alice.get_cid_from_rc_map_from_profile(&with_entry(9), &key), Ok(Some(ConversationId(9))));
    let stored = alice.upload_rc_map_to_profile(own, key.clone(), ConversationId(4)).ok().unwrap();
    assert_eq!(alice.get_rc_map_from_profile(&stored).ok().unwrap().unwrap().get(&key), Some(ConversationId(4)));
    let key_of = alice.get_recipient_for_bskyer(&stored).ok().unwrap().unwrap();
    assert_eq!(key_of.to_text(), alice.identity.to_public().to_text());
    assert_eq!(alice.delete_rc_map_from_profile(stored).bmail_rc_map, None);
}

#[test]
fn ingest_wants_the_local_account_among_the_recipients() {
    let mut bob = app_for("did:B", "bob");
    let message = DecryptedMessage {
        created_at: Timestamp { secs: 1, nanos: 0 },
        creator: "did:X".to_string(),
        creator_handle: "x".to_string(),
        conversation_id: ConversationId(5),
        message: "for others".to_string(),
        recipients: names(&["did:X", "did:Y"]),
        version: 0,
    };
    let record = message.into_bmail_record(&vec![bob.identity.to_public()]).ok().unwrap();
    assert_eq!(bob.ingest(FirehoseMessages::Bmail(record)), Err(BmailError::MalformedBmail));
    assert_eq!(bob.conversations.len(), 0);
    let mut blank = App::default();
    let record = message.into_bmail_record(&vec![blank.identity.to_public()]).ok().unwrap();
    assert_eq!(blank.ingest(FirehoseMessages::Bmail(record)), Err(BmailError::InternalServerError));
}

#[test]
fn composing_a_message() {
    let alice = app_for("did:A", "alice");
    let at = Timestamp { secs: 77, nanos: 5 };
    let m = alice.compose_bmail(ConversationId(3), &names(&["did:A", "did:B"]), "text", at).ok().unwrap();
    assert_eq!(
        m,
        DecryptedMessage {
            created_at: at,
            creator: "did:A".to_string(),
            creator_handle: "alice".to_string(),
            conversation_id: ConversationId(3),
            message: "text".to_string(),
            recipients: names(&["did:A", "did:B"]),
            version: 0,
        }
    );
    assert_eq!(
        App::default().compose_bmail(ConversationId(3), &names(&[]), "text", at).err(),
        Some(BmailError::InternalServerError)
    );
    let likes = alice.notify_recipients_at(ConversationId(3), &addressees(&[("did:A", &profile_of(&alice, "did:A"))]), at);
    assert_eq!(likes.len(), 1);
    assert!(likes[0].is_none());
}

#[test]
fn adding_to_an_unknown_conversation_makes_it() {
    let mut alice = app_for("did:A", "alice");
    let message = DecryptedMessage {
        created_at: Timestamp { secs: 1, nanos: 0 },
        creator: "did:B".to_string(),
        creator_handle: "bob".to_string(),
        conversation_id: ConversationId(5),
        message: "hello".to_string(),
        recipients: names(&["did:B", "did:C", "did:B"]),
        version: 0,
    };
    assert_eq!(alice.find_conversation(ConversationId(5)), None);
    assert!(alice.has_counter_for(ConversationId(5), &message));
    assert_eq!(alice.add_bmail_to_conversation(ConversationId(5), &message), Ok(()));
    assert_eq!(alice.find_conversation(ConversationId(5)), Some(0));
    assert_eq!(alice.conversations.len(), 1);
    assert_eq!(alice.conversations[0].conversation_id, ConversationId(5));
    assert_eq!(alice.conversations[0].participants, names(&["did:A", "did:B", "did:C"]));
    assert_eq!(alice.conversations[0].messages.len(), 1);
    assert_eq!(
        alice.conversations[0].messages.get(&MessageKey { created_at: message.created_at, count: 0 }),
        Some(&message)
    );
    assert_eq!(alice.conversations[0].recipient_active_time.get("did:B"), None);
    assert_eq!(alice.conversation_state, Some(0));
    assert_eq!(alice.current_conversation_id, None);
    assert_eq!(alice.recipients_conversation_map.len(), 0);
}

#[test]
fn adding_to_a_known_conversation_keeps_the_others() {
    let mut alice = app_for("did:A", "alice");
    let first = alice.ensure_conversation(ConversationId(4), &names(&["did:A", "did:C"]));
    let second = alice.ensure_conversation(ConversationId(5), &names(&["did:A", "did:B"]));
    assert_eq!((first, second), (0, 1));
    assert_eq!(alice.ensure_conversation(ConversationId(5), &names(&["did:A"])), 1);
    assert_eq!(alice.conversations[1].participants, names(&["did:A", "did:B"]));
    let message = DecryptedMessage {
        created_at: Timestamp { secs: 1, nanos: 0 },
        creator: "did:B".to_string(),
        creator_handle: "bob".to_string(),
        conversation_id: ConversationId(5),
        message: "hello".to_string(),
        recipients: names(&["did:A", "did:B"]),
        version: 0,
    };
    let mut other = message.clone();
    other.message = "again".to_string();
    assert_eq!(alice.add_bmail_to_conversation(ConversationId(5), &message), Ok(()));
    assert_eq!(alice.conversation_state, Some(0));
    assert!(alice.has_counter_for(ConversationId(5), &other));
    assert_eq!(alice.add_bmail_to_conversation(ConversationId(5), &other), Ok(()));
    assert_eq!(alice.conversation_state, Some(1));
    assert_eq!(alice.add_bmail_to_conversation(ConversationId(5), &message), Ok(()));
    assert_eq!(alice.conversations.len(), 2);
    assert_eq!(alice.conversations[0].messages.len(), 0);
    assert_eq!(alice.conversations[1].messages.len(), 2);
    assert_eq!(
        alice.conversations[1].messages.get(&MessageKey { created_at: message.created_at, count: 1 }),
        Some(&other)
    );
}

#[test]
fn adding_without_an_account_fails_for_an_unknown_conversation() {
    let mut blank = App::default();
    let message = DecryptedMessage {
        created_at: Timestamp { secs: 1, nanos: 0 },
        creator: "did:B".to_string(),
        creator_handle: "bob".to_string(),
        conversation_id: ConversationId(5),
        message: "hello".to_string(),
        recipients: names(&["did:A", "did:B"]),
        version: 0,
    };
    assert_eq!(
        blank.add_bmail_to_conversation(ConversationId(5), &message),
        Err(BmailError::ConversationNotFound)
    );
    assert_eq!(blank.conversations.len(), 0);
    assert_eq!(blank.conversation_state, None);
    assert_eq!(blank.ensure_conversation(ConversationId(5), &names(&["did:A", "did:B"])), 0);
    assert_eq!(blank.add_bmail_to_conversation(ConversationId(5), &message), Ok(()));
    assert_eq!(blank.conversation_state, Some(0));
}

#[test]
fn ingest_passes_over_what_it_cannot_open() {
    let mut bob = app_for("did:B", "bob");
    let stranger = app_for("did:X", "x");
    let message = DecryptedMessage {
        created_at: Timestamp { secs: 1, nanos: 0 },
        creator: "did:X".to_string(),
        creator_handle: "x".to_string(),
        conversation_id: ConversationId(5),
        message: "not for bob".to_string(),
        recipients: names(&["did:B", "did:X"]),
        version: 0,
    };
    let record = message.into_bmail_record(&vec![stranger.identity.to_public()]).ok().unwrap();
    assert_eq!(bob.ingest(FirehoseMessages::Bmail(record.clone())), Err(BmailError::DecryptError));
    assert_eq!(bob.conversations.len(), 0);
    let mut garbled = record;
    garbled.bmail_cipher_text = "%%%".to_string();
    assert_eq!(bob.ingest(FirehoseMessages::Bmail(garbled)), Err(BmailError::Base64DecodeError));
    assert_eq!(bob.conversations.len(), 0);
}

#[test]
fn backfill_takes_in_what_is_new_and_belongs() {
    let mut alice = app_for("did:A", "alice");
    let bob = app_for("did:B", "bob");
    let keys = vec![alice.identity.to_public(), bob.identity.to_public()];
    let c1 = ConversationId(100);
    let sealed = |secs: i64, text: &str, id: ConversationId, keys: &Vec<bmail::key::Recipient>| {
        DecryptedMessage {
            created_at: Timestamp { secs, nanos: 0 },
            creator: "did:B".to_string(),
            creator_handle: "bob".to_string(),
            conversation_id: id,
            message: text.to_string(),
            recipients: names(&["did:A", "did:B"]),
            version: 0,
        }
        .into_bmail_record(keys)
        .ok()
        .unwrap()
    };
    let mut other_type = sealed(30, "not a message", c1, &keys);
    other_type.bmail_type = "profile".to_string();
    let mut for_others = sealed(40, "not addressed to alice", c1, &keys);
    for_others.bmail_recipients = names(&["did:B", "did:C"]);
    let records = vec![
        sealed(20, "second", c1, &keys),
        sealed(10, "first", c1, &keys),
        sealed(15, "elsewhere", ConversationId(101), &keys),
        other_type,
        for_others,
        sealed(25, "sealed to bob alone", c1, &vec![bob.identity.to_public()]),
    ];
    let mut conversation = Conversation::new(c1, names(&["did:A", "did:B"]));
    let skipped = conversation.update_with_messages_from_participants(
        "did:A",
        &alice.identity,
        &vec![ParticipantRecords { did: "did:B".to_string(), records: records.clone() }],
    );
    assert_eq!(skipped, 1);
    assert_eq!(conversation.messages.len(), 2);
    assert_eq!(conversation.messages.entry(0).message.message, "first");
    assert_eq!(conversation.messages.entry(1).message.message, "second");
    assert_eq!(conversation.recipient_active_time.get("did:B"), Some(Timestamp { secs: 25, nanos: 0 }));
    assert_eq!(conversation.recipient_active_time.get("did:A"), None);

    let later = vec![sealed(25, "at the mark", c1, &keys), sealed(26, "third", c1, &keys), sealed(5, "old", c1, &keys)];
    let skipped = conversation.update_with_messages_from_participants(
        "did:A",
        &alice.identity,
        &vec![
            ParticipantRecords { did: "did:B".to_string(), records: later },
            ParticipantRecords { did: "did:A".to_string(), records: vec![sealed(1, "from alice's own profile", c1, &keys)] },
        ],
    );
    assert_eq!(skipped, 0);
    assert_eq!(conversation.messages.len(), 4);
    assert_eq!(conversation.messages.entry(0).message.message, "from alice's own profile");
    assert_eq!(conversation.messages.entry(3).message.message, "third");
    assert_eq!(conversation.recipient_active_time.get("did:B"), Some(Timestamp { secs: 26, nanos: 0 }));
    assert_eq!(conversation.recipient_active_time.get("did:A"), Some(Timestamp { secs: 1, nanos: 0 }));

    let (id, _) = load(
        &mut alice,
        &["did:B"],
        profile_of(&app_for("did:A", "alice"), "did:A"),
        &[],
        vec![ParticipantRecords { did: "did:B".to_string(), records: vec![] }],
    );
    assert!(id.is_ok());
}

#[test]
fn load_backfills_the_conversation() {
    let mut alice = app_for("did:A", "alice");
    let bob = app_for("did:B", "bob");
    let own = profile_of(&alice, "did:A");
    let (c1, stored) = load(&mut alice, &["did:B"], own, &[], vec![]);
    let c1 = c1.ok().unwrap();
    let record = DecryptedMessage {
        created_at: Timestamp { secs: 50, nanos: 0 },
        creator: "did:B".to_string(),
        creator_handle: "bob".to_string(),
        conversation_id: c1,
        message: "from bob".to_string(),
        recipients: names(&["did:A", "did:B"]),
        version: 0,
    }
    .into_bmail_record(&vec![alice.identity.to_public(), bob.identity.to_public()])
    .ok()
    .unwrap();
    let listings = vec![ParticipantRecords { did: "did:B".to_string(), records: vec![record] }];
    let (again, _) = load(&mut alice, &["did:B"], stored, &[], listings);
    assert_eq!(again, Ok(c1));
    assert_eq!(alice.conversations[0].messages.len(), 1);
    assert_eq!(alice.conversations[0].messages.entry(0).message.message, "from bob");
}

#[test]
fn a_message_that_is_not_text_is_refused() {
    let bob = app_for("did:B", "bob");
    let sealed = bmail::key::encrypt_and_encode(&vec![bob.identity.to_public()], &vec![0xff, 0xfe]).ok().unwrap();
    let record = BmailMessageRecord {
        rust_type: "actor.profile".to_string(),
        bmail_created_at: Timestamp { secs: 1, nanos: 0 },
        bmail_conversation_id: ConversationId(1),
        bmail_cipher_text: sealed,
        bmail_type: "bmail".to_string(),
        bmail_creator: "did:A".to_string(),
        bmail_creator_handle: "alice".to_string(),
        bmail_version: 0,
        bmail_recipients: names(&["did:B"]),
    };
    assert_eq!(record.into_decrypted_message(&bob.identity).err(), Some(BmailError::FromStringError));
    let mut readable = record.clone();
    readable.bmail_cipher_text =
        bmail::key::encrypt_and_encode(&vec![bob.identity.to_public()], &"grüße".as_bytes().to_vec()).ok().unwrap();
    let message = readable.into_decrypted_message(&bob.identity).ok().unwrap();
    assert_eq!(message.message, "grüße");
    assert_eq!(message.creator, "did:A");
    assert_eq!(message.recipients, names(&["did:B"]));
    assert_eq!(message.created_at, Timestamp { secs: 1, nanos: 0 });
}
