use bmail::directory::RcMap;
use bmail::errors::BmailError;
use bmail::ids::ConversationId;
use bmail::key::Identity;
use bmail::engine::App;
use bmail::message::Timestamp;
use bmail::profile::{get_recipient_for_bskyer, sentinel_post, BmailEnabledProfile};

fn names(items: &[&str]) -> Vec<String> {
    items.iter().map(|s| s.to_string()).collect()
}

fn empty_profile() -> BmailEnabledProfile {
    BmailEnabledProfile {
        rust_type: Some("actor.profile".to_string()),
        description: Some("about me".to_string()),
        display_name: None,
        bmail_pub_key: None,
        bmail_notification_uri: None,
        bmail_notification_cid: None,
        bmail_rc_map: None,
    }
}

#[test]
fn conversation_id_reads_and_writes_uuids() {
    let id = ConversationId::parse_str("550e8400-e29b-41d4-a716-446655440000").ok().unwrap();
    assert_eq!(id, ConversationId(0x550e8400_e29b_41d4_a716_446655440000));
    assert_eq!(id.to_text(), "550e8400-e29b-41d4-a716-446655440000");
    assert_eq!(ConversationId(0).to_text(), "00000000-0000-0000-0000-000000000000");
    assert_eq!(ConversationId::parse_str("nope").err(), Some(BmailError::MalformedBmail));
    assert_eq!(ConversationId::parse_str("").err(), Some(BmailError::MalformedBmail));
}

#[test]
fn fresh_conversation_ids_are_version_4() {
    let a = ConversationId::new_v4();
    let b = ConversationId::new_v4();
    assert_ne!(a, b);
    for id in [a, b] {
        assert_eq!(id.0 & 0x0000_0000_0000_f000_c000_0000_0000_0000, 0x0000_0000_0000_4000_8000_0000_0000_0000);
        assert_eq!(ConversationId::parse_str(&id.to_text()), Ok(id));
    }
}

#[test]
fn directory_binds_and_overwrites() {
    let mut map = RcMap::new();
    assert_eq!(map.len(), 0);
    assert_eq!(map.get(&names(&["did:A", "did:B"])), None);
    map.insert(names(&["did:A", "did:B"]), ConversationId(1));
    map.insert(names(&["did:A", "did:C"]), ConversationId(2));
    assert_eq!(map.len(), 2);
    assert_eq!(map.get(&names(&["did:A", "did:B"])), Some(ConversationId(1)));
    assert_eq!(map.get(&names(&["did:A", "did:C"])), Some(ConversationId(2)));
    assert_eq!(map.get(&names(&["did:B", "did:A"])), None);
    assert_eq!(map.get(&names(&["did:A"])), None);
    map.insert(names(&["did:A", "did:B"]), ConversationId(3));
    assert_eq!(map.len(), 2);
    assert_eq!(map.get(&names(&["did:A", "did:B"])), Some(ConversationId(3)));
    assert_eq!(map.get(&names(&["did:A", "did:C"])), Some(ConversationId(2)));
}

#[test]
fn directory_is_written_line_by_line() {
    let mut map = RcMap::new();
    map.insert(names(&["did:A", "did:B"]), ConversationId(0x550e8400_e29b_41d4_a716_446655440000));
    map.insert(names(&["did:A"]), ConversationId(5));
    let wire = map.to_wire();
    assert_eq!(
        wire,
        vec![
            (names(&["did:A"]), "00000000-0000-0000-0000-000000000005".to_string()),
            (names(&["did:A", "did:B"]), "550e8400-e29b-41d4-a716-446655440000".to_string()),
        ]
    );
    let back = RcMap::from_wire(&wire).ok().unwrap();
    assert_eq!(back.len(), 2);
    assert_eq!(back.get(&names(&["did:A"])), Some(ConversationId(5)));
    assert_eq!(back.to_wire(), wire);
}

#[test]
fn a_directory_is_written_in_one_way_only() {
    let keys = [
        names(&["did:B", "did:C"]),
        names(&["did:A", "did:Z"]),
        names(&["did:A"]),
        names(&["did:A", "did:B", "did:C"]),
        names(&[]),
    ];
    let mut forward = RcMap::new();
    for (i, key) in keys.iter().enumerate() {
        forward.insert(key.clone(), ConversationId(i as u128));
    }
    let mut backward = RcMap::new();
    backward.insert(keys[0].clone(), ConversationId(99));
    for (i, key) in keys.iter().enumerate().rev() {
        backward.insert(key.clone(), ConversationId(i as u128));
    }
    assert_eq!(forward.to_wire(), backward.to_wire());
    assert_eq!(bmail::key::encode(&forward.to_wire()), bmail::key::encode(&backward.to_wire()));
    let written: Vec<Vec<String>> = forward.to_wire().into_iter().map(|(k, _)| k).collect();
    assert_eq!(
        written,
        vec![
            names(&[]),
            names(&["did:A"]),
            names(&["did:A", "did:B", "did:C"]),
            names(&["did:A", "did:Z"]),
            names(&["did:B", "did:C"]),
        ]
    );
    for (i, key) in keys.iter().enumerate() {
        assert_eq!(forward.get(key), Some(ConversationId(i as u128)));
    }
}

#[test]
fn reading_a_directory_lets_the_later_line_win() {
    let wire = vec![
        (names(&["did:A"]), "00000000-0000-0000-0000-000000000001".to_string()),
        (names(&["did:B"]), "00000000-0000-0000-0000-000000000002".to_string()),
        (names(&["did:A"]), "00000000-0000-0000-0000-000000000003".to_string()),
    ];
    let map = RcMap::from_wire(&wire).ok().unwrap();
    assert_eq!(map.len(), 2);
    assert_eq!(map.get(&names(&["did:A"])), Some(ConversationId(3)));
    assert_eq!(map.get(&names(&["did:B"])), Some(ConversationId(2)));
}

#[test]
fn reading_a_directory_fails_on_a_bad_identifier() {
    let wire = vec![
        (names(&["did:A"]), "00000000-0000-0000-0000-000000000001".to_string()),
        (names(&["did:B"]), "not a uuid".to_string()),
    ];
    assert_eq!(RcMap::from_wire(&wire).err(), Some(BmailError::MalformedBmail));
}

#[test]
fn profile_directory_grows_by_one_entry() {
    let key = names(&["did:A", "did:B"]);
    let profile = empty_profile();
    assert_eq!(profile.rc_map().ok().unwrap().map(|m| m.len()), None);
    assert_eq!(App::default().get_cid_from_rc_map_from_profile(&profile, &key), Ok(None));
    let profile = profile.with_rc_entry(key.clone(), ConversationId(77)).ok().unwrap();
    assert!(profile.bmail_rc_map.is_some());
    assert_eq!(profile.description, Some("about me".to_string()));
    assert_eq!(App::default().get_cid_from_rc_map_from_profile(&profile, &key), Ok(Some(ConversationId(77))));
    let other = names(&["did:A", "did:C"]);
    assert_eq!(App::default().get_cid_from_rc_map_from_profile(&profile, &other), Ok(None));
    let profile = profile.with_rc_entry(other.clone(), ConversationId(78)).ok().unwrap();
    assert_eq!(App::default().get_cid_from_rc_map_from_profile(&profile, &key), Ok(Some(ConversationId(77))));
    assert_eq!(App::default().get_cid_from_rc_map_from_profile(&profile, &other), Ok(Some(ConversationId(78))));
    let map = profile.rc_map().ok().unwrap().unwrap();
    assert_eq!(map.len(), 2);
    let profile = profile.without_rc_map();
    assert_eq!(profile.bmail_rc_map, None);
    assert_eq!(App::default().get_cid_from_rc_map_from_profile(&profile, &key), Ok(None));
}

#[test]
fn unreadable_profile_directory_is_an_error() {
    let mut profile = empty_profile();
    profile.bmail_rc_map = Some("***".to_string());
    assert_eq!(profile.rc_map().err(), Some(BmailError::Base64DecodeError));
    assert_eq!(
        App::default().get_cid_from_rc_map_from_profile(&profile, &names(&["did:A"])),
        Err(BmailError::Base64DecodeError)
    );
    assert_eq!(
        profile.clone().with_rc_entry(names(&["did:A"]), ConversationId(1)).err(),
        Some(BmailError::Base64DecodeError)
    );
    profile.bmail_rc_map = Some("YWE".to_string());
    assert_eq!(profile.rc_map().err(), Some(BmailError::CborDecodeError));
    let bad = bmail::key::encode(&vec![(names(&["did:A"]), "zzz".to_string())]).ok().unwrap();
    profile.bmail_rc_map = Some(bad);
    assert_eq!(profile.rc_map().err(), Some(BmailError::MalformedBmail));
}

#[test]
fn profile_bootstrap_fields() {
    let profile = empty_profile();
    assert!(profile.needs_pub_key());
    assert!(profile.needs_notification_post());
    let identity = Identity::generate();
    let profile = profile.with_pub_key(&identity.to_public());
    assert_eq!(profile.bmail_pub_key, Some(identity.to_public().to_text()));
    assert!(!profile.needs_pub_key());
    assert!(profile.needs_notification_post());
    let profile = profile.with_notification_post("at://did:A/feed.post/1".to_string(), "cid1".to_string());
    assert!(!profile.needs_notification_post());
    assert_eq!(profile.bmail_notification_uri, Some("at://did:A/feed.post/1".to_string()));
    assert_eq!(profile.bmail_notification_cid, Some("cid1".to_string()));
    assert_eq!(profile.bmail_pub_key, Some(identity.to_public().to_text()));
    assert_eq!(profile.description, Some("about me".to_string()));
    assert_eq!(profile.clone(), profile);
}

#[test]
fn sentinel_post_is_from_the_epoch() {
    let post = sentinel_post();
    assert_eq!(post.text, "You've got Bmail");
    assert_eq!(post.created_at, Timestamp { secs: 0, nanos: 0 });
    assert_eq!(post.rust_type, Some("feed.post".to_string()));
}

#[test]
fn recipient_of_a_profile() {
    let mut profile = empty_profile();
    assert!(get_recipient_for_bskyer(&profile).ok().unwrap().is_none());
    let identity = Identity::generate();
    profile.bmail_pub_key = Some(identity.to_public().to_text());
    let key = get_recipient_for_bskyer(&profile).ok().unwrap().unwrap();
    assert_eq!(key.to_text(), identity.to_public().to_text());
    profile.bmail_pub_key = Some("garbage".to_string());
    assert_eq!(get_recipient_for_bskyer(&profile).err(), Some(BmailError::ParseRecipientError));
}

#[test]
fn notification_needs_a_sentinel_post() {
    let mut profile = empty_profile();
    let recipients = names(&["did:A", "did:B"]);
    let at = Timestamp { secs: 10, nanos: 0 };
    assert_eq!(
        profile.notification(ConversationId(1), &recipients, at).err(),
        Some(BmailError::MalformedBmail)
    );
    profile.bmail_notification_uri = Some("uri".to_string());
    assert_eq!(
        profile.notification(ConversationId(1), &recipients, at).err(),
        Some(BmailError::MalformedBmail)
    );
    profile.bmail_notification_cid = Some("cid".to_string());
    let like = profile.notification(ConversationId(1), &recipients, at).ok().unwrap();
    assert_eq!(like.subject.uri, "uri");
    assert_eq!(like.subject.cid, "cid");
    assert_eq!(like.bmail_type, "notification");
    assert_eq!(like.bmail_recipients, recipients);
    assert_eq!(like.bmail_conversation_id, ConversationId(1));
    assert_eq!(like.created_at, at);
}
