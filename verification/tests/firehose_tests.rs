use bmail::errors::BmailError;
use bmail::firehose::{
    classify, process_message, record_wanted, starts_with, FirehoseBody, FirehoseMessages,
    FirehoseRecord, Operation, RecordKind,
};
use bmail::ids::ConversationId;
use bmail::message::{FirehoseBmailMessageRecord, Timestamp};
use bmail::profile::{BmailLike, StrongRef};

fn commit(path: &str, cid: Option<Vec<u8>>) -> FirehoseBody {
    FirehoseBody::Commit(vec![Operation { path: path.to_string(), cid }])
}

fn message(mark: &str, recipients: &[&str], id: &str) -> FirehoseBmailMessageRecord {
    FirehoseBmailMessageRecord {
        rust_type: "actor.profile".to_string(),
        bmail_created_at: Timestamp { secs: 5, nanos: 6 },
        bmail_conversation_id: id.to_string(),
        bmail_cipher_text: "c2VhbGVk".to_string(),
        bmail_type: mark.to_string(),
        bmail_creator: "did:A".to_string(),
        bmail_creator_handle: "alice".to_string(),
        bmail_version: 0,
        bmail_recipients: recipients.iter().map(|s| s.to_string()).collect(),
    }
}

fn like(mark: &str) -> BmailLike {
    BmailLike {
        created_at: Timestamp { secs: 1, nanos: 0 },
        subject: StrongRef { cid: "cid".to_string(), uri: "uri".to_string() },
        bmail_recipients: vec!["did:B".to_string()],
        bmail_conversation_id: ConversationId(9),
        bmail_type: mark.to_string(),
    }
}

const ID: &str = "550e8400-e29b-41d4-a716-446655440000";

#[test]
fn prefix_test() {
    assert!(starts_with("actor.profile/self", "actor.profile/"));
    assert!(starts_with("actor.profile/", "actor.profile/"));
    assert!(!starts_with("actor.profile", "actor.profile/"));
    assert!(!starts_with("feed.post/1", "actor.profile/"));
    assert!(!starts_with("xactor.profile/1", "actor.profile/"));
    assert!(starts_with("anything", ""));
    assert!(starts_with("é/x", "é/"));
}

#[test]
fn frames_that_are_not_about_a_profile_record_are_dropped() {
    assert_eq!(record_wanted(&FirehoseBody::Other), None);
    assert_eq!(record_wanted(&FirehoseBody::Commit(vec![])), None);
    assert_eq!(record_wanted(&commit("feed.post/3k", Some(vec![1]))), None);
    assert_eq!(record_wanted(&commit("actor.profile/3k", None)), None);
    assert_eq!(record_wanted(&commit("actor.profile/3k", Some(vec![1, 2]))), Some(&vec![1, 2]));
}

#[test]
fn only_the_first_operation_counts() {
    let body = FirehoseBody::Commit(vec![
        Operation { path: "feed.like/1".to_string(), cid: Some(vec![1]) },
        Operation { path: "actor.profile/2".to_string(), cid: Some(vec![2]) },
    ]);
    assert_eq!(record_wanted(&body), None);
    let r = process_message(&body, FirehoseRecord::Message(message("bmail", &["did:B"], ID)), "did:B");
    assert_eq!(r, Ok(None));
}

#[test]
fn type_marks() {
    assert_eq!(classify("bmail"), RecordKind::Bmail);
    assert_eq!(classify("notification"), RecordKind::Notification);
    assert_eq!(classify(""), RecordKind::Other);
    assert_eq!(classify("Bmail"), RecordKind::Other);
    assert_eq!(classify("app.bsky.actor.profile"), RecordKind::Other);
}

#[test]
fn a_message_for_the_local_account_is_handed_on() {
    let body = commit("actor.profile/3k", Some(vec![1]));
    let r = process_message(
        &body,
        FirehoseRecord::Message(message("bmail", &["did:A", "did:B"], ID)),
        "did:B",
    );
    match r {
        Ok(Some(FirehoseMessages::Bmail(record))) => {
            assert_eq!(record.bmail_conversation_id, ConversationId(0x550e8400_e29b_41d4_a716_446655440000));
            assert_eq!(record.bmail_creator, "did:A");
            assert_eq!(record.bmail_creator_handle, "alice");
            assert_eq!(record.bmail_cipher_text, "c2VhbGVk");
            assert_eq!(record.bmail_created_at, Timestamp { secs: 5, nanos: 6 });
            assert_eq!(record.bmail_recipients, vec!["did:A".to_string(), "did:B".to_string()]);
            assert_eq!(record.bmail_type, "bmail");
            assert_eq!(record.rust_type, "actor.profile");
            assert_eq!(record.bmail_version, 0);
        }
        _ => panic!("the message was not handed on"),
    }
}

#[test]
fn a_frame_outside_the_profile_collection_gives_no_event() {
    let record = || FirehoseRecord::Message(message("bmail", &["did:B"], ID));
    assert_eq!(process_message(&commit("feed.post/3k", Some(vec![1])), record(), "did:B"), Ok(None));
    assert_eq!(process_message(&commit("actor.profile/3k", None), record(), "did:B"), Ok(None));
    assert_eq!(process_message(&FirehoseBody::Other, record(), "did:B"), Ok(None));
    assert_eq!(process_message(&FirehoseBody::Commit(vec![]), record(), "did:B"), Ok(None));
    assert_eq!(
        process_message(&commit("feed.like/3k", Some(vec![1])), FirehoseRecord::Like(like("notification")), "did:B"),
        Ok(None)
    );
}

#[test]
fn a_record_of_another_type_gives_no_message() {
    let body = commit("actor.profile/3k", Some(vec![1]));
    assert_eq!(
        process_message(&body, FirehoseRecord::Message(message("profile", &["did:B"], ID)), "did:B"),
        Ok(None)
    );
    assert_eq!(
        process_message(&body, FirehoseRecord::Message(message("notification", &["did:B"], ID)), "did:B"),
        Ok(None)
    );
    assert_eq!(process_message(&body, FirehoseRecord::Other, "did:B"), Ok(None));
}

#[test]
fn a_message_for_others_gives_no_event() {
    let body = commit("actor.profile/3k", Some(vec![1]));
    assert_eq!(
        process_message(&body, FirehoseRecord::Message(message("bmail", &["did:A", "did:C"], ID)), "did:B"),
        Ok(None)
    );
    assert_eq!(
        process_message(&body, FirehoseRecord::Message(message("bmail", &[], ID)), "did:B"),
        Ok(None)
    );
}

#[test]
fn a_message_with_a_bad_conversation_id_is_an_error() {
    let body = commit("actor.profile/3k", Some(vec![1]));
    assert_eq!(
        process_message(&body, FirehoseRecord::Message(message("bmail", &["did:B"], "oops")), "did:B"),
        Err(BmailError::MalformedBmail)
    );
}

#[test]
fn a_notification_is_handed_on() {
    let body = commit("actor.profile/3k", Some(vec![1]));
    assert_eq!(
        process_message(&body, FirehoseRecord::Like(like("notification")), "did:B"),
        Ok(Some(FirehoseMessages::BmailLike(like("notification"))))
    );
    assert_eq!(process_message(&body, FirehoseRecord::Like(like("like")), "did:B"), Ok(None));
}
