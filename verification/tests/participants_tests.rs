use bmail::participants::{canonical_participants, insert_participant, is_canonical};
use bmail::text::{clone_texts, contains_text, same_texts, text_before, text_same};

fn list(items: &[&str]) -> Vec<String> {
    items.iter().map(|s| s.to_string()).collect()
}

#[test]
fn canonical_form_is_sorted_and_holds_the_local_account() {
    let key = canonical_participants(&list(&["did:B"]), "did:A");
    assert_eq!(key, list(&["did:A", "did:B"]));
    let key = canonical_participants(&list(&["did:C", "did:A"]), "did:B");
    assert_eq!(key, list(&["did:A", "did:B", "did:C"]));
}

#[test]
fn canonical_form_ignores_order_and_repetition() {
    let a = canonical_participants(&list(&["did:x", "did:m", "did:a"]), "did:k");
    let b = canonical_participants(&list(&["did:a", "did:x", "did:m", "did:x", "did:k"]), "did:k");
    assert_eq!(a, b);
    assert_eq!(a, list(&["did:a", "did:k", "did:m", "did:x"]));
}

#[test]
fn canonical_form_of_no_peers_is_the_local_account() {
    assert_eq!(canonical_participants(&list(&[]), "did:me"), list(&["did:me"]));
}

#[test]
fn insert_participant_keeps_order_and_skips_what_is_there() {
    let mut key = list(&["b", "d"]);
    insert_participant(&mut key, "c".to_string());
    insert_participant(&mut key, "a".to_string());
    insert_participant(&mut key, "e".to_string());
    insert_participant(&mut key, "c".to_string());
    assert_eq!(key, list(&["a", "b", "c", "d", "e"]));
}

#[test]
fn is_canonical_wants_strictly_ascending() {
    assert!(is_canonical(&list(&[])));
    assert!(is_canonical(&list(&["a"])));
    assert!(is_canonical(&list(&["a", "b", "c"])));
    assert!(!is_canonical(&list(&["a", "a"])));
    assert!(!is_canonical(&list(&["b", "a"])));
    assert!(!is_canonical(&list(&["a", "c", "b"])));
}

#[test]
fn text_order_is_that_of_the_bytes() {
    assert!(text_before("a", "b"));
    assert!(!text_before("b", "a"));
    assert!(!text_before("a", "a"));
    assert!(text_before("", "a"));
    assert!(!text_before("a", ""));
    assert!(text_before("ab", "abc"));
    assert!(text_before("Z", "a"));
    assert!(text_before("z", "é"));
    assert!(text_before("é", "😀"));
    let mut words = list(&["did:b", "did:A", "did:a", "did:é", "did:"]);
    words.sort();
    for i in 0..words.len() - 1 {
        assert!(text_before(&words[i], &words[i + 1]));
    }
}

#[test]
fn text_helpers() {
    assert!(text_same("did:A", "did:A"));
    assert!(!text_same("did:A", "did:a"));
    let l = list(&["x", "y"]);
    assert_eq!(clone_texts(&l), l);
    assert!(same_texts(&l, &list(&["x", "y"])));
    assert!(!same_texts(&l, &list(&["y", "x"])));
    assert!(!same_texts(&l, &list(&["x"])));
    assert!(contains_text(&l, "y"));
    assert!(!contains_text(&l, "z"));
}
