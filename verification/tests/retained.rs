use axonmq::mqtt::retain_trie::{RetainedMessage, RetainedTrie};
use axonmq::mqtt::QoS;

fn msg(message: &'static str) -> RetainedMessage {
    RetainedMessage {
        qos: QoS::AtMostOnce,
        topic: "a/b/c".to_string(),
        payload: message.as_bytes().to_vec(),
        properties: vec![],
        expiry_at: None,
    }
}

fn expiring(message: &'static str, at: u64) -> RetainedMessage {
    RetainedMessage { expiry_at: Some(at), ..msg(message) }
}

#[test]
fn test_find_matches() {
    let mut trie = RetainedTrie::new();
    trie.insert("a/b/c", msg("msg1"));
    trie.insert("a/foo/c", msg("msg2"));
    trie.insert("a/foo/d", msg("msg3"));
    trie.insert("x/y/z", msg("msg4"));

    // Test '+'
    let matches = trie.find_matches_for_filter("a/+/c");
    assert_eq!(matches.len(), 2);
    assert_eq!(
        matches[0].payload.windows(4).any(|w| w == b"msg1")
            || matches[0].payload.windows(4).any(|w| w == b"msg2"),
        true
    );

    // Test '#'
    let matches = trie.find_matches_for_filter("a/#");
    assert_eq!(matches.len(), 3);

    // Test no match
    let matches = trie.find_matches_for_filter("a/+/z");
    assert!(matches.is_empty());
}

#[test]
fn retain_trie_test_remove_and_prune() {
    let mut trie = RetainedTrie::new();
    trie.insert("a/b/c", msg("msg1"));
    trie.insert("a/b/d", msg("msg2"));

    // Remove one leaf
    trie.remove("a/b/c");
    let matches = trie.find_matches_for_filter("a/b/c");
    assert!(matches.is_empty());
    // The other should still exist
    let matches = trie.find_matches_for_filter("a/b/d");
    assert_eq!(matches.len(), 1);

    // Remove the other leaf, which should prune the 'b' and 'a' nodes
    trie.remove("a/b/d");
    let matches = trie.find_matches_for_filter("a/#");
    assert!(matches.is_empty());
}

#[test]
fn retained_insert_replaces_and_get_reads_back() {
    let mut trie = RetainedTrie::new();
    assert!(trie.get_message("a/b").is_none());
    trie.insert("a/b", msg("one"));
    trie.insert("a/b", msg("two"));
    assert_eq!(trie.get_message("a/b").unwrap().payload, b"two".to_vec());
    assert!(trie.get_message("a").is_none());
    assert_eq!(trie.find_matches_for_filter("a/b").len(), 1);
    assert_eq!(trie.find_matches_for_filter("a/#").len(), 1);
    assert_eq!(trie.find_matches_for_filter("#").len(), 1);
}

#[test]
fn retained_hash_matches_parent_topic() {
    let mut trie = RetainedTrie::new();
    trie.insert("a", msg("parent"));
    trie.insert("a/b", msg("child"));
    assert_eq!(trie.find_matches_for_filter("a/#").len(), 2);
    assert_eq!(trie.find_matches_for_filter("a/+").len(), 1);
    assert_eq!(trie.find_matches_for_filter("+").len(), 1);
}

#[test]
fn purge_drops_only_expired_messages() {
    let mut trie = RetainedTrie::new();
    trie.insert("a/1", expiring("old", 100));
    trie.insert("a/2", expiring("new", 300));
    trie.insert("a/3", msg("forever"));
    trie.purge_expired_at(200);
    assert!(trie.get_message("a/1").is_none());
    assert!(trie.get_message("a/2").is_some());
    assert!(trie.get_message("a/3").is_some());
    trie.purge_expired_at(300);
    assert!(trie.get_message("a/2").is_none());
    assert!(trie.get_message("a/3").is_some());
}

#[test]
fn replacing_an_expiring_message_resets_its_expiry() {
    let mut trie = RetainedTrie::new();
    trie.insert("t", expiring("first", 10));
    trie.insert("t", msg("second"));
    trie.purge_expired_at(1000);
    assert_eq!(trie.get_message("t").unwrap().payload, b"second".to_vec());
    trie.insert("t", expiring("third", 50));
    trie.remove("t");
    trie.insert("t", msg("fourth"));
    trie.purge_expired_at(1000);
    assert!(trie.get_message("t").is_some());
}

#[test]
fn purge_with_the_clock_keeps_far_future_messages() {
    let mut trie = RetainedTrie::new();
    trie.insert("t", expiring("far", u64::MAX));
    trie.insert("u", expiring("past", 1));
    trie.purge_expired();
    assert!(trie.get_message("t").is_some());
    assert!(trie.get_message("u").is_none());
}
