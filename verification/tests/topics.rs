use axonmq::mqtt::utils::{
    generate_random_client_id, is_shared_subscription, parse_shared_subscription,
    pub_topic_valid, sub_topic_valid,
};
use axonmq::operator::client::ClientInfo;
use axonmq::operator::trie::TopicTrie;
use axonmq::operator::utils::topic_match;

#[test]
fn test_shared_subscription() {
    let topic = "$share/group/topic";
    let result = parse_shared_subscription(topic);
    assert!(result.is_ok());
    let (group, actual_topic) = result.unwrap();
    assert_eq!(group, "group");
    assert_eq!(actual_topic, "topic");

    let topic2 = "$share/mygroup/sensors/temperature";
    let result2 = parse_shared_subscription(topic2);
    assert!(result2.is_ok());
    let (group2, actual_topic2) = result2.unwrap();
    assert_eq!(group2, "mygroup");
    assert_eq!(actual_topic2, "sensors/temperature");

    let invalid_topic = "$share//topic";
    assert!(parse_shared_subscription(invalid_topic).is_err());

    let invalid_topic2 = "$share/group/";
    assert!(parse_shared_subscription(invalid_topic2).is_err());

    let invalid_topic3 = "normal/topic";
    assert!(parse_shared_subscription(invalid_topic3).is_err());
}

#[test]
fn test_insert_and_match() {
    let mut trie = TopicTrie::new();
    trie.insert("a/b/c", "client1");
    trie.insert("a/+/c", "client2");
    trie.insert("a/b/#", "client3");
    trie.insert("#", "client4");

    let mut matches = trie.find_matches("a/b/c");
    matches.sort();
    assert_eq!(
        matches,
        vec![&"client1", &"client2", &"client3", &"client4"]
    );

    let mut matches = trie.find_matches("a/foo/c");
    matches.sort();
    assert_eq!(matches, vec![&"client2", &"client4"]);

    let mut matches = trie.find_matches("a/b/d");
    matches.sort();
    assert_eq!(matches, vec![&"client3", &"client4"]);
}

#[test]
fn test_remove_exact() {
    let mut trie = TopicTrie::new();
    trie.insert("a/b/c", "client1");
    trie.insert("a/b/c", "client2");

    let matches = trie.find_matches("a/b/c");
    assert_eq!(matches.len(), 2);

    trie.remove("a/b/c", &"client1");
    let mut matches = trie.find_matches("a/b/c");
    matches.sort();
    assert_eq!(matches, vec![&"client2"]);
}

#[test]
fn test_remove_wildcard() {
    let mut trie = TopicTrie::new();
    trie.insert("a/#", "client1");
    trie.insert("a/b", "client2");

    let mut matches = trie.find_matches("a/b");
    matches.sort();
    assert_eq!(matches, vec![&"client1", &"client2"]);

    trie.remove("a/#", &"client1");
    let mut matches = trie.find_matches("a/b");
    matches.sort();
    assert_eq!(matches, vec![&"client2"]);
}

#[test]
fn trie_test_remove_and_prune() {
    let mut trie = TopicTrie::<i32>::new();
    trie.insert("a/b/c", 1);

    assert!(!trie.find_matches("a/b/c").is_empty());

    trie.remove("a/b/c", &1);

    assert!(trie.find_matches("a/b/c").is_empty());
}

#[test]
fn test_topic_match() {
    assert!(topic_match("sport/tennis/player1", "sport/tennis/player1"));
    assert!(topic_match("sport/+/player1", "sport/tennis/player1"));
    assert!(topic_match("sport/+/+", "sport/tennis/player1"));
    assert!(topic_match("sport/#", "sport/tennis/player1"));
    assert!(topic_match("#", "sport/tennis/player1"));
    assert!(!topic_match("sport/tennis/player1", "sport/tennis/player2"));
    assert!(!topic_match("sport/+/player1", "sport/tennis/player2"));
    assert!(!topic_match("sport/+/+", "sport/tennis"));
    assert!(!topic_match("sport/#", "news/tennis/player1"));
    assert!(!topic_match("sport", "sport/tennis/player1"));
}

#[test]
fn hash_filter_matches_parent_level() {
    assert!(topic_match("sport/#", "sport"));
    assert!(topic_match("#", ""));
    assert!(!topic_match("+", "a/b"));
    assert!(topic_match("+", "a"));
    assert!(topic_match("a/b", "a/b"));
    assert!(!topic_match("a/b", "a/c"));
}

#[test]
fn insert_with_misplaced_hash_stores_nothing() {
    let mut trie = TopicTrie::new();
    trie.insert("a/#/b", "client1");
    assert!(trie.find_matches("a/x/b").is_empty());
    assert!(trie.find_matches("a").is_empty());
}

#[test]
fn remove_client_drops_all_of_its_subscriptions() {
    let mut trie: TopicTrie<ClientInfo<u8>> = TopicTrie::new();
    trie.insert("a/+", ClientInfo::default("c1".to_string(), None));
    trie.insert("a/#", ClientInfo::default("c1".to_string(), None));
    trie.insert("a/b", ClientInfo::default("c2".to_string(), None));
    assert_eq!(trie.find_matches("a/b").len(), 2);
    trie.remove_client("c1");
    let m = trie.find_matches("a/b");
    assert_eq!(m.len(), 1);
    assert_eq!(m[0].client_id, "c2");
}

#[test]
fn subscription_topic_rules() {
    assert!(sub_topic_valid("a/+/b", 100));
    assert!(sub_topic_valid("a/#", 100));
    assert!(!sub_topic_valid("a/#/b", 100));
    assert!(!sub_topic_valid("a/b+", 100));
    assert!(!sub_topic_valid("", 100));
    assert!(pub_topic_valid("a/b"));
    assert!(!pub_topic_valid("a/+"));
    assert!(!pub_topic_valid("a/#"));
    assert!(is_shared_subscription("$share/g/t"));
    assert!(!is_shared_subscription("share/g/t"));
}

#[test]
fn generated_client_id_shape() {
    let id = generate_random_client_id();
    assert!(id.starts_with("inner_"));
    assert!(id.len() > "inner_".len());
    assert!(id["inner_".len()..].chars().all(|c| c.is_ascii_alphanumeric()));
}
