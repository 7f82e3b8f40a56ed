use wg_p2p::address::{IpAddress, PeerAddr};
use wg_p2p::directory::Directory;
use wg_p2p::peers::StaticPeerMap;

fn keys(names: &[&str]) -> Vec<String> {
    names.iter().map(|n| n.to_string()).collect()
}

fn v4(ip: u32, port: u16) -> PeerAddr {
    PeerAddr::V4 { ip, port }
}

#[test]
fn new_directory_holds_each_key_once_and_empty() {
    let dir = Directory::new(&keys(&["a", "b", "a", "c", "b"]));
    assert_eq!(dir.len(), 3);
    for k in ["a", "b", "c"] {
        assert!(dir.contains(k));
        assert_eq!(dir.addresses(k), Some(vec![]));
        assert_eq!(dir.contacts(k), Some(vec![]));
    }
    assert!(!dir.contains("d"));
    assert_eq!(dir.addresses("d"), None);
    assert_eq!(dir.contacts("d"), None);
    assert_eq!(Directory::new(&vec![]).len(), 0);
}

#[test]
fn directory_keys_are_the_keys_of_the_peer_map() {
    let mut peers = StaticPeerMap::new();
    peers.insert(IpAddress::V4(1), "one".to_string());
    peers.insert(IpAddress::V4(2), "two".to_string());
    peers.insert(IpAddress::V6(3), "one".to_string());
    let dir = Directory::for_peers(&peers);
    assert_eq!(dir.len(), 2);
    assert!(dir.contains("one"));
    assert!(dir.contains("two"));
    assert_eq!(dir.addresses("one"), Some(vec![]));
}

#[test]
fn publish_replaces_the_whole_set() {
    let mut dir = Directory::new(&keys(&["a", "b"]));
    assert!(dir.publish("a", vec![v4(1, 1), v4(2, 2)]));
    assert_eq!(dir.addresses("a"), Some(vec![v4(1, 1), v4(2, 2)]));
    assert!(dir.publish("a", vec![v4(3, 3)]));
    assert_eq!(dir.addresses("a"), Some(vec![v4(3, 3)]));
    assert!(dir.publish("a", vec![]));
    assert_eq!(dir.addresses("a"), Some(vec![]));
    assert_eq!(dir.addresses("b"), Some(vec![]));
}

#[test]
fn publish_keeps_contacts() {
    let mut dir = Directory::new(&keys(&["a", "b"]));
    dir.lookup("b", "a");
    dir.publish("a", vec![v4(1, 1)]);
    assert_eq!(dir.contacts("a"), Some(keys(&["b"])));
}

#[test]
fn publish_for_an_unknown_key_changes_nothing() {
    let mut dir = Directory::new(&keys(&["a"]));
    assert!(!dir.publish("x", vec![v4(1, 1)]));
    assert_eq!(dir.len(), 1);
    assert!(!dir.contains("x"));
    assert_eq!(dir.addresses("a"), Some(vec![]));
}

#[test]
fn first_question_registers_and_later_ones_reveal() {
    let mut dir = Directory::new(&keys(&["a", "b"]));
    dir.publish("b", vec![v4(7, 70), v4(8, 80)]);
    assert_eq!(dir.lookup("a", "b"), (vec![], true));
    assert_eq!(dir.contacts("b"), Some(keys(&["a"])));
    assert_eq!(dir.lookup("a", "b"), (vec![v4(7, 70), v4(8, 80)], false));
    assert_eq!(dir.lookup("a", "b"), (vec![v4(7, 70), v4(8, 80)], false));
    assert_eq!(dir.contacts("b"), Some(keys(&["a"])));
    assert_eq!(dir.contacts("a"), Some(vec![]));
}

#[test]
fn mutual_discovery_takes_three_questions() {
    let mut dir = Directory::new(&keys(&["a", "b"]));
    dir.publish("b", vec![v4(7, 70)]);
    assert_eq!(dir.lookup("a", "b"), (vec![], true));
    assert_eq!(dir.lookup("b", "a"), (vec![], true));
    assert_eq!(dir.lookup("a", "b"), (vec![v4(7, 70)], false));
}

#[test]
fn unknown_target_reveals_nothing_and_changes_nothing() {
    let mut dir = Directory::new(&keys(&["a", "b"]));
    dir.publish("a", vec![v4(1, 1)]);
    assert_eq!(dir.lookup("a", "x"), (vec![], false));
    assert_eq!(dir.lookup("x", "y"), (vec![], false));
    assert_eq!(dir.len(), 2);
    assert_eq!(dir.addresses("a"), Some(vec![v4(1, 1)]));
    assert_eq!(dir.contacts("a"), Some(vec![]));
    assert_eq!(dir.contacts("b"), Some(vec![]));
}

#[test]
fn contacts_keep_the_order_of_first_questions() {
    let mut dir = Directory::new(&keys(&["a", "b", "c", "d"]));
    for asker in ["c", "a", "c", "d", "a", "x", "d"] {
        dir.lookup(asker, "b");
    }
    assert_eq!(dir.contacts("b"), Some(keys(&["c", "a", "d", "x"])));
}

#[test]
fn publishing_the_same_set_twice_is_publishing_it_once() {
    let mut once = Directory::new(&keys(&["a", "b"]));
    let mut twice = Directory::new(&keys(&["a", "b"]));
    once.publish("a", vec![v4(1, 1), v4(2, 2)]);
    twice.publish("a", vec![v4(1, 1), v4(2, 2)]);
    twice.publish("a", vec![v4(1, 1), v4(2, 2)]);
    for k in ["a", "b"] {
        assert_eq!(once.addresses(k), twice.addresses(k));
        assert_eq!(once.contacts(k), twice.contacts(k));
    }
    assert_eq!(once.lookup("b", "a"), twice.lookup("b", "a"));
    assert_eq!(once.lookup("b", "a"), twice.lookup("b", "a"));
}

#[test]
fn later_set_is_revealed_and_never_the_union() {
    let mut dir = Directory::new(&keys(&["a", "b"]));
    dir.lookup("b", "a");
    dir.publish("a", vec![v4(1, 1), v4(2, 2)]);
    assert_eq!(dir.lookup("b", "a").0, vec![v4(1, 1), v4(2, 2)]);
    dir.publish("a", vec![v4(3, 3)]);
    assert_eq!(dir.lookup("b", "a").0, vec![v4(3, 3)]);
}

#[test]
fn a_peer_may_ask_about_itself() {
    let mut dir = Directory::new(&keys(&["a"]));
    dir.publish("a", vec![v4(1, 1)]);
    assert_eq!(dir.lookup("a", "a"), (vec![], true));
    assert_eq!(dir.lookup("a", "a"), (vec![v4(1, 1)], false));
}
