use wg_p2p::address::IpAddress;
use wg_p2p::peers::StaticPeerMap;

#[test]
fn empty_map_resolves_nothing() {
    let peers = StaticPeerMap::new();
    assert_eq!(peers.len(), 0);
    assert_eq!(peers.resolve(IpAddress::V4(1)), None);
    assert_eq!(peers.peer_keys(), Vec::<String>::new());
}

#[test]
fn insert_binds_and_replaces() {
    let mut peers = StaticPeerMap::new();
    peers.insert(IpAddress::V4(1), "one".to_string());
    peers.insert(IpAddress::V4(2), "two".to_string());
    assert_eq!(peers.len(), 2);
    assert_eq!(peers.get(IpAddress::V4(1)), Some("one".to_string()));
    peers.insert(IpAddress::V4(1), "uno".to_string());
    assert_eq!(peers.len(), 2);
    assert_eq!(peers.get(IpAddress::V4(1)), Some("uno".to_string()));
    assert_eq!(peers.get(IpAddress::V4(2)), Some("two".to_string()));
    assert_eq!(peers.get(IpAddress::V4(3)), None);
    assert_eq!(peers.peer_keys(), vec!["uno".to_string(), "two".to_string()]);
}

#[test]
fn addresses_are_held_in_normal_form() {
    let mut peers = StaticPeerMap::new();
    peers.insert(IpAddress::V6(0xffff_0a00_0001), "a".to_string());
    assert_eq!(peers.get(IpAddress::V4(0x0a00_0001)), Some("a".to_string()));
    assert_eq!(peers.get(IpAddress::V6(0xffff_0a00_0001)), None);
    assert_eq!(peers.resolve(IpAddress::V6(0xffff_0a00_0001)), Some("a".to_string()));
    assert_eq!(peers.resolve(IpAddress::V4(0x0a00_0001)), Some("a".to_string()));
    peers.insert(IpAddress::V4(0x0a00_0001), "b".to_string());
    assert_eq!(peers.len(), 1);
    assert_eq!(peers.resolve(IpAddress::V6(0xffff_0a00_0001)), Some("b".to_string()));
}

#[test]
fn families_are_told_apart() {
    let mut peers = StaticPeerMap::new();
    peers.insert(IpAddress::V4(1), "four".to_string());
    peers.insert(IpAddress::V6(1), "six".to_string());
    assert_eq!(peers.len(), 2);
    assert_eq!(peers.resolve(IpAddress::V4(1)), Some("four".to_string()));
    assert_eq!(peers.resolve(IpAddress::V6(1)), Some("six".to_string()));
}
