use wg_p2p::address::IpAddress;
use wg_p2p::config::{
    field_of, first_ip, host_spec, load, names_peer, parse_ini, peer_entries, peer_map,
    ConfigError, Field, HostSpec, PeerEntry, Prefix, Property, Section,
};

const KEY_A: &str = "AAAAAAAAAAAAAAAAAAAAAAAAAAAAAAAAAAAAAAAAAAA=";
const KEY_B: &str = "BBBBBBBBBBBBBBBBBBBBBBBBBBBBBBBBBBBBBBBBBBB=";

fn host(address: &str, prefix: Prefix) -> HostSpec {
    HostSpec { address: address.to_string(), prefix }
}

fn entry(hosts: Vec<HostSpec>, key: Option<&str>) -> PeerEntry {
    PeerEntry { hosts, public_key: key.map(|k| k.to_string()) }
}

fn property(key: &str, value: &str) -> Property {
    Property { key: key.to_string(), value: value.to_string() }
}

#[test]
fn host_is_the_first_element_trimmed_and_split_at_the_slash() {
    assert_eq!(host_spec("10.0.0.1"), host("10.0.0.1", Prefix::Absent));
    assert_eq!(host_spec("10.0.0.1/32"), host("10.0.0.1", Prefix::Host4));
    assert_eq!(host_spec("fd00::1/128"), host("fd00::1", Prefix::Host6));
    assert_eq!(host_spec("  10.0.0.1/32 , 10.1.0.0/16"), host("10.0.0.1", Prefix::Host4));
    assert_eq!(host_spec("10.0.0.0/24, 10.0.0.1/32"), host("10.0.0.0", Prefix::Other));
    assert_eq!(host_spec("10.0.0.1/"), host("10.0.0.1", Prefix::Other));
    assert_eq!(host_spec("10.0.0.1/32/32"), host("10.0.0.1", Prefix::Other));
    assert_eq!(host_spec("10.0.0.1/ 32"), host("10.0.0.1", Prefix::Other));
    assert_eq!(host_spec("10.0.0.1/032"), host("10.0.0.1", Prefix::Other));
    assert_eq!(host_spec("10.0.0.1 /32"), host("10.0.0.1 ", Prefix::Host4));
    assert_eq!(host_spec(""), host("", Prefix::Absent));
    assert_eq!(host_spec(",10.0.0.1"), host("", Prefix::Absent));
    assert_eq!(host_spec("/128"), host("", Prefix::Host6));
}

#[test]
fn address_must_fit_the_prefix() {
    let v4 = IpAddress::V4(0x0a00_0001);
    let v6 = IpAddress::V6(0xfd00 << 112 | 1);
    assert_eq!(first_ip(&host("x", Prefix::Absent), Some(v4)), Some(v4));
    assert_eq!(first_ip(&host("x", Prefix::Absent), Some(v6)), Some(v6));
    assert_eq!(first_ip(&host("x", Prefix::Host4), Some(v4)), Some(v4));
    assert_eq!(first_ip(&host("x", Prefix::Host6), Some(v6)), Some(v6));
    assert_eq!(first_ip(&host("x", Prefix::Host4), Some(v6)), None);
    assert_eq!(first_ip(&host("x", Prefix::Host6), Some(v4)), None);
    assert_eq!(first_ip(&host("x", Prefix::Other), Some(v4)), None);
    assert_eq!(first_ip(&host("x", Prefix::Other), Some(v6)), None);
    for p in [Prefix::Absent, Prefix::Host4, Prefix::Host6, Prefix::Other] {
        assert_eq!(first_ip(&host("x", p), None), None);
    }
}

#[test]
fn mapped_address_is_judged_as_ipv6_and_kept_as_ipv4() {
    let mapped = IpAddress::V6(0xffff_0a00_0001);
    let plain = IpAddress::V4(0x0a00_0001);
    assert_eq!(first_ip(&host("x", Prefix::Absent), Some(mapped)), Some(plain));
    assert_eq!(first_ip(&host("x", Prefix::Host6), Some(mapped)), Some(plain));
    assert_eq!(first_ip(&host("x", Prefix::Host4), Some(mapped)), None);
}

#[test]
fn peer_sections_are_read_in_order() {
    let text = format!(
        "[Interface]\nPrivateKey = secret\nAllowedIPs = 9.9.9.9\n\n\
         [Peer]\nPublicKey = {}\nAllowedIPs = 10.0.0.1/32\n\n\
         [peer]\nallowedips = 10.0.0.2, 10.2.0.0/16\npublickey = {}\n",
        KEY_A, KEY_B
    );
    assert_eq!(
        parse_ini(&text),
        Ok(vec![
            entry(vec![host("10.0.0.1", Prefix::Host4)], Some(KEY_A)),
            entry(vec![host("10.0.0.2", Prefix::Absent)], Some(KEY_B)),
        ])
    );
}

#[test]
fn section_and_key_names_ignore_case() {
    let text = "[PEER]\nPUBLICKEY = k1\nALLOWEDIPS = 1.1.1.1\n[pEeR]\nPublicKey=k2\nAllowedIps=2.2.2.2\n[Peers]\nPublicKey=k3\nAllowedIPs=3.3.3.3\n";
    assert_eq!(
        parse_ini(text),
        Ok(vec![
            entry(vec![host("1.1.1.1", Prefix::Absent)], Some("k1")),
            entry(vec![host("2.2.2.2", Prefix::Absent)], Some("k2")),
        ])
    );
}

#[test]
fn incomplete_sections_are_kept_as_they_are() {
    let text = "[Peer]\nPublicKey = only-key\n[Peer]\nAllowedIPs = 1.2.3.4\n[Peer]\nEndpoint = x:1\n";
    assert_eq!(
        parse_ini(text),
        Ok(vec![
            entry(vec![], Some("only-key")),
            entry(vec![host("1.2.3.4", Prefix::Absent)], None),
            entry(vec![], None),
        ])
    );
}

#[test]
fn every_allowed_ips_counts_and_the_last_public_key() {
    let text = "[Peer]\nAllowedIPs = bogus\nPublicKey = first\nAllowedIPs = 1.2.3.4/32\nPublicKey = last\n";
    assert_eq!(
        parse_ini(text),
        Ok(vec![entry(
            vec![host("bogus", Prefix::Absent), host("1.2.3.4", Prefix::Host4)],
            Some("last")
        )])
    );
}

#[test]
fn document_without_peers_gives_no_entries() {
    assert_eq!(parse_ini(""), Ok(vec![]));
    assert_eq!(parse_ini("PublicKey = k\nAllowedIPs = 1.2.3.4\n"), Ok(vec![]));
    assert_eq!(parse_ini("; only a comment\n[Interface]\nAddress = 1.2.3.4\n"), Ok(vec![]));
}

#[test]
fn malformed_document_is_refused_with_the_parsers_words() {
    match parse_ini("[Peer\nPublicKey = k\n") {
        Err(ConfigError::Malformed(words)) => assert!(!words.is_empty()),
        other => panic!("{:?}", other),
    }
    match parse_ini("[Peer]\n= value\n") {
        Err(ConfigError::Malformed(words)) => assert!(words.contains("2:")),
        other => panic!("{:?}", other),
    }
}

#[test]
fn sections_are_reduced_without_the_parser() {
    let sections = vec![
        Section { name: None, properties: vec![property("AllowedIPs", "9.9.9.9")] },
        Section {
            name: Some("Peer".to_string()),
            properties: vec![
                property("Endpoint", "example:1"),
                property("AllowedIPs", " fd00::2/128 ,fd00::/64"),
                property("PublicKey", KEY_A),
            ],
        },
        Section { name: Some("Interface".to_string()), properties: vec![property("PublicKey", "x")] },
        Section { name: Some("PEER".to_string()), properties: vec![] },
    ];
    assert_eq!(
        peer_entries(&sections),
        vec![entry(vec![host("fd00::2", Prefix::Host6)], Some(KEY_A)), entry(vec![], None)]
    );
    assert_eq!(peer_entries(&vec![]), vec![]);
}

#[test]
fn file_may_start_with_a_byte_order_mark() {
    let text = format!("[Peer]\nPublicKey = {}\nAllowedIPs = 10.0.0.1\n", KEY_A);
    let want = Ok(vec![entry(vec![host("10.0.0.1", Prefix::Absent)], Some(KEY_A))]);
    assert_eq!(load(&text.as_bytes().to_vec()), want);
    let mut marked = vec![0xef, 0xbb, 0xbf];
    marked.extend_from_slice(text.as_bytes());
    assert_eq!(load(&marked), want);
    assert_eq!(load(&vec![]), Ok(vec![]));
    assert_eq!(load(&vec![0xef, 0xbb, 0xbf]), Ok(vec![]));
}

#[test]
fn file_that_is_not_utf8_is_refused() {
    assert_eq!(load(&vec![b'[', 0xff, b']']), Err(ConfigError::NotUtf8));
    assert_eq!(load(&vec![0xef, 0xbb]), Err(ConfigError::NotUtf8));
    assert_eq!(load(&vec![0xef, 0xbb, 0xbf, 0xc3]), Err(ConfigError::NotUtf8));
}

#[test]
fn entry_binds_its_first_usable_host_to_its_key() {
    let v4 = IpAddress::V4(0x0a00_0001);
    let v6 = IpAddress::V6(9);
    let e = entry(
        vec![host("bogus", Prefix::Absent), host("fd00::9", Prefix::Host4), host("10.0.0.1", Prefix::Host4), host("10.0.0.2", Prefix::Absent)],
        Some(KEY_A),
    );
    assert_eq!(
        e.select(&vec![None, Some(v6), Some(v4), Some(IpAddress::V4(2))]),
        Some((v4, KEY_A.to_string()))
    );
    assert_eq!(e.select(&vec![None, Some(v6)]), None);
    assert_eq!(e.select(&vec![]), None);
    assert_eq!(e.select(&vec![Some(v6)]), Some((v6, KEY_A.to_string())));
    let keyless = entry(vec![host("10.0.0.1", Prefix::Absent)], None);
    assert_eq!(keyless.select(&vec![Some(v4)]), None);
    let hostless = entry(vec![], Some(KEY_A));
    assert_eq!(hostless.select(&vec![Some(v4)]), None);
}

#[test]
fn peer_map_binds_each_usable_section() {
    let entries = vec![
        entry(vec![host("10.0.0.1", Prefix::Host4)], Some(KEY_A)),
        entry(vec![host("10.0.0.0", Prefix::Other)], Some("dropped")),
        entry(vec![host("::ffff:10.0.0.2", Prefix::Host6)], Some(KEY_B)),
        entry(vec![host("10.0.0.3", Prefix::Absent)], None),
    ];
    let parsed = vec![
        vec![Some(IpAddress::V4(0x0a00_0001))],
        vec![Some(IpAddress::V4(0x0a00_0000))],
        vec![Some(IpAddress::V6(0xffff_0a00_0002))],
        vec![Some(IpAddress::V4(0x0a00_0003))],
    ];
    let peers = peer_map(&entries, &parsed).unwrap();
    assert_eq!(peers.len(), 2);
    assert_eq!(peers.get(IpAddress::V4(0x0a00_0001)), Some(KEY_A.to_string()));
    assert_eq!(peers.get(IpAddress::V4(0x0a00_0002)), Some(KEY_B.to_string()));
    assert_eq!(peers.get(IpAddress::V4(0x0a00_0000)), None);
    assert_eq!(peers.get(IpAddress::V4(0x0a00_0003)), None);
}

#[test]
fn later_section_replaces_an_earlier_one_with_the_same_address() {
    let entries = vec![
        entry(vec![host("10.0.0.1", Prefix::Absent)], Some("old")),
        entry(vec![host("::ffff:10.0.0.1", Prefix::Absent)], Some("new")),
    ];
    let parsed = vec![vec![Some(IpAddress::V4(0x0a00_0001))], vec![Some(IpAddress::V6(0xffff_0a00_0001))]];
    let peers = peer_map(&entries, &parsed).unwrap();
    assert_eq!(peers.len(), 1);
    assert_eq!(peers.get(IpAddress::V4(0x0a00_0001)), Some("new".to_string()));
}

#[test]
fn configuration_without_usable_peers_is_refused() {
    assert_eq!(peer_map(&vec![], &vec![]).unwrap_err(), ConfigError::NoPeers);
    let entries = vec![entry(vec![host("10.0.0.0", Prefix::Other)], Some(KEY_A))];
    assert_eq!(
        peer_map(&entries, &vec![vec![Some(IpAddress::V4(0x0a00_0000))]]).unwrap_err(),
        ConfigError::NoPeers
    );
    let entries = vec![entry(vec![host("10.0.0.1", Prefix::Absent)], Some(KEY_A))];
    assert_eq!(peer_map(&entries, &vec![]).unwrap_err(), ConfigError::NoPeers);
    assert_eq!(peer_map(&entries, &vec![vec![None]]).unwrap_err(), ConfigError::NoPeers);
}

#[test]
fn fields_are_told_by_their_lower_case_keys() {
    assert_eq!(field_of("allowedips"), Field::AllowedIps);
    assert_eq!(field_of("publickey"), Field::PublicKey);
    for other in ["", "AllowedIPs", "PublicKey", "allowedips ", "endpoint", "publickeys"] {
        assert_eq!(field_of(other), Field::Other);
    }
    assert!(names_peer("peer"));
    for other in ["", "Peer", "peers", " peer", "interface"] {
        assert!(!names_peer(other));
    }
}
