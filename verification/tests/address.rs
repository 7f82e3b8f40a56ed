use wg_p2p::address::{unmap_addr, IpAddress};

#[test]
fn mapped_address_becomes_ipv4() {
    // ::ffff:10.0.0.1
    assert_eq!(unmap_addr(IpAddress::V6(0xffff_0a00_0001)), IpAddress::V4(0x0a00_0001));
    // ::ffff:255.255.255.255 and ::ffff:0.0.0.0
    assert_eq!(unmap_addr(IpAddress::V6(0xffff_ffff_ffff)), IpAddress::V4(0xffff_ffff));
    assert_eq!(unmap_addr(IpAddress::V6(0xffff_0000_0000)), IpAddress::V4(0));
}

#[test]
fn other_ipv6_addresses_stay() {
    for bits in [
        0u128,
        1,
        0x0a00_0001,
        0xfffe_0a00_0001,
        0x1_ffff_0a00_0001,
        0x2001_0db8_0000_0000_0000_0000_0000_0001,
        0x8000_0000_0000_0000_0000_ffff_0a00_0001,
        0x0000_0000_0000_0001_0000_ffff_0a00_0001,
        u128::MAX,
    ] {
        assert_eq!(unmap_addr(IpAddress::V6(bits)), IpAddress::V6(bits));
    }
}

#[test]
fn ipv4_addresses_stay() {
    for bits in [0u32, 1, 0x0a00_0001, 0xffff, u32::MAX] {
        assert_eq!(unmap_addr(IpAddress::V4(bits)), IpAddress::V4(bits));
    }
}

#[test]
fn unmapping_twice_is_unmapping_once() {
    for a in [
        IpAddress::V6(0xffff_0a00_0001),
        IpAddress::V6(0xffff_0000_ffff),
        IpAddress::V6(7),
        IpAddress::V4(0xffff),
    ] {
        assert_eq!(unmap_addr(unmap_addr(a)), unmap_addr(a));
    }
}
