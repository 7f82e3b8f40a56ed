//! Network addresses as plain numbers, and the folding of IPv4-mapped IPv6
//! addresses back to IPv4.

use vstd::prelude::*;

verus! {

/// An IP address of either family.
///
/// An IPv4 address is the 32-bit number whose most significant byte is the
/// first octet; an IPv6 address is the 128-bit number whose most significant
/// 16 bits are the first group.
#[derive(Clone, Copy, Debug, PartialEq, Eq, Structural)]
pub enum IpAddress {
    V4(u32),
    V6(u128),
}

/// A socket address: an IP address of either family with a port and, for
/// IPv6, the flow information and the scope identifier.
#[derive(Clone, Copy, Debug, PartialEq, Eq, Structural)]
#[allow(inconsistent_fields)]
pub enum PeerAddr {
    V4 { ip: u32, port: u16 },
    V6 { ip: u128, port: u16, flowinfo: u32, scope_id: u32 },
}

/// Whether the IPv6 address `bits` lies in `::ffff:0:0/96`: its high 80 bits
/// are zero and the next 16 bits are all ones.
pub open spec fn is_v4_mapped(bits: u128) -> bool {
    bits >> 32 == 0xffff
}

/// The low 32 bits of an IPv6 address: the IPv4 address embedded in a mapped
/// one.
pub open spec fn embedded_v4(bits: u128) -> u32 {
    (bits & 0xffff_ffff) as u32
}

/// The address that stands for `a` in identity lookups: the embedded IPv4
/// address if `a` is an IPv4-mapped IPv6 address, else `a` itself.
pub open spec fn unmapped(a: IpAddress) -> IpAddress {
    match a {
        IpAddress::V6(bits) if is_v4_mapped(bits) => IpAddress::V4(embedded_v4(bits)),
        _ => a,
    }
}

/// Folds an IPv4-mapped IPv6 address to its IPv4 form and leaves every other
/// address unchanged.
pub fn unmap_addr(a: IpAddress) -> (r: IpAddress)
    ensures
        r == unmapped(a),
{
    if let IpAddress::V6(bits) = a {
        assert((bits & 0xffff_ffff_ffff_ffff_ffff_ffff_0000_0000u128 == 0xffff_0000_0000u128)
            == (bits >> 32 == 0xffffu128)) by (bit_vector);
        if bits & 0xffff_ffff_ffff_ffff_ffff_ffff_0000_0000u128 == 0xffff_0000_0000u128 {
            let low: u128 = bits & 0xffff_ffffu128;
            assert(low <= 0xffff_ffffu128) by (bit_vector)
                requires
                    low == bits & 0xffff_ffffu128,
            ;
            return IpAddress::V4(low as u32);
        }
    }
    a
}

/// Normalising is idempotent: a normalised address is its own normal form.
pub proof fn unmapped_is_idempotent(a: IpAddress)
    ensures
        unmapped(unmapped(a)) == unmapped(a),
{
}

/// An IPv4 address and the IPv6 address that maps it have the same normal
/// form.
pub proof fn mapped_and_plain_agree(v4: u32)
    ensures
        unmapped(IpAddress::V6(mapped_v6(v4))) == unmapped(IpAddress::V4(v4)),
{
    let bits = mapped_v6(v4);
    assert((0xffff_0000_0000u128 | (v4 as u128)) >> 32 == 0xffffu128) by (bit_vector);
    assert(((0xffff_0000_0000u128 | (v4 as u128)) & 0xffff_ffffu128) as u32 == v4)
        by (bit_vector);
}

/// The IPv6 address `::ffff:a.b.c.d` that maps the IPv4 address `a.b.c.d`.
pub open spec fn mapped_v6(v4: u32) -> u128 {
    0xffff_0000_0000u128 | (v4 as u128)
}

} // verus!
