//! Plain-value model of socket addresses.
//!
//! The driver never inspects the bytes of an address beyond its family, so an
//! IPv4 address is carried as its four octets packed big-endian into a `u32`
//! and an IPv6 address as its sixteen octets packed into a `u128`.

use vstd::prelude::*;

verus! {

/// An IP address: IPv4 as its four octets packed big-endian into a `u32`,
/// IPv6 as its sixteen octets packed big-endian into a `u128`.
#[derive(Clone, Copy, Debug, PartialEq, Eq, Structural)]
pub enum IpAddress {
    V4(u32),
    V6(u128),
}

/// A UDP address: an IP address together with a port.
#[derive(Clone, Copy, Debug, PartialEq, Eq, Structural)]
pub struct SockAddr {
    pub ip: IpAddress,
    pub port: u16,
}

impl SockAddr {
    /// Whether the address belongs to the IPv6 family.
    pub open spec fn spec_is_ipv6(self) -> bool {
        self.ip is V6
    }

    /// Whether the address belongs to the IPv6 family.
    pub fn is_ipv6(&self) -> (r: bool)
        ensures
            r == self.spec_is_ipv6(),
    {
        match self.ip {
            IpAddress::V6(_) => true,
            IpAddress::V4(_) => false,
        }
    }
}

/// The IPv4-mapped IPv6 address `::ffff:a.b.c.d` of an IPv4 address, as the
/// packed integer `0x0000_0000_0000_0000_0000_ffff_XXXX_XXXX`.
pub open spec fn v4_mapped(ip4: u32) -> int {
    0xffff_0000_0000 + ip4
}

/// Map an address into the IPv6 family: an IPv6 address is returned unchanged,
/// an IPv4 address becomes its IPv4-mapped IPv6 form with the same port.
pub fn ensure_ipv6(x: SockAddr) -> (r: SockAddr)
    ensures
        r.port == x.port,
        r.spec_is_ipv6(),
        x.ip is V6 ==> r == x,
        (x.ip matches IpAddress::V4(n) ==> r.ip == IpAddress::V6(v4_mapped(n) as u128)),
{
    match x.ip {
        IpAddress::V6(_) => x,
        IpAddress::V4(n) => SockAddr {
            ip: IpAddress::V6(0xffff_0000_0000u128 + n as u128),
            port: x.port,
        },
    }
}

} // verus!
