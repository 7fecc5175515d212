//! IPv6 addresses and socket addresses as plain values.

use crate::table::TableKey;
use vstd::prelude::*;

verus! {

/// An IPv6 address, as the number its sixteen octets spell in network order.
#[derive(Clone, Copy, PartialEq, Eq, Hash, Debug, Structural)]
pub struct Ipv6Addr {
    /// The 128 bits, most significant octet first.
    pub bits: u128,
}

/// An IPv6 socket address.
#[derive(Clone, Copy, PartialEq, Eq, Hash, Debug, Structural)]
pub struct SocketAddrV6 {
    /// The address.
    pub ip: Ipv6Addr,
    /// The port.
    pub port: u16,
    /// The flow information.
    pub flowinfo: u32,
    /// The scope of a link-local address.
    pub scope_id: u32,
}

/// A socket address of either family, as a WireGuard device reports it.
#[derive(Clone, Copy, PartialEq, Eq, Hash, Debug, Structural)]
pub enum SocketAddr {
    /// An IPv4 socket address.
    V4 {
        /// The 32 bits of the address.
        ip: u32,
        /// The port.
        port: u16,
    },
    /// An IPv6 socket address.
    V6(SocketAddrV6),
}

impl View for Ipv6Addr {
    type V = u128;

    open spec fn view(&self) -> u128 {
        self.bits
    }
}

impl TableKey for Ipv6Addr {
    fn same_as(&self, other: &Ipv6Addr) -> (same: bool) {
        self.bits == other.bits
    }
}

/// 2^64, the size of the interface half of an address.
pub const TWO_POW_64: u128 = 0x1_0000_0000_0000_0000;

/// 2^80, the size of what lies under a /48.
pub const TWO_POW_80: u128 = 0x1_0000_0000_0000_0000_0000;

/// 2^118, the size of a /10.
pub const TWO_POW_118: u128 = 0x40_0000_0000_0000_0000_0000_0000_0000;

/// 2^120, the size of a /8.
pub const TWO_POW_120: u128 = 0x100_0000_0000_0000_0000_0000_0000_0000;

/// 2^121, the size of a /7.
pub const TWO_POW_121: u128 = 0x200_0000_0000_0000_0000_0000_0000_0000;

impl Ipv6Addr {
    /// The address with the given bits.
    pub fn new(bits: u128) -> (a: Self)
        ensures
            a == (Ipv6Addr { bits }),
    {
        Ipv6Addr { bits }
    }

    /// Whether the address is `::`.
    pub open spec fn is_unspecified_spec(self) -> bool {
        self.bits == 0
    }

    /// Whether the address is `::1`.
    pub open spec fn is_loopback_spec(self) -> bool {
        self.bits == 1
    }

    /// Whether the address lies in `ff00::/8`.
    pub open spec fn is_multicast_spec(self) -> bool {
        self.bits as int / TWO_POW_120 as int == 0xff
    }

    /// Whether the address lies in `fe80::/10`.
    pub open spec fn is_link_local_spec(self) -> bool {
        self.bits as int / TWO_POW_118 as int == 0x3fa
    }

    /// Whether the address lies in `fc00::/7`.
    pub open spec fn is_unique_local_spec(self) -> bool {
        self.bits as int / TWO_POW_121 as int == 0x7e
    }
}

impl SocketAddrV6 {
    /// The socket address made of the four parts.
    pub fn new(ip: Ipv6Addr, port: u16, flowinfo: u32, scope_id: u32) -> (a: Self)
        ensures
            a == (SocketAddrV6 { ip, port, flowinfo, scope_id }),
    {
        SocketAddrV6 { ip, port, flowinfo, scope_id }
    }
}

/// Whether a peer on the internet can be reached at this address: it is none
/// of unique local, link-local, loopback, multicast and unspecified.
pub open spec fn usable_endpoint_addr(a: Ipv6Addr) -> bool {
    &&& !a.is_unique_local_spec()
    &&& !a.is_link_local_spec()
    &&& !a.is_loopback_spec()
    &&& !a.is_multicast_spec()
    &&& !a.is_unspecified_spec()
}

/// Tells whether an address can serve as a public endpoint: unique local,
/// link-local, loopback, multicast and unspecified addresses cannot.
pub fn is_usable_endpoint_addr(a: Ipv6Addr) -> (usable: bool)
    ensures
        usable == usable_endpoint_addr(a),
{
    a.bits / TWO_POW_121 != 0x7e && a.bits / TWO_POW_118 != 0x3fa && a.bits != 1 && a.bits
        / TWO_POW_120 != 0xff && a.bits != 0
}

/// Whether bit `i` of an address, counted from the first, is set.
pub open spec fn leading_bit(bits: u128, i: u128) -> bool {
    (bits >> ((127 - i) as u128)) & 1 == 1
}

/// The mask of a prefix of this length: as many ones, then zeros. A length
/// beyond the address gives all ones.
pub fn prefix_mask(prefix_len: u8) -> (mask: Ipv6Addr)
    ensures
        forall|i: u128| i < 128 ==> #[trigger] leading_bit(mask.bits, i) == (i < prefix_len),
{
    if prefix_len == 0 {
        let mask = Ipv6Addr::new(0);
        assert forall|i: u128| i < 128 implies #[trigger] leading_bit(mask.bits, i) == (i
            < prefix_len) by {
            let s = (127 - i) as u128;
            assert((0u128 >> s) & 1 == 0) by (bit_vector)
                requires
                    s < 128,
            ;
        }
        mask
    } else if prefix_len >= 128 {
        let mask = Ipv6Addr::new(u128::MAX);
        assert forall|i: u128| i < 128 implies #[trigger] leading_bit(mask.bits, i) == (i
            < prefix_len) by {
            let s = (127 - i) as u128;
            assert((0xffff_ffff_ffff_ffff_ffff_ffff_ffff_ffffu128 >> s) & 1 == 1) by (bit_vector)
                requires
                    s < 128,
            ;
        }
        mask
    } else {
        let z: u128 = 128 - prefix_len as u128;
        let bits: u128 = 0xffff_ffff_ffff_ffff_ffff_ffff_ffff_ffffu128 << z;
        let mask = Ipv6Addr::new(bits);
        assert forall|i: u128| i < 128 implies #[trigger] leading_bit(mask.bits, i) == (i
            < prefix_len) by {
            let s = (127 - i) as u128;
            assert((((0xffff_ffff_ffff_ffff_ffff_ffff_ffff_ffffu128 << z) >> s) & 1 == 1) == (s
                >= z)) by (bit_vector)
                requires
                    s < 128,
                    0 < z < 128,
            ;
        }
        mask
    }
}

/// An endpoint address is usable unless it is unspecified, the loopback, a
/// multicast, a link-local or a unique local one.
pub proof fn law_usable_addresses(a: Ipv6Addr)
    ensures
        usable_endpoint_addr(a) <==> {
            &&& a.bits != 0
            &&& a.bits != 1
            &&& a.bits / 0x100_0000_0000_0000_0000_0000_0000_0000 != 0xff
            &&& a.bits / 0x40_0000_0000_0000_0000_0000_0000_0000 != 0x3fa
            &&& a.bits / 0x200_0000_0000_0000_0000_0000_0000_0000 != 0x7e
        },
{
}

} // verus!
