//! Routes that a peer advertises, and the addresses it may use.

use crate::addr::Ipv6Addr;
use vstd::prelude::*;

verus! {

/// An IPv6 prefix that is reachable behind a peer.
#[derive(Clone, Copy, PartialEq, Eq, Debug, Structural)]
pub struct Ipv6Route {
    /// The network address.
    pub prefix: Ipv6Addr,
    /// The length of the prefix in bits.
    pub prefix_len: u8,
}

/// The length of the prefix that every node owns.
pub const SITE_PREFIX_LEN: u8 = 64;

/// The addresses that a peer may use: those of its own site, then those
/// behind each of its routes.
pub open spec fn allowed_ips(site: Ipv6Addr, routes: Seq<Ipv6Route>) -> Seq<(Ipv6Addr, u8)> {
    seq![(site, SITE_PREFIX_LEN)] + routes.map_values(|r: Ipv6Route| (r.prefix, r.prefix_len))
}

/// The addresses that a peer may use: those of its own site, then those
/// behind each of its routes.
pub fn allowed_ips_for(site: Ipv6Addr, routes: &[Ipv6Route]) -> (ips: Vec<(Ipv6Addr, u8)>)
    ensures
        ips@ == allowed_ips(site, routes@),
{
    let mut ips: Vec<(Ipv6Addr, u8)> = Vec::new();
    ips.push((site, SITE_PREFIX_LEN));
    let mut i: usize = 0;
    assert(ips@ =~= allowed_ips(site, routes@.take(0)));
    while i < routes.len()
        invariant
            i <= routes.len(),
            ips@ == allowed_ips(site, routes@.take(i as int)),
        decreases routes.len() - i,
    {
        ips.push((routes[i].prefix, routes[i].prefix_len));
        i = i + 1;
        assert(ips@ =~= allowed_ips(site, routes@.take(i as int)));
    }
    assert(routes@.take(i as int) =~= routes@);
    ips
}

/// Tells whether a route stands in a list.
pub fn contains_route(list: &[Ipv6Route], route: Ipv6Route) -> (found: bool)
    ensures
        found == list@.contains(route),
{
    let mut i: usize = 0;
    while i < list.len()
        invariant
            i <= list.len(),
            forall|j: int| 0 <= j < i ==> list@[j] != route,
        decreases list.len() - i,
    {
        if list[i] == route {
            assert(list@[i as int] == route);
            return true;
        }
        i = i + 1;
    }
    false
}

/// A peer may use the /64 of its site, and every prefix behind it, and nothing
/// else.
pub proof fn law_allowed_addresses(site: Ipv6Addr, routes: Seq<Ipv6Route>, i: int)
    ensures
        allowed_ips(site, routes).len() == 1 + routes.len(),
        allowed_ips(site, routes)[0] == (site, 64u8),
        0 <= i < routes.len() ==> allowed_ips(site, routes)[1 + i] == (
            routes[i].prefix,
            routes[i].prefix_len,
        ),
{
}

} // verus!
