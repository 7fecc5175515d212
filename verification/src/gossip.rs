//! Gossip inside the tunnels: endpoints passed on, members admitted, members
//! revoked.
//!
//! Entries are signed; checking signatures and merging entries into the store
//! is the store's business. What is decided here is which entries are handed
//! to the store at all, and what the outcome means.

use crate::addr::{self, Ipv6Addr, SocketAddrV6};
use crate::candidates::{DiscoveredEndpoints, Source};
use crate::seqs;
use vstd::prelude::*;

verus! {

/// How often a node broadcasts everything it knows, in nanoseconds: 30 s.
pub const BROADCAST_INTERVAL: u64 = 30_000_000_000;

/// The /48 that the overlay addresses of a network share.
#[derive(Clone, Copy, PartialEq, Eq, Debug, Structural)]
pub struct NetworkPrefix {
    /// The 48 bits.
    pub bits: u64,
}

/// A node's public key, in the two forms in which it is used.
#[derive(Debug)]
pub struct NodeKey {
    /// The base64 of the key.
    pub b64: String,
    /// The WireGuard key that belongs to it.
    pub wg_public: [u8; 32],
}

/// A gossip entry, decoded.
#[derive(Debug)]
pub enum Entry {
    /// Where a node is.
    Endpoint {
        /// The node.
        node: NodeKey,
        /// Its endpoints.
        endpoints: Vec<SocketAddrV6>,
    },
    /// A node is a member.
    Member {
        /// The node.
        node: NodeKey,
        /// Its name.
        name: String,
    },
    /// A node is no longer a member.
    Revocation {
        /// The node.
        node: NodeKey,
    },
}

/// What the store says after an entry was merged.
#[derive(Clone, Copy, Debug)]
pub struct MergeReport {
    /// Whether the entry was new to the store and was taken.
    pub applied: bool,
    /// Whether the entry's node is revoked.
    pub revoked: bool,
    /// The overlay address that follows from the node's key, if one does.
    pub address: Option<Ipv6Addr>,
}

/// What gossip tells the node.
#[derive(Debug)]
pub enum GossipEvent {
    /// A peer is at these endpoints.
    Discovered(DiscoveredEndpoints),
    /// A node was admitted.
    MemberAdmitted {
        /// The node.
        node: NodeKey,
        /// Its name.
        name: String,
        /// Its overlay address.
        address: Ipv6Addr,
    },
    /// A node was revoked.
    Revoked {
        /// The node.
        node: NodeKey,
    },
}

/// A change of what gossip is broadcast to.
#[derive(Debug)]
pub enum GossipControl {
    /// Broadcast to these overlay addresses from now on.
    UpdateTargets(Vec<Ipv6Addr>),
}

/// This node's own entry, ready to be signed.
#[derive(Debug)]
pub struct OwnEndpoint {
    /// The node's addresses.
    pub addrs: Vec<Ipv6Addr>,
    /// The number of the entry.
    pub seq: u64,
}

/// Whether an address lies in the network.
pub open spec fn within(a: Ipv6Addr, prefix: NetworkPrefix) -> bool {
    a.bits as int / addr::TWO_POW_80 as int == prefix.bits
}

/// The number that six octets spell.
pub open spec fn spelled(o: Seq<u8>) -> int {
    ((((o[0] * 256 + o[1]) * 256 + o[2]) * 256 + o[3]) * 256 + o[4]) * 256 + o[5]
}

impl NetworkPrefix {
    /// The prefix with these octets.
    pub fn from_octets(o: &[u8; 6]) -> (p: Self)
        ensures
            p.bits == spelled(o@),
    {
        let bits: u64 = ((((o[0] as u64 * 256 + o[1] as u64) * 256 + o[2] as u64) * 256
            + o[3] as u64) * 256 + o[4] as u64) * 256 + o[5] as u64;
        NetworkPrefix { bits }
    }
}

/// Tells whether an address lies in the network. Only the tunnels carry such
/// source addresses.
pub fn is_within_prefix(a: &Ipv6Addr, prefix: &NetworkPrefix) -> (yes: bool)
    ensures
        yes == within(*a, *prefix),
{
    a.bits / addr::TWO_POW_80 == prefix.bits as u128
}

/// Whether a datagram from `src` brings an entry for the store: it came
/// through a tunnel, and it is neither this node's own endpoints nor empty.
pub open spec fn for_the_store(
    entry: Option<Entry>,
    src: Ipv6Addr,
    prefix: NetworkPrefix,
    own_key: Seq<char>,
) -> bool {
    within(src, prefix) && match entry {
        Some(Entry::Endpoint { node, endpoints }) => node.b64@ != own_key && endpoints@.len() > 0,
        Some(_) => true,
        None => false,
    }
}

/// Looks at a datagram before the store sees it: `entry` is the entry, or
/// `None` when the datagram is none. What comes back is to be merged.
pub fn screen_datagram(
    entry: Option<Entry>,
    src: Ipv6Addr,
    prefix: &NetworkPrefix,
    own_key_b64: &str,
) -> (to_merge: Option<Entry>)
    ensures
        to_merge == if for_the_store(entry, src, *prefix, own_key_b64@) {
            entry
        } else {
            None
        },
{
    if !is_within_prefix(&src, prefix) {
        return None;
    }
    let drop = match &entry {
        None => true,
        Some(Entry::Endpoint { node, endpoints }) => node.b64 == own_key_b64.to_owned()
            || endpoints.is_empty(),
        Some(_) => false,
    };
    if drop {
        return None;
    }
    entry
}

/// Whether a merged entry leads to an event: the store took it, and a member
/// is not revoked and has an address.
pub open spec fn leads_to_event(entry: Entry, report: MergeReport) -> bool {
    report.applied && match entry {
        Entry::Member { .. } => !report.revoked && report.address is Some,
        _ => true,
    }
}

/// Decides what a merged entry means.
///
/// A member and its revocation are kept apart in the store, so an entry that
/// admits a revoked node is stopped here.
pub fn handle_datagram(entry: Entry, report: MergeReport) -> (event: Option<GossipEvent>)
    ensures
        event is Some <==> leads_to_event(entry, report),
        event matches Some(e) ==> match entry {
            Entry::Endpoint { node, endpoints } => e matches GossipEvent::Discovered(d)
                && d.source == Source::Gossip && d.peer_key == node.b64 && d.endpoints
                == endpoints,
            Entry::Member { node, name } => e == (GossipEvent::MemberAdmitted {
                node,
                name,
                address: report.address->Some_0,
            }),
            Entry::Revocation { node } => e == (GossipEvent::Revoked { node }),
        },
{
    if !report.applied {
        return None;
    }
    match entry {
        Entry::Endpoint { node, endpoints } => Some(
            GossipEvent::Discovered(
                DiscoveredEndpoints { source: Source::Gossip, peer_key: node.b64, endpoints },
            ),
        ),
        Entry::Member { node, name } => {
            if report.revoked {
                return None;
            }
            match report.address {
                Some(address) => Some(GossipEvent::MemberAdmitted { node, name, address }),
                None => None,
            }
        },
        Entry::Revocation { node } => Some(GossipEvent::Revoked { node }),
    }
}

/// The number of the next own entry: larger than the last, and no smaller than
/// the time.
pub open spec fn next_seq(seq: u64, now_unix: u64) -> int {
    if seq + 1 > now_unix {
        seq + 1
    } else {
        now_unix as int
    }
}

/// Prepares this node's own entry: `addrs` are its addresses, or `None` when
/// they could not be listed. Without an address there is nothing to broadcast
/// and the number is not used up.
///
/// The number grows with every entry, also within one second; otherwise a
/// receiver could take the older of two entries for the newer one.
pub fn own_endpoint(
    seq: &mut u64,
    addrs: Option<Vec<Ipv6Addr>>,
    max_addrs: usize,
    now_unix: u64,
) -> (own: Option<OwnEndpoint>)
    requires
        addrs is Some && addrs->Some_0@.len() > 0 ==> *old(seq) < u64::MAX,
    ensures
        own is Some <==> addrs is Some && addrs->Some_0@.len() > 0,
        own is None ==> *final(seq) == *old(seq),
        own matches Some(e) ==> {
            &&& *final(seq) == next_seq(*old(seq), now_unix)
            &&& e.seq == *final(seq)
            &&& e.addrs@ == seqs::at_most(addrs->Some_0@, max_addrs as int)
        },
{
    match addrs {
        None => None,
        Some(list) => {
            if list.is_empty() {
                return None;
            }
            let mut kept = list;
            kept.truncate(max_addrs);
            assert(kept@ =~= seqs::at_most(list@, max_addrs as int));
            let next: u64 = *seq + 1;
            *seq = if next > now_unix {
                next
            } else {
                now_unix
            };
            Some(OwnEndpoint { addrs: kept, seq: *seq })
        },
    }
}

/// What a broadcast sends.
#[derive(Debug)]
pub enum Broadcast {
    /// Nothing at all.
    Nothing,
    /// All that the store holds.
    Store,
    /// This node's own entry, then all that the store holds.
    OwnAndStore(OwnEndpoint),
}

/// Decides what a broadcast sends. On its own account (`announce_self`) a node
/// sends its own entry first, and nothing without an address. When it passes on
/// what it has just learnt, it sends what the store holds and leaves its own
/// entry and its number alone: otherwise two nodes would keep taking each
/// other's new numbers for news.
pub fn plan_broadcast(
    announce_self: bool,
    seq: &mut u64,
    addrs: Option<Vec<Ipv6Addr>>,
    max_addrs: usize,
    now_unix: u64,
) -> (plan: Broadcast)
    requires
        announce_self && addrs is Some && addrs->Some_0@.len() > 0 ==> *old(seq) < u64::MAX,
    ensures
        plan is Store <==> !announce_self,
        plan is Nothing <==> announce_self && (addrs is None || addrs->Some_0@.len() == 0),
        !(plan is OwnAndStore) ==> *final(seq) == *old(seq),
        plan matches Broadcast::OwnAndStore(e) ==> {
            &&& *final(seq) == next_seq(*old(seq), now_unix)
            &&& e.seq == *final(seq)
            &&& e.addrs@ == seqs::at_most(addrs->Some_0@, max_addrs as int)
        },
{
    if !announce_self {
        return Broadcast::Store;
    }
    match own_endpoint(seq, addrs, max_addrs, now_unix) {
        Some(own) => Broadcast::OwnAndStore(own),
        None => Broadcast::Nothing,
    }
}

/// The numbers of a node's own entries grow strictly.
pub proof fn law_seq_strictly_grows(seq: u64, now_unix: u64)
    ensures
        next_seq(seq, now_unix) > seq,
        next_seq(seq, now_unix) >= now_unix,
{
}

/// What came from outside the network is never handed to the store.
pub proof fn law_outside_sources_dropped(
    entry: Option<Entry>,
    src: Ipv6Addr,
    prefix: NetworkPrefix,
    own_key: Seq<char>,
)
    requires
        !within(src, prefix),
    ensures
        !for_the_store(entry, src, prefix, own_key),
{
}

/// A revoked node is not admitted, whatever entries come for it, and what the
/// store does not take leads to nothing.
pub proof fn law_revoked_not_admitted(entry: Entry, report: MergeReport)
    ensures
        entry is Member && report.revoked ==> !leads_to_event(entry, report),
        !report.applied ==> !leads_to_event(entry, report),
{
}

/// An address lies in the network exactly when its first 48 bits are the
/// prefix.
pub proof fn law_network_is_a_prefix(a: Ipv6Addr, prefix: NetworkPrefix)
    ensures
        within(a, prefix) <==> a.bits / 0x1_0000_0000_0000_0000_0000 == prefix.bits,
{
}

/// An entry is handed to the store exactly when it came through a tunnel and is
/// more than an echo of this node's own endpoints or an empty list.
pub proof fn law_entries_for_the_store(
    entry: Entry,
    src: Ipv6Addr,
    prefix: NetworkPrefix,
    own_key: Seq<char>,
)
    ensures
        for_the_store(Some(entry), src, prefix, own_key) <==> {
            &&& within(src, prefix)
            &&& entry is Endpoint ==> entry->Endpoint_node.b64@ != own_key
                && entry->Endpoint_endpoints@.len() > 0
        },
        !for_the_store(None, src, prefix, own_key),
{
}

/// What the store took leads to an event: endpoints and revocations always, a
/// member when it is not revoked and has an address. Nothing else does.
pub proof fn law_taken_entries_lead_to_events(entry: Entry, report: MergeReport)
    ensures
        leads_to_event(entry, report) <==> {
            &&& report.applied
            &&& entry is Member ==> !report.revoked && report.address is Some
        },
{
}

/// The next number is the time, or one more than the last where that is larger.
pub proof fn law_next_number(seq: u64, now_unix: u64)
    ensures
        next_seq(seq, now_unix) == seq + 1 || next_seq(seq, now_unix) == now_unix,
        seq < now_unix ==> next_seq(seq, now_unix) == now_unix,
        seq >= now_unix ==> next_seq(seq, now_unix) == seq + 1,
{
}

/// The octets of a prefix spell it from the first to the last.
pub proof fn law_octets_spell_the_prefix(o: Seq<u8>)
    ensures
        spelled(o) == o[0] * 0x100_0000_0000 + o[1] * 0x1_0000_0000 + o[2] * 0x100_0000 + o[3]
            * 0x1_0000 + o[4] * 0x100 + o[5],
{
}

} // verus!
