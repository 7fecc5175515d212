//! Rendezvous over a distributed hash table.

use crate::addr::SocketAddrV6;
use crate::candidates::{DiscoveredEndpoints, Source};
use crate::seqs;
use vstd::prelude::*;

verus! {

/// How often a node publishes its record, in nanoseconds: 55 min.
pub const PUBLISH_INTERVAL: u64 = 3_300_000_000_000;

/// How often the records of peers are looked up, in nanoseconds: 30 s.
pub const LOOKUP_INTERVAL: u64 = 30_000_000_000;

/// How long a round of lookups may take, in nanoseconds: 20 s.
pub const LOOKUP_BUDGET: u64 = 20_000_000_000;

/// How many endpoints a record holds.
pub const MAX_PUBLISHED_ENDPOINTS: usize = 8;

/// How often the known nodes are saved, in nanoseconds: 10 min.
pub const NODES_SAVE_INTERVAL: u64 = 600_000_000_000;

/// A change of whose records are looked up.
#[derive(Debug)]
pub enum DhtControl {
    /// Look up the records of the nodes with these keys, in base64.
    UpdatePeers(Vec<String>),
}

/// What a lookup tells the node.
#[derive(Debug)]
pub enum DhtEvent {
    /// A peer is at these endpoints.
    Discovered(DiscoveredEndpoints),
}

/// The endpoints of this node to publish, out of those that are usable; none
/// when there is nothing to publish.
pub fn published(usable: Vec<SocketAddrV6>) -> (record: Option<Vec<SocketAddrV6>>)
    ensures
        record is Some <==> usable@.len() > 0,
        record matches Some(r) ==> r@ == seqs::at_most(usable@, MAX_PUBLISHED_ENDPOINTS as int),
{
    if usable.is_empty() {
        return None;
    }
    let mut record = usable;
    record.truncate(MAX_PUBLISHED_ENDPOINTS);
    assert(record@ =~= seqs::at_most(usable@, MAX_PUBLISHED_ENDPOINTS as int));
    Some(record)
}

/// What a lookup that found these endpoints tells; an empty record tells
/// nothing.
pub fn looked_up(peer_key: String, endpoints: Vec<SocketAddrV6>) -> (event: Option<DhtEvent>)
    ensures
        event is Some <==> endpoints@.len() > 0,
        event matches Some(e) ==> e == DhtEvent::Discovered(
            DiscoveredEndpoints { source: Source::Dht, peer_key, endpoints },
        ),
{
    if endpoints.is_empty() {
        None
    } else {
        Some(
            DhtEvent::Discovered(
                DiscoveredEndpoints { source: Source::Dht, peer_key, endpoints },
            ),
        )
    }
}

} // verus!
