//! Rendezvous over records under the users' own domains.

use crate::addr::SocketAddrV6;
use crate::candidates::{DiscoveredEndpoints, Source};
use crate::config::{DdnsProvider, NodeConfig};
use crate::seqs;
use vstd::prelude::*;

verus! {

/// How often a node publishes its record, in nanoseconds: 15 min.
pub const PUBLISH_INTERVAL: u64 = 900_000_000_000;

/// How often the records of peers are looked up, in nanoseconds: 30 s.
pub const LOOKUP_INTERVAL: u64 = 30_000_000_000;

/// How many endpoints a record holds; a text record has little room.
pub const MAX_PUBLISHED_ENDPOINTS: usize = 2;

/// A peer whose record may be looked up.
#[derive(Debug)]
pub struct DdnsPeer {
    /// The base64 of its public key.
    pub key_b64: String,
    /// The name of its record, if it has one.
    pub fqdn: Option<String>,
}

/// A change of whose records are looked up.
#[derive(Debug)]
pub enum DdnsControl {
    /// Look up the records of these peers.
    UpdatePeers(Vec<DdnsPeer>),
}

/// What a lookup tells the node.
#[derive(Debug)]
pub enum DdnsEvent {
    /// A peer is at these endpoints.
    Discovered(DiscoveredEndpoints),
}

/// How to publish this node's record.
#[derive(Debug)]
pub enum UpdaterPlan {
    /// Call a webhook.
    Webhook {
        /// Its URL.
        url: String,
        /// The secret to present.
        secret: Option<String>,
    },
    /// Use the interface of Cloudflare.
    Cloudflare {
        /// The token to present.
        token: String,
        /// The zone to change.
        zone: String,
    },
}

/// This node's record.
#[derive(Debug)]
pub struct PublishedRecord {
    /// The endpoints in it.
    pub endpoints: Vec<SocketAddrV6>,
    /// How many there was no room for.
    pub dropped: usize,
}

/// What a [`DdnsPeer`] holds.
pub struct DdnsPeerModel {
    /// The base64 of its public key.
    pub key_b64: Seq<char>,
    /// The name of its record, if it has one.
    pub fqdn: Option<Seq<char>>,
}

impl View for DdnsPeer {
    type V = DdnsPeerModel;

    open spec fn view(&self) -> DdnsPeerModel {
        DdnsPeerModel {
            key_b64: self.key_b64@,
            fqdn: match self.fqdn {
                Some(f) => Some(f@),
                None => None,
            },
        }
    }
}

/// The peers that have a record to look up.
pub open spec fn with_record(peers: Seq<DdnsPeer>) -> Seq<DdnsPeer> {
    peers.filter(|p: DdnsPeer| p.fqdn is Some)
}

/// The peers whose records are to be looked up, as the base64 of the key and
/// the name of the record.
pub fn lookup_targets(peers: &[DdnsPeer]) -> (targets: Vec<(String, String)>)
    ensures
        targets@.len() == with_record(peers@).len(),
        forall|i: int|
            0 <= i < targets@.len() ==> (#[trigger] targets@[i]).0@ == with_record(
                peers@,
            )[i].key_b64@ && targets@[i].1@ == with_record(peers@)[i].fqdn->Some_0@,
{
    let ghost has = |p: DdnsPeer| p.fqdn is Some;
    let mut targets: Vec<(String, String)> = Vec::new();
    let mut i: usize = 0;
    proof {
        reveal(Seq::filter);
        assert(peers@.take(0).filter(has) =~= seq![]);
    }
    while i < peers.len()
        invariant
            i <= peers.len(),
            has == (|p: DdnsPeer| p.fqdn is Some),
            targets@.len() == peers@.take(i as int).filter(has).len(),
            forall|j: int|
                0 <= j < targets@.len() ==> (#[trigger] targets@[j]).0@ == peers@.take(
                    i as int,
                ).filter(has)[j].key_b64@ && targets@[j].1@ == peers@.take(i as int).filter(
                    has,
                )[j].fqdn->Some_0@,
        decreases peers.len() - i,
    {
        proof {
            assert(peers@.take(i + 1) =~= peers@.take(i as int).push(peers@[i as int]));
            seqs::lemma_filter_push(peers@.take(i as int), peers@[i as int], has);
        }
        if let Some(fqdn) = &peers[i].fqdn {
            targets.push((peers[i].key_b64.clone(), fqdn.clone()));
        }
        i = i + 1;
    }
    assert(peers@.take(i as int) =~= peers@);
    targets
}

/// The record of this node, out of its usable endpoints; none when there is
/// nothing to publish.
pub fn published(usable: Vec<SocketAddrV6>) -> (record: Option<PublishedRecord>)
    ensures
        record is Some <==> usable@.len() > 0,
        record matches Some(r) ==> {
            &&& r.endpoints@ == seqs::at_most(usable@, MAX_PUBLISHED_ENDPOINTS as int)
            &&& r.dropped == usable@.len() - r.endpoints@.len()
        },
{
    if usable.is_empty() {
        return None;
    }
    let dropped: usize = usable.len().saturating_sub(MAX_PUBLISHED_ENDPOINTS);
    let mut endpoints = usable;
    endpoints.truncate(MAX_PUBLISHED_ENDPOINTS);
    assert(endpoints@ =~= seqs::at_most(usable@, MAX_PUBLISHED_ENDPOINTS as int));
    Some(PublishedRecord { endpoints, dropped })
}

/// What a lookup that found these endpoints tells; an empty record tells
/// nothing.
pub fn looked_up(peer_key: String, endpoints: Vec<SocketAddrV6>) -> (event: Option<DdnsEvent>)
    ensures
        event is Some <==> endpoints@.len() > 0,
        event matches Some(e) ==> e == DdnsEvent::Discovered(
            DiscoveredEndpoints { source: Source::Ddns, peer_key, endpoints },
        ),
{
    if endpoints.is_empty() {
        None
    } else {
        Some(
            DdnsEvent::Discovered(
                DiscoveredEndpoints { source: Source::Ddns, peer_key, endpoints },
            ),
        )
    }
}

/// How the configuration says to publish; none when something that the
/// provider needs is missing.
pub open spec fn planned(node: NodeConfig) -> Option<UpdaterPlan> {
    match node.ddns_provider {
        DdnsProvider::Webhook => match node.ddns_webhook_url {
            Some(u) => Some(UpdaterPlan::Webhook { url: u, secret: node.ddns_secret }),
            None => None,
        },
        DdnsProvider::Cloudflare => match (node.ddns_secret, node.ddns_zone) {
            (Some(t), Some(z)) => Some(UpdaterPlan::Cloudflare { token: t, zone: z }),
            _ => None,
        },
    }
}

/// How the configuration says to publish.
pub fn updater_plan(node: &NodeConfig) -> (plan: Option<UpdaterPlan>)
    ensures
        plan == planned(*node),
{
    match node.ddns_provider {
        DdnsProvider::Webhook => match &node.ddns_webhook_url {
            Some(u) => {
                let secret = match &node.ddns_secret {
                    Some(s) => Some(s.clone()),
                    None => None,
                };
                Some(UpdaterPlan::Webhook { url: u.clone(), secret })
            },
            None => None,
        },
        DdnsProvider::Cloudflare => match (&node.ddns_secret, &node.ddns_zone) {
            (Some(t), Some(z)) => Some(
                UpdaterPlan::Cloudflare { token: t.clone(), zone: z.clone() },
            ),
            _ => None,
        },
    }
}

/// Exactly the peers with a record are looked up.
pub proof fn law_peers_with_records(peers: Seq<DdnsPeer>, p: DdnsPeer)
    ensures
        with_record(peers).contains(p) <==> peers.contains(p) && p.fqdn is Some,
        with_record(peers).len() <= peers.len(),
{
    let has = |p: DdnsPeer| p.fqdn is Some;
    seqs::lemma_filter_members(peers, has);
    assert(has(p) == p.fqdn is Some);
}

/// A webhook needs its URL, and takes the secret along when there is one;
/// Cloudflare needs a token and a zone.
pub proof fn law_providers_need_their_settings(node: NodeConfig)
    ensures
        match node.ddns_provider {
            DdnsProvider::Webhook => {
                &&& planned(node) is Some <==> node.ddns_webhook_url is Some
                &&& planned(node) matches Some(plan) ==> plan is Webhook && plan->url
                    == node.ddns_webhook_url->Some_0 && plan->secret == node.ddns_secret
            },
            DdnsProvider::Cloudflare => {
                &&& planned(node) is Some <==> node.ddns_secret is Some && node.ddns_zone is Some
                &&& planned(node) matches Some(plan) ==> plan is Cloudflare && plan->token
                    == node.ddns_secret->Some_0 && plan->zone == node.ddns_zone->Some_0
            },
        },
{
}

} // verus!
