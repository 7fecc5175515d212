//! Asking another node to probe this one, and what the answers prove.

use crate::addr::{Ipv6Addr, SocketAddrV6};
use crate::probe::{ProbeKind, ProbePacket};
use vstd::prelude::*;

verus! {

/// How often a request is repeated, in nanoseconds: 0.7 s.
pub const REQUEST_RETRY_INTERVAL: u64 = 700_000_000;

/// What a probe proved.
#[derive(Clone, Copy, PartialEq, Eq, Debug, Structural)]
pub struct ProbeEvidence {
    /// Whether this node has a public address at all.
    pub has_global_ipv6: bool,
    /// Whether the answer came, over the path that the request opened.
    pub solicited_ok: bool,
    /// Whether the packet came that nothing had opened a path for.
    pub unsolicited_ok: bool,
}

/// The outcome of a probe.
#[derive(Debug)]
pub struct ProbeOutcome {
    /// What it proved.
    pub evidence: ProbeEvidence,
    /// The node that probed back.
    pub target: SocketAddrV6,
    /// This node's public addresses.
    pub global_addresses: Vec<Ipv6Addr>,
}

/// A probe under way.
///
/// Requests are sent from one socket, which also takes the answer; a second
/// socket only receives, so that what arrives there was not asked for.
#[derive(Clone, Copy, Debug)]
pub struct ProbeSession {
    /// The number that ties answers to the request.
    pub nonce: u64,
    /// The port of the second socket.
    pub reply_port: u16,
    /// Whether the answer came.
    pub solicited_ok: bool,
    /// Whether the unsolicited packet came.
    pub unsolicited_ok: bool,
}

/// Whether a packet is of this kind and belongs to this request.
pub open spec fn belongs(packet: Option<ProbePacket>, kind: ProbeKind, nonce: u64) -> bool {
    packet is Some && packet->Some_0.kind == kind && packet->Some_0.nonce == nonce
}

fn matches_request(packet: Option<ProbePacket>, kind: ProbeKind, nonce: u64) -> (yes: bool)
    ensures
        yes == belongs(packet, kind, nonce),
{
    match packet {
        Some(p) => p.kind == kind && p.nonce == nonce,
        None => false,
    }
}

impl ProbeSession {
    /// A probe that has proved nothing yet.
    pub fn new(nonce: u64, reply_port: u16) -> (s: Self)
        ensures
            s == (ProbeSession { nonce, reply_port, solicited_ok: false, unsolicited_ok: false }),
    {
        ProbeSession { nonce, reply_port, solicited_ok: false, unsolicited_ok: false }
    }

    /// The request to send.
    pub fn request(&self) -> (p: ProbePacket)
        ensures
            p == (ProbePacket {
                kind: ProbeKind::Request,
                nonce: self.nonce,
                reply_port: self.reply_port,
            }),
    {
        ProbePacket { kind: ProbeKind::Request, nonce: self.nonce, reply_port: self.reply_port }
    }

    /// Whether the request has to be sent again: not once it was answered.
    pub fn wants_request(&self) -> (yes: bool)
        ensures
            yes == !self.solicited_ok,
    {
        !self.solicited_ok
    }

    /// Whether there is nothing left to prove.
    pub fn is_complete(&self) -> (yes: bool)
        ensures
            yes == (self.solicited_ok && self.unsolicited_ok),
    {
        self.solicited_ok && self.unsolicited_ok
    }

    /// Takes what arrived at the socket that asked: `packet` is the packet, or
    /// `None` when the datagram is no authentic one.
    pub fn on_first_socket(&mut self, packet: Option<ProbePacket>)
        ensures
            *final(self) == (ProbeSession {
                solicited_ok: old(self).solicited_ok || belongs(
                    packet,
                    ProbeKind::Response,
                    old(self).nonce,
                ),
                ..*old(self)
            }),
    {
        if matches_request(packet, ProbeKind::Response, self.nonce) {
            self.solicited_ok = true;
        }
    }

    /// Takes what arrived at the socket that only listens.
    pub fn on_second_socket(&mut self, packet: Option<ProbePacket>)
        ensures
            *final(self) == (ProbeSession {
                unsolicited_ok: old(self).unsolicited_ok || belongs(
                    packet,
                    ProbeKind::Unsolicited,
                    old(self).nonce,
                ),
                ..*old(self)
            }),
    {
        if matches_request(packet, ProbeKind::Unsolicited, self.nonce) {
            self.unsolicited_ok = true;
        }
    }

    /// What the probe of `target` proved, for a node with these public
    /// addresses.
    pub fn finish(&self, target: SocketAddrV6, global_addresses: Vec<Ipv6Addr>) -> (o: ProbeOutcome)
        ensures
            o.evidence == (ProbeEvidence {
                has_global_ipv6: global_addresses@.len() > 0,
                solicited_ok: self.solicited_ok,
                unsolicited_ok: self.unsolicited_ok,
            }),
            o.target == target,
            o.global_addresses == global_addresses,
    {
        ProbeOutcome {
            evidence: ProbeEvidence {
                has_global_ipv6: !global_addresses.is_empty(),
                solicited_ok: self.solicited_ok,
                unsolicited_ok: self.unsolicited_ok,
            },
            target,
            global_addresses,
        }
    }
}

/// Both packets that a responder sends back to a request count as proof for
/// that request.
pub proof fn law_replies_are_proof(s: ProbeSession, from: SocketAddrV6)
    ensures
        ({
            let request = ProbePacket {
                kind: ProbeKind::Request,
                nonce: s.nonce,
                reply_port: s.reply_port,
            };
            let reply = crate::probe_responder::reply_to(request, from);
            &&& belongs(Some(reply.response), ProbeKind::Response, s.nonce)
            &&& reply.unsolicited is Some <==> s.reply_port != 0
            &&& reply.unsolicited matches Some(u) ==> u.0.port == s.reply_port && belongs(
                Some(u.1),
                ProbeKind::Unsolicited,
                s.nonce,
            )
        }),
{
}

/// Packets of another request prove nothing.
pub proof fn law_other_requests_prove_nothing(p: ProbePacket, kind: ProbeKind, nonce: u64)
    requires
        p.nonce != nonce,
    ensures
        !belongs(Some(p), kind, nonce),
{
}

/// A packet counts exactly when it is of the kind waited for and carries the
/// number of the request.
pub proof fn law_what_counts_as_proof(p: ProbePacket, kind: ProbeKind, nonce: u64)
    ensures
        belongs(Some(p), kind, nonce) <==> p.kind == kind && p.nonce == nonce,
        !belongs(None, kind, nonce),
{
}

} // verus!
