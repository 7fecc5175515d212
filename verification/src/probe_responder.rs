//! Answering reachability probes of other nodes.

use crate::addr::{Ipv6Addr, SocketAddr, SocketAddrV6};
use crate::probe::{ProbeKind, ProbePacket};
use crate::table::{self, Table};
use crate::time::{self, Instant};
use vstd::prelude::*;

verus! {

/// How long after a request the unsolicited packet is sent, in nanoseconds:
/// 0.3 s.
pub const UNSOLICITED_DELAY: u64 = 300_000_000;

/// How long an address has to wait between two requests, in nanoseconds: 1 s.
pub const MIN_REQUEST_INTERVAL: u64 = 1_000_000_000;

/// How many addresses are kept track of.
pub const RATE_TABLE_MAX: usize = 64;

/// How long an address is remembered when room is needed, in nanoseconds:
/// 60 s.
pub const RATE_ENTRY_TTL: u64 = 60_000_000_000;

/// A limit on how often an address may ask.
#[derive(Debug)]
pub struct RateLimiter {
    seen: Table<Ipv6Addr, Instant>,
}

/// When each address last asked, in nanoseconds.
pub type Asked = Map<u128, int>;

impl View for RateLimiter {
    type V = Asked;

    closed spec fn view(&self) -> Asked {
        self.seen@
    }
}

/// Whether an address has to wait.
pub open spec fn too_soon(m: Asked, ip: Ipv6Addr, now: int) -> bool {
    m.dom().contains(ip.bits) && time::elapsed(now, m[ip.bits]) < MIN_REQUEST_INTERVAL
}

/// The addresses that asked within the last minute.
pub open spec fn recent(m: Asked, now: int) -> Asked {
    m.restrict(
        Set::new(
            |k: u128| m.dom().contains(k) && time::elapsed(now, m[k]) < RATE_ENTRY_TTL,
        ),
    )
}

/// The table with room for one more address. When it is full of recent
/// addresses all are forgotten: a limit that is loose for a moment is better
/// than a table that grows.
pub open spec fn with_room(m: Asked, now: int) -> Asked {
    if m.dom().len() < RATE_TABLE_MAX {
        m
    } else if recent(m, now).dom().len() < RATE_TABLE_MAX {
        recent(m, now)
    } else {
        Asked::empty()
    }
}

fn is_recent(t: &Instant, now: Instant) -> (yes: bool)
    ensures
        yes == (time::elapsed(now@, t@) < RATE_ENTRY_TTL),
{
    now.nanos_since(*t) < RATE_ENTRY_TTL
}

impl Default for RateLimiter {
    fn default() -> (l: Self)
        ensures
            l.wf(),
            l@ == Asked::empty(),
    {
        RateLimiter::new()
    }
}

impl RateLimiter {
    /// Whether no address is kept twice, and no more than allowed.
    pub closed spec fn wf(&self) -> bool {
        &&& self.seen.wf()
        &&& self@.dom().finite()
        &&& self@.dom().len() <= RATE_TABLE_MAX
    }

    /// A limiter that has seen nobody.
    pub fn new() -> (l: Self)
        ensures
            l.wf(),
            l@ == Asked::empty(),
    {
        RateLimiter { seen: Table::new() }
    }

    /// How many addresses are kept track of.
    pub fn tracked_count(&self) -> (n: usize)
        requires
            self.wf(),
        ensures
            n == self@.dom().len(),
            n <= RATE_TABLE_MAX,
    {
        self.seen.len()
    }

    /// Tells whether to let a request from this address through, and notes it.
    pub fn allow(&mut self, ip: Ipv6Addr, now: Instant) -> (yes: bool)
        requires
            old(self).wf(),
        ensures
            final(self).wf(),
            yes == !too_soon(old(self)@, ip, now@),
            final(self)@ == if yes {
                with_room(old(self)@, now@).insert(ip.bits, now@)
            } else {
                old(self)@
            },
    {
        if let Some(prev) = self.seen.get(&ip) {
            if now.nanos_since(*prev) < MIN_REQUEST_INTERVAL {
                return false;
            }
        }
        if self.seen.len() >= RATE_TABLE_MAX {
            let ghost m = self@;
            let ghost all = self.seen.listed();
            let ghost kept = |e: (u128, int)| time::elapsed(now@, e.1) < RATE_ENTRY_TTL;
            let keep = |_k: &Ipv6Addr, t: &Instant| -> (b: bool)
                ensures
                    b == (time::elapsed(now@, t@) < RATE_ENTRY_TTL),
            {
                is_recent(t, now)
            };
            self.seen.retain(keep, Ghost(kept));
            proof {
                table::lemma_as_map_filter(all, kept);
                assert(self@ =~= recent(m, now@));
                vstd::set_lib::lemma_len_subset(self@.dom(), m.dom());
            }
            if self.seen.len() >= RATE_TABLE_MAX {
                self.seen = Table::new();
            }
        }
        self.seen.insert(ip, now);
        true
    }
}

/// What to send back to a probe.
#[derive(Clone, Copy, Debug)]
pub struct ProbeReply {
    /// The answer, to the address that asked.
    pub response: ProbePacket,
    /// A packet to send a little later, from another port, and where to.
    pub unsolicited: Option<(SocketAddrV6, ProbePacket)>,
}

/// Whether a packet is a request that came over IPv6.
pub open spec fn is_request(packet: Option<ProbePacket>, src: SocketAddr) -> bool {
    packet is Some && packet->Some_0.kind == ProbeKind::Request && src is V6
}

/// The answer to the request `p` from `from`.
pub open spec fn reply_to(p: ProbePacket, from: SocketAddrV6) -> ProbeReply {
    ProbeReply {
        response: ProbePacket { kind: ProbeKind::Response, nonce: p.nonce, reply_port: 0 },
        unsolicited: if p.reply_port == 0 {
            None
        } else {
            Some(
                (
                    SocketAddrV6 {
                        ip: from.ip,
                        port: p.reply_port,
                        flowinfo: 0,
                        scope_id: from.scope_id,
                    },
                    ProbePacket { kind: ProbeKind::Unsolicited, nonce: p.nonce, reply_port: 0 },
                ),
            )
        },
    }
}

/// Handles what arrived at the probe socket: `packet` is the packet, or `None`
/// when the datagram is no authentic one. What is no request, or comes too
/// soon after another, is dropped silently.
pub fn respond(
    limiter: &mut RateLimiter,
    packet: Option<ProbePacket>,
    src: SocketAddr,
    now: Instant,
) -> (reply: Option<ProbeReply>)
    requires
        old(limiter).wf(),
    ensures
        final(limiter).wf(),
        !is_request(packet, src) ==> reply is None && final(limiter)@ == old(limiter)@,
        is_request(packet, src) ==> {
            let from = src->V6_0;
            if too_soon(old(limiter)@, from.ip, now@) {
                reply is None && final(limiter)@ == old(limiter)@
            } else {
                &&& reply == Some(reply_to(packet->Some_0, from))
                &&& final(limiter)@ == with_room(old(limiter)@, now@).insert(from.ip.bits, now@)
            }
        },
{
    let from = match src {
        SocketAddr::V4 { .. } => {
            return None;
        },
        SocketAddr::V6(v6) => v6,
    };
    let p = match packet {
        Some(p) => p,
        None => {
            return None;
        },
    };
    if p.kind != ProbeKind::Request {
        return None;
    }
    if !limiter.allow(from.ip, now) {
        return None;
    }
    let unsolicited = if p.reply_port == 0 {
        None
    } else {
        Some(
            (
                SocketAddrV6::new(from.ip, p.reply_port, 0, from.scope_id),
                ProbePacket { kind: ProbeKind::Unsolicited, nonce: p.nonce, reply_port: 0 },
            ),
        )
    };
    Some(
        ProbeReply {
            response: ProbePacket { kind: ProbeKind::Response, nonce: p.nonce, reply_port: 0 },
            unsolicited,
        },
    )
}

/// A sound limiter keeps track of no more addresses than allowed.
pub proof fn law_rate_table_bounded(l: &RateLimiter)
    requires
        l.wf(),
    ensures
        l@.dom().finite(),
        l@.dom().len() <= RATE_TABLE_MAX,
{
}

/// After a request was let through, the same address has to wait for exactly
/// the interval, and any other address never has to wait longer than before.
pub proof fn law_limits_are_per_address(m: Asked, ip: Ipv6Addr, other: Ipv6Addr, now: int, later: int)
    requires
        other.bits != ip.bits,
    ensures
        too_soon(with_room(m, now).insert(ip.bits, now), ip, later) <==> later < now
            + MIN_REQUEST_INTERVAL,
        too_soon(with_room(m, now).insert(ip.bits, now), other, later) ==> too_soon(
            m,
            other,
            later,
        ),
{
}

/// An address has to wait exactly until a second has passed since it last asked.
pub proof fn law_one_request_a_second(m: Asked, ip: Ipv6Addr, now: int)
    ensures
        too_soon(m, ip, now) <==> m.dom().contains(ip.bits) && now - m[ip.bits] < 1_000_000_000,
{
}

/// Nobody is forgotten while fewer than 64 addresses are kept. In a full table
/// those that asked within the last minute are kept, unless they fill it; nobody
/// is ever added.
pub proof fn law_room_is_made(m: Asked, now: int, k: u128)
    ensures
        with_room(m, now).dom().len() < 64,
        m.dom().len() < 64 ==> with_room(m, now) == m,
        with_room(m, now).dom().contains(k) ==> m.dom().contains(k) && with_room(m, now)[k]
            == m[k],
        m.dom().len() >= 64 && with_room(m, now).dom().contains(k) ==> now - m[k]
            < 60_000_000_000,
        m.dom().len() >= 64 && m.dom().contains(k) && now - m[k] < 60_000_000_000
            && !with_room(m, now).dom().contains(k) ==> recent(m, now).dom().len() >= 64,
        recent(m, now).dom().contains(k) <==> m.dom().contains(k) && now - m[k] < 60_000_000_000,
{
}

/// Only requests over IPv6 are answered.
pub proof fn law_only_requests_are_answered(p: ProbePacket, src: SocketAddr)
    ensures
        is_request(Some(p), src) <==> p.kind == ProbeKind::Request && src is V6,
        !is_request(None, src),
{
}

/// The answer carries the number of the request. When the request names a port,
/// an unsolicited packet with that number goes there, at the address that asked.
pub proof fn law_reply_matches_the_request(p: ProbePacket, from: SocketAddrV6)
    ensures
        ({
            let r = reply_to(p, from);
            &&& r.response.kind == ProbeKind::Response
            &&& r.response.nonce == p.nonce
            &&& r.response.reply_port == 0
            &&& r.unsolicited is Some <==> p.reply_port != 0
            &&& r.unsolicited matches Some(u) ==> {
                &&& u.0.ip == from.ip
                &&& u.0.port == p.reply_port
                &&& u.0.flowinfo == 0
                &&& u.0.scope_id == from.scope_id
                &&& u.1.kind == ProbeKind::Unsolicited
                &&& u.1.nonce == p.nonce
                &&& u.1.reply_port == 0
            }
        }),
{
}

} // verus!
