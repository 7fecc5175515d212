//! Packets of the reachability probe, decoded.

use vstd::prelude::*;

verus! {

/// What a probe packet is.
#[derive(Clone, Copy, PartialEq, Eq, Debug, Structural)]
pub enum ProbeKind {
    /// A request to probe back.
    Request,
    /// The answer to a request, over the path that the request opened.
    Response,
    /// A packet that nothing asked for on its path.
    Unsolicited,
}

/// A probe packet whose authentication was checked.
#[derive(Clone, Copy, PartialEq, Eq, Debug, Structural)]
pub struct ProbePacket {
    /// What the packet is.
    pub kind: ProbeKind,
    /// The number that ties answers to their request.
    pub nonce: u64,
    /// Where a request wants its unsolicited packet; 0 for none.
    pub reply_port: u16,
}

} // verus!
