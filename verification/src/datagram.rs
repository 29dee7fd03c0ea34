//! Forwarding decisions of the two datagram listeners. The unreliable
//! per-peer channel forwards a datagram from a registered peer, verbatim, to
//! every other registered peer's address, and silently drops a datagram from
//! an unknown address; the group channel re-publishes every datagram to the
//! multicast group. Both read through a fixed-size buffer, so a payload
//! longer than `MAX_DATAGRAM` bytes is truncated, not rejected. Receiving
//! and sending the datagrams is I/O and happens outside this crate.

use vstd::prelude::*;
use crate::registry::{broadcast_targets_of, has_addr, PeerAddr, PeerRegistry};

verus! {

/// The size of a datagram listener's receive buffer: the most of one
/// payload that is ever read, and so the most that is ever forwarded.
pub const MAX_DATAGRAM: usize = 1024;

/// What one receive through the fixed-size buffer yields: the payload as
/// sent, truncated to `MAX_DATAGRAM` bytes.
pub open spec fn clipped(data: Seq<u8>) -> Seq<u8> {
    if data.len() <= MAX_DATAGRAM {
        data
    } else {
        data.take(MAX_DATAGRAM as int)
    }
}

/// The bytes a datagram listener reads from one payload: the payload
/// itself, or its first `MAX_DATAGRAM` bytes when it is longer.
pub fn truncate_datagram(data: &[u8]) -> (out: Vec<u8>)
    ensures
        out@ == clipped(data@),
{
    let n = data.len();
    let m = if n <= MAX_DATAGRAM {
        n
    } else {
        MAX_DATAGRAM
    };
    let sub = vstd::slice::slice_subrange(data, 0, m);
    let out = vstd::slice::slice_to_vec(sub);
    proof {
        assert(out@ =~= clipped(data@));
    }
    out
}

/// What one datagram on the unreliable channel becomes.
pub struct ForwardPlan {
    /// The bytes to forward: the received payload, verbatim.
    pub payload: Vec<u8>,
    /// The addresses to send them to, over the same datagram socket.
    pub targets: Vec<PeerAddr>,
}

/// One step of the unreliable-channel listener. A datagram whose source is
/// a registered peer is forwarded, byte for byte as read, to every other
/// registered peer's address; a datagram from an unknown source is dropped
/// (no targets), so unidentified senders cannot inject into the group.
pub fn unreliable_step(registry: &PeerRegistry, src: PeerAddr, data: &[u8]) -> (plan: ForwardPlan)
    ensures
        plan.payload@ == clipped(data@),
        has_addr(registry@, src) ==> plan.targets@ == broadcast_targets_of(registry@, src),
        !has_addr(registry@, src) ==> plan.targets@ == Seq::<PeerAddr>::empty(),
{
    let payload = truncate_datagram(data);
    let targets = if registry.contains_addr(src) {
        registry.broadcast_targets(src)
    } else {
        Vec::new()
    };
    proof {
        if !has_addr(registry@, src) {
            assert(targets@ =~= Seq::<PeerAddr>::empty());
        }
    }
    ForwardPlan { payload, targets }
}

/// One step of the group-channel listener: every received datagram is
/// re-published to the multicast group unchanged (after buffer truncation).
/// No sender filtering applies here, because group membership, not registry
/// membership, decides the recipients.
pub fn group_step(data: &[u8]) -> (out: Vec<u8>)
    ensures
        out@ == clipped(data@),
{
    truncate_datagram(data)
}

} // verus!
