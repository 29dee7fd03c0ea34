//! Decisions of the reliable-channel listener: the handshake that turns the
//! first line of a new connection into a registered peer, and the per-peer
//! receive loop's step, which formats a received line and picks the
//! recipients of the broadcast. Accepting connections and reading or writing
//! lines is I/O and happens outside this crate; each loop iteration hands the
//! line (or the end of the stream) to the step function here.

use vstd::prelude::*;
use vstd::string::StringExecFns;
use crate::registry::{broadcast_targets_of, removed, PeerAddr, Peer, PeerRegistry, PeerView};

verus! {

/// What `str::trim` returns: the input without leading and trailing
/// whitespace. The result depends on the characters alone.
pub uninterp spec fn trimmed_of(s: Seq<char>) -> Seq<char>;

/// Relies on `str::trim`: returns the input without leading and trailing
/// whitespace.
#[verifier::external_body]
fn trim_line(s: &str) -> (out: String)
    ensures
        out@ == trimmed_of(s@),
{
    s.trim().to_string()
}

/// The line relayed for a message: `"<identity>: <line>\n"`.
pub open spec fn relay_line(identity: Seq<char>, line: Seq<char>) -> Seq<char> {
    identity + seq![':', ' '] + line + seq!['\n']
}

/// Formats one received line for relaying: the sender's identity, a colon
/// and a space, the line, and a terminating newline.
pub fn format_relay_message(identity: &str, line: &str) -> (out: String)
    ensures
        out@ == relay_line(identity@, line@),
{
    let mut out = identity.to_owned();
    out.append(": ");
    out.append(line);
    out.append("\n");
    proof {
        reveal_strlit(": ");
        reveal_strlit("\n");
        assert(": "@ =~= seq![':', ' ']);
        assert("\n"@ =~= seq!['\n']);
    }
    out
}

/// The handshake of the reliable listener. A connection that delivers a
/// first line becomes a registered peer: the line, trimmed, is its identity,
/// and a fresh registration at an already-known address wins over the stale
/// entry. A connection that closes before a line arrives (`None`) is not
/// registered. Returns the identity the receive loop will relay under.
pub fn handshake_step(
    registry: &mut PeerRegistry,
    address: PeerAddr,
    first_line: Option<&str>,
) -> (identity: Option<String>)
    ensures
        match first_line {
            Some(line) => {
                &&& identity matches Some(id) && id@ == trimmed_of(line@)
                &&& final(registry)@ == removed(old(registry)@, address).push(
                    (PeerView { identity: trimmed_of(line@), address }),
                )
                &&& old(registry).wf() ==> final(registry).wf()
            },
            None => {
                &&& identity is None
                &&& final(registry)@ == old(registry)@
            },
        },
{
    match first_line {
        Some(line) => {
            let name = trim_line(line);
            let id = name.clone();
            registry.register(Peer { identity: name, address });
            Some(id)
        },
        None => None,
    }
}

/// One event on an active reliable connection.
pub enum SessionEvent {
    /// A full line was read, without its terminating newline.
    Line(String),
    /// The peer closed the connection (a zero-length read).
    Closed,
    /// Reading from the connection failed.
    Failed,
}

/// What the receive loop must do with one event.
pub enum SessionAction {
    /// Write `message` to the reliable channel of each address in
    /// `targets`; a failed write to one target must not stop the others.
    Deliver { message: String, targets: Vec<PeerAddr> },
    /// The session ended and the peer is unregistered; end the loop.
    Disconnect,
}

/// One step of the per-peer receive loop: a received line is formatted as
/// `"<identity>: <line>\n"` and delivered to every registered peer except
/// the sender; a close or a read error unregisters the peer and ends the
/// session.
pub fn reliable_step(
    registry: &mut PeerRegistry,
    identity: &str,
    address: PeerAddr,
    event: SessionEvent,
) -> (action: SessionAction)
    ensures
        match event {
            SessionEvent::Line(line) => {
                &&& final(registry)@ == old(registry)@
                &&& action matches SessionAction::Deliver { message, targets } && message@
                    == relay_line(identity@, line@) && targets@ == broadcast_targets_of(
                    old(registry)@,
                    address,
                )
            },
            _ => {
                &&& final(registry)@ == removed(old(registry)@, address)
                &&& old(registry).wf() ==> final(registry).wf()
                &&& action is Disconnect
            },
        },
{
    match event {
        SessionEvent::Line(line) => {
            let message = format_relay_message(identity, line.as_str());
            let targets = registry.broadcast_targets(address);
            SessionAction::Deliver { message, targets }
        },
        _ => {
            registry.unregister(address);
            SessionAction::Disconnect
        },
    }
}

} // verus!
