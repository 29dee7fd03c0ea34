//! Core logic of a multi-transport chat relay: the peer registry and the
//! broadcast / forwarding decisions of the three listener loops (a reliable
//! per-peer stream, a connectionless per-peer channel, and a multicast group
//! channel). All socket handling lives outside this crate; the functions here
//! work on plain values and are verified.

pub mod datagram;
pub mod client;
pub mod registry;
pub mod reliable;
