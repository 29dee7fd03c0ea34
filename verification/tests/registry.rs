use relay_core::registry::{Peer, PeerAddr, PeerRegistry};

fn addr(ip: u32, port: u16) -> PeerAddr {
    PeerAddr { ip, port }
}

fn peer(name: &str, a: PeerAddr) -> Peer {
    Peer { identity: name.to_string(), address: a }
}

#[test]
fn register_and_enumerate() {
    let mut r = PeerRegistry::new();
    assert_eq!(r.len(), 0);
    let a1 = addr(1, 10);
    let a2 = addr(2, 20);
    let a3 = addr(3, 30);
    r.register(peer("ann", a1));
    r.register(peer("bob", a2));
    r.register(peer("cid", a3));
    assert_eq!(r.len(), 3);
    assert!(r.contains_addr(a2));
    assert!(!r.contains_addr(addr(9, 90)));
    assert_eq!(r.broadcast_targets(a1), vec![a2, a3]);
    assert_eq!(r.broadcast_targets(a2), vec![a1, a3]);
    assert_eq!(r.lookup_identity(a3), Some("cid".to_string()));
    assert_eq!(r.lookup_identity(addr(9, 90)), None);
}

#[test]
fn last_registration_wins() {
    let mut r = PeerRegistry::new();
    let a1 = addr(1, 10);
    let a2 = addr(2, 20);
    r.register(peer("stale", a1));
    r.register(peer("bob", a2));
    r.register(peer("fresh", a1));
    assert_eq!(r.len(), 2);
    assert_eq!(r.lookup_identity(a1), Some("fresh".to_string()));
    let targets = r.broadcast_targets(a2);
    assert_eq!(targets.iter().filter(|t| **t == a1).count(), 1);
}

#[test]
fn unregister_excludes_and_is_idempotent() {
    let mut r = PeerRegistry::new();
    let a1 = addr(1, 10);
    let a2 = addr(2, 20);
    let a3 = addr(3, 30);
    r.register(peer("ann", a1));
    r.register(peer("bob", a2));
    r.register(peer("cid", a3));
    r.unregister(a2);
    assert_eq!(r.len(), 2);
    assert!(!r.contains_addr(a2));
    assert_eq!(r.broadcast_targets(a1), vec![a3]);
    r.unregister(a2);
    assert_eq!(r.len(), 2);
    assert_eq!(r.broadcast_targets(a1), vec![a3]);
    r.unregister(addr(9, 90));
    assert_eq!(r.len(), 2);
}

#[test]
fn broadcast_from_unknown_sender_reaches_all() {
    let mut r = PeerRegistry::new();
    let a1 = addr(1, 10);
    let a2 = addr(2, 20);
    r.register(peer("ann", a1));
    r.register(peer("bob", a2));
    assert_eq!(r.broadcast_targets(addr(9, 90)), vec![a1, a2]);
}

#[test]
fn interleaved_operations_stay_consistent() {
    let mut r = PeerRegistry::new();
    let a1 = addr(1, 10);
    let a2 = addr(2, 20);
    let a3 = addr(3, 30);
    r.register(peer("ann", a1));
    r.register(peer("bob", a2));
    assert_eq!(r.broadcast_targets(a1).len(), 1);
    r.unregister(a1);
    r.register(peer("cid", a3));
    assert_eq!(r.broadcast_targets(a2), vec![a3]);
    r.register(peer("ann2", a1));
    r.unregister(a3);
    assert_eq!(r.len(), 2);
    assert_eq!(r.broadcast_targets(a2), vec![a1]);
    assert_eq!(r.broadcast_targets(a1), vec![a2]);
}

#[test]
fn peer_duplicate_preserves_fields() {
    let p = peer("ann", addr(1, 10));
    let d = p.duplicate();
    assert_eq!(d.identity, p.identity);
    assert_eq!(d.address, p.address);
}
