use relay_core::client::{classify_input, ClientCommand};
use relay_core::datagram::{group_step, truncate_datagram, unreliable_step, MAX_DATAGRAM};
use relay_core::registry::{Peer, PeerAddr, PeerRegistry};
use relay_core::reliable::{format_relay_message, handshake_step, reliable_step, SessionAction, SessionEvent};

fn addr(ip: u32, port: u16) -> PeerAddr {
    PeerAddr { ip, port }
}

fn peer(name: &str, a: PeerAddr) -> Peer {
    Peer { identity: name.to_string(), address: a }
}

#[test]
fn relay_format_is_exact() {
    let m = format_relay_message("ann", "hello there");
    assert_eq!(m, "ann: hello there\n".to_string());
    let e = format_relay_message("", "");
    assert_eq!(e, ": \n".to_string());
}

#[test]
fn two_peer_round_trip() {
    let mut r = PeerRegistry::new();
    let a1 = addr(1, 10);
    let a2 = addr(2, 20);
    r.register(peer("peer1", a1));
    r.register(peer("peer2", a2));
    let action = reliable_step(&mut r, "peer1", a1, SessionEvent::Line("hello".to_string()));
    match action {
        SessionAction::Deliver { message, targets } => {
            assert_eq!(message, "peer1: hello\n".to_string());
            assert_eq!(targets, vec![a2]);
            assert!(!targets.contains(&a1));
        }
        SessionAction::Disconnect => panic!("a received line must be delivered"),
    }
}

#[test]
fn close_and_error_unregister_the_peer() {
    for event in [SessionEvent::Closed, SessionEvent::Failed] {
        let mut r = PeerRegistry::new();
        let a1 = addr(1, 10);
        let a2 = addr(2, 20);
        r.register(peer("ann", a1));
        r.register(peer("bob", a2));
        let action = reliable_step(&mut r, "ann", a1, event);
        assert!(matches!(action, SessionAction::Disconnect));
        assert!(!r.contains_addr(a1));
        assert_eq!(r.broadcast_targets(a2), Vec::<PeerAddr>::new());
    }
}

#[test]
fn handshake_registers_trimmed_identity() {
    let mut r = PeerRegistry::new();
    let a1 = addr(1, 10);
    let id = handshake_step(&mut r, a1, Some("  alice \n"));
    assert_eq!(id, Some("alice".to_string()));
    assert_eq!(r.lookup_identity(a1), Some("alice".to_string()));
    assert_eq!(r.len(), 1);
}

#[test]
fn handshake_accepts_empty_name_and_skips_silent_connections() {
    let mut r = PeerRegistry::new();
    let a1 = addr(1, 10);
    let id = handshake_step(&mut r, a1, Some("\n"));
    assert_eq!(id, Some(String::new()));
    assert_eq!(r.lookup_identity(a1), Some(String::new()));
    let a2 = addr(2, 20);
    let none = handshake_step(&mut r, a2, None);
    assert_eq!(none, None);
    assert!(!r.contains_addr(a2));
    assert_eq!(r.len(), 1);
}

#[test]
fn sequential_sends_fan_out_to_all_but_sender() {
    // Three peers each send two messages; every peer is targeted by the
    // other senders' messages and never by its own.
    let mut r = PeerRegistry::new();
    let addrs = [addr(1, 10), addr(2, 20), addr(3, 30)];
    let names = ["ann", "bob", "cid"];
    for (name, a) in names.iter().zip(addrs.iter()) {
        r.register(peer(name, *a));
    }
    let mut received = [0usize; 3];
    for round in 0..2 {
        for (s, sender) in addrs.iter().enumerate() {
            let line = format!("msg {round}");
            let action = reliable_step(&mut r, names[s], *sender, SessionEvent::Line(line));
            match action {
                SessionAction::Deliver { message, targets } => {
                    assert_eq!(message, format!("{}: msg {round}\n", names[s]));
                    assert_eq!(targets.len(), 2);
                    for (t, a) in addrs.iter().enumerate() {
                        if targets.contains(a) {
                            assert_ne!(t, s);
                            received[t] += 1;
                        }
                    }
                }
                SessionAction::Disconnect => panic!("a received line must be delivered"),
            }
        }
    }
    // each of the 3 peers is targeted by the 2 other senders, twice
    assert_eq!(received, [4, 4, 4]);
}

#[test]
fn datagram_from_registered_peer_is_forwarded_verbatim() {
    let mut r = PeerRegistry::new();
    let a1 = addr(1, 10);
    let a2 = addr(2, 20);
    let a3 = addr(3, 30);
    r.register(peer("ann", a1));
    r.register(peer("bob", a2));
    r.register(peer("cid", a3));
    let payload = b"raw bytes \xff\x00 included";
    let plan = unreliable_step(&r, a2, payload);
    assert_eq!(plan.payload, payload.to_vec());
    assert_eq!(plan.targets, vec![a1, a3]);
}

#[test]
fn datagram_from_unknown_sender_is_dropped() {
    let mut r = PeerRegistry::new();
    let a1 = addr(1, 10);
    r.register(peer("ann", a1));
    let plan = unreliable_step(&r, addr(9, 90), b"noise");
    assert_eq!(plan.targets, Vec::<PeerAddr>::new());
}

#[test]
fn datagram_boundary_sizes() {
    let exact = vec![7u8; MAX_DATAGRAM];
    assert_eq!(truncate_datagram(&exact), exact);
    let over = vec![8u8; MAX_DATAGRAM + 1];
    let clipped = truncate_datagram(&over);
    assert_eq!(clipped.len(), MAX_DATAGRAM);
    assert_eq!(clipped, over[..MAX_DATAGRAM].to_vec());
    let mut r = PeerRegistry::new();
    let a1 = addr(1, 10);
    let a2 = addr(2, 20);
    r.register(peer("ann", a1));
    r.register(peer("bob", a2));
    let plan = unreliable_step(&r, a1, &over);
    assert_eq!(plan.payload.len(), MAX_DATAGRAM);
    assert_eq!(plan.targets, vec![a2]);
}

#[test]
fn group_datagrams_are_republished_unchanged() {
    let payload = b"group news";
    assert_eq!(group_step(payload), payload.to_vec());
    let over = vec![1u8; MAX_DATAGRAM + 50];
    assert_eq!(group_step(&over), over[..MAX_DATAGRAM].to_vec());
}

#[test]
fn client_input_classification() {
    match classify_input("U hi there") {
        ClientCommand::Unreliable(m) => assert_eq!(m, "hi there".to_string()),
        _ => panic!("a 'U ' line goes to the unreliable channel"),
    }
    match classify_input("M news") {
        ClientCommand::Group(m) => assert_eq!(m, "news".to_string()),
        _ => panic!("an 'M ' line goes to the group channel"),
    }
    assert!(matches!(classify_input("!quit"), ClientCommand::Quit));
    match classify_input("plain words") {
        ClientCommand::Reliable(m) => assert_eq!(m, "plain words\n".to_string()),
        _ => panic!("other lines go to the reliable channel"),
    }
    match classify_input("U") {
        ClientCommand::Reliable(m) => assert_eq!(m, "U\n".to_string()),
        _ => panic!("a bare 'U' is an ordinary message"),
    }
    match classify_input("!quit now") {
        ClientCommand::Reliable(m) => assert_eq!(m, "!quit now\n".to_string()),
        _ => panic!("only the exact quit word quits"),
    }
}
