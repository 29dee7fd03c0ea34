//! The peer registry: the one piece of state shared by all listener loops.
//! Each operation is a single atomic step of the registry; the lemmas at the
//! end state the laws that the relay relies on (consistency under any
//! interleaving of operations, exclusion of the sender from a broadcast,
//! idempotent removal, and the broadcast fan-out count).

use vstd::prelude::*;

verus! {

/// Transport-level address of a peer: the registry key. A datagram's source
/// is matched against it, and the reliable listener captures it when a
/// connection is accepted.
#[derive(Clone, Copy, PartialEq, Eq, Structural, Debug)]
pub struct PeerAddr {
    pub ip: u32,
    pub port: u16,
}

/// Mathematical model of one registered peer.
pub struct PeerView {
    pub identity: Seq<char>,
    pub address: PeerAddr,
}

/// One connected participant: a display name declared once at handshake time
/// and the address the peer is keyed and routed by.
pub struct Peer {
    pub identity: String,
    pub address: PeerAddr,
}

impl View for Peer {
    type V = PeerView;

    open spec fn view(&self) -> PeerView {
        PeerView { identity: self.identity@, address: self.address }
    }
}

impl Peer {
    /// A copy of this peer, used when handing registry snapshots out.
    pub fn duplicate(&self) -> (r: Peer)
        ensures
            r@ == self@,
    {
        Peer { identity: self.identity.clone(), address: self.address }
    }
}

pub open spec fn views_of(peers: Seq<Peer>) -> Seq<PeerView> {
    peers.map_values(|p: Peer| p@)
}

/// No two entries share an address: the registry invariant.
pub open spec fn addrs_unique(s: Seq<PeerView>) -> bool {
    forall|i: int, j: int| 0 <= i < j < s.len() ==> s[i].address != s[j].address
}

/// Some entry has this address.
pub open spec fn has_addr(s: Seq<PeerView>, a: PeerAddr) -> bool
    decreases s.len(),
{
    s.len() > 0 && (s.last().address == a || has_addr(s.drop_last(), a))
}

/// The entries whose address differs from `a`, in order.
pub open spec fn removed(s: Seq<PeerView>, a: PeerAddr) -> Seq<PeerView>
    decreases s.len(),
{
    if s.len() == 0 {
        Seq::empty()
    } else {
        let rest = removed(s.drop_last(), a);
        if s.last().address == a {
            rest
        } else {
            rest.push(s.last())
        }
    }
}

pub open spec fn addr_seq(s: Seq<PeerView>) -> Seq<PeerAddr> {
    s.map_values(|p: PeerView| p.address)
}

/// The addresses a broadcast from `sender` delivers to: every registered
/// peer except the sender itself, in registry order.
pub open spec fn broadcast_targets_of(s: Seq<PeerView>, sender: PeerAddr) -> Seq<PeerAddr> {
    addr_seq(removed(s, sender))
}

/// The collection of connected peers. Every listener loop goes through the
/// operations below, each of which is one atomic step; the raw collection is
/// never exposed. Registration is keyed by address and the last registration
/// at an address wins.
pub struct PeerRegistry {
    peers: Vec<Peer>,
}

impl View for PeerRegistry {
    type V = Seq<PeerView>;

    closed spec fn view(&self) -> Seq<PeerView> {
        views_of(self.peers@)
    }
}

impl PeerRegistry {
    /// At most one entry per address.
    pub open spec fn wf(&self) -> bool {
        addrs_unique(self@)
    }

    pub fn new() -> (r: PeerRegistry)
        ensures
            r@ == Seq::<PeerView>::empty(),
            r.wf(),
    {
        let r = PeerRegistry { peers: Vec::new() };
        proof {
            assert(r@ =~= Seq::<PeerView>::empty());
        }
        r
    }

    pub fn len(&self) -> (n: usize)
        ensures
            n == self@.len(),
    {
        self.peers.len()
    }

    /// Whether a peer is registered at `address`.
    pub fn contains_addr(&self, address: PeerAddr) -> (present: bool)
        ensures
            present == has_addr(self@, address),
    {
        let n = self.peers.len();
        let mut found = false;
        let mut i: usize = 0;
        while i < n
            invariant
                n == self.peers.len(),
                i <= n,
                found == has_addr(self@.take(i as int), address),
            decreases n - i,
        {
            proof {
                assert(self@.take(i as int + 1).drop_last() =~= self@.take(i as int));
                assert(self@.take(i as int + 1).last() == self@[i as int]);
            }
            if self.peers[i].address == address {
                found = true;
            }
            i += 1;
        }
        proof {
            assert(self@.take(n as int) =~= self@);
        }
        found
    }

    /// The declared identity of the peer registered at `address`, if any.
    pub fn lookup_identity(&self, address: PeerAddr) -> (identity: Option<String>)
        ensures
            match identity {
                Some(id) => has_addr(self@, address) && exists|i: int|
                    0 <= i < self@.len() && self@[i].address == address && self@[i].identity
                        == id@,
                None => !has_addr(self@, address),
            },
    {
        let n = self.peers.len();
        let mut i: usize = 0;
        while i < n
            invariant
                n == self.peers.len(),
                i <= n,
                !has_addr(self@.take(i as int), address),
            decreases n - i,
        {
            proof {
                assert(self@.take(i as int + 1).drop_last() =~= self@.take(i as int));
                assert(self@.take(i as int + 1).last() == self@[i as int]);
            }
            if self.peers[i].address == address {
                proof {
                    lemma_has_addr_index(self@, address);
                }
                return Some(self.peers[i].identity.clone());
            }
            i += 1;
        }
        proof {
            assert(self@.take(n as int) =~= self@);
        }
        None
    }

    /// Removes every entry at `address`; absent addresses are a no-op.
    pub fn unregister(&mut self, address: PeerAddr)
        ensures
            final(self)@ == removed(old(self)@, address),
            old(self).wf() ==> final(self).wf(),
    {
        let n = self.peers.len();
        let mut kept: Vec<Peer> = Vec::new();
        let mut i: usize = 0;
        while i < n
            invariant
                self.peers == old(self).peers,
                n == self.peers.len(),
                i <= n,
                views_of(kept@) == removed(old(self)@.take(i as int), address),
            decreases n - i,
        {
            proof {
                lemma_removed_take_step(old(self)@, address, i as int);
            }
            let ghost prev = views_of(kept@);
            let p = &self.peers[i];
            if !(p.address == address) {
                kept.push(p.duplicate());
                proof {
                    assert(views_of(kept@) =~= prev.push(old(self)@[i as int]));
                }
            }
            i += 1;
        }
        proof {
            assert(old(self)@.take(n as int) =~= old(self)@);
        }
        self.peers = kept;
        proof {
            if old(self).wf() {
                lemma_removed_unique(old(self)@, address);
            }
        }
    }

    /// Registers a peer, keyed by its address; a fresh registration at an
    /// already-registered address replaces the old entry (the last
    /// registration wins).
    pub fn register(&mut self, peer: Peer)
        ensures
            final(self)@ == removed(old(self)@, peer@.address).push(peer@),
            old(self).wf() ==> final(self).wf(),
    {
        let address = peer.address;
        self.unregister(address);
        let ghost mid = self@;
        self.peers.push(peer);
        proof {
            assert(self@ =~= mid.push(peer@));
            if old(self).wf() {
                lemma_removed_has(old(self)@, address, address);
                lemma_has_addr_index(mid, address);
            }
        }
    }

    /// The addresses one broadcast from `sender` delivers to: a snapshot of
    /// every registered peer except the sender, taken under one registry
    /// operation.
    pub fn broadcast_targets(&self, sender: PeerAddr) -> (targets: Vec<PeerAddr>)
        ensures
            targets@ == broadcast_targets_of(self@, sender),
    {
        let n = self.peers.len();
        let mut targets: Vec<PeerAddr> = Vec::new();
        let mut i: usize = 0;
        while i < n
            invariant
                n == self.peers.len(),
                i <= n,
                targets@ == addr_seq(removed(self@.take(i as int), sender)),
            decreases n - i,
        {
            proof {
                lemma_removed_take_step(self@, sender, i as int);
            }
            let ghost prev = targets@;
            let p = &self.peers[i];
            if !(p.address == sender) {
                targets.push(p.address);
                proof {
                    assert(addr_seq(removed(self@.take(i as int + 1), sender)) =~= prev.push(
                        self@[i as int].address,
                    ));
                }
            }
            i += 1;
        }
        proof {
            assert(self@.take(n as int) =~= self@);
        }
        targets
    }
}

proof fn lemma_removed_take_step(s: Seq<PeerView>, a: PeerAddr, i: int)
    requires
        0 <= i < s.len(),
    ensures
        removed(s.take(i + 1), a) == if s[i].address == a {
            removed(s.take(i), a)
        } else {
            removed(s.take(i), a).push(s[i])
        },
{
    assert(s.take(i + 1).drop_last() =~= s.take(i));
    assert(s.take(i + 1).last() == s[i]);
}

/// `has_addr` agrees with index-level membership.
pub proof fn lemma_has_addr_index(s: Seq<PeerView>, a: PeerAddr)
    ensures
        has_addr(s, a) <==> exists|i: int| 0 <= i < s.len() && s[i].address == a,
    decreases s.len(),
{
    if s.len() > 0 {
        lemma_has_addr_index(s.drop_last(), a);
        if s.last().address == a {
            assert(s[s.len() - 1].address == a);
        } else if has_addr(s.drop_last(), a) {
            let i = choose|i: int| 0 <= i < s.drop_last().len() && s.drop_last()[i].address == a;
            assert(s[i].address == a);
        } else {
            if exists|i: int| 0 <= i < s.len() && s[i].address == a {
                let i = choose|i: int| 0 <= i < s.len() && s[i].address == a;
                assert(i < s.len() - 1);
                assert(s.drop_last()[i].address == a);
            }
        }
    }
}

/// What removal does to membership: the removed address is gone, every
/// other address is untouched.
proof fn lemma_removed_has(s: Seq<PeerView>, a: PeerAddr, b: PeerAddr)
    ensures
        b == a ==> !has_addr(removed(s, a), b),
        b != a ==> (has_addr(removed(s, a), b) <==> has_addr(s, b)),
    decreases s.len(),
{
    if s.len() > 0 {
        lemma_removed_has(s.drop_last(), a, b);
        if s.last().address != a {
            let rest = removed(s.drop_last(), a);
            assert(rest.push(s.last()).drop_last() =~= rest);
            assert(rest.push(s.last()).last() == s.last());
        }
    }
}

/// Removal keeps the registry invariant.
proof fn lemma_removed_unique(s: Seq<PeerView>, a: PeerAddr)
    requires
        addrs_unique(s),
    ensures
        addrs_unique(removed(s, a)),
    decreases s.len(),
{
    if s.len() > 0 {
        assert(addrs_unique(s.drop_last())) by {
            assert forall|i: int, j: int|
                0 <= i < j < s.drop_last().len() implies s.drop_last()[i].address != s.drop_last()[j].address by {
                assert(s[i].address != s[j].address);
            }
        }
        lemma_removed_unique(s.drop_last(), a);
        if s.last().address != a {
            let rest = removed(s.drop_last(), a);
            lemma_removed_within(s.drop_last(), a);
            assert forall|i: int, j: int|
                0 <= i < j < rest.push(s.last()).len() implies rest.push(s.last())[i].address
                != rest.push(s.last())[j].address by {
                if j < rest.len() {
                    assert(rest[i].address != rest[j].address);
                } else {
                    let k = choose|k: int|
                        0 <= k < s.drop_last().len() && s.drop_last()[k] == rest[i];
                    assert(s[k].address != s[s.len() - 1].address);
                }
            }
        }
    }
}

/// Every entry of the filtered registry is an entry of the original.
proof fn lemma_removed_within(s: Seq<PeerView>, a: PeerAddr)
    ensures
        forall|k: int|
            0 <= k < removed(s, a).len() ==> exists|j: int|
                0 <= j < s.len() && s[j] == #[trigger] removed(s, a)[k],
    decreases s.len(),
{
    if s.len() > 0 {
        lemma_removed_within(s.drop_last(), a);
        let rest = removed(s.drop_last(), a);
        assert forall|k: int| 0 <= k < removed(s, a).len() implies exists|j: int|
            0 <= j < s.len() && s[j] == #[trigger] removed(s, a)[k] by {
            if k < rest.len() {
                let j = choose|j: int|
                    0 <= j < s.drop_last().len() && s.drop_last()[j] == rest[k];
                assert(s[j] == removed(s, a)[k]);
            } else {
                assert(removed(s, a)[k] == s.last());
                assert(s[s.len() - 1] == removed(s, a)[k]);
            }
        }
    }
}

/// One registry operation, as the model sees it: what `register` and
/// `unregister` do to the registry's view.
pub enum RegistryOp {
    Register(PeerView),
    Unregister(PeerAddr),
}

pub open spec fn apply_op(s: Seq<PeerView>, op: RegistryOp) -> Seq<PeerView> {
    match op {
        RegistryOp::Register(p) => removed(s, p.address).push(p),
        RegistryOp::Unregister(a) => removed(s, a),
    }
}

pub open spec fn apply_ops(s: Seq<PeerView>, ops: Seq<RegistryOp>) -> Seq<PeerView>
    decreases ops.len(),
{
    if ops.len() == 0 {
        s
    } else {
        apply_ops(apply_op(s, ops[0]), ops.drop_first())
    }
}

/// Law: any sequence of registrations and unregistrations, in whatever
/// order the listener loops interleave them, keeps the registry consistent
/// (at most one entry per address). A broadcast runs between two whole
/// operations, so it never observes a torn registry state.
pub proof fn lemma_operations_preserve_consistency(s: Seq<PeerView>, ops: Seq<RegistryOp>)
    requires
        addrs_unique(s),
    ensures
        addrs_unique(apply_ops(s, ops)),
    decreases ops.len(),
{
    if ops.len() > 0 {
        match ops[0] {
            RegistryOp::Register(p) => {
                lemma_removed_unique(s, p.address);
                lemma_removed_has(s, p.address, p.address);
                lemma_has_addr_index(removed(s, p.address), p.address);
                let mid = removed(s, p.address);
                assert forall|i: int, j: int|
                    0 <= i < j < mid.push(p).len() implies mid.push(p)[i].address != mid.push(
                    p,
                )[j].address by {
                    if j < mid.len() {
                        assert(mid[i].address != mid[j].address);
                    }
                }
            },
            RegistryOp::Unregister(a) => {
                lemma_removed_unique(s, a);
            },
        }
        lemma_operations_preserve_consistency(apply_op(s, ops[0]), ops.drop_first());
    }
}

/// Law: a broadcast never targets its sender, and targets exactly the
/// other registered addresses.
pub proof fn lemma_broadcast_excludes_sender(s: Seq<PeerView>, sender: PeerAddr, b: PeerAddr)
    ensures
        !broadcast_targets_of(s, sender).contains(sender),
        b != sender ==> (broadcast_targets_of(s, sender).contains(b) <==> has_addr(s, b)),
{
    lemma_removed_has(s, sender, sender);
    lemma_removed_has(s, sender, b);
    lemma_has_addr_index(removed(s, sender), sender);
    lemma_has_addr_index(removed(s, sender), b);
    let ts = broadcast_targets_of(s, sender);
    assert forall|k: int| 0 <= k < ts.len() implies ts[k] == removed(s, sender)[k].address by {}
    if ts.contains(sender) {
        let k = choose|k: int| 0 <= k < ts.len() && ts[k] == sender;
        assert(removed(s, sender)[k].address == sender);
    }
    if b != sender {
        if ts.contains(b) {
            let k = choose|k: int| 0 <= k < ts.len() && ts[k] == b;
            assert(removed(s, sender)[k].address == b);
            lemma_has_addr_index(s, b);
        }
        if has_addr(s, b) {
            let k = choose|k: int|
                0 <= k < removed(s, sender).len() && removed(s, sender)[k].address == b;
            assert(ts[k] == b);
        }
    }
}

/// Law: under the registry invariant the targets of one broadcast are
/// pairwise distinct, so each other peer is delivered to exactly once.
pub proof fn lemma_broadcast_targets_distinct(s: Seq<PeerView>, sender: PeerAddr)
    requires
        addrs_unique(s),
    ensures
        forall|i: int, j: int|
            0 <= i < j < broadcast_targets_of(s, sender).len() ==> broadcast_targets_of(
                s,
                sender,
            )[i] != broadcast_targets_of(s, sender)[j],
{
    lemma_removed_unique(s, sender);
    let ts = broadcast_targets_of(s, sender);
    assert forall|i: int, j: int| 0 <= i < j < ts.len() implies ts[i] != ts[j] by {
        assert(removed(s, sender)[i].address != removed(s, sender)[j].address);
    }
}

/// Law: unregistering an address twice is the same as unregistering it
/// once (removal is idempotent).
pub proof fn lemma_unregister_idempotent(s: Seq<PeerView>, a: PeerAddr)
    ensures
        removed(removed(s, a), a) == removed(s, a),
    decreases s.len(),
{
    if s.len() > 0 {
        lemma_unregister_idempotent(s.drop_last(), a);
        if s.last().address != a {
            let rest = removed(s.drop_last(), a);
            assert(rest.push(s.last()).drop_last() =~= rest);
            assert(rest.push(s.last()).last() == s.last());
        }
    }
}

/// Law: once a peer is removed, no later broadcast targets it, whoever the
/// sender is.
pub proof fn lemma_removed_not_targeted(s: Seq<PeerView>, a: PeerAddr, sender: PeerAddr)
    ensures
        !broadcast_targets_of(removed(s, a), sender).contains(a),
{
    let t = removed(s, a);
    lemma_removed_has(s, a, a);
    lemma_removed_has(t, sender, a);
    lemma_has_addr_index(removed(t, sender), a);
    let ts = broadcast_targets_of(t, sender);
    if ts.contains(a) {
        let k = choose|k: int| 0 <= k < ts.len() && ts[k] == a;
        assert(removed(t, sender)[k].address == a);
    }
}

/// Law: under the registry invariant a broadcast from a registered sender
/// reaches all peers but one, and from an unknown sender reaches all.
pub proof fn lemma_broadcast_target_count(s: Seq<PeerView>, sender: PeerAddr)
    requires
        addrs_unique(s),
    ensures
        has_addr(s, sender) ==> broadcast_targets_of(s, sender).len() == s.len() - 1,
        !has_addr(s, sender) ==> broadcast_targets_of(s, sender).len() == s.len(),
    decreases s.len(),
{
    if s.len() > 0 {
        assert(addrs_unique(s.drop_last())) by {
            assert forall|i: int, j: int|
                0 <= i < j < s.drop_last().len() implies s.drop_last()[i].address != s.drop_last()[j].address by {
                assert(s[i].address != s[j].address);
            }
        }
        lemma_broadcast_target_count(s.drop_last(), sender);
        if s.last().address == sender {
            lemma_has_addr_index(s.drop_last(), sender);
            if has_addr(s.drop_last(), sender) {
                let k = choose|k: int|
                    0 <= k < s.drop_last().len() && s.drop_last()[k].address == sender;
                assert(s[k].address == s[s.len() - 1].address);
                assert(false);
            }
        }
    }
}

} // verus!
