//! A WireGuard interface and its cryptokey routing table: peers, their allowed IPs and
//! endpoints, and the outbound and inbound packet flows.

use vstd::prelude::*;
use crate::addr::{IpAddr, Ipv4Addr, SocketAddr};
use crate::events::{events_view, EventView, WgEvent, NOT_IN_ALLOWED_IPS};
use crate::net::Ipv4Network;
use crate::text::{hex2, push_hex2};
use crate::types::{PrivateKey, PublicKey};

verus! {

/// A peer: a remote machine known by its public key.
pub struct Peer {
    pub public_key: PublicKey,
    /// The inner addresses the peer may use, as CIDR blocks.
    pub allowed_ips: Vec<Ipv4Network>,
    /// Where packets for the peer are sent; learned from the last valid packet.
    pub endpoint: Option<SocketAddr>,
    /// The session key from the handshake; none until the first packet.
    pub session_key: Option<String>,
    /// The nonce counter for outbound packets, advanced on every packet sent.
    pub send_nonce: u64,
}

/// A WireGuard interface with its peers.
pub struct Interface {
    pub name: String,
    pub private_key: PrivateKey,
    pub public_key: PublicKey,
    pub listen_port: u16,
    pub address: Ipv4Network,
    pub peers: Vec<Peer>,
}

/// A peer as plain values.
pub struct PeerState {
    pub key: Seq<char>,
    pub allowed_ips: Seq<Ipv4Network>,
    pub endpoint: Option<SocketAddr>,
    pub session_key: Option<Seq<char>>,
    pub send_nonce: u64,
}

/// An interface as plain values.
pub struct InterfaceState {
    pub name: Seq<char>,
    pub private_key: Seq<char>,
    pub public_key: Seq<char>,
    pub listen_port: u16,
    pub address: Ipv4Network,
    pub peers: Seq<PeerState>,
}

impl View for Peer {
    type V = PeerState;

    open spec fn view(&self) -> PeerState {
        PeerState {
            key: self.public_key.0@,
            allowed_ips: self.allowed_ips@,
            endpoint: self.endpoint,
            session_key: match self.session_key {
                Some(k) => Some(k@),
                None => None,
            },
            send_nonce: self.send_nonce,
        }
    }
}

impl View for Interface {
    type V = InterfaceState;

    open spec fn view(&self) -> InterfaceState {
        InterfaceState {
            name: self.name@,
            private_key: self.private_key.0@,
            public_key: self.public_key.0@,
            listen_port: self.listen_port,
            address: self.address,
            peers: self.peers@.map_values(|p: Peer| p@),
        }
    }
}

/// The first index below `n` that satisfies `pred`.
pub open spec fn first_index(n: nat, pred: spec_fn(int) -> bool) -> Option<int>
    decreases n,
{
    if n == 0 {
        None
    } else {
        match first_index((n - 1) as nat, pred) {
            Some(i) => Some(i),
            None => if pred(n - 1) {
                Some(n - 1)
            } else {
                None
            },
        }
    }
}

/// Once found, the first index stays the first as the range grows; an index in a range
/// without one does not satisfy the predicate.
pub proof fn lemma_first_index(n: nat, m: nat, pred: spec_fn(int) -> bool)
    requires
        n <= m,
    ensures
        first_index(n, pred) matches Some(i) ==> first_index(m, pred) == Some(i) && 0 <= i < n
            && pred(i),
        first_index(m, pred) is None ==> first_index(n, pred) is None,
        first_index(n, pred) is None ==> forall|j: int| 0 <= j < n ==> !#[trigger] pred(j),
    decreases m,
{
    if n < m {
        lemma_first_index(n, (m - 1) as nat, pred);
    } else if n > 0 {
        lemma_first_index((n - 1) as nat, (n - 1) as nat, pred);
    }
}

/// The outcome of looking an address up in a list of blocks, block by block: it is held by
/// a block, held by none, or the lookup fails on a block with a prefix longer than 32 bits.
#[derive(Clone, Copy, Debug, PartialEq, Eq, Structural)]
pub enum Scan {
    Hit,
    Miss,
    Fault,
}

/// The blocks at which a lookup of `ip` stops: a block that holds it, or one that fails.
pub open spec fn stops_at(nets: Seq<Ipv4Network>, ip: IpAddr) -> spec_fn(int) -> bool {
    |j: int| nets[j].contains_fails(ip) || nets[j].spec_contains(ip)
}

/// Looks `ip` up in `nets`, block by block.
pub open spec fn scan_nets(nets: Seq<Ipv4Network>, ip: IpAddr) -> Scan {
    match first_index(nets.len(), stops_at(nets, ip)) {
        None => Scan::Miss,
        Some(j) => if nets[j].contains_fails(ip) {
            Scan::Fault
        } else {
            Scan::Hit
        },
    }
}

/// The outcome of picking the peer for an inner destination.
pub enum Route {
    /// The peer with the longest block that holds the destination.
    Peer(int),
    /// No peer's allowed IPs hold it.
    NoRoute,
    /// The lookup fails: the destination is an IPv4 address and some block has a prefix
    /// longer than 32 bits.
    Fault,
}

/// Whether a lookup of `ip` among `nets` fails: `ip` is an IPv4 address and some block has a
/// prefix longer than 32 bits.
pub open spec fn nets_fault(nets: Seq<Ipv4Network>, ip: IpAddr) -> bool {
    ip is V4 && exists|j: int| 0 <= j < nets.len() && (#[trigger] nets[j]).prefix_len > 32
}

/// The longest prefix among the first `n` blocks that hold `ip`, if any does.
pub open spec fn longest_match_upto(nets: Seq<Ipv4Network>, ip: IpAddr, n: nat) -> Option<u8>
    decreases n,
{
    if n == 0 {
        None
    } else {
        let prev = longest_match_upto(nets, ip, (n - 1) as nat);
        let b = nets[n - 1];
        if b.spec_contains(ip) {
            match prev {
                Some(l) if l >= b.prefix_len => prev,
                _ => Some(b.prefix_len),
            }
        } else {
            prev
        }
    }
}

/// The longest prefix among the blocks that hold `ip`, if any does.
pub open spec fn longest_match(nets: Seq<Ipv4Network>, ip: IpAddr) -> Option<u8> {
    longest_match_upto(nets, ip, nets.len())
}

/// Among the first `n` peers, the one with the longest block that holds `ip` (the earliest
/// of those with equally long blocks), with that block's prefix length.
pub open spec fn best_peer_upto(peers: Seq<PeerState>, ip: IpAddr, n: nat) -> Option<(int, u8)>
    decreases n,
{
    if n == 0 {
        None
    } else {
        let prev = best_peer_upto(peers, ip, (n - 1) as nat);
        match longest_match(peers[n - 1].allowed_ips, ip) {
            None => prev,
            Some(l) => match prev {
                Some((j, m)) if m >= l => prev,
                _ => Some((n - 1, l)),
            },
        }
    }
}

/// Picks the peer for `ip` by longest-prefix match over all peers' allowed IPs: the peer
/// with the longest block that holds `ip`, the earliest peer among equally long ones.
pub open spec fn route(peers: Seq<PeerState>, ip: IpAddr) -> Route {
    if exists|i: int| 0 <= i < peers.len() && nets_fault((#[trigger] peers[i]).allowed_ips, ip) {
        Route::Fault
    } else {
        match best_peer_upto(peers, ip, peers.len()) {
            None => Route::NoRoute,
            Some((i, _)) => Route::Peer(i),
        }
    }
}

/// The peers that carry the key `key`.
pub open spec fn has_key(peers: Seq<PeerState>, key: Seq<char>) -> spec_fn(int) -> bool {
    |i: int| peers[i].key == key
}

/// The first peer with the key `key`.
pub open spec fn peer_index(peers: Seq<PeerState>, key: Seq<char>) -> Option<int> {
    first_index(peers.len(), has_key(peers, key))
}

/// The `i`-th byte of the derived session key.
pub open spec fn session_key_byte(pb: Seq<u8>, ib: Seq<u8>, i: int) -> u8 {
    pb[i % pb.len() as int] ^ ib[i % ib.len() as int] ^ ((i * 37) % 256) as u8
}

/// The first `n` bytes of the derived session key, two hex digits each.
pub open spec fn session_key_hex(pb: Seq<u8>, ib: Seq<u8>, n: nat) -> Seq<char>
    decreases n,
{
    if n == 0 {
        Seq::empty()
    } else {
        session_key_hex(pb, ib, (n - 1) as nat) + hex2(session_key_byte(pb, ib, n - 1))
    }
}

/// The demo session key for a peer and an interface: 32 bytes, byte `i` being the XOR of
/// byte `i` of each key's UTF-8 encoding (both repeated as needed) and `37 * i` (mod 256),
/// written as 64 lower-case hex digits.
pub open spec fn session_key_text(peer_key: Seq<char>, iface_key: Seq<char>) -> Seq<char> {
    session_key_hex(vstd::utf8::encode_utf8(peer_key), vstd::utf8::encode_utf8(iface_key), 32)
}

/// Whether a session key can be derived from these two keys (both must be nonempty).
pub open spec fn keys_usable(peer_key: Seq<char>, iface_key: Seq<char>) -> bool {
    peer_key.len() > 0 && iface_key.len() > 0
}

/// The peer after a handshake, if it had no session yet.
pub open spec fn with_session(p: PeerState, iface_key: Seq<char>) -> PeerState {
    if p.session_key is None {
        PeerState { session_key: Some(session_key_text(p.key, iface_key)), ..p }
    } else {
        p
    }
}

/// The handshake event, if the peer had no session yet.
pub open spec fn handshake_events(p: PeerState, iface_key: Seq<char>) -> Seq<EventView> {
    if p.session_key is None {
        seq![
            EventView::HandshakeCompleted {
                peer: p.key,
                session_key: session_key_text(p.key, iface_key),
            },
        ]
    } else {
        Seq::empty()
    }
}

/// The interface with peer `i` replaced.
pub open spec fn with_peer(s: InterfaceState, i: int, p: PeerState) -> InterfaceState {
    InterfaceState { peers: s.peers.update(i, p), ..s }
}

/// Whether a packet for `dst` can be sent without failing: the route lookup does not fail,
/// and if it picks a peer with an endpoint, its nonce counter can still advance and, when a
/// handshake is due, both keys are nonempty.
pub open spec fn send_ok(s: InterfaceState, dst: IpAddr) -> bool {
    match route(s.peers, dst) {
        Route::Fault => false,
        Route::NoRoute => true,
        Route::Peer(i) => {
            let p = s.peers[i];
            p.endpoint is None || (p.send_nonce < u64::MAX && (p.session_key is None
                ==> keys_usable(p.key, s.private_key)))
        },
    }
}

/// Sending a packet to `dst`: the interface afterwards and the events reported.
/// The peer is picked by longest-prefix match (see `route`). With no such peer the packet is
/// dropped (`NoRoute`); a peer without endpoint drops it too (`NoEndpoint`). Otherwise a
/// handshake sets up the session if there is none, and the packet is sent to the peer's
/// endpoint under its current nonce, which then advances by one.
pub open spec fn send_spec(s: InterfaceState, dst: IpAddr) -> (InterfaceState, Seq<EventView>) {
    match route(s.peers, dst) {
        Route::Peer(i) => {
            let p = s.peers[i];
            match p.endpoint {
                None => (s, seq![EventView::NoEndpoint { inner_dst: dst, peer: p.key }]),
                Some(ep) => {
                    let q = with_session(p, s.private_key);
                    (
                        with_peer(
                            s,
                            i,
                            PeerState { send_nonce: (p.send_nonce + 1) as u64, ..q },
                        ),
                        handshake_events(p, s.private_key).push(
                            EventView::Sent {
                                inner_dst: dst,
                                peer: p.key,
                                outer_dst: ep,
                                nonce: p.send_nonce,
                            },
                        ),
                    )
                },
            }
        },
        _ => (s, seq![EventView::NoRoute { inner_dst: dst }]),
    }
}

/// Whether a packet from the peer with key `from` can be received without failing: when a
/// handshake is due both keys are nonempty, and the lookup of `inner_src` in the peer's
/// allowed IPs does not fail.
pub open spec fn recv_ok(s: InterfaceState, from: Seq<char>, inner_src: IpAddr) -> bool {
    match peer_index(s.peers, from) {
        None => true,
        Some(i) => {
            let p = s.peers[i];
            &&& p.session_key is None ==> keys_usable(from, s.private_key)
            &&& scan_nets(p.allowed_ips, inner_src) != Scan::Fault
        },
    }
}

/// Receiving a packet from the peer with key `from`, arriving from `outer_src` with inner
/// source `inner_src`: the interface afterwards and the events reported.
/// A packet from an unknown key is ignored. For a known key the packet is decrypted: a
/// handshake sets up the session if there is none. Then a packet whose inner source is not
/// in the peer's allowed IPs is dropped, and nothing else changes. Otherwise the peer's
/// endpoint moves to `outer_src` if it was elsewhere (`Roamed`), and the packet is
/// accepted (`Received`).
pub open spec fn recv_spec(s: InterfaceState, outer_src: SocketAddr, from: Seq<char>, inner_src: IpAddr)
    -> (InterfaceState, Seq<EventView>) {
    match peer_index(s.peers, from) {
        None => (s, Seq::empty()),
        Some(i) => {
            let p = s.peers[i];
            let q = with_session(p, s.private_key);
            if scan_nets(p.allowed_ips, inner_src) == Scan::Hit {
                let roam = if p.endpoint != Some(outer_src) {
                    seq![
                        EventView::Roamed {
                            peer: from,
                            old_endpoint: p.endpoint,
                            new_endpoint: outer_src,
                        },
                    ]
                } else {
                    Seq::empty()
                };
                (
                    with_peer(s, i, PeerState { endpoint: Some(outer_src), ..q }),
                    handshake_events(p, s.private_key) + roam + seq![
                        EventView::Received { outer_src, peer: from, inner_src },
                    ],
                )
            } else {
                (
                    with_peer(s, i, q),
                    handshake_events(p, s.private_key).push(
                        EventView::Dropped {
                            outer_src,
                            peer: from,
                            inner_src,
                            reason: NOT_IN_ALLOWED_IPS@,
                        },
                    ),
                )
            }
        },
    }
}

/// Adding a peer: it goes last, with no session yet and its nonce counter at zero.
pub open spec fn add_peer_spec(
    s: InterfaceState,
    key: Seq<char>,
    allowed_ips: Seq<Ipv4Network>,
    endpoint: Option<SocketAddr>,
) -> InterfaceState {
    InterfaceState {
        peers: s.peers.push(
            PeerState { key, allowed_ips, endpoint, session_key: None, send_nonce: 0 },
        ),
        ..s
    }
}

/// The outer address assumed for a peer with no endpoint when a packet from it is simulated.
pub open spec fn fallback_outer() -> SocketAddr {
    SocketAddr::V4(crate::addr::SocketAddrV4 { ip: Ipv4Addr(203, 0, 113, 1), port: 51820 })
}

/// The outer address that a simulated roam moves a peer to.
pub open spec fn roam_outer(counter: u8) -> SocketAddr {
    SocketAddr::V4(crate::addr::SocketAddrV4 { ip: Ipv4Addr(198, 18, 0, counter), port: 51820 })
}

/// The first inner address of a peer: the address of its first block.
pub open spec fn first_ip(p: PeerState) -> Option<IpAddr> {
    if p.allowed_ips.len() > 0 {
        Some(IpAddr::V4(p.allowed_ips[0].addr))
    } else {
        None
    }
}

/// Simulating a packet to the peer with key `key`: a packet is sent to that peer's first
/// inner address; with no such peer, or no address, the packet has no route (to 0.0.0.0).
pub open spec fn simulate_send_spec(s: InterfaceState, key: Seq<char>) -> (
    InterfaceState,
    Seq<EventView>,
) {
    match peer_index(s.peers, key) {
        Some(i) if first_ip(s.peers[i]) is Some => send_spec(s, first_ip(s.peers[i])->0),
        _ => (s, seq![EventView::NoRoute { inner_dst: IpAddr::V4(Ipv4Addr(0, 0, 0, 0)) }]),
    }
}

pub open spec fn simulate_send_ok(s: InterfaceState, key: Seq<char>) -> bool {
    match peer_index(s.peers, key) {
        Some(i) if first_ip(s.peers[i]) is Some => send_ok(s, first_ip(s.peers[i])->0),
        _ => true,
    }
}

/// Simulating a packet from the peer with key `key`, with that peer's first inner address
/// as source, arriving from `outer_src`; nothing happens with no such peer or no address.
pub open spec fn simulate_from_spec(s: InterfaceState, key: Seq<char>, outer_src: SocketAddr) -> (
    InterfaceState,
    Seq<EventView>,
) {
    match peer_index(s.peers, key) {
        Some(i) if first_ip(s.peers[i]) is Some => recv_spec(
            s,
            outer_src,
            s.peers[i].key,
            first_ip(s.peers[i])->0,
        ),
        _ => (s, Seq::empty()),
    }
}

/// Simulating a packet from the peer with key `key`, arriving from its endpoint (or from
/// 203.0.113.1:51820 when it has none).
pub open spec fn simulate_recv_spec(s: InterfaceState, key: Seq<char>) -> (
    InterfaceState,
    Seq<EventView>,
) {
    match peer_index(s.peers, key) {
        Some(i) => simulate_from_spec(
            s,
            key,
            match s.peers[i].endpoint {
                Some(e) => e,
                None => fallback_outer(),
            },
        ),
        None => (s, Seq::empty()),
    }
}

/// Simulating a packet from the peer with key `key`, arriving from 198.18.0.`counter`:51820.
pub open spec fn simulate_roam_spec(s: InterfaceState, key: Seq<char>, counter: u8) -> (
    InterfaceState,
    Seq<EventView>,
) {
    simulate_from_spec(s, key, roam_outer(counter))
}

/// Whether a simulated packet from the peer with key `key` can be received without failing
/// (whatever outer address it comes from).
pub open spec fn simulate_recv_ok(s: InterfaceState, key: Seq<char>) -> bool {
    match peer_index(s.peers, key) {
        Some(i) if first_ip(s.peers[i]) is Some => recv_ok(
            s,
            s.peers[i].key,
            first_ip(s.peers[i])->0,
        ),
        _ => true,
    }
}

/// Derives the demo session key (see `session_key_text`).
pub fn fake_session_key(peer_key: &str, iface_key: &str) -> (key: String)
    requires
        keys_usable(peer_key@, iface_key@),
    ensures
        key@ == session_key_text(peer_key@, iface_key@),
{
    let pb = peer_key.as_bytes();
    let ib = iface_key.as_bytes();
    proof {
        reveal_with_fuel(vstd::utf8::encode_utf8, 1);
    }
    assert(pb@.len() > 0);
    assert(ib@.len() > 0);
    let mut out = String::new();
    let mut i: u8 = 0;
    while i < 32
        invariant
            i <= 32,
            pb@ == vstd::utf8::encode_utf8(peer_key@),
            ib@ == vstd::utf8::encode_utf8(iface_key@),
            pb@.len() > 0,
            ib@.len() > 0,
            out@ == session_key_hex(pb@, ib@, i as nat),
        decreases 32 - i,
    {
        let p = pb[(i as usize) % pb.len()];
        let k = ib[(i as usize) % ib.len()];
        push_hex2(&mut out, p ^ k ^ i.wrapping_mul(37));
        assert(session_key_byte(pb@, ib@, i as int) == p ^ k ^ i.wrapping_mul(37));
        i += 1;
    }
    out
}

impl Peer {
    /// Looks `ip` up in the allowed IPs, block by block (see `scan_nets`).
    pub fn scan(&self, ip: IpAddr) -> (r: Scan)
        ensures
            r == scan_nets(self.allowed_ips@, ip),
    {
        let ghost nets = self.allowed_ips@;
        let ghost pred = stops_at(nets, ip);
        let n = self.allowed_ips.len();
        let mut j: usize = 0;
        while j < n
            invariant
                n == nets.len(),
                nets == self.allowed_ips@,
                pred == stops_at(nets, ip),
                j <= n,
                first_index(j as nat, pred) is None,
            decreases n - j,
        {
            let net = self.allowed_ips[j];
            let fails = match ip {
                IpAddr::V4(_) => net.prefix_len > 32,
                IpAddr::V6(_) => false,
            };
            if fails || net.contains(ip) {
                assert(pred(j as int));
                assert(first_index((j + 1) as nat, pred) == Some(j as int));
                proof {
                    lemma_first_index((j + 1) as nat, n as nat, pred);
                }
                if fails {
                    return Scan::Fault;
                } else {
                    return Scan::Hit;
                }
            }
            j += 1;
        }
        Scan::Miss
    }

    /// Whether the peer's allowed IPs hold `ip`.
    pub fn allows(&self, ip: IpAddr) -> (r: bool)
        requires
            scan_nets(self.allowed_ips@, ip) != Scan::Fault,
        ensures
            r == (scan_nets(self.allowed_ips@, ip) == Scan::Hit),
    {
        self.scan(ip) == Scan::Hit
    }

    /// Whether a route lookup of `ip` fails on this peer's blocks (see `nets_fault`).
    pub fn lookup_fails(&self, ip: IpAddr) -> (r: bool)
        ensures
            r == nets_fault(self.allowed_ips@, ip),
    {
        if let IpAddr::V6(_) = ip {
            return false;
        }
        let n = self.allowed_ips.len();
        let mut j: usize = 0;
        while j < n
            invariant
                n == self.allowed_ips@.len(),
                ip is V4,
                j <= n,
                forall|k: int| 0 <= k < j ==> (#[trigger] self.allowed_ips@[k]).prefix_len <= 32,
            decreases n - j,
        {
            if self.allowed_ips[j].prefix_len > 32 {
                assert(self.allowed_ips@[j as int].prefix_len > 32);
                return true;
            }
            j += 1;
        }
        false
    }

    /// The longest prefix among the allowed blocks that hold `ip` (see `longest_match`).
    pub fn longest_match(&self, ip: IpAddr) -> (r: Option<u8>)
        requires
            !nets_fault(self.allowed_ips@, ip),
        ensures
            r == longest_match(self.allowed_ips@, ip),
    {
        let ghost nets = self.allowed_ips@;
        let n = self.allowed_ips.len();
        let mut best: Option<u8> = None;
        let mut j: usize = 0;
        while j < n
            invariant
                n == nets.len(),
                nets == self.allowed_ips@,
                !nets_fault(nets, ip),
                j <= n,
                best == longest_match_upto(nets, ip, j as nat),
            decreases n - j,
        {
            let b = self.allowed_ips[j];
            assert(!b.contains_fails(ip)) by {
                if ip is V4 && b.prefix_len > 32 {
                    assert(nets[j as int].prefix_len > 32);
                }
            }
            if b.contains(ip) {
                let keep = match best {
                    Some(l) => l >= b.prefix_len,
                    None => false,
                };
                if !keep {
                    best = Some(b.prefix_len);
                }
            }
            j += 1;
        }
        best
    }

    /// The address of the first allowed block.
    pub fn first_ip(&self) -> (r: Option<IpAddr>)
        ensures
            r == first_ip(self@),
    {
        if self.allowed_ips.len() > 0 {
            Some(IpAddr::V4(self.allowed_ips[0].addr))
        } else {
            None
        }
    }
}

/// The outcome of a route lookup, with the peer's position.
#[derive(Clone, Copy, Debug, PartialEq, Eq, Structural)]
pub enum Lookup {
    Found(usize),
    NotFound,
    Fails,
}

impl Interface {
    pub fn new(
        name: &str,
        private_key: PrivateKey,
        public_key: PublicKey,
        listen_port: u16,
        address: Ipv4Network,
    ) -> (r: Interface)
        ensures
            r@ == (InterfaceState {
                name: name@,
                private_key: private_key.0@,
                public_key: public_key.0@,
                listen_port,
                address,
                peers: Seq::empty(),
            }),
    {
        let r = Interface {
            name: String::from_str(name),
            private_key,
            public_key,
            listen_port,
            address,
            peers: Vec::new(),
        };
        assert(r@.peers =~= Seq::<PeerState>::empty());
        r
    }

    /// Adds a peer with no session yet and its nonce counter at zero.
    pub fn add_peer(
        &mut self,
        public_key: PublicKey,
        allowed_ips: Vec<Ipv4Network>,
        endpoint: Option<SocketAddr>,
    )
        ensures
            final(self)@ == add_peer_spec(old(self)@, public_key.0@, allowed_ips@, endpoint),
    {
        self.peers.push(
            Peer { public_key, allowed_ips, endpoint, session_key: None, send_nonce: 0 },
        );
        assert(final(self)@.peers =~= old(self)@.peers.push(final(self).peers@.last()@));
    }

    /// Picks the peer for `dst` by longest-prefix match (see `route`).
    pub fn lookup(&self, dst: IpAddr) -> (r: Lookup)
        ensures
            match r {
                Lookup::Found(i) => route(self@.peers, dst) == Route::Peer(i as int) && i
                    < self.peers@.len(),
                Lookup::NotFound => route(self@.peers, dst) is NoRoute,
                Lookup::Fails => route(self@.peers, dst) is Fault,
            },
    {
        let ghost peers = self@.peers;
        let n = self.peers.len();
        let mut i: usize = 0;
        while i < n
            invariant
                n == peers.len(),
                n == self.peers@.len(),
                peers == self@.peers,
                i <= n,
                forall|k: int| 0 <= k < i ==> !nets_fault((#[trigger] peers[k]).allowed_ips, dst),
            decreases n - i,
        {
            assert(self.peers@[i as int]@ == peers[i as int]);
            if self.peers[i].lookup_fails(dst) {
                return Lookup::Fails;
            }
            i += 1;
        }
        let mut best: Option<(usize, u8)> = None;
        let mut i: usize = 0;
        while i < n
            invariant
                n == peers.len(),
                n == self.peers@.len(),
                peers == self@.peers,
                i <= n,
                forall|k: int| 0 <= k < n ==> !nets_fault((#[trigger] peers[k]).allowed_ips, dst),
                match best {
                    Some((j, m)) => j < i && best_peer_upto(peers, dst, i as nat) == Some(
                        (j as int, m),
                    ),
                    None => best_peer_upto(peers, dst, i as nat) is None,
                },
            decreases n - i,
        {
            assert(self.peers@[i as int]@ == peers[i as int]);
            assert(!nets_fault(peers[i as int].allowed_ips, dst));
            match self.peers[i].longest_match(dst) {
                None => {},
                Some(l) => {
                    let keep = match best {
                        Some((_, m)) => m >= l,
                        None => false,
                    };
                    if !keep {
                        best = Some((i, l));
                    }
                },
            }
            i += 1;
        }
        match best {
            Some((i, _)) => Lookup::Found(i),
            None => Lookup::NotFound,
        }
    }

    /// The position of the first peer with the key `key`.
    pub fn find_peer(&self, key: &String) -> (r: Option<usize>)
        ensures
            match r {
                Some(i) => peer_index(self@.peers, key@) == Some(i as int) && i
                    < self.peers@.len() && self@.peers[i as int].key == key@,
                None => peer_index(self@.peers, key@) is None,
            },
    {
        let ghost peers = self@.peers;
        let ghost pred = has_key(peers, key@);
        let n = self.peers.len();
        let mut i: usize = 0;
        while i < n
            invariant
                n == peers.len(),
                n == self.peers@.len(),
                peers == self@.peers,
                pred == has_key(peers, key@),
                i <= n,
                first_index(i as nat, pred) is None,
            decreases n - i,
        {
            assert(self.peers@[i as int]@ == peers[i as int]);
            if self.peers[i].public_key.0 == *key {
                assert(pred(i as int));
                assert(first_index((i + 1) as nat, pred) == Some(i as int));
                proof {
                    lemma_first_index((i + 1) as nat, n as nat, pred);
                }
                return Some(i);
            }
            i += 1;
        }
        None
    }
}

impl Interface {
    /// Sets up the session with peer `idx` if it has none, reporting the handshake.
    fn handshake_if_needed(&mut self, idx: usize, events: &mut Vec<WgEvent>)
        requires
            idx < old(self).peers@.len(),
            old(self).peers@[idx as int].session_key is None ==> keys_usable(
                old(self).peers@[idx as int].public_key.0@,
                old(self).private_key.0@,
            ),
        ensures
            final(self)@ == with_peer(
                old(self)@,
                idx as int,
                with_session(old(self)@.peers[idx as int], old(self)@.private_key),
            ),
            final(self).peers@.len() == old(self).peers@.len(),
            final(self).peers@[idx as int].public_key == old(self).peers@[idx as int].public_key,
            events_view(final(events)@) == events_view(old(events)@) + handshake_events(
                old(self)@.peers[idx as int],
                old(self)@.private_key,
            ),
    {
        let ghost s0 = self@;
        let ghost p0 = self@.peers[idx as int];
        assert(self.peers@[idx as int]@ == p0);
        if self.peers[idx].session_key.is_none() {
            let sk = fake_session_key(
                self.peers[idx].public_key.0.as_str(),
                self.private_key.0.as_str(),
            );
            self.peers[idx].session_key = Some(sk.clone());
            let peer = self.peers[idx].public_key.copy();
            events.push(WgEvent::HandshakeCompleted { peer, session_key: sk });
            assert(self.peers@[idx as int]@ == with_session(p0, s0.private_key));
            assert(self@.peers =~= s0.peers.update(idx as int, with_session(p0, s0.private_key)))
                by {
                assert forall|j: int| 0 <= j < self.peers@.len() implies self@.peers[j] == s0.peers.update(
                    idx as int,
                    with_session(p0, s0.private_key),
                )[j] by {
                    if j != idx {
                        assert(self.peers@[j] == old(self).peers@[j]);
                    }
                }
            }
            assert(events_view(final(events)@) =~= events_view(old(events)@) + handshake_events(
                p0,
                s0.private_key,
            ));
        } else {
            assert(self@.peers =~= s0.peers.update(idx as int, with_session(p0, s0.private_key)));
            assert(events_view(final(events)@) =~= events_view(old(events)@) + handshake_events(
                p0,
                s0.private_key,
            ));
        }
    }

    /// Outbound: finds the peer for `dst` by its allowed IPs, runs the handshake if needed,
    /// encrypts (stub) and sends to the peer's endpoint (see `send_spec`).
    pub fn send(&mut self, dst: IpAddr, _payload: &[u8]) -> (events: Vec<WgEvent>)
        requires
            send_ok(old(self)@, dst),
        ensures
            final(self)@ == send_spec(old(self)@, dst).0,
            events_view(events@) == send_spec(old(self)@, dst).1,
    {
        let ghost s0 = self@;
        let idx = match self.lookup(dst) {
            Lookup::Found(i) => i,
            _ => {
                let events = vec![WgEvent::NoRoute { inner_dst: dst }];
                assert(events_view(events@) =~= send_spec(s0, dst).1);
                return events;
            },
        };
        let ghost p0 = s0.peers[idx as int];
        assert(self.peers@[idx as int]@ == p0);
        let ep = match self.peers[idx].endpoint {
            Some(e) => e,
            None => {
                let events = vec![
                    WgEvent::NoEndpoint { inner_dst: dst, peer: self.peers[idx].public_key.copy() },
                ];
                assert(events_view(events@) =~= send_spec(s0, dst).1);
                return events;
            },
        };
        let mut events: Vec<WgEvent> = Vec::new();
        assert(events_view(events@) =~= Seq::<EventView>::empty());
        self.handshake_if_needed(idx, &mut events);
        let ghost s1 = self@;
        assert(s1.peers[idx as int] == with_session(p0, s0.private_key));
        assert(self.peers@[idx as int]@ == s1.peers[idx as int]);
        let nonce = self.peers[idx].send_nonce;
        assert(nonce == p0.send_nonce);
        self.peers[idx].send_nonce = nonce + 1;
        let peer = self.peers[idx].public_key.copy();
        events.push(WgEvent::Sent { inner_dst: dst, peer, outer_dst: ep, nonce });
        proof {
            let q = with_session(p0, s0.private_key);
            let q2 = PeerState { send_nonce: (p0.send_nonce + 1) as u64, ..q };
            assert(self.peers@[idx as int]@ == q2);
            assert(self@.peers =~= s0.peers.update(idx as int, q2)) by {
                assert forall|j: int| 0 <= j < self.peers@.len() implies self@.peers[j]
                    == s0.peers.update(idx as int, q2)[j] by {
                    if j != idx {
                        assert(s1.peers[j] == s0.peers[j]);
                    }
                }
            }
            assert(events_view(events@) =~= send_spec(s0, dst).1);
        }
        events
    }
}

impl Interface {
    /// Inbound: decrypts (stub), runs the handshake if needed, checks the inner source
    /// against the peer's allowed IPs, and moves the endpoint when the peer has roamed
    /// (see `recv_spec`).
    pub fn recv(
        &mut self,
        outer_src: SocketAddr,
        from_key: &PublicKey,
        inner_src: IpAddr,
        _payload: &[u8],
    ) -> (events: Vec<WgEvent>)
        requires
            recv_ok(old(self)@, from_key.0@, inner_src),
        ensures
            final(self)@ == recv_spec(old(self)@, outer_src, from_key.0@, inner_src).0,
            events_view(events@) == recv_spec(old(self)@, outer_src, from_key.0@, inner_src).1,
    {
        let ghost s0 = self@;
        let ghost spec = recv_spec(s0, outer_src, from_key.0@, inner_src);
        let mut events: Vec<WgEvent> = Vec::new();
        assert(events_view(events@) =~= Seq::<EventView>::empty());
        let idx = match self.find_peer(&from_key.0) {
            Some(i) => i,
            None => {
                return events;
            },
        };
        let ghost p0 = s0.peers[idx as int];
        assert(self.peers@[idx as int]@ == p0);
        self.handshake_if_needed(idx, &mut events);
        let ghost s1 = self@;
        let ghost e1 = events_view(events@);
        assert(s1.peers[idx as int] == with_session(p0, s0.private_key));
        assert(self.peers@[idx as int]@ == s1.peers[idx as int]);
        if !self.peers[idx].allows(inner_src) {
            events.push(
                WgEvent::Dropped {
                    outer_src,
                    peer: from_key.copy(),
                    inner_src,
                    reason: NOT_IN_ALLOWED_IPS,
                },
            );
            assert(events_view(events@) =~= spec.1);
            return events;
        }
        assert(self.peers@[idx as int]@ == s1.peers[idx as int]);
        let prev = self.peers[idx].endpoint;
        assert(prev == p0.endpoint);
        if prev != Some(outer_src) {
            events.push(
                WgEvent::Roamed {
                    peer: from_key.copy(),
                    old_endpoint: prev,
                    new_endpoint: outer_src,
                },
            );
            self.peers[idx].endpoint = Some(outer_src);
        }
        events.push(WgEvent::Received { outer_src, peer: from_key.copy(), inner_src });
        proof {
            let q = with_session(p0, s0.private_key);
            let q2 = PeerState { endpoint: Some(outer_src), ..q };
            assert(self.peers@[idx as int]@ == q2);
            assert(self@.peers =~= s0.peers.update(idx as int, q2)) by {
                assert forall|j: int| 0 <= j < self.peers@.len() implies self@.peers[j]
                    == s0.peers.update(idx as int, q2)[j] by {
                    if j != idx {
                        assert(s1.peers[j] == s0.peers[j]);
                    }
                }
            }
            assert(events_view(events@) =~= spec.1);
        }
        events
    }

    /// Sends a ping to the first inner address of the peer with key `peer_key`
    /// (see `simulate_send_spec`).
    pub fn simulate_send(&mut self, peer_key: &str) -> (events: Vec<WgEvent>)
        requires
            simulate_send_ok(old(self)@, peer_key@),
        ensures
            final(self)@ == simulate_send_spec(old(self)@, peer_key@).0,
            events_view(events@) == simulate_send_spec(old(self)@, peer_key@).1,
    {
        let key = String::from_str(peer_key);
        let ip = match self.find_peer(&key) {
            Some(i) => {
                assert(self.peers@[i as int]@ == self@.peers[i as int]);
                self.peers[i].first_ip()
            },
            None => None,
        };
        match ip {
            Some(ip) => self.send(ip, &[]),
            None => {
                let events = vec![WgEvent::NoRoute { inner_dst: IpAddr::V4(Ipv4Addr::new(0, 0, 0, 0)) }];
                assert(events_view(events@) =~= simulate_send_spec(self@, peer_key@).1);
                events
            },
        }
    }

    /// Receives a pong from the peer with key `peer_key`, arriving from its endpoint
    /// (see `simulate_recv_spec`).
    pub fn simulate_recv(&mut self, peer_key: &str) -> (events: Vec<WgEvent>)
        requires
            simulate_recv_ok(old(self)@, peer_key@),
        ensures
            final(self)@ == simulate_recv_spec(old(self)@, peer_key@).0,
            events_view(events@) == simulate_recv_spec(old(self)@, peer_key@).1,
    {
        let key = String::from_str(peer_key);
        let idx = match self.find_peer(&key) {
            Some(i) => i,
            None => {
                let events: Vec<WgEvent> = Vec::new();
                assert(events_view(events@) =~= Seq::<EventView>::empty());
                return events;
            },
        };
        assert(self.peers@[idx as int]@ == self@.peers[idx as int]);
        let outer_src = match self.peers[idx].endpoint {
            Some(e) => e,
            None => SocketAddr::new_v4(Ipv4Addr::new(203, 0, 113, 1), 51820),
        };
        let inner_src = match self.peers[idx].first_ip() {
            Some(ip) => ip,
            None => {
                let events: Vec<WgEvent> = Vec::new();
                assert(events_view(events@) =~= Seq::<EventView>::empty());
                return events;
            },
        };
        let k = self.peers[idx].public_key.copy();
        self.recv(outer_src, &k, inner_src, &[])
    }

    /// Receives a packet from the peer with key `peer_key` as if it had moved to
    /// 198.18.0.`roam_counter`:51820 (see `simulate_roam_spec`).
    pub fn simulate_roam(&mut self, peer_key: &str, roam_counter: u8) -> (events: Vec<WgEvent>)
        requires
            simulate_recv_ok(old(self)@, peer_key@),
        ensures
            final(self)@ == simulate_roam_spec(old(self)@, peer_key@, roam_counter).0,
            events_view(events@) == simulate_roam_spec(old(self)@, peer_key@, roam_counter).1,
    {
        let key = String::from_str(peer_key);
        let idx = match self.find_peer(&key) {
            Some(i) => i,
            None => {
                let events: Vec<WgEvent> = Vec::new();
                assert(events_view(events@) =~= Seq::<EventView>::empty());
                return events;
            },
        };
        assert(self.peers@[idx as int]@ == self@.peers[idx as int]);
        let new_outer = SocketAddr::new_v4(Ipv4Addr::new(198, 18, 0, roam_counter), 51820);
        let inner_src = match self.peers[idx].first_ip() {
            Some(ip) => ip,
            None => {
                let events: Vec<WgEvent> = Vec::new();
                assert(events_view(events@) =~= Seq::<EventView>::empty());
                return events;
            },
        };
        let k = self.peers[idx].public_key.copy();
        self.recv(new_outer, &k, inner_src, &[])
    }

    /// Whether a handshake with peer `idx` could be run now, if one is due.
    fn handshake_possible(&self, idx: usize) -> (r: bool)
        requires
            idx < self.peers@.len(),
        ensures
            r == (self@.peers[idx as int].session_key is None ==> keys_usable(
                self@.peers[idx as int].key,
                self@.private_key,
            )),
    {
        assert(self.peers@[idx as int]@ == self@.peers[idx as int]);
        self.peers[idx].session_key.is_some() || (!self.peers[idx].public_key.0.as_str().is_empty()
            && !self.private_key.0.as_str().is_empty())
    }

    /// Whether `send` can be called for `dst` (see `send_ok`).
    pub fn can_send(&self, dst: IpAddr) -> (r: bool)
        ensures
            r == send_ok(self@, dst),
    {
        match self.lookup(dst) {
            Lookup::Fails => false,
            Lookup::NotFound => true,
            Lookup::Found(i) => {
                assert(self.peers@[i as int]@ == self@.peers[i as int]);
                self.peers[i].endpoint.is_none() || (self.peers[i].send_nonce < u64::MAX
                    && self.handshake_possible(i))
            },
        }
    }

    /// Whether `recv` can be called for a packet from `from_key` with inner source
    /// `inner_src` (see `recv_ok`).
    pub fn can_recv(&self, from_key: &PublicKey, inner_src: IpAddr) -> (r: bool)
        ensures
            r == recv_ok(self@, from_key.0@, inner_src),
    {
        match self.find_peer(&from_key.0) {
            None => true,
            Some(i) => {
                assert(self.peers@[i as int]@ == self@.peers[i as int]);
                self.handshake_possible(i) && self.peers[i].scan(inner_src) != Scan::Fault
            },
        }
    }

    /// Whether `simulate_send` can be called for `peer_key` (see `simulate_send_ok`).
    pub fn can_simulate_send(&self, peer_key: &str) -> (r: bool)
        ensures
            r == simulate_send_ok(self@, peer_key@),
    {
        let key = String::from_str(peer_key);
        match self.find_peer(&key) {
            None => true,
            Some(i) => {
                assert(self.peers@[i as int]@ == self@.peers[i as int]);
                match self.peers[i].first_ip() {
                    None => true,
                    Some(ip) => self.can_send(ip),
                }
            },
        }
    }

    /// Whether `simulate_recv` and `simulate_roam` can be called for `peer_key`
    /// (see `simulate_recv_ok`).
    pub fn can_simulate_recv(&self, peer_key: &str) -> (r: bool)
        ensures
            r == simulate_recv_ok(self@, peer_key@),
    {
        let key = String::from_str(peer_key);
        match self.find_peer(&key) {
            None => true,
            Some(i) => {
                assert(self.peers@[i as int]@ == self@.peers[i as int]);
                match self.peers[i].first_ip() {
                    None => true,
                    Some(ip) => self.can_recv(&self.peers[i].public_key, ip),
                }
            },
        }
    }
}

} // verus!
