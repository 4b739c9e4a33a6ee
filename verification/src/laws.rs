//! Properties of the routing model that hold across operations.

use vstd::prelude::*;
use crate::addr::{IpAddr, Ipv4Addr, SocketAddr};
use crate::events::{EventView, NOT_IN_ALLOWED_IPS};
use crate::interface::{
    add_peer_spec, best_peer_upto, fallback_outer, first_index, first_ip, has_key,
    lemma_first_index, longest_match, longest_match_upto, nets_fault, peer_index, recv_ok,
    recv_spec, roam_outer, route, scan_nets, send_ok, send_spec, session_key_byte,
    session_key_hex, session_key_text, simulate_from_spec, simulate_recv_spec,
    simulate_roam_spec, simulate_send_spec, stops_at, InterfaceState, PeerState, Route, Scan,
};
use crate::net::Ipv4Network;
use crate::render::{
    endpoint_text, full_page_spec, nets_text, row_html, rows_html, table_html_spec, IPS_SEPARATOR,
    PAGE_0, PAGE_1, PAGE_5, PAGE_6, ROW_CLOSE, ROW_ENDPOINT, ROW_IPS, ROW_KEY, ROW_SEND,
    TABLE_CLOSE, TABLE_OPEN,
};

verus! {

/// A block with a prefix of at most 32 bits holds its own address.
pub proof fn lemma_network_contains_own_address(n: Ipv4Network)
    requires
        n.prefix_len <= 32,
    ensures
        n.spec_contains(IpAddr::V4(n.addr)),
{
}

/// A /0 block holds every IPv4 address; no block holds an IPv6 address.
pub proof fn lemma_network_extremes(n: Ipv4Network, a: Ipv4Addr, ip: IpAddr)
    ensures
        n.prefix_len == 0 ==> n.spec_contains(IpAddr::V4(a)),
        ip is V6 ==> !n.spec_contains(ip),
{
}

/// A /32 block holds exactly its own address.
pub proof fn lemma_host_network(n: Ipv4Network, a: Ipv4Addr)
    requires
        n.prefix_len == 32,
    ensures
        n.spec_contains(IpAddr::V4(a)) <==> a == n.addr,
{
    let x = n.addr.to_u32();
    let y = a.to_u32();
    assert(x >> 0u32 == x) by (bit_vector);
    assert(y >> 0u32 == y) by (bit_vector);
    if x == y {
        let b = n.addr;
        assert(b.0 == a.0 && b.1 == a.1 && b.2 == a.2 && b.3 == a.3) by (nonlinear_arith)
            requires
                (b.0 as int * 0x100_0000 + b.1 as int * 0x1_0000 + b.2 as int * 0x100
                    + b.3 as int) == (a.0 as int * 0x100_0000 + a.1 as int * 0x1_0000 + a.2 as int
                    * 0x100 + a.3 as int),
        ;
    }
}

/// The demo session key does not depend on which side derives it: swapping the two keys
/// gives the same key, 64 hex digits long.
pub proof fn lemma_session_key_symmetric(a: Seq<char>, b: Seq<char>)
    requires
        a.len() > 0,
        b.len() > 0,
    ensures
        session_key_text(a, b) == session_key_text(b, a),
        session_key_text(a, b).len() == 64,
{
    let pa = vstd::utf8::encode_utf8(a);
    let pb = vstd::utf8::encode_utf8(b);
    reveal_with_fuel(vstd::utf8::encode_utf8, 1);
    lemma_session_key_hex_swap(pa, pb, 32);
}

proof fn lemma_session_key_hex_swap(pa: Seq<u8>, pb: Seq<u8>, n: nat)
    requires
        pa.len() > 0,
        pb.len() > 0,
    ensures
        session_key_hex(pa, pb, n) == session_key_hex(pb, pa, n),
        session_key_hex(pa, pb, n).len() == 2 * n,
    decreases n,
{
    if n > 0 {
        lemma_session_key_hex_swap(pa, pb, (n - 1) as nat);
        let i = n - 1;
        let x = pa[i % pa.len() as int];
        let y = pb[i % pb.len() as int];
        let z = ((i * 37) % 256) as u8;
        assert(x ^ y ^ z == y ^ x ^ z) by (bit_vector);
        assert(session_key_byte(pa, pb, i) == session_key_byte(pb, pa, i));
    }
}

/// Two interfaces with the same settings and the same peers, by key and allowed IPs, in the
/// same order.
pub open spec fn same_configuration(s: InterfaceState, t: InterfaceState) -> bool {
    &&& t.name == s.name
    &&& t.private_key == s.private_key
    &&& t.public_key == s.public_key
    &&& t.listen_port == s.listen_port
    &&& t.address == s.address
    &&& t.peers.len() == s.peers.len()
    &&& forall|i: int|
        0 <= i < s.peers.len() ==> (#[trigger] t.peers[i]).key == s.peers[i].key
            && t.peers[i].allowed_ips == s.peers[i].allowed_ips
}

/// Every session key of `s` is still in place in `t`.
pub open spec fn sessions_kept(s: InterfaceState, t: InterfaceState) -> bool {
    forall|i: int|
        0 <= i < s.peers.len() && s.peers[i].session_key is Some ==> (#[trigger] t.peers[i]).session_key
            == s.peers[i].session_key
}

/// The peer that a route or a key lookup gives is one of the peers, and matches.
proof fn lemma_lookups_in_range(s: InterfaceState, dst: IpAddr, from: Seq<char>)
    ensures
        route(s.peers, dst) matches Route::Peer(i) ==> 0 <= i < s.peers.len(),
        peer_index(s.peers, from) matches Some(i) ==> 0 <= i < s.peers.len() && s.peers[i].key
            == from,
{
    lemma_best_peer(s.peers, dst, s.peers.len());
    lemma_first_index(s.peers.len(), s.peers.len(), has_key(s.peers, from));
}

/// Packets never change the configuration: the interface's settings and its peers' keys
/// and allowed IPs stay as they were, whatever is sent or received.
pub proof fn lemma_packets_keep_configuration(
    s: InterfaceState,
    dst: IpAddr,
    outer_src: SocketAddr,
    from: Seq<char>,
    inner_src: IpAddr,
)
    ensures
        same_configuration(s, send_spec(s, dst).0),
        same_configuration(s, recv_spec(s, outer_src, from, inner_src).0),
{
    lemma_lookups_in_range(s, dst, from);
}

/// A session, once set up, is kept: neither sending nor receiving replaces a session key.
pub proof fn lemma_sessions_are_kept(
    s: InterfaceState,
    dst: IpAddr,
    outer_src: SocketAddr,
    from: Seq<char>,
    inner_src: IpAddr,
)
    ensures
        sessions_kept(s, send_spec(s, dst).0),
        sessions_kept(s, recv_spec(s, outer_src, from, inner_src).0),
{
    lemma_lookups_in_range(s, dst, from);
}

/// Nonces are never reused: a packet is sent under the peer's current nonce, which then
/// advances by one; no nonce ever goes back, and receiving leaves all nonces alone.
pub proof fn lemma_nonces_advance(
    s: InterfaceState,
    dst: IpAddr,
    outer_src: SocketAddr,
    from: Seq<char>,
    inner_src: IpAddr,
)
    requires
        send_ok(s, dst),
    ensures
        ({
            let (t, events) = send_spec(s, dst);
            &&& forall|i: int|
                0 <= i < s.peers.len() ==> s.peers[i].send_nonce <= (#[trigger] t.peers[i]).send_nonce
                    <= s.peers[i].send_nonce + 1
            &&& forall|k: int|
                0 <= k < events.len() ==> (#[trigger] events[k] matches EventView::Sent {
                    nonce,
                    ..
                } ==> exists|i: int|
                    0 <= i < s.peers.len() && #[trigger] s.peers[i].send_nonce == nonce
                        && t.peers[i].send_nonce == nonce + 1)
        }),
        ({
            let t = recv_spec(s, outer_src, from, inner_src).0;
            forall|i: int|
                0 <= i < s.peers.len() ==> (#[trigger] t.peers[i]).send_nonce
                    == s.peers[i].send_nonce
        }),
{
    lemma_lookups_in_range(s, dst, from);
    let (t, events) = send_spec(s, dst);
    match route(s.peers, dst) {
        Route::Peer(i) => {
            if s.peers[i].endpoint is Some {
                assert forall|k: int| 0 <= k < events.len() implies (#[trigger] events[k] matches EventView::Sent {
                    nonce,
                    ..
                } ==> exists|j: int|
                    0 <= j < s.peers.len() && #[trigger] s.peers[j].send_nonce == nonce
                        && t.peers[j].send_nonce == nonce + 1) by {
                    if events[k] is Sent {
                        assert(k == events.len() - 1);
                        assert(s.peers[i].send_nonce == events[k]->nonce);
                    }
                }
            }
        },
        _ => {},
    }
}

/// The longest prefix among the first `n` blocks holding `ip` is the prefix of one of them,
/// and no block among them that holds `ip` is longer.
proof fn lemma_longest_match(nets: Seq<Ipv4Network>, ip: IpAddr, n: nat)
    requires
        n <= nets.len(),
    ensures
        match longest_match_upto(nets, ip, n) {
            Some(l) => (exists|j: int|
                0 <= j < n && (#[trigger] nets[j]).spec_contains(ip) && nets[j].prefix_len == l)
                && forall|j: int|
                0 <= j < n && (#[trigger] nets[j]).spec_contains(ip) ==> nets[j].prefix_len <= l,
            None => forall|j: int| 0 <= j < n ==> !(#[trigger] nets[j]).spec_contains(ip),
        },
    decreases n,
{
    if n > 0 {
        lemma_longest_match(nets, ip, (n - 1) as nat);
        let b = nets[n - 1];
        if b.spec_contains(ip) {
            match longest_match_upto(nets, ip, (n - 1) as nat) {
                Some(l) => {
                    if l < b.prefix_len {
                        assert(nets[n - 1].spec_contains(ip));
                    }
                },
                None => {
                    assert(nets[n - 1].spec_contains(ip));
                },
            }
        }
    }
}

/// The best peer among the first `n` has the longest match among them, and every earlier
/// peer's match is shorter.
proof fn lemma_best_peer(peers: Seq<PeerState>, ip: IpAddr, n: nat)
    requires
        n <= peers.len(),
    ensures
        match best_peer_upto(peers, ip, n) {
            Some((i, l)) => {
                &&& 0 <= i < n
                &&& longest_match(peers[i].allowed_ips, ip) == Some(l)
                &&& forall|j: int|
                    0 <= j < n ==> (#[trigger] longest_match(peers[j].allowed_ips, ip) matches Some(
                        m,
                    ) ==> m <= l)
                &&& forall|j: int|
                    0 <= j < i ==> (#[trigger] longest_match(peers[j].allowed_ips, ip) matches Some(
                        m,
                    ) ==> m < l)
            },
            None => forall|j: int|
                0 <= j < n ==> #[trigger] longest_match(peers[j].allowed_ips, ip) is None,
        },
    decreases n,
{
    if n > 0 {
        lemma_best_peer(peers, ip, (n - 1) as nat);
    }
}

/// Whether block `c` of peer `j` holds `dst`.
pub open spec fn peer_block_holds(s: InterfaceState, j: int, c: int, dst: IpAddr) -> bool {
    0 <= j < s.peers.len() && 0 <= c < s.peers[j].allowed_ips.len()
        && s.peers[j].allowed_ips[c].spec_contains(dst)
}

/// The prefix length of block `c` of peer `j`.
pub open spec fn peer_block_len(s: InterfaceState, j: int, c: int) -> u8 {
    s.peers[j].allowed_ips[c].prefix_len
}

/// Outbound routing is a longest-prefix match over all peers' allowed IPs: the route is a
/// peer with a block that holds `dst` and is at least as long as every block of every
/// peer that holds `dst`, and strictly longer than every such block of an earlier peer.
/// When no block holds `dst` the packet is dropped and nothing changes. The lookup fails
/// only for an IPv4 destination with some block longer than 32 bits.
pub proof fn lemma_route_is_longest_match(s: InterfaceState, dst: IpAddr)
    ensures
        route(s.peers, dst) matches Route::Peer(i) ==> exists|b: int|
            #[trigger] peer_block_holds(s, i, b, dst) && (forall|j: int, c: int|
                #[trigger] peer_block_holds(s, j, c, dst) ==> peer_block_len(s, j, c)
                    <= peer_block_len(s, i, b)) && (forall|j: int, c: int|
                #[trigger] peer_block_holds(s, j, c, dst) && j < i ==> peer_block_len(s, j, c)
                    < peer_block_len(s, i, b)),
        route(s.peers, dst) is NoRoute ==> (forall|j: int, c: int|
            !#[trigger] peer_block_holds(s, j, c, dst)) && send_spec(s, dst) == (
            s,
            seq![EventView::NoRoute { inner_dst: dst }],
        ),
        (route(s.peers, dst) is Fault) == (dst is V4 && exists|j: int, c: int|
            0 <= j < s.peers.len() && 0 <= c < s.peers[j].allowed_ips.len()
                && #[trigger] peer_block_len(s, j, c) > 32),
{
    let n = s.peers.len();
    lemma_best_peer(s.peers, dst, n);
    if let Route::Peer(i) = route(s.peers, dst) {
        let (_, l) = best_peer_upto(s.peers, dst, n)->0;
        lemma_longest_match(s.peers[i].allowed_ips, dst, s.peers[i].allowed_ips.len());
        let b = choose|b: int|
            0 <= b < s.peers[i].allowed_ips.len() && (#[trigger] s.peers[i].allowed_ips[b]).spec_contains(
                dst,
            ) && s.peers[i].allowed_ips[b].prefix_len == l;
        assert(peer_block_holds(s, i, b, dst));
        assert forall|j: int, c: int| #[trigger] peer_block_holds(s, j, c, dst) implies peer_block_len(
            s,
            j,
            c,
        ) <= peer_block_len(s, i, b) && (j < i ==> peer_block_len(s, j, c) < peer_block_len(
            s,
            i,
            b,
        )) by {
            lemma_longest_match(s.peers[j].allowed_ips, dst, s.peers[j].allowed_ips.len());
            assert(s.peers[j].allowed_ips[c].spec_contains(dst));
            assert(longest_match(s.peers[j].allowed_ips, dst) is Some);
        }
    }
    if route(s.peers, dst) is NoRoute {
        assert forall|j: int, c: int| !#[trigger] peer_block_holds(s, j, c, dst) by {
            if 0 <= j < n {
                lemma_longest_match(s.peers[j].allowed_ips, dst, s.peers[j].allowed_ips.len());
                assert(longest_match(s.peers[j].allowed_ips, dst) is None);
                if 0 <= c < s.peers[j].allowed_ips.len() {
                    assert(!s.peers[j].allowed_ips[c].spec_contains(dst));
                }
            }
        }
    }
    if dst is V4 && exists|j: int, c: int|
        0 <= j < s.peers.len() && 0 <= c < s.peers[j].allowed_ips.len()
            && #[trigger] peer_block_len(s, j, c) > 32 {
        let (j, c) = choose|j: int, c: int|
            0 <= j < s.peers.len() && 0 <= c < s.peers[j].allowed_ips.len()
                && #[trigger] peer_block_len(s, j, c) > 32;
        assert(s.peers[j].allowed_ips[c].prefix_len > 32);
        assert(nets_fault(s.peers[j].allowed_ips, dst));
    }
    if route(s.peers, dst) is Fault {
        let j = choose|j: int| 0 <= j < s.peers.len() && nets_fault((#[trigger] s.peers[j]).allowed_ips, dst);
        let c = choose|c: int|
            0 <= c < s.peers[j].allowed_ips.len() && (#[trigger] s.peers[j].allowed_ips[c]).prefix_len > 32;
        assert(peer_block_len(s, j, c) > 32);
    }
}

/// A packet is accepted exactly when it comes from a known key and its inner source is in
/// that peer's allowed IPs; the peer's endpoint is then where the packet came from, and it
/// has a session. A packet from a known key whose inner source is not allowed is still
/// decrypted, so the session is set up, but it is dropped: nothing is accepted and the
/// endpoint stays. A packet from an unknown key is ignored and changes nothing.
pub proof fn lemma_recv_accepts_only_allowed(
    s: InterfaceState,
    outer_src: SocketAddr,
    from: Seq<char>,
    inner_src: IpAddr,
)
    ensures
        ({
            let (t, events) = recv_spec(s, outer_src, from, inner_src);
            match peer_index(s.peers, from) {
                Some(i) => if scan_nets(s.peers[i].allowed_ips, inner_src) == Scan::Hit {
                    &&& s.peers[i].key == from
                    &&& t.peers[i].endpoint == Some(outer_src)
                    &&& t.peers[i].session_key is Some
                    &&& events.last() == (EventView::Received { outer_src, peer: from, inner_src })
                } else {
                    &&& s.peers[i].key == from
                    &&& t.peers.len() == s.peers.len()
                    &&& forall|j: int|
                        0 <= j < s.peers.len() && j != i ==> #[trigger] t.peers[j] == s.peers[j]
                    &&& t.peers[i].endpoint == s.peers[i].endpoint
                    &&& t.peers[i].send_nonce == s.peers[i].send_nonce
                    &&& t.peers[i].session_key is Some
                    &&& events.last() == (EventView::Dropped {
                        outer_src,
                        peer: from,
                        inner_src,
                        reason: NOT_IN_ALLOWED_IPS@,
                    })
                    &&& forall|k: int| 0 <= k < events.len() ==> !(#[trigger] events[k] is Received)
                },
                None => t == s && events.len() == 0,
            }
        }),
{
    if let Some(i) = peer_index(s.peers, from) {
        lemma_first_index(s.peers.len(), s.peers.len(), has_key(s.peers, from));
    }
}

/// Receiving the same packet twice: the second time there is nothing to set up or move,
/// so the interface stays as the first receipt left it and only the receipt is reported.
pub proof fn lemma_recv_twice(
    s: InterfaceState,
    outer_src: SocketAddr,
    from: Seq<char>,
    inner_src: IpAddr,
)
    requires
        peer_index(s.peers, from) is Some,
        scan_nets(s.peers[peer_index(s.peers, from)->0].allowed_ips, inner_src) == Scan::Hit,
    ensures
        ({
            let t = recv_spec(s, outer_src, from, inner_src).0;
            let (u, events) = recv_spec(t, outer_src, from, inner_src);
            &&& u == t
            &&& events == seq![EventView::Received { outer_src, peer: from, inner_src }]
        }),
{
    let i = peer_index(s.peers, from)->0;
    let t = recv_spec(s, outer_src, from, inner_src).0;
    lemma_first_index(s.peers.len(), s.peers.len(), has_key(s.peers, from));
    assert(peer_index(t.peers, from) == Some(i)) by {
        lemma_same_keys_same_index(s, t, from, s.peers.len());
    }
    let (u, events) = recv_spec(t, outer_src, from, inner_src);
    assert(u.peers =~= t.peers);
    assert(events =~= seq![EventView::Received { outer_src, peer: from, inner_src }]);
}

/// Interfaces whose peers carry the same keys find the same first peer for a key.
proof fn lemma_same_keys_same_index(s: InterfaceState, t: InterfaceState, key: Seq<char>, n: nat)
    requires
        n <= s.peers.len(),
        t.peers.len() == s.peers.len(),
        forall|i: int| 0 <= i < s.peers.len() ==> (#[trigger] t.peers[i]).key == s.peers[i].key,
    ensures
        first_index(n, has_key(t.peers, key)) == first_index(n, has_key(s.peers, key)),
    decreases n,
{
    if n > 0 {
        lemma_same_keys_same_index(s, t, key, (n - 1) as nat);
        assert(has_key(t.peers, key)(n - 1) == has_key(s.peers, key)(n - 1));
    }
}

/// Interfaces whose peers have the same allowed IPs route every address alike.
proof fn lemma_same_nets_same_route(s: InterfaceState, t: InterfaceState, dst: IpAddr, n: nat)
    requires
        n <= s.peers.len(),
        t.peers.len() == s.peers.len(),
        forall|i: int|
            0 <= i < s.peers.len() ==> (#[trigger] t.peers[i]).allowed_ips == s.peers[i].allowed_ips,
    ensures
        best_peer_upto(t.peers, dst, n) == best_peer_upto(s.peers, dst, n),
        n == s.peers.len() ==> route(t.peers, dst) == route(s.peers, dst),
    decreases n,
{
    if n > 0 {
        lemma_same_nets_same_route(s, t, dst, (n - 1) as nat);
        assert(t.peers[n - 1].allowed_ips == s.peers[n - 1].allowed_ips);
    }
    if n == s.peers.len() {
        if exists|i: int| 0 <= i < s.peers.len() && nets_fault((#[trigger] s.peers[i]).allowed_ips, dst) {
            let i = choose|i: int| 0 <= i < s.peers.len() && nets_fault((#[trigger] s.peers[i]).allowed_ips, dst);
            assert(nets_fault(t.peers[i].allowed_ips, dst));
        }
        if exists|i: int| 0 <= i < t.peers.len() && nets_fault((#[trigger] t.peers[i]).allowed_ips, dst) {
            let i = choose|i: int| 0 <= i < t.peers.len() && nets_fault((#[trigger] t.peers[i]).allowed_ips, dst);
            assert(nets_fault(s.peers[i].allowed_ips, dst));
        }
    }
}

/// Sending twice to the same destination: the second packet goes to the same peer and
/// endpoint, needs no handshake, and carries the next nonce.
pub proof fn lemma_send_twice(s: InterfaceState, dst: IpAddr)
    requires
        send_ok(s, dst),
        route(s.peers, dst) matches Route::Peer(i) && s.peers[i].endpoint is Some,
    ensures
        ({
            let i = route(s.peers, dst)->Peer_0;
            let (t, first) = send_spec(s, dst);
            let (u, second) = send_spec(t, dst);
            &&& route(t.peers, dst) == route(s.peers, dst)
            &&& first.last() == (EventView::Sent {
                inner_dst: dst,
                peer: s.peers[i].key,
                outer_dst: s.peers[i].endpoint->0,
                nonce: s.peers[i].send_nonce,
            })
            &&& s.peers[i].send_nonce + 1 < u64::MAX ==> second == seq![
                EventView::Sent {
                    inner_dst: dst,
                    peer: s.peers[i].key,
                    outer_dst: s.peers[i].endpoint->0,
                    nonce: (s.peers[i].send_nonce + 1) as u64,
                },
            ]
        }),
{
    let i = route(s.peers, dst)->Peer_0;
    lemma_lookups_in_range(s, dst, Seq::empty());
    let t = send_spec(s, dst).0;
    lemma_same_nets_same_route(s, t, dst, s.peers.len());
    assert(route(t.peers, dst) == route(s.peers, dst));
    let second = send_spec(t, dst).1;
    assert(t.peers[i].session_key is Some);
    assert(second =~= seq![
        EventView::Sent {
            inner_dst: dst,
            peer: s.peers[i].key,
            outer_dst: s.peers[i].endpoint->0,
            nonce: (s.peers[i].send_nonce + 1) as u64,
        },
    ]);
}

/// One operation on an interface: a packet sent, a packet received, or a peer added.
pub enum Op {
    Send(IpAddr),
    Recv(SocketAddr, Seq<char>, IpAddr),
    AddPeer(Seq<char>, Seq<Ipv4Network>, Option<SocketAddr>),
}

/// Whether an operation can run without failing.
pub open spec fn op_ok(s: InterfaceState, op: Op) -> bool {
    match op {
        Op::Send(dst) => send_ok(s, dst),
        Op::Recv(_, from, inner_src) => recv_ok(s, from, inner_src),
        Op::AddPeer(..) => true,
    }
}

/// The interface after an operation, and the events it reports.
pub open spec fn apply(s: InterfaceState, op: Op) -> (InterfaceState, Seq<EventView>) {
    match op {
        Op::Send(dst) => send_spec(s, dst),
        Op::Recv(outer_src, from, inner_src) => recv_spec(s, outer_src, from, inner_src),
        Op::AddPeer(key, nets, endpoint) => (add_peer_spec(s, key, nets, endpoint), Seq::empty()),
    }
}

/// Whether every operation of a sequence can run without failing, each in turn.
pub open spec fn run_ok(s: InterfaceState, ops: Seq<Op>) -> bool
    decreases ops.len(),
{
    ops.len() == 0 || (op_ok(s, ops[0]) && run_ok(apply(s, ops[0]).0, ops.drop_first()))
}

/// The interface after a sequence of operations.
pub open spec fn run(s: InterfaceState, ops: Seq<Op>) -> InterfaceState
    decreases ops.len(),
{
    if ops.len() == 0 {
        s
    } else {
        run(apply(s, ops[0]).0, ops.drop_first())
    }
}

/// Peer `k`'s nonce counter; a peer not added yet counts as zero.
pub open spec fn nonce_of(s: InterfaceState, k: int) -> int {
    if 0 <= k < s.peers.len() {
        s.peers[k].send_nonce as int
    } else {
        0
    }
}

/// The nonce of the packet that an operation sends to peer `k`, if it sends one there.
pub open spec fn sent_nonce(s: InterfaceState, op: Op, k: int) -> Option<u64> {
    match op {
        Op::Send(dst) => match route(s.peers, dst) {
            Route::Peer(i) => if i == k {
                match apply(s, op).1.last() {
                    EventView::Sent { nonce, .. } => Some(nonce),
                    _ => None,
                }
            } else {
                None
            },
            _ => None,
        },
        _ => None,
    }
}

/// The nonces of the packets sent to peer `k` over a sequence of operations, in order.
pub open spec fn nonces_sent(s: InterfaceState, ops: Seq<Op>, k: int) -> Seq<u64>
    decreases ops.len(),
{
    if ops.len() == 0 {
        Seq::empty()
    } else {
        let rest = nonces_sent(apply(s, ops[0]).0, ops.drop_first(), k);
        match sent_nonce(s, ops[0], k) {
            Some(n) => seq![n] + rest,
            None => rest,
        }
    }
}

/// One operation sends to peer `k` at most one packet, under `k`'s counter, which then
/// advances by one; otherwise the counter stays.
proof fn lemma_op_nonce(s: InterfaceState, op: Op, k: int)
    requires
        op_ok(s, op),
        0 <= k,
    ensures
        match sent_nonce(s, op, k) {
            Some(n) => n == nonce_of(s, k) && nonce_of(apply(s, op).0, k) == nonce_of(s, k) + 1,
            None => nonce_of(apply(s, op).0, k) == nonce_of(s, k),
        },
{
    match op {
        Op::Send(dst) => {
            lemma_lookups_in_range(s, dst, Seq::empty());
        },
        Op::Recv(outer_src, from, inner_src) => {
            lemma_lookups_in_range(s, IpAddr::V4(Ipv4Addr(0, 0, 0, 0)), from);
        },
        Op::AddPeer(..) => {},
    }
}

/// Nonces over any sequence of operations: the packets sent to a peer carry its counter's
/// values one after another, with no gap and no repeat, and the counter ends up advanced by
/// the number of those packets. Receiving, adding peers and dropped packets leave it alone.
pub proof fn lemma_nonces_count_sends(s: InterfaceState, ops: Seq<Op>, k: int)
    requires
        run_ok(s, ops),
        0 <= k,
    ensures
        forall|m: int|
            0 <= m < nonces_sent(s, ops, k).len() ==> #[trigger] nonces_sent(s, ops, k)[m]
                == nonce_of(s, k) + m,
        nonce_of(run(s, ops), k) == nonce_of(s, k) + nonces_sent(s, ops, k).len(),
    decreases ops.len(),
{
    if ops.len() > 0 {
        let t = apply(s, ops[0]).0;
        lemma_op_nonce(s, ops[0], k);
        lemma_nonces_count_sends(t, ops.drop_first(), k);
        let rest = nonces_sent(t, ops.drop_first(), k);
        if let Some(n) = sent_nonce(s, ops[0], k) {
            let all = nonces_sent(s, ops, k);
            assert(all == seq![n] + rest);
            assert forall|m: int| 0 <= m < all.len() implies #[trigger] all[m] == nonce_of(s, k)
                + m by {
                if m > 0 {
                    assert(all[m] == rest[m - 1]);
                }
            }
        }
    }
}

/// From a new interface, with no peers yet: the packets sent to each peer carry the nonces
/// 0, 1, 2, ... in order, and its counter is the number of packets sent to it.
pub proof fn lemma_fresh_nonces(s: InterfaceState, ops: Seq<Op>, k: int)
    requires
        s.peers.len() == 0,
        run_ok(s, ops),
        0 <= k,
    ensures
        forall|m: int|
            0 <= m < nonces_sent(s, ops, k).len() ==> #[trigger] nonces_sent(s, ops, k)[m] == m,
        nonce_of(run(s, ops), k) == nonces_sent(s, ops, k).len(),
{
    lemma_nonces_count_sends(s, ops, k);
}

/// A simulated send is a packet sent to the first address of the peer with that key (which
/// the route may give to another peer with a longer block); a simulated receipt or roam is
/// a packet from that peer with its first address as source, arriving from its endpoint
/// (or 203.0.113.1:51820) or from 198.18.0.`counter`:51820.
pub proof fn lemma_simulations_are_packets(s: InterfaceState, key: Seq<char>, counter: u8)
    ensures
        peer_index(s.peers, key) matches Some(i) ==> (first_ip(s.peers[i]) is Some ==> {
            let p = s.peers[i];
            let ip = first_ip(p)->0;
            &&& simulate_send_spec(s, key) == send_spec(s, ip)
            &&& simulate_recv_spec(s, key) == recv_spec(
                s,
                match p.endpoint {
                    Some(e) => e,
                    None => fallback_outer(),
                },
                p.key,
                ip,
            )
            &&& simulate_roam_spec(s, key, counter) == recv_spec(s, roam_outer(counter), p.key, ip)
        }),
{
}

/// A simulated packet from a peer whose first block has a prefix of at most 32 bits is
/// always accepted: its source is the first block's own address. The peer's endpoint then
/// is where the packet came from, and a roam is reported exactly when it was elsewhere.
pub proof fn lemma_simulated_receipt_accepted(s: InterfaceState, key: Seq<char>, outer_src: SocketAddr)
    requires
        peer_index(s.peers, key) is Some,
        s.peers[peer_index(s.peers, key)->0].allowed_ips.len() > 0,
        s.peers[peer_index(s.peers, key)->0].allowed_ips[0].prefix_len <= 32,
    ensures
        ({
            let i = peer_index(s.peers, key)->0;
            let p = s.peers[i];
            let ip = IpAddr::V4(p.allowed_ips[0].addr);
            let (t, events) = simulate_from_spec(s, key, outer_src);
            &&& events.last() == (EventView::Received { outer_src, peer: p.key, inner_src: ip })
            &&& forall|k: int| 0 <= k < events.len() ==> !(#[trigger] events[k] is Dropped)
            &&& t.peers[i].endpoint == Some(outer_src)
            &&& (exists|k: int| 0 <= k < events.len() && #[trigger] events[k] is Roamed) == (
            p.endpoint != Some(outer_src))
        }),
{
    let i = peer_index(s.peers, key)->0;
    lemma_lookups_in_range(s, IpAddr::V4(Ipv4Addr(0, 0, 0, 0)), key);
    let p = s.peers[i];
    let nets = p.allowed_ips;
    let ip = IpAddr::V4(nets[0].addr);
    let pred = stops_at(nets, ip);
    assert(pred(0));
    reveal_with_fuel(first_index, 2);
    assert(first_index(1, pred) == Some(0int));
    lemma_first_index(1, nets.len(), pred);
    assert(scan_nets(nets, ip) == Scan::Hit);
    assert(peer_index(s.peers, p.key) == Some(i));
    let (t, events) = simulate_from_spec(s, key, outer_src);
    assert forall|k: int| 0 <= k < events.len() implies !(#[trigger] events[k] is Dropped) by {
        if p.session_key is None && k == 0 {
        }
    }
    if p.endpoint != Some(outer_src) {
        let k = if p.session_key is None {
            1int
        } else {
            0int
        };
        assert(events[k] is Roamed);
    } else {
        assert forall|k: int| 0 <= k < events.len() implies !(#[trigger] events[k] is Roamed) by {}
    }
}

/// What a send does, over all inputs that do not fail. With no route nothing changes and
/// `NoRoute` is reported; a routed peer without endpoint gets `NoEndpoint` and nothing
/// changes. Otherwise only the routed peer changes: its nonce advances by one and, if it had
/// no session, the derived session key is set up; its key, allowed IPs and endpoint stay.
/// The handshake is reported exactly when the peer had no session, and the packet is
/// reported sent to that peer's endpoint under its nonce from before the send.
pub proof fn lemma_send_effects(s: InterfaceState, dst: IpAddr)
    requires
        send_ok(s, dst),
    ensures
        ({
            let (t, events) = send_spec(s, dst);
            &&& same_configuration(s, t)
            &&& match route(s.peers, dst) {
                Route::Peer(i) => {
                    let p = s.peers[i];
                    &&& 0 <= i < s.peers.len()
                    &&& forall|j: int|
                        0 <= j < s.peers.len() && j != i ==> #[trigger] t.peers[j] == s.peers[j]
                    &&& t.peers[i].endpoint == p.endpoint
                    &&& match p.endpoint {
                        None => t == s && events == seq![
                            EventView::NoEndpoint { inner_dst: dst, peer: p.key },
                        ],
                        Some(ep) => {
                            let sent = EventView::Sent {
                                inner_dst: dst,
                                peer: p.key,
                                outer_dst: ep,
                                nonce: p.send_nonce,
                            };
                            &&& t.peers[i].send_nonce == p.send_nonce + 1
                            &&& events.last() == sent
                            &&& (exists|k: int|
                                0 <= k < events.len() && #[trigger] events[k] is HandshakeCompleted)
                                == (p.session_key is None)
                            &&& p.session_key is Some ==> events == seq![sent]
                                && t.peers[i].session_key == p.session_key
                            &&& p.session_key is None ==> events == seq![
                                EventView::HandshakeCompleted {
                                    peer: p.key,
                                    session_key: session_key_text(p.key, s.private_key),
                                },
                                sent,
                            ] && t.peers[i].session_key == Some(
                                session_key_text(p.key, s.private_key),
                            )
                        },
                    }
                },
                _ => t == s && events == seq![EventView::NoRoute { inner_dst: dst }],
            }
        }),
{
    lemma_lookups_in_range(s, dst, Seq::empty());
    let (t, events) = send_spec(s, dst);
    if let Route::Peer(i) = route(s.peers, dst) {
        let p = s.peers[i];
        if let Some(ep) = p.endpoint {
            let sent = EventView::Sent {
                inner_dst: dst,
                peer: p.key,
                outer_dst: ep,
                nonce: p.send_nonce,
            };
            if p.session_key is None {
                assert(events =~= seq![
                    EventView::HandshakeCompleted {
                        peer: p.key,
                        session_key: session_key_text(p.key, s.private_key),
                    },
                    sent,
                ]);
                assert(events[0] is HandshakeCompleted);
            } else {
                assert(events =~= seq![sent]);
                assert forall|k: int| 0 <= k < events.len() implies !(
                #[trigger] events[k] is HandshakeCompleted) by {}
            }
        }
    }
}

/// What a receive does. A packet from an unknown key changes nothing and reports nothing.
/// Otherwise only the peer with that key changes, and never its key, allowed IPs or nonce.
/// It gets the derived session key if it had none, and the handshake is reported (first)
/// exactly then. If the inner source is in its allowed IPs its endpoint becomes the outer
/// source, a roam from the old endpoint is reported exactly when that differs, and the
/// packet is reported received; otherwise its endpoint stays and the packet is reported
/// dropped, with no roam and no receipt.
pub proof fn lemma_recv_effects(
    s: InterfaceState,
    outer_src: SocketAddr,
    from: Seq<char>,
    inner_src: IpAddr,
)
    ensures
        ({
            let (t, events) = recv_spec(s, outer_src, from, inner_src);
            &&& same_configuration(s, t)
            &&& match peer_index(s.peers, from) {
                None => t == s && events.len() == 0,
                Some(i) => {
                    let p = s.peers[i];
                    let sk = session_key_text(from, s.private_key);
                    &&& 0 <= i < s.peers.len()
                    &&& p.key == from
                    &&& forall|j: int|
                        0 <= j < s.peers.len() && j != i ==> #[trigger] t.peers[j] == s.peers[j]
                    &&& t.peers[i].send_nonce == p.send_nonce
                    &&& (exists|k: int|
                        0 <= k < events.len() && #[trigger] events[k] is HandshakeCompleted) == (
                    p.session_key is None)
                    &&& p.session_key is None ==> events[0] == (EventView::HandshakeCompleted {
                        peer: from,
                        session_key: sk,
                    }) && t.peers[i].session_key == Some(sk)
                    &&& p.session_key is Some ==> t.peers[i].session_key == p.session_key
                    &&& if scan_nets(p.allowed_ips, inner_src) == Scan::Hit {
                        &&& t.peers[i].endpoint == Some(outer_src)
                        &&& events.last() == (EventView::Received {
                            outer_src,
                            peer: from,
                            inner_src,
                        })
                        &&& (exists|k: int| 0 <= k < events.len() && #[trigger] events[k] is Roamed)
                            == (p.endpoint != Some(outer_src))
                        &&& forall|k: int|
                            0 <= k < events.len() && #[trigger] events[k] is Roamed ==> events[k]
                                == (EventView::Roamed {
                                peer: from,
                                old_endpoint: p.endpoint,
                                new_endpoint: outer_src,
                            })
                    } else {
                        &&& t.peers[i].endpoint == p.endpoint
                        &&& events.last() == (EventView::Dropped {
                            outer_src,
                            peer: from,
                            inner_src,
                            reason: NOT_IN_ALLOWED_IPS@,
                        })
                        &&& forall|k: int|
                            0 <= k < events.len() ==> !(#[trigger] events[k] is Received)
                                && !(events[k] is Roamed)
                    }
                },
            }
        }),
{
    lemma_lookups_in_range(s, IpAddr::V4(Ipv4Addr(0, 0, 0, 0)), from);
    let (t, events) = recv_spec(s, outer_src, from, inner_src);
    if let Some(i) = peer_index(s.peers, from) {
        let p = s.peers[i];
        let sk = session_key_text(from, s.private_key);
        let hs = if p.session_key is None {
            seq![EventView::HandshakeCompleted { peer: from, session_key: sk }]
        } else {
            Seq::<EventView>::empty()
        };
        if scan_nets(p.allowed_ips, inner_src) == Scan::Hit {
            let roam = if p.endpoint != Some(outer_src) {
                seq![
                    EventView::Roamed {
                        peer: from,
                        old_endpoint: p.endpoint,
                        new_endpoint: outer_src,
                    },
                ]
            } else {
                Seq::<EventView>::empty()
            };
            let rcv = EventView::Received { outer_src, peer: from, inner_src };
            assert(events =~= hs + roam + seq![rcv]);
            assert forall|k: int| 0 <= k < events.len() && #[trigger] events[k] is Roamed implies events[k]
                == (EventView::Roamed {
                peer: from,
                old_endpoint: p.endpoint,
                new_endpoint: outer_src,
            }) by {
                assert(k == hs.len());
            }
            if p.endpoint != Some(outer_src) {
                assert(events[hs.len() as int] is Roamed);
            }
            if p.session_key is None {
                assert(events[0] is HandshakeCompleted);
            } else {
                assert forall|k: int| 0 <= k < events.len() implies !(
                #[trigger] events[k] is HandshakeCompleted) by {}
            }
        } else {
            let drop = EventView::Dropped {
                outer_src,
                peer: from,
                inner_src,
                reason: NOT_IN_ALLOWED_IPS@,
            };
            assert(events =~= hs + seq![drop]);
            if p.session_key is None {
                assert(events[0] is HandshakeCompleted);
            } else {
                assert forall|k: int| 0 <= k < events.len() implies !(
                #[trigger] events[k] is HandshakeCompleted) by {}
            }
        }
    }
}

/// A peer's endpoint moves only when a packet from it is accepted: after a receive (or a
/// simulated receive or roam), a peer whose endpoint changed is the one the last event,
/// a receipt, names.
pub proof fn lemma_endpoints_move_only_on_receipt(
    s: InterfaceState,
    outer_src: SocketAddr,
    from: Seq<char>,
    inner_src: IpAddr,
    key: Seq<char>,
    counter: u8,
)
    ensures
        ({
            let (t, events) = recv_spec(s, outer_src, from, inner_src);
            forall|j: int|
                0 <= j < s.peers.len() && (#[trigger] t.peers[j]).endpoint != s.peers[j].endpoint
                    ==> events.len() > 0 && events.last() == (EventView::Received {
                    outer_src,
                    peer: s.peers[j].key,
                    inner_src,
                })
        }),
        ({
            let (t, events) = simulate_roam_spec(s, key, counter);
            forall|j: int|
                0 <= j < s.peers.len() && (#[trigger] t.peers[j]).endpoint != s.peers[j].endpoint
                    ==> events.len() > 0 && events.last() is Received && t.peers[j].endpoint
                    == Some(roam_outer(counter))
        }),
        ({
            let (t, events) = simulate_recv_spec(s, key);
            forall|j: int|
                0 <= j < s.peers.len() && (#[trigger] t.peers[j]).endpoint != s.peers[j].endpoint
                    ==> events.len() > 0 && events.last() is Received
        }),
{
    lemma_recv_effects(s, outer_src, from, inner_src);
    lemma_lookups_in_range(s, IpAddr::V4(Ipv4Addr(0, 0, 0, 0)), key);
    if let Some(i) = peer_index(s.peers, key) {
        let p = s.peers[i];
        if let Some(ip) = first_ip(p) {
            lemma_recv_effects(s, roam_outer(counter), p.key, ip);
            let o = match p.endpoint {
                Some(e) => e,
                None => fallback_outer(),
            };
            lemma_recv_effects(s, o, p.key, ip);
            assert(peer_index(s.peers, p.key) == Some(i));
        }
    }
}

/// Simulated actions on a key with no peer, or on a peer with no allowed IPs, have no packet
/// to handle: a receive or roam changes nothing and reports nothing, and a send reports no
/// route to 0.0.0.0 and changes nothing.
pub proof fn lemma_simulations_without_address(s: InterfaceState, key: Seq<char>, counter: u8)
    requires
        peer_index(s.peers, key) is None || first_ip(s.peers[peer_index(s.peers, key)->0]) is None,
    ensures
        simulate_roam_spec(s, key, counter) == (s, Seq::<EventView>::empty()),
        simulate_recv_spec(s, key) == (s, Seq::<EventView>::empty()),
        simulate_send_spec(s, key) == (s, seq![
            EventView::NoRoute { inner_dst: IpAddr::V4(Ipv4Addr(0, 0, 0, 0)) },
        ]),
{
}

/// The routing table holds one row per peer, in order, each made from that peer alone.
pub proof fn lemma_table_rows(s: InterfaceState)
    ensures
        table_html_spec(s) == TABLE_OPEN@ + s.peers.map_values(|p: PeerState| row_html(p)).flatten()
            + TABLE_CLOSE@,
{
    lemma_rows_flatten(s.peers);
}

proof fn lemma_rows_flatten(peers: Seq<PeerState>)
    ensures
        rows_html(peers) == peers.map_values(|p: PeerState| row_html(p)).flatten(),
    decreases peers.len(),
{
    let rows = peers.map_values(|p: PeerState| row_html(p));
    rows.lemma_flatten_and_flatten_alt_are_equivalent();
    if peers.len() > 0 {
        lemma_rows_flatten(peers.drop_last());
        let shorter = peers.drop_last().map_values(|p: PeerState| row_html(p));
        shorter.lemma_flatten_and_flatten_alt_are_equivalent();
        assert(rows.drop_last() =~= shorter);
    } else {
        assert(rows =~= Seq::<Seq<char>>::empty());
    }
}

/// A peer's row starts with its key, its allowed blocks and its endpoint, each in its own
/// cell, and ends the row.
pub proof fn lemma_row_cells(p: PeerState)
    ensures
        ({
            let head = ROW_KEY@ + p.key + ROW_IPS@ + nets_text(p.allowed_ips) + ROW_ENDPOINT@
                + endpoint_text(p.endpoint) + ROW_SEND@;
            let row = row_html(p);
            &&& row.len() >= head.len() + ROW_CLOSE@.len()
            &&& row.take(head.len() as int) == head
            &&& row.skip(row.len() - ROW_CLOSE@.len()) == ROW_CLOSE@
        }),
{
    let head = ROW_KEY@ + p.key + ROW_IPS@ + nets_text(p.allowed_ips) + ROW_ENDPOINT@
        + endpoint_text(p.endpoint) + ROW_SEND@;
    let row = row_html(p);
    assert(row.take(head.len() as int) =~= head);
    assert(row.skip(row.len() - ROW_CLOSE@.len()) =~= ROW_CLOSE@);
}

/// A peer's allowed blocks are written in order, each in its own rendering, separated by
/// ", ".
pub proof fn lemma_nets_text(nets: Seq<Ipv4Network>)
    ensures
        nets_text(nets) == Seq::new(
            nets.len(),
            |k: int|
                if k == 0 {
                    nets[k].text()
                } else {
                    IPS_SEPARATOR@ + nets[k].text()
                },
        ).flatten(),
    decreases nets.len(),
{
    let parts = Seq::new(
        nets.len(),
        |k: int|
            if k == 0 {
                nets[k].text()
            } else {
                IPS_SEPARATOR@ + nets[k].text()
            },
    );
    parts.lemma_flatten_and_flatten_alt_are_equivalent();
    if nets.len() > 0 {
        lemma_nets_text(nets.drop_last());
        let shorter = Seq::new(
            (nets.len() - 1) as nat,
            |k: int|
                if k == 0 {
                    nets.drop_last()[k].text()
                } else {
                    IPS_SEPARATOR@ + nets.drop_last()[k].text()
                },
        );
        shorter.lemma_flatten_and_flatten_alt_are_equivalent();
        assert(parts.drop_last() =~= shorter);
        if nets.len() == 1 {
            assert(shorter =~= Seq::<Seq<char>>::empty());
            assert(nets_text(nets) == nets[0].text());
            assert(parts.flatten_alt() == shorter.flatten_alt() + parts.last());
            assert(shorter.flatten_alt() =~= Seq::<char>::empty());
            assert(nets_text(nets) =~= parts.flatten_alt());
        } else {
            assert(nets_text(nets) =~= parts.flatten_alt());
        }
    } else {
        assert(parts =~= Seq::<Seq<char>>::empty());
    }
}

/// The main page opens with the interface's name in its title and ends with the whole
/// routing table in its table section, followed by the rest of the page.
pub proof fn lemma_page_holds_table(s: InterfaceState)
    ensures
        ({
            let page = full_page_spec(s);
            let tail = PAGE_5@ + table_html_spec(s) + PAGE_6@;
            let head = PAGE_0@ + s.name + PAGE_1@;
            &&& page.len() >= head.len() + tail.len()
            &&& page.take(head.len() as int) == head
            &&& page.skip(page.len() - tail.len()) == tail
        }),
{
    let page = full_page_spec(s);
    let tail = PAGE_5@ + table_html_spec(s) + PAGE_6@;
    let head = PAGE_0@ + s.name + PAGE_1@;
    assert(page.take(head.len() as int) =~= head);
    assert(page.skip(page.len() - tail.len()) =~= tail);
}

/// Adding a peer keeps every existing peer and the interface's settings, and puts the new
/// peer last with the given key, allowed IPs and endpoint, no session and its nonce at zero.
pub proof fn lemma_add_peer_effects(
    s: InterfaceState,
    key: Seq<char>,
    allowed_ips: Seq<Ipv4Network>,
    endpoint: Option<SocketAddr>,
)
    ensures
        ({
            let t = add_peer_spec(s, key, allowed_ips, endpoint);
            let n = s.peers.len() as int;
            &&& t.name == s.name && t.private_key == s.private_key && t.public_key == s.public_key
            &&& t.listen_port == s.listen_port && t.address == s.address
            &&& t.peers.len() == n + 1
            &&& forall|j: int| 0 <= j < n ==> #[trigger] t.peers[j] == s.peers[j]
            &&& t.peers[n].key == key && t.peers[n].allowed_ips == allowed_ips
            &&& t.peers[n].endpoint == endpoint
            &&& t.peers[n].session_key is None && t.peers[n].send_nonce == 0
        }),
{
}

} // verus!
