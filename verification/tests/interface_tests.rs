use wg_viz::addr::{IpAddr, Ipv4Addr, Ipv6Addr, SocketAddr, SocketAddrV4};
use wg_viz::events::WgEvent;
use wg_viz::interface::{fake_session_key, Interface, Peer};
use wg_viz::net::Ipv4Network;
use wg_viz::types::{PrivateKey, PublicKey};

fn v4(a: u8, b: u8, c: u8, d: u8) -> IpAddr {
    IpAddr::V4(Ipv4Addr::new(a, b, c, d))
}

fn sock(a: u8, b: u8, c: u8, d: u8, port: u16) -> SocketAddr {
    SocketAddr::V4(SocketAddrV4 { ip: Ipv4Addr::new(a, b, c, d), port })
}

fn key(s: &str) -> PublicKey {
    PublicKey::new(s)
}

/// The demo's interface: wg0 with peers a (10.0.0.2/32) and b (10.0.0.3/32).
fn demo() -> Interface {
    let mut iface = Interface::new(
        "wg0",
        PrivateKey::new("server-private-key"),
        PublicKey::new("server-public-key"),
        51820,
        "10.0.0.1/24".parse().unwrap(),
    );
    iface.add_peer(key("peer-a-public-key"), vec!["10.0.0.2/32".parse().unwrap()], Some(sock(203, 0, 113, 10, 51820)));
    iface.add_peer(key("peer-b-public-key"), vec!["10.0.0.3/32".parse().unwrap()], Some(sock(198, 51, 100, 7, 51820)));
    iface
}

/// The session key computed the straightforward way, byte by byte.
fn reference_session_key(peer_key: &str, iface_key: &str) -> String {
    let pb = peer_key.as_bytes();
    let ib = iface_key.as_bytes();
    (0u8..32)
        .map(|i| {
            let p = pb[usize::from(i) % pb.len().max(1)];
            let k = ib[usize::from(i) % ib.len().max(1)];
            format!("{:02x}", p ^ k ^ i.wrapping_mul(37))
        })
        .collect()
}

#[test]
fn session_key_matches_reference() {
    for (a, b) in [("peer-a-public-key", "server-private-key"), ("x", "y"), ("clé", "ключ"), ("a", "a much longer key than thirty-two bytes in all")] {
        let k = fake_session_key(a, b);
        assert_eq!(k, reference_session_key(a, b));
        assert_eq!(k.len(), 64);
        assert!(k.chars().all(|c| c.is_ascii_hexdigit() && !c.is_ascii_uppercase()));
    }
}

#[test]
fn session_key_is_symmetric() {
    assert_eq!(fake_session_key("peer-a-public-key", "server-private-key"), fake_session_key("server-private-key", "peer-a-public-key"));
    assert_eq!(fake_session_key("ab", "xyz"), fake_session_key("xyz", "ab"));
}

#[test]
fn new_and_add_peer() {
    let iface = demo();
    assert_eq!(iface.name, "wg0");
    assert_eq!(iface.listen_port, 51820);
    assert_eq!(iface.peers.len(), 2);
    assert_eq!(iface.peers[1].public_key, key("peer-b-public-key"));
    assert_eq!(iface.peers[1].session_key, None);
    assert_eq!(iface.peers[1].send_nonce, 0);
    assert_eq!(iface.peers[1].first_ip(), Some(v4(10, 0, 0, 3)));
}

#[test]
fn peer_allows_and_first_ip() {
    let p = Peer {
        public_key: key("p"),
        allowed_ips: vec!["10.0.0.0/24".parse().unwrap(), "192.168.0.0/16".parse().unwrap()],
        endpoint: None,
        session_key: None,
        send_nonce: 0,
    };
    assert!(p.allows(v4(10, 0, 0, 9)));
    assert!(p.allows(v4(192, 168, 44, 1)));
    assert!(!p.allows(v4(172, 16, 0, 1)));
    assert!(!p.allows(IpAddr::V6(Ipv6Addr::new(0, 0, 0, 0, 0, 0, 0, 1))));
    assert_eq!(p.first_ip(), Some(v4(10, 0, 0, 0)));
    let empty = Peer { public_key: key("q"), allowed_ips: vec![], endpoint: None, session_key: None, send_nonce: 0 };
    assert_eq!(empty.first_ip(), None);
    assert!(!empty.allows(v4(10, 0, 0, 9)));
}

#[test]
fn first_send_runs_handshake_then_sends() {
    let mut iface = demo();
    let sk = fake_session_key("peer-a-public-key", "server-private-key");
    let evs = iface.send(v4(10, 0, 0, 2), b"ping");
    assert_eq!(
        evs,
        vec![
            WgEvent::HandshakeCompleted { peer: key("peer-a-public-key"), session_key: sk.clone() },
            WgEvent::Sent { inner_dst: v4(10, 0, 0, 2), peer: key("peer-a-public-key"), outer_dst: sock(203, 0, 113, 10, 51820), nonce: 0 },
        ]
    );
    assert_eq!(iface.peers[0].session_key, Some(sk));
    assert_eq!(iface.peers[0].send_nonce, 1);
    assert_eq!(iface.peers[1].send_nonce, 0);
}

#[test]
fn second_send_uses_next_nonce_without_handshake() {
    let mut iface = demo();
    iface.send(v4(10, 0, 0, 2), b"ping");
    let evs = iface.send(v4(10, 0, 0, 2), b"ping");
    assert_eq!(
        evs,
        vec![WgEvent::Sent { inner_dst: v4(10, 0, 0, 2), peer: key("peer-a-public-key"), outer_dst: sock(203, 0, 113, 10, 51820), nonce: 1 }]
    );
    assert_eq!(iface.peers[0].send_nonce, 2);
}

#[test]
fn send_without_route_changes_nothing() {
    let mut iface = demo();
    let evs = iface.send(v4(10, 0, 0, 9), b"ping");
    assert_eq!(evs, vec![WgEvent::NoRoute { inner_dst: v4(10, 0, 0, 9) }]);
    assert_eq!(iface.peers[0].send_nonce, 0);
    assert_eq!(iface.peers[0].session_key, None);
    let v6 = IpAddr::V6(Ipv6Addr::new(0x2001, 0xdb8, 0, 0, 0, 0, 0, 2));
    assert_eq!(iface.send(v6, b"ping"), vec![WgEvent::NoRoute { inner_dst: v6 }]);
}

#[test]
fn send_without_endpoint_is_dropped() {
    let mut iface = demo();
    iface.add_peer(key("peer-c"), vec!["10.0.0.4/32".parse().unwrap()], None);
    let evs = iface.send(v4(10, 0, 0, 4), b"ping");
    assert_eq!(evs, vec![WgEvent::NoEndpoint { inner_dst: v4(10, 0, 0, 4), peer: key("peer-c") }]);
    assert_eq!(iface.peers[2].session_key, None);
    assert_eq!(iface.peers[2].send_nonce, 0);
}

#[test]
fn send_picks_the_longest_matching_block() {
    let mut iface = demo();
    iface.add_peer(key("wide"), vec!["10.0.0.0/24".parse().unwrap()], Some(sock(192, 0, 2, 1, 1000)));
    // 10.0.0.3 is in peer b's /32 and in the /24 added after it: the /32 wins.
    let evs = iface.send(v4(10, 0, 0, 3), b"ping");
    assert!(matches!(evs.last(), Some(WgEvent::Sent { peer, .. }) if *peer == key("peer-b-public-key")));
    // 10.0.0.50 is only in the /24.
    let evs = iface.send(v4(10, 0, 0, 50), b"ping");
    assert!(matches!(evs.last(), Some(WgEvent::Sent { peer, outer_dst, .. }) if *peer == key("wide") && *outer_dst == sock(192, 0, 2, 1, 1000)));
}

#[test]
fn longer_block_of_a_later_peer_wins() {
    let mut i = Interface::new("wg0", PrivateKey::new("a"), PublicKey::new("s"), 51820, "10.0.0.1/24".parse().unwrap());
    i.add_peer(key("A"), vec!["10.0.0.0/24".parse().unwrap()], Some(sock(192, 0, 2, 1, 51820)));
    i.add_peer(key("B"), vec!["10.0.0.2/32".parse().unwrap()], Some(sock(192, 0, 2, 2, 51820)));
    let evs = i.send(v4(10, 0, 0, 2), b"x");
    assert_eq!(
        evs.last(),
        Some(&WgEvent::Sent { inner_dst: v4(10, 0, 0, 2), peer: key("B"), outer_dst: sock(192, 0, 2, 2, 51820), nonce: 0 })
    );
    assert_eq!(i.peers[1].send_nonce, 1);
    assert_eq!(i.peers[0].send_nonce, 0);
    assert!(i.peers[0].session_key.is_none());
    // Equally long blocks: the earlier peer wins.
    i.add_peer(key("C"), vec!["10.0.0.0/24".parse().unwrap()], Some(sock(192, 0, 2, 3, 51820)));
    let evs = i.send(v4(10, 0, 0, 9), b"x");
    assert!(matches!(evs.last(), Some(WgEvent::Sent { peer, .. }) if *peer == key("A")));
    // The longest block of a peer counts, wherever it stands in its list.
    i.add_peer(key("D"), vec!["10.0.0.0/8".parse().unwrap(), "10.0.0.0/25".parse().unwrap()], None);
    let evs = i.send(v4(10, 0, 0, 9), b"x");
    assert_eq!(evs, vec![WgEvent::NoEndpoint { inner_dst: v4(10, 0, 0, 9), peer: key("D") }]);
}

#[test]
fn recv_accepts_and_roams() {
    let mut iface = demo();
    let sk = fake_session_key("peer-a-public-key", "server-private-key");
    let from = key("peer-a-public-key");
    let evs = iface.recv(sock(198, 18, 0, 5, 4444), &from, v4(10, 0, 0, 2), b"hi");
    assert_eq!(
        evs,
        vec![
            WgEvent::HandshakeCompleted { peer: from.clone(), session_key: sk.clone() },
            WgEvent::Roamed { peer: from.clone(), old_endpoint: Some(sock(203, 0, 113, 10, 51820)), new_endpoint: sock(198, 18, 0, 5, 4444) },
            WgEvent::Received { outer_src: sock(198, 18, 0, 5, 4444), peer: from.clone(), inner_src: v4(10, 0, 0, 2) },
        ]
    );
    assert_eq!(iface.peers[0].endpoint, Some(sock(198, 18, 0, 5, 4444)));
    assert_eq!(iface.peers[0].session_key, Some(sk));
    assert_eq!(iface.peers[0].send_nonce, 0);
}

#[test]
fn recv_twice_reports_only_the_receipt() {
    let mut iface = demo();
    let from = key("peer-b-public-key");
    iface.recv(sock(198, 18, 0, 9, 1), &from, v4(10, 0, 0, 3), b"hi");
    let evs = iface.recv(sock(198, 18, 0, 9, 1), &from, v4(10, 0, 0, 3), b"hi");
    assert_eq!(evs, vec![WgEvent::Received { outer_src: sock(198, 18, 0, 9, 1), peer: from, inner_src: v4(10, 0, 0, 3) }]);
}

#[test]
fn recv_from_disallowed_source_is_dropped() {
    let mut iface = demo();
    let from = key("peer-a-public-key");
    let sk = fake_session_key("peer-a-public-key", "server-private-key");
    let evs = iface.recv(sock(198, 18, 0, 5, 4444), &from, v4(10, 0, 0, 3), b"hi");
    assert_eq!(
        evs,
        vec![
            WgEvent::HandshakeCompleted { peer: from.clone(), session_key: sk.clone() },
            WgEvent::Dropped { outer_src: sock(198, 18, 0, 5, 4444), peer: from.clone(), inner_src: v4(10, 0, 0, 3), reason: "not in allowed_ips" },
        ]
    );
    assert_eq!(iface.peers[0].endpoint, Some(sock(203, 0, 113, 10, 51820)));
    assert_eq!(iface.peers[0].session_key, Some(sk));
    assert_eq!(iface.peers[0].send_nonce, 0);
    // With the session in place, a second bad packet is only dropped.
    let evs = iface.recv(sock(198, 18, 0, 5, 4444), &from, v4(10, 0, 0, 3), b"hi");
    assert_eq!(evs.len(), 1);
    assert!(matches!(evs[0], WgEvent::Dropped { .. }));
}

#[test]
fn recv_from_unknown_key_is_ignored() {
    let mut iface = demo();
    let evs = iface.recv(sock(1, 2, 3, 4, 5), &key("stranger"), v4(10, 0, 0, 2), b"hi");
    assert!(evs.is_empty());
    assert_eq!(iface.peers[0].endpoint, Some(sock(203, 0, 113, 10, 51820)));
}

#[test]
fn simulate_send_by_key() {
    let mut iface = demo();
    let evs = iface.simulate_send("peer-b-public-key");
    assert_eq!(evs.len(), 2);
    assert_eq!(
        evs[1],
        WgEvent::Sent { inner_dst: v4(10, 0, 0, 3), peer: key("peer-b-public-key"), outer_dst: sock(198, 51, 100, 7, 51820), nonce: 0 }
    );
    assert_eq!(iface.simulate_send("nobody"), vec![WgEvent::NoRoute { inner_dst: v4(0, 0, 0, 0) }]);
}

#[test]
fn simulate_recv_by_key() {
    let mut iface = demo();
    let evs = iface.simulate_recv("peer-a-public-key");
    assert_eq!(evs.len(), 2);
    assert!(matches!(evs[0], WgEvent::HandshakeCompleted { .. }));
    assert_eq!(evs[1], WgEvent::Received { outer_src: sock(203, 0, 113, 10, 51820), peer: key("peer-a-public-key"), inner_src: v4(10, 0, 0, 2) });
    assert!(iface.simulate_recv("nobody").is_empty());
    iface.add_peer(key("no-endpoint"), vec!["10.0.0.8/32".parse().unwrap()], None);
    let evs = iface.simulate_recv("no-endpoint");
    assert_eq!(
        evs[1],
        WgEvent::Roamed { peer: key("no-endpoint"), old_endpoint: None, new_endpoint: sock(203, 0, 113, 1, 51820) }
    );
    iface.add_peer(key("no-ips"), vec![], None);
    assert!(iface.simulate_recv("no-ips").is_empty());
}

#[test]
fn simulate_roam_moves_endpoint() {
    let mut iface = demo();
    iface.simulate_recv("peer-a-public-key");
    let evs = iface.simulate_roam("peer-a-public-key", 2);
    assert_eq!(
        evs,
        vec![
            WgEvent::Roamed { peer: key("peer-a-public-key"), old_endpoint: Some(sock(203, 0, 113, 10, 51820)), new_endpoint: sock(198, 18, 0, 2, 51820) },
            WgEvent::Received { outer_src: sock(198, 18, 0, 2, 51820), peer: key("peer-a-public-key"), inner_src: v4(10, 0, 0, 2) },
        ]
    );
    assert_eq!(iface.peers[0].endpoint, Some(sock(198, 18, 0, 2, 51820)));
    assert!(iface.simulate_roam("nobody", 3).is_empty());
}

#[test]
fn checks_report_failing_calls() {
    let mut iface = demo();
    assert!(iface.can_simulate_send("peer-a-public-key"));
    assert!(iface.can_simulate_recv("peer-a-public-key"));
    assert!(iface.can_send(v4(10, 0, 0, 77)));
    // A block with a prefix longer than 32 bits makes lookups that reach it fail.
    iface.add_peer(key("bad"), vec![Ipv4Network { addr: Ipv4Addr::new(10, 0, 0, 9), prefix_len: 33 }], Some(sock(1, 1, 1, 1, 1)));
    assert!(!iface.can_send(v4(10, 0, 0, 2)));
    assert!(!iface.can_send(v4(10, 0, 0, 9)));
    assert!(!iface.can_simulate_send("bad"));
    assert!(!iface.can_simulate_recv("bad"));
    assert!(iface.can_send(IpAddr::V6(Ipv6Addr::new(0, 0, 0, 0, 0, 0, 0, 1))));
    // An empty key cannot derive a session.
    let mut other = demo();
    other.add_peer(key(""), vec!["10.0.1.0/24".parse().unwrap()], Some(sock(1, 1, 1, 2, 1)));
    assert!(!other.can_send(v4(10, 0, 1, 1)));
    assert!(other.can_send(v4(10, 0, 0, 2)));
    assert!(!other.can_recv(&key(""), v4(10, 0, 1, 1)));
    assert!(!other.can_recv(&key(""), v4(10, 0, 2, 1)));
    assert!(other.can_recv(&key("stranger"), v4(10, 0, 2, 1)));
}

#[test]
fn packets_keep_configuration_and_sessions() {
    let mut iface = demo();
    iface.simulate_send("peer-a-public-key");
    let sk = iface.peers[0].session_key.clone();
    iface.simulate_roam("peer-a-public-key", 7);
    iface.simulate_recv("peer-b-public-key");
    iface.send(v4(10, 0, 0, 2), b"x");
    assert_eq!(iface.peers[0].session_key, sk);
    assert_eq!(iface.peers.len(), 2);
    assert_eq!(iface.peers[0].allowed_ips, vec!["10.0.0.2/32".parse::<Ipv4Network>().unwrap()]);
    assert_eq!(iface.peers[0].send_nonce, 2);
    assert_eq!(iface.peers[1].send_nonce, 0);
    assert_eq!(iface.name, "wg0");
}
