use wg_viz::addr::{IpAddr, Ipv4Addr, Ipv6Addr, SocketAddr, SocketAddrV4, SocketAddrV6};
use wg_viz::net::{mask_from_prefix, Ipv4Network};

fn net(a: u8, b: u8, c: u8, d: u8, prefix_len: u8) -> Ipv4Network {
    Ipv4Network { addr: Ipv4Addr::new(a, b, c, d), prefix_len }
}

fn v4(a: u8, b: u8, c: u8, d: u8) -> IpAddr {
    IpAddr::V4(Ipv4Addr::new(a, b, c, d))
}

#[test]
fn parse_accepts_cidr_blocks() {
    assert_eq!(Ipv4Network::parse("10.0.0.0/24"), Ok(net(10, 0, 0, 0, 24)));
    assert_eq!(Ipv4Network::parse("10.0.0.2/32"), Ok(net(10, 0, 0, 2, 32)));
    assert_eq!(Ipv4Network::parse("0.0.0.0/0"), Ok(net(0, 0, 0, 0, 0)));
    assert_eq!(Ipv4Network::parse("255.255.255.255/32"), Ok(net(255, 255, 255, 255, 32)));
    assert_eq!(Ipv4Network::parse("10.0.0.1/+8"), Ok(net(10, 0, 0, 1, 8)));
    assert_eq!(Ipv4Network::parse("10.0.0.1/0008"), Ok(net(10, 0, 0, 1, 8)));
    assert_eq!(Ipv4Network::parse("10.0.0.1/40"), Err("prefix length must be at most 32".to_string()));
    assert_eq!(Ipv4Network::parse("10.0.0.0/33"), Err("prefix length must be at most 32".to_string()));
}

#[test]
fn parse_reports_each_error() {
    assert_eq!(Ipv4Network::parse("10.0.0.1"), Err("missing /".to_string()));
    assert_eq!(Ipv4Network::parse("10.0.0/24"), Err("invalid IPv4 address syntax".to_string()));
    assert_eq!(Ipv4Network::parse("010.0.0.1/8"), Err("invalid IPv4 address syntax".to_string()));
    assert_eq!(Ipv4Network::parse("256.0.0.1/8"), Err("invalid IPv4 address syntax".to_string()));
    assert_eq!(Ipv4Network::parse("10.0.0.1/"), Err("cannot parse integer from empty string".to_string()));
    assert_eq!(Ipv4Network::parse("10.0.0.1/x"), Err("invalid digit found in string".to_string()));
    assert_eq!(Ipv4Network::parse("10.0.0.1/+"), Err("invalid digit found in string".to_string()));
    assert_eq!(Ipv4Network::parse("10.0.0.1/-1"), Err("invalid digit found in string".to_string()));
    assert_eq!(Ipv4Network::parse("1.2.3.4/5/6"), Err("invalid digit found in string".to_string()));
    assert_eq!(Ipv4Network::parse("10.0.0.1/256"), Err("number too large to fit in target type".to_string()));
    assert_eq!(Ipv4Network::parse("10.0.0.1/999a"), Err("number too large to fit in target type".to_string()));
    assert_eq!(Ipv4Network::parse("10.0.0.1/25a"), Err("invalid digit found in string".to_string()));
}

#[test]
fn parse_handles_edge_cases() {
    const BAD_ADDR: &str = "invalid IPv4 address syntax";
    const EMPTY: &str = "cannot parse integer from empty string";
    const DIGIT: &str = "invalid digit found in string";
    const BIG: &str = "number too large to fit in target type";
    const SLASH: &str = "missing /";
    const LONG: &str = "prefix length must be at most 32";
    let cases: [(&str, Result<(u8, u8, u8, u8, u8), &str>); 39] = [
        ("10.0.0.0/24", Ok((10, 0, 0, 0, 24))),
        ("1.2.3.4/32", Ok((1, 2, 3, 4, 32))),
        ("1.2.3/8", Err(BAD_ADDR)),
        ("1.2.3.4.5/8", Err(BAD_ADDR)),
        ("01.2.3.4/8", Err(BAD_ADDR)),
        ("1.2.3.04/8", Err(BAD_ADDR)),
        ("1.2.3.4 /8", Err(BAD_ADDR)),
        (" 1.2.3.4/8", Err(BAD_ADDR)),
        ("1.2.3.4/ 8", Err(DIGIT)),
        ("1.2.3.4/8 ", Err(DIGIT)),
        ("1.2.3.4//8", Err(DIGIT)),
        ("/8", Err(BAD_ADDR)),
        ("", Err(SLASH)),
        ("1.2.3.4/", Err(EMPTY)),
        ("1.2.3.4/0", Ok((1, 2, 3, 4, 0))),
        ("1.2.3.4/00", Ok((1, 2, 3, 4, 0))),
        ("1.2.3.4/255", Err(LONG)),
        ("1.2.3.4/256", Err(BIG)),
        ("1.2.3.4/1000", Err(BIG)),
        ("1.2.3.4/12345678901234567890", Err(BIG)),
        ("1.2.3.4/1a", Err(DIGIT)),
        ("1.2.3.4/a1", Err(DIGIT)),
        ("1.2.3.4/+", Err(DIGIT)),
        ("1.2.3.4/-", Err(DIGIT)),
        ("1.2.3.4/+7", Ok((1, 2, 3, 4, 7))),
        ("1.2.3.4/-7", Err(DIGIT)),
        ("1.2.3.4/++7", Err(DIGIT)),
        ("999.1.1.1/8", Err(BAD_ADDR)),
        ("1.2.3.4.", Err(SLASH)),
        (".1.2.3.4/8", Err(BAD_ADDR)),
        ("1..3.4/8", Err(BAD_ADDR)),
        ("0.0.0.0/0", Ok((0, 0, 0, 0, 0))),
        ("255.255.255.255/32", Ok((255, 255, 255, 255, 32))),
        ("1.2.3.1000/8", Err(BAD_ADDR)),
        ("1.2.3.٣/8", Err(BAD_ADDR)),
        ("1.2.3.4/٣", Err(DIGIT)),
        ("a.b.c.d/1", Err(BAD_ADDR)),
        ("1.2.3.4/3é", Err(DIGIT)),
        ("10.0.0.1/300x", Err(BIG)),
    ];
    for (s, expected) in cases {
        let ours = Ipv4Network::parse(s);
        let expected = expected
            .map(|(a, b, c, d, p)| net(a, b, c, d, p))
            .map_err(|e| e.to_string());
        assert_eq!(ours, expected, "input {s:?}");
    }
}

#[test]
fn parse_inverts_to_string() {
    let blocks = [net(10, 0, 0, 0, 24), net(0, 0, 0, 0, 0), net(255, 255, 255, 255, 32), net(192, 168, 100, 7, 9)];
    for n in blocks {
        assert_eq!(Ipv4Network::parse(&n.to_string()), Ok(n));
    }
}

#[test]
fn network_to_string() {
    assert_eq!(net(10, 0, 0, 1, 24).to_string(), "10.0.0.1/24");
    assert_eq!(net(0, 0, 0, 0, 0).to_string(), "0.0.0.0/0");
    let n: Ipv4Network = "172.16.5.4/12".parse().unwrap();
    assert_eq!(n.to_string(), "172.16.5.4/12");
}

#[test]
fn masks_for_prefixes() {
    assert_eq!(mask_from_prefix(0), 0);
    assert_eq!(mask_from_prefix(1), 0x8000_0000);
    assert_eq!(mask_from_prefix(24), 0xffff_ff00);
    assert_eq!(mask_from_prefix(31), 0xffff_fffe);
    assert_eq!(mask_from_prefix(32), 0xffff_ffff);
}

#[test]
fn contains_checks_the_prefix() {
    let n = net(10, 0, 0, 0, 24);
    assert!(n.contains(v4(10, 0, 0, 77)));
    assert!(n.contains(v4(10, 0, 0, 0)));
    assert!(!n.contains(v4(10, 0, 1, 1)));
    assert!(!n.contains(IpAddr::V6(Ipv6Addr::new(0, 0, 0, 0, 0, 0xffff, 0x0a00, 0x0001))));
    let odd = net(10, 0, 0, 5, 31);
    assert!(odd.contains(v4(10, 0, 0, 4)));
    assert!(!odd.contains(v4(10, 0, 0, 6)));
}

#[test]
fn contains_own_address_and_extremes() {
    for p in 0..=32u8 {
        let n = net(192, 168, 7, 9, p);
        assert!(n.contains(v4(192, 168, 7, 9)));
    }
    assert!(net(1, 2, 3, 4, 0).contains(v4(200, 100, 50, 25)));
    let host = net(10, 0, 0, 2, 32);
    assert!(host.contains(v4(10, 0, 0, 2)));
    assert!(!host.contains(v4(10, 0, 0, 3)));
    assert!(!host.contains(IpAddr::V6(Ipv6Addr::new(0, 0, 0, 0, 0, 0, 0, 1))));
}

#[test]
fn contains_agrees_with_masked_comparison() {
    let addrs = [(10, 0, 0, 1), (10, 0, 0, 200), (10, 1, 0, 1), (11, 0, 0, 1), (128, 0, 0, 0), (0, 0, 0, 0)];
    for p in 0..=32u8 {
        let n = net(10, 0, 0, 1, p);
        for (a, b, c, d) in addrs {
            let mask: u32 = if p == 0 { 0 } else { !0u32 << (32 - p) };
            let bits = |a: u8, b: u8, c: u8, d: u8| u32::from_be_bytes([a, b, c, d]);
            let expected = bits(10, 0, 0, 1) & mask == bits(a, b, c, d) & mask;
            assert_eq!(n.contains(v4(a, b, c, d)), expected);
        }
    }
}

#[test]
fn ipv4_parse_and_render() {
    assert_eq!(Ipv4Addr::parse("203.0.113.1"), Some(Ipv4Addr::new(203, 0, 113, 1)));
    assert_eq!(Ipv4Addr::parse("203.0.113.01"), None);
    assert_eq!(Ipv4Addr::new(203, 0, 113, 1).to_string(), "203.0.113.1");
    assert_eq!(Ipv4Addr::new(1, 2, 3, 4).to_bits(), 0x0102_0304);
}

#[test]
fn ipv6_renders_in_standard_form() {
    let samples: [([u16; 8], &str); 12] = [
        ([0, 0, 0, 0, 0, 0, 0, 0], "::"),
        ([0, 0, 0, 0, 0, 0, 0, 1], "::1"),
        ([0x2001, 0xdb8, 0, 0, 0, 0, 0, 1], "2001:db8::1"),
        ([0, 0, 0, 0, 0, 0xffff, 0x0102, 0x0304], "::ffff:1.2.3.4"),
        ([1, 0, 0, 2, 0, 0, 0, 3], "1:0:0:2::3"),
        ([1, 0, 0, 2, 0, 0, 3, 4], "1::2:0:0:3:4"),
        ([1, 2, 3, 4, 5, 6, 7, 0], "1:2:3:4:5:6:7:0"),
        ([0, 1, 2, 3, 4, 5, 6, 7], "0:1:2:3:4:5:6:7"),
        ([1, 0, 2, 0, 3, 0, 4, 0], "1:0:2:0:3:0:4:0"),
        ([0xfe80, 0, 0, 0, 0x1ff, 0xfe23, 0x4567, 0x890a], "fe80::1ff:fe23:4567:890a"),
        ([0, 0, 1, 0, 0, 0, 0, 0], "0:0:1::"),
        ([0, 0, 0, 0, 0, 0, 0x0a00, 0x0001], "::a00:1"),
    ];
    for (s, text) in samples {
        let ours = Ipv6Addr::new(s[0], s[1], s[2], s[3], s[4], s[5], s[6], s[7]);
        assert_eq!(ours.to_string(), text);
        assert_eq!(IpAddr::V6(ours).to_string(), text);
    }
}

#[test]
fn socket_addresses_render_in_standard_form() {
    let a = SocketAddr::V4(SocketAddrV4 { ip: Ipv4Addr::new(203, 0, 113, 10), port: 51820 });
    assert_eq!(a.to_string(), "203.0.113.10:51820");
    let ip6 = Ipv6Addr::new(0xfe80, 0, 0, 0, 0, 0, 0, 1);
    let plain = SocketAddr::V6(SocketAddrV6 { ip: ip6, port: 443, flowinfo: 0, scope_id: 0 });
    let scoped = SocketAddr::V6(SocketAddrV6 { ip: ip6, port: 443, flowinfo: 7, scope_id: 3 });
    assert_eq!(plain.to_string(), "[fe80::1]:443");
    assert_eq!(scoped.to_string(), "[fe80::1%3]:443");
}
