use wg_viz::addr::{IpAddr, Ipv4Addr, SocketAddr, SocketAddrV4};
use wg_viz::events::WgEvent;
use wg_viz::interface::Interface;
use wg_viz::render::{about_page, base_styles, full_page, log_entry_html, table_html};
use wg_viz::types::{PrivateKey, PublicKey};

fn v4(a: u8, b: u8, c: u8, d: u8) -> IpAddr {
    IpAddr::V4(Ipv4Addr::new(a, b, c, d))
}

fn sock(a: u8, b: u8, c: u8, d: u8, port: u16) -> SocketAddr {
    SocketAddr::V4(SocketAddrV4 { ip: Ipv4Addr::new(a, b, c, d), port })
}

fn one_peer() -> Interface {
    let mut iface = Interface::new("wg0", PrivateKey::new("k"), PublicKey::new("pk"), 51820, "10.0.0.1/24".parse().unwrap());
    iface.add_peer(PublicKey::new("peer-a"), vec!["10.0.0.2/32".parse().unwrap(), "10.1.0.0/16".parse().unwrap()], None);
    iface
}

#[test]
fn table_lists_each_peer() {
    let iface = one_peer();
    let expected = "<table><thead><tr><th>Public Key</th><th>Allowed IPs</th><th>Endpoint (outer)</th><th></th></tr></thead><tbody>\
<tr><td class='key'>peer-a</td><td class='ip'>10.0.0.2/32, 10.1.0.0/16</td><td class='ep'>(none)</td><td class='row-actions'>\
<form action='/action/send' method='post' data-ajax><input type='hidden' name='peer_key' value='peer-a'><button>Send</button></form>\
<form action='/action/recv' method='post' data-ajax><input type='hidden' name='peer_key' value='peer-a'><button>Recv</button></form>\
<form action='/action/roam' method='post' data-ajax><input type='hidden' name='peer_key' value='peer-a'><button>Roam</button></form>\
</td></tr></tbody></table>";
    assert_eq!(table_html(&iface), expected);
}

#[test]
fn table_shows_endpoint_and_empty_table() {
    let mut iface = Interface::new("wg0", PrivateKey::new("k"), PublicKey::new("pk"), 1, "10.0.0.1/24".parse().unwrap());
    assert_eq!(
        table_html(&iface),
        "<table><thead><tr><th>Public Key</th><th>Allowed IPs</th><th>Endpoint (outer)</th><th></th></tr></thead><tbody></tbody></table>"
    );
    iface.add_peer(PublicKey::new("b"), vec![], Some(sock(198, 51, 100, 7, 51820)));
    assert!(table_html(&iface).contains("<td class='ip'></td><td class='ep'>198.51.100.7:51820</td>"));
}

#[test]
fn log_entries_for_each_event() {
    let p = PublicKey::new("peer-a");
    assert_eq!(
        log_entry_html(&WgEvent::Sent { inner_dst: v4(10, 0, 0, 2), peer: p.clone(), outer_dst: sock(203, 0, 113, 10, 51820), nonce: 4 }),
        "<div class='log send'>→ SEND  inner=10.0.0.2  peer=peer-a  outer=203.0.113.10:51820</div>"
    );
    assert_eq!(
        log_entry_html(&WgEvent::NoRoute { inner_dst: v4(0, 0, 0, 0) }),
        "<div class='log drop'>✗ DROP  inner=0.0.0.0  (no route)</div>"
    );
    assert_eq!(
        log_entry_html(&WgEvent::NoEndpoint { inner_dst: v4(10, 0, 0, 4), peer: p.clone() }),
        "<div class='log drop'>✗ DROP  inner=10.0.0.4  peer=peer-a  (no endpoint)</div>"
    );
    assert_eq!(
        log_entry_html(&WgEvent::Received { outer_src: sock(1, 2, 3, 4, 5), peer: p.clone(), inner_src: v4(10, 0, 0, 2) }),
        "<div class='log recv'>← RECV  outer=1.2.3.4:5  peer=peer-a  inner=10.0.0.2  ✓</div>"
    );
    assert_eq!(
        log_entry_html(&WgEvent::Dropped { outer_src: sock(1, 2, 3, 4, 5), peer: p.clone(), inner_src: v4(10, 0, 0, 3), reason: "not in allowed_ips" }),
        "<div class='log drop'>✗ DROP  outer=1.2.3.4:5  peer=peer-a  inner=10.0.0.3  (not in allowed_ips)</div>"
    );
    assert_eq!(
        log_entry_html(&WgEvent::Roamed { peer: p.clone(), old_endpoint: None, new_endpoint: sock(198, 18, 0, 2, 51820) }),
        "<div class='log roam'>~ ROAM  peer=peer-a  (none) → 198.18.0.2:51820</div>"
    );
    assert_eq!(
        log_entry_html(&WgEvent::Roamed { peer: p.clone(), old_endpoint: Some(sock(1, 1, 1, 1, 1)), new_endpoint: sock(198, 18, 0, 2, 51820) }),
        "<div class='log roam'>~ ROAM  peer=peer-a  1.1.1.1:1 → 198.18.0.2:51820</div>"
    );
    assert_eq!(
        log_entry_html(&WgEvent::HandshakeCompleted { peer: p, session_key: "00ff".to_string() }),
        "<div class='log handshake'>⚷ HANDSHAKE  peer=peer-a  session=00ff</div>"
    );
}

#[test]
fn full_page_shows_interface() {
    let iface = one_peer();
    let page = full_page(&iface);
    assert!(page.starts_with("<!DOCTYPE html>\n<html lang=\"en\">"));
    assert!(page.contains("<title>WireGuard Viz — wg0</title>"));
    assert!(page.contains("<h1>wg0</h1>"));
    assert!(page.contains("<p class=\"meta\">addr: 10.0.0.1/24 &nbsp;·&nbsp; port: 51820</p>"));
    assert!(page.contains(&format!("<div id=\"routing-table\">{}</div>", table_html(&iface))));
    assert!(page.contains(base_styles()));
    assert!(page.contains("    section { margin-bottom: 2rem; }"));
    assert!(page.contains("es.addEventListener('log',   e => {"));
    assert!(page.ends_with("</html>"));
}

#[test]
fn about_page_is_a_full_document() {
    let page = about_page();
    assert!(page.starts_with("<!DOCTYPE html>"));
    assert!(page.contains("<h2>The core idea: route by identity, not address</h2>"));
    assert!(page.trim_end().ends_with("</html>"));
    assert!(base_styles().contains("h1 { color: #58a6ff; font-size: 1.4rem; margin-bottom: .25rem; }"));
}

#[test]
fn keys_render_as_labels() {
    let k = PublicKey::new("peer-a-public-key");
    assert_eq!(k.to_string(), "peer-a-public-key");
    assert!(k.same_as(&PublicKey::new("peer-a-public-key")));
    assert!(!k.same_as(&PublicKey::new("peer-b-public-key")));
    assert_eq!(PrivateKey::new("s").0, "s");
}
