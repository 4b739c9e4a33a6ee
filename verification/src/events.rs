//! What the interface reports for each packet it handles.

use vstd::prelude::*;
use crate::addr::{IpAddr, SocketAddr};
use crate::types::PublicKey;

verus! {

/// The reason given when a packet's inner source is not one its peer may use.
pub const NOT_IN_ALLOWED_IPS: &'static str = "not in allowed_ips";

/// One step of packet handling, as reported to the user.
#[derive(Clone, Debug, PartialEq, Eq)]
pub enum WgEvent {
    /// A packet for `inner_dst` was encrypted for `peer` and sent to its outer endpoint,
    /// under the given nonce.
    Sent { inner_dst: IpAddr, peer: PublicKey, outer_dst: SocketAddr, nonce: u64 },
    /// No peer's allowed IPs hold `inner_dst`; the packet was dropped.
    NoRoute { inner_dst: IpAddr },
    /// The peer for `inner_dst` has no known endpoint; the packet was dropped.
    NoEndpoint { inner_dst: IpAddr, peer: PublicKey },
    /// A session with `peer` was set up, under `session_key`.
    HandshakeCompleted { peer: PublicKey, session_key: String },
    /// A packet from `peer`, arriving from `outer_src`, was accepted.
    Received { outer_src: SocketAddr, peer: PublicKey, inner_src: IpAddr },
    /// A packet from `peer` was dropped after decryption, for `reason`.
    Dropped { outer_src: SocketAddr, peer: PublicKey, inner_src: IpAddr, reason: &'static str },
    /// The peer's endpoint moved from `old_endpoint` to `new_endpoint`.
    Roamed { peer: PublicKey, old_endpoint: Option<SocketAddr>, new_endpoint: SocketAddr },
}

/// An event with its keys and texts as character sequences.
pub enum EventView {
    Sent { inner_dst: IpAddr, peer: Seq<char>, outer_dst: SocketAddr, nonce: u64 },
    NoRoute { inner_dst: IpAddr },
    NoEndpoint { inner_dst: IpAddr, peer: Seq<char> },
    HandshakeCompleted { peer: Seq<char>, session_key: Seq<char> },
    Received { outer_src: SocketAddr, peer: Seq<char>, inner_src: IpAddr },
    Dropped { outer_src: SocketAddr, peer: Seq<char>, inner_src: IpAddr, reason: Seq<char> },
    Roamed { peer: Seq<char>, old_endpoint: Option<SocketAddr>, new_endpoint: SocketAddr },
}

impl View for WgEvent {
    type V = EventView;

    open spec fn view(&self) -> EventView {
        match self {
            WgEvent::Sent { inner_dst, peer, outer_dst, nonce } => EventView::Sent {
                inner_dst: *inner_dst,
                peer: peer.0@,
                outer_dst: *outer_dst,
                nonce: *nonce,
            },
            WgEvent::NoRoute { inner_dst } => EventView::NoRoute { inner_dst: *inner_dst },
            WgEvent::NoEndpoint { inner_dst, peer } => EventView::NoEndpoint {
                inner_dst: *inner_dst,
                peer: peer.0@,
            },
            WgEvent::HandshakeCompleted { peer, session_key } => EventView::HandshakeCompleted {
                peer: peer.0@,
                session_key: session_key@,
            },
            WgEvent::Received { outer_src, peer, inner_src } => EventView::Received {
                outer_src: *outer_src,
                peer: peer.0@,
                inner_src: *inner_src,
            },
            WgEvent::Dropped { outer_src, peer, inner_src, reason } => EventView::Dropped {
                outer_src: *outer_src,
                peer: peer.0@,
                inner_src: *inner_src,
                reason: reason@,
            },
            WgEvent::Roamed { peer, old_endpoint, new_endpoint } => EventView::Roamed {
                peer: peer.0@,
                old_endpoint: *old_endpoint,
                new_endpoint: *new_endpoint,
            },
        }
    }
}

/// The views of a list of events.
pub open spec fn events_view(events: Seq<WgEvent>) -> Seq<EventView> {
    events.map_values(|e: WgEvent| e@)
}

} // verus!
