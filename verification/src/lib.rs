//! A model of WireGuard's cryptokey routing: a WireGuard interface with its peers,
//! the outbound and inbound packet flows that pick peers by their allowed IPs, the
//! endpoint roaming rule, and the HTML fragments that show the routing table.

pub mod text;
pub mod addr;
pub mod net;
pub mod types;
pub mod events;
pub mod interface;
pub mod render;
pub mod laws;
