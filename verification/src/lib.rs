//! Source NAT and configuration of extra WireGuard peers.

pub mod checksum;
pub mod net;
pub mod packet;
pub mod peer;
pub mod snat;
pub mod text;
pub mod config;
pub mod manager;
