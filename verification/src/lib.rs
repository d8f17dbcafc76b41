//! Decision logic of a side-car daemon that upgrades overlay sessions of a
//! mesh router to direct tunnels: packet dissection for the lossy shortcut,
//! handshake negotiation, rendezvous bookkeeping and traversal state.

pub mod address;
pub mod admin_api;
pub mod bridge;
pub mod chance;
pub mod config;
pub mod dpi_laws;
pub mod external;
pub mod network;
pub mod protocol;
pub mod proxy_tcp;
pub mod proxy_udp;
pub mod session;
pub mod sessions;
pub mod stun;
pub mod stun_wire;
pub mod text;
pub mod utils;
pub mod yggdrasil_dpi;
