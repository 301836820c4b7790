//! How nodes find each other.

pub mod bootstrap;
pub mod local_discovery;
pub mod mdns;

pub mod peer_list;
pub mod port_mapping;
pub mod relay;
pub mod service;
pub mod stun;
pub mod udp_broadcast;

pub use peer_list::PeerList;
