//! The peer-to-peer side of a node: what it knows about its peers, and what it says to them.

pub mod addr;
pub mod addrman;
pub mod buckets;
pub mod clock;
pub mod errors;
pub mod laws;
pub mod message;
pub mod peer_info;
pub mod services;
pub mod sources;
pub mod trial;
pub mod types;
pub mod wire;
