//! Storage-commitment audits for a content-addressed peer-to-peer network.

pub mod adversary;
pub mod ant_protocol;
pub mod client;
pub mod hashing;
pub mod ml_dsa;
pub mod name_map;
pub mod names;
pub mod replication;
pub mod roots;
pub mod text;
pub mod time;
