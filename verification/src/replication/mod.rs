//! Replication: what a node commits to, how it is audited, and what follows.

pub mod accounting;
pub mod audit;
pub mod bootstrap;
pub mod commitment;
pub mod commitment_audit;
pub mod commitment_state;
pub mod config;
pub mod events;
pub mod fetch;
pub mod gossip;
pub mod merkle;
pub mod offers;
pub mod protocol;
pub mod recent_provers;
pub mod responder;
pub mod rotation;
pub mod routing;
pub mod settlement;
pub mod slice;
pub mod subtree;
pub mod sync;
pub mod types;
pub mod verification;
