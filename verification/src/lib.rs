//! Peer-to-peer party and lobby synchronisation library.
//!
//! The crate models the networking core of a multiplayer lobby system:
//! player identities derived from peer-to-peer network identities, a
//! host-authoritative replicated party, a wire codec for the join/accept
//! protocol, a command/event queue facade over a background transport
//! actor, and the lobby state machine that routes failures back to a
//! safe state.

pub mod actor;
pub mod flow;
pub mod ident;
pub mod manager;
pub mod party;
pub mod protocol;
pub mod topic;
pub mod wire;
