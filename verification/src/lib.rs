//! Peer discovery by gossip: signed address records, a table of the newest
//! verified record per peer, and the engine that decides what to push to
//! neighbours and which address changes to report.

pub mod discovery;
pub mod message;
pub mod note;
pub mod store;
pub mod table;
pub mod types;
pub mod wire;
