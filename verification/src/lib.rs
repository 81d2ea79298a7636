//! Neighbor-discovery library for a delay-tolerant-networking node.
//!
//! The library holds the verified core of the daemon: the beacon wire
//! codec (a compact, versioned binary format with optional fields selected
//! by a flags byte and a tagged-union sub-format for services), the
//! per-neighbor freshness table, and the receiver/announcer decision
//! logic.  Socket handling, signal handling and the routing-agent
//! connection live outside the library.

pub mod beacon;
pub mod cbor;
pub mod codec;
pub mod discovery;
pub mod neighbors;
pub mod text;
