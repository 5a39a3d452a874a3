//! Verified core of besynx, a local-first browser history and cookie sync
//! daemon: hex framing, Ed25519 identities, device pairing, the
//! extension connection rules and the peer handshake.

pub mod crypto;
pub mod dashboard;
pub mod extension;
pub mod hexcodec;
pub mod pairing;
pub mod peer;
pub mod protocol;
