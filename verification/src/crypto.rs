//! The cryptographic pipeline, from raw primitives up to a live peer session.
pub mod bytes;
pub mod primitives;
pub mod padding;
pub mod replay;
pub mod ratchet;
pub mod keys;
pub mod noise;
pub mod dh_ratchet;
pub mod handshake_wire;
pub mod obfuscation;
pub mod session;
pub mod vpn_session;
pub mod exchange;
pub mod forwarding;
