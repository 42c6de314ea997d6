//! Post-quantum VPN core: the handshake, the ratchets, the transport framing
//! and the packet decisions of the daemon, with machine-checked contracts.
pub mod crypto;
