//! The peer wire protocol, as far as the handshake.

pub mod handshake;
pub mod peer;

pub use handshake::{peer_id, Handshake, Protocol};
pub use peer::{Peer, PeerAction, PeerState, PeerStep};
