//! A verified core for a UDP voice-chat system: wire messages and their
//! byte codec, sequence-number ordering, jitter channels and the peer
//! mixer, codec-side frame bookkeeping, and the server's session table.
use vstd::prelude::*;

pub mod audio;
pub mod client;
pub mod config;
pub mod frames;
pub mod latency;
pub mod mixer;
pub mod microphone;
pub mod opus;
pub mod playback;
pub mod packets;
pub mod ring;
pub mod rolling_avg;
pub mod server;
pub mod stats;
pub mod window;
pub mod wire;

verus! {

/// Largest datagram, in bytes, that either side will send or accept.
pub const PACKET_MAX_SIZE: usize = 32768;

/// Peer identifier as carried in voice packets on the wire.
pub type PeerID = u8;

/// A `u8` wire id can name this many peers, the hard cap per server
/// lifetime.
pub const MAX_PEERS: usize = 256;

} // verus!
