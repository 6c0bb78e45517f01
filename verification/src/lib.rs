//! A message-oriented reliable transport over unreliable datagrams:
//! a four-way cookie handshake, fragmentation with per-chunk sequence
//! numbers, retransmission-timeout congestion control, and a byte-exact
//! big-endian wire codec with CRC32C packet checksums.
//!
//! The library is the protocol: the codec and the association state
//! machine, both verified. Socket I/O and timed waits belong to the
//! caller, which feeds received bytes and timeout events in and puts
//! the returned packets on the wire.

pub mod association;
pub mod bytes;
pub mod checksum;
pub mod chunk;
pub mod cookie;
pub mod decode;
pub mod error;
pub mod packet;
pub mod random;
pub mod roundtrip;
