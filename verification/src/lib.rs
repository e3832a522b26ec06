//! A verified codec for a checksum-protected binary frame protocol: a fixed
//! five-byte header, a variable-length command payload identified by a
//! two-byte little-endian command id, and a 16-bit tail checksum over the
//! whole frame.

pub mod checksum;
pub mod frame;
pub mod header;
pub mod payload;
pub mod wire;
