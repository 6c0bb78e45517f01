//! The packet checksum, computed by the `crc32c` crate.

use vstd::prelude::*;

verus! {

/// The CRC32C (Castagnoli) checksum of a byte sequence. The algorithm
/// is a pure function of the bytes; its value is not axiomatized here,
/// so nothing is assumed of it beyond determinism.
pub uninterp spec fn crc32c_of(data: Seq<u8>) -> u32;

/// Relies on crc32c::crc32c: the CRC32C checksum of the bytes,
/// a deterministic function of the data alone.
#[verifier::external_body]
pub fn crc32c_bytes(data: &Vec<u8>) -> (r: u32)
    ensures
        r == crc32c_of(data@),
{
    crc32c::crc32c(data.as_slice())
}

} // verus!
