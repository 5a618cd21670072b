//! The 32-bit checksum that guards each chunk's type tag and payload.

use vstd::prelude::*;

verus! {

/// The CRC-32/ISO-HDLC checksum (the zlib/gzip variant) of a byte
/// sequence.  The algorithm is left unstated here: every contract of the
/// library speaks of the checksum only through this name.
pub uninterp spec fn crc32_of(bytes: Seq<u8>) -> u32;

/// Relies on `crc::Crc::<u32>::checksum` with the `CRC_32_ISO_HDLC`
/// algorithm: a pure function of the input bytes alone.
#[verifier::external_body]
pub fn crc32(bytes: &Vec<u8>) -> (r: u32)
    ensures
        r == crc32_of(bytes@),
{
    crc::Crc::<u32>::new(&crc::CRC_32_ISO_HDLC).checksum(bytes.as_slice())
}

} // verus!
