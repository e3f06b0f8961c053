//! The 32-bit cyclic redundancy check that guards every chunk.

use vstd::prelude::*;

verus! {

/// The CRC-32 (IEEE polynomial) of a byte sequence. It is computed by an
/// outside crate; the library never states its value on given bytes, only
/// that it is a function of the bytes alone.
pub uninterp spec fn crc32_of(bytes: Seq<u8>) -> u32;

/// Relies on crc::crc32::checksum_ieee: the IEEE CRC-32 of the bytes, a
/// function of the bytes alone.
#[verifier::external_body]
pub(crate) fn checksum_ieee(bytes: &Vec<u8>) -> (r: u32)
    ensures
        r == crc32_of(bytes@),
{
    crc::crc32::checksum_ieee(bytes.as_slice())
}

} // verus!
