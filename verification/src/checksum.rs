//! The checksum that guards a chunk's type and data.

use vstd::prelude::*;

verus! {

/// The CRC-32/ISO-HDLC checksum of `bytes`, the one that PNG and zlib use:
/// what the `crc` crate computes for its algorithm `CRC_32_ISO_HDLC`.
pub uninterp spec fn crc32_iso_hdlc(bytes: Seq<u8>) -> u32;

/// `crc::Crc::<u32>::checksum` with the algorithm `crc::CRC_32_ISO_HDLC`.
/// Nothing is proved of the number it returns: it is taken to be the
/// CRC-32/ISO-HDLC checksum of the bytes handed in, and of nothing else.
#[verifier::external_body]
pub(crate) fn checksum(bytes: &[u8]) -> (sum: u32)
    ensures
        sum == crc32_iso_hdlc(bytes@),
{
    crc::Crc::<u32>::new(&crc::CRC_32_ISO_HDLC).checksum(bytes)
}

} // verus!
