//! The checksum from which the launcher derives a shortcut's identifier.

use vstd::prelude::*;

verus! {

/// The CRC-32/ISO-HDLC checksum of `bytes`.
pub uninterp spec fn crc32_iso_hdlc(bytes: Seq<u8>) -> u32;

/// Computes the checksum of `bytes` with `Crc::<u32>::checksum` of the `crc`
/// crate, set up by `Crc::<u32>::new` for its algorithm `CRC_32_ISO_HDLC`.
///
/// Trusted: the result depends on the bytes alone. Nothing is claimed of its
/// value.
#[verifier::external_body]
pub(crate) fn checksum(bytes: &[u8]) -> (sum: u32)
    ensures
        sum == crc32_iso_hdlc(bytes@),
{
    crc::Crc::<u32>::new(&crc::CRC_32_ISO_HDLC).checksum(bytes)
}

} // verus!
