//! The CRC-32 (ISO-HDLC polynomial) checksum used to verify chunk integrity.

use vstd::prelude::*;

verus! {

/// The CRC-32 (ISO-HDLC polynomial) checksum of a byte sequence. The value is
/// a pure function of the bytes; it is left unspecified here and computed by
/// the `crc` crate.
pub uninterp spec fn crc32_of(bytes: Seq<u8>) -> u32;

/// Relies on `crc::Crc::<u32>::checksum` with the `CRC_32_ISO_HDLC` algorithm:
/// a deterministic digest of the input bytes.
#[verifier::external_body]
pub(crate) fn crc32(bytes: &Vec<u8>) -> (r: u32)
    ensures
        r == crc32_of(bytes@),
{
    crc::Crc::<u32>::new(&crc::CRC_32_ISO_HDLC).checksum(bytes.as_slice())
}

} // verus!
