//! The integrity code carried beside every payload.

use vstd::prelude::*;

verus! {

/// The CRC-16/IBM-SDLC checksum of a byte sequence, as the `crc` crate
/// computes it. It depends on the bytes alone.
pub uninterp spec fn crc16_ibm_sdlc(bytes: Seq<u8>) -> u16;

/// Calls `crc::Crc::<u16>::checksum` on a `Crc` that `crc::Crc::<u16>::new`
/// makes of the catalogue algorithm `CRC_16_IBM_SDLC`. The contract only
/// names the value that comes back: the checksum of the given bytes.
#[verifier::external_body]
pub(crate) fn make_crc(data: &Vec<u8>) -> (code: u16)
    ensures
        code == crc16_ibm_sdlc(data@),
{
    crc::Crc::<u16>::new(&crc::CRC_16_IBM_SDLC).checksum(data.as_slice())
}

} // verus!
