use vstd::prelude::*;

verus! {

/// The CRC-16 algorithms that a `crc16` statement can name.
#[derive(PartialEq, Eq, Structural, Clone, Copy, Debug)]
pub enum Crc16Algorithm {
    /// CRC-16/IBM-SDLC (also known as X-25).
    IbmSdlc,
    /// CRC-16/MODBUS.
    Modbus,
}

/// The CRC-16 of `data` under `algorithm`, as the `crc` crate computes it.
pub uninterp spec fn crc16_of(algorithm: Crc16Algorithm, data: Seq<u8>) -> u16;

/// Relies on `crc::Crc::<u16>::checksum` with the catalogue entry of the
/// algorithm: the checksum depends on the algorithm and the bytes alone.
#[verifier::external_body]
pub(crate) fn crc16_checksum(algorithm: Crc16Algorithm, data: &Vec<u8>) -> (r: u16)
    ensures
        r == crc16_of(algorithm, data@),
{
    let params = match algorithm {
        Crc16Algorithm::IbmSdlc => &crc::CRC_16_IBM_SDLC,
        Crc16Algorithm::Modbus => &crc::CRC_16_MODBUS,
    };
    crc::Crc::<u16>::new(params).checksum(data.as_slice())
}

} // verus!
