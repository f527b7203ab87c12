//! Checksum keys for localized text records: a CRC with the BZIP2
//! parameterization, stored little-endian as a four-byte lookup key.

use vstd::prelude::*;

verus! {

/// The CRC (BZIP2 parameterization) of a byte string. The value depends on
/// the input bytes alone; it is computed by an outside crate and left
/// uninterpreted here.
pub uninterp spec fn crc32_of(data: Seq<u8>) -> u32;

/// Relies on crc::Crc::<u32>::new(&CRC_32_BZIP2).checksum: a pure function of
/// the input bytes.
#[verifier::external_body]
pub(crate) fn crc32_bzip2(data: &[u8]) -> (r: u32)
    ensures
        r == crc32_of(data@),
{
    crc::Crc::<u32>::new(&crc::CRC_32_BZIP2).checksum(data)
}

/// The little-endian byte order of a 32-bit value.
pub open spec fn u32_le(x: u32) -> Seq<u8> {
    seq![
        (x & 0xff) as u8,
        ((x >> 8) & 0xff) as u8,
        ((x >> 16) & 0xff) as u8,
        ((x >> 24) & 0xff) as u8,
    ]
}

/// The four-byte checksum key of a text identifier: its CRC (BZIP2
/// parameterization) in little-endian byte order.
pub fn calc_crc32(data: &[u8]) -> (r: [u8; 4])
    ensures
        r@ == u32_le(crc32_of(data@)),
{
    let x = crc32_bzip2(data);
    proof {
        assert((x & 0xff) < 256 && ((x >> 8) & 0xff) < 256 && ((x >> 16) & 0xff) < 256 && ((x >> 24)
            & 0xff) < 256) by (bit_vector);
    }
    let b0 = (x & 0xff) as u8;
    let b1 = ((x >> 8) & 0xff) as u8;
    let b2 = ((x >> 16) & 0xff) as u8;
    let b3 = ((x >> 24) & 0xff) as u8;
    let r = [b0, b1, b2, b3];
    proof {
        assert(r@ =~= u32_le(x));
    }
    r
}

} // verus!
