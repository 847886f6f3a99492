//! The per-page integrity checksum: a CRC-8 in the SMBUS variant,
//! computed over the 256 bytes of a page and sent beside every page
//! write so the device can detect a corrupted link transfer.

use vstd::prelude::*;

verus! {

/// The CRC-8 checksum of a byte sequence, as the SMBUS variant of the
/// algorithm defines it (polynomial 0x07, zero initial value, no
/// reflection, no final xor). The value is determined by the bytes
/// alone.
pub uninterp spec fn crc8_of(data: Seq<u8>) -> u8;

/// Relies on `crc::Crc::<u8>::checksum` with the `CRC_8_SMBUS`
/// algorithm: a pure function of the input bytes.
#[verifier::external_body]
fn crc8_smbus(data: &Vec<u8>) -> (r: u8)
    ensures
        r == crc8_of(data@),
{
    crc::Crc::<u8>::new(&crc::CRC_8_SMBUS).checksum(data.as_slice())
}

/// Computes the checksum that travels beside a page write.
pub fn page_checksum(page: &Vec<u8>) -> (r: u8)
    ensures
        r == crc8_of(page@),
{
    crc8_smbus(page)
}

/// The checksum is deterministic: it depends on the page's bytes alone,
/// so two pages with the same bytes always carry the same checksum.
pub proof fn lemma_checksum_deterministic(a: Seq<u8>, b: Seq<u8>)
    requires
        a == b,
    ensures
        crc8_of(a) == crc8_of(b),
{
}

} // verus!
