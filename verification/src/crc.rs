//! The frame checksum, computed by the `crc32fast` crate.

use vstd::prelude::*;

verus! {

/// One bit step of the reflected CRC-32 register (polynomial 0xEDB88320).
pub open spec fn crc_shift(c: u32) -> u32 {
    if c & 1 == 1 {
        (c >> 1u32) ^ 0xEDB8_8320u32
    } else {
        c >> 1u32
    }
}

/// The register after `n` bit steps.
pub open spec fn crc_shifts(c: u32, n: nat) -> u32
    decreases n,
{
    if n == 0 {
        c
    } else {
        crc_shifts(crc_shift(c), (n - 1) as nat)
    }
}

/// The register after taking in `data`, byte by byte, low bit first.
pub open spec fn crc_register(c: u32, data: Seq<u8>) -> u32
    decreases data.len(),
{
    if data.len() == 0 {
        c
    } else {
        crc_register(crc_shifts(c ^ (data[0] as u32), 8), data.drop_first())
    }
}

/// The CRC-32 (IEEE 802.3) of `data`: the register starts at all ones and the
/// result is its complement.
pub open spec fn crc32_ieee(data: Seq<u8>) -> u32 {
    crc_register(0xFFFF_FFFFu32, data) ^ 0xFFFF_FFFFu32
}

/// Calls `crc32fast::hash`. Trusted: as the crate documents, the result is the
/// CRC-32 (IEEE) checksum of `data`, which `crc32_ieee` spells out.
#[verifier::external_body]
pub(crate) fn crc32(data: &[u8]) -> (crc: u32)
    ensures
        crc == crc32_ieee(data@),
{
    crc32fast::hash(data)
}

} // verus!
