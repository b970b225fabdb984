//! CRC-32 (IEEE 802.3), the checksum that closes a save file.
//!
//! The reflected form with polynomial `0xEDB88320`: the register starts at
//! `0xFFFF_FFFF`, each byte is folded in low bit first, and the result is the
//! register with every bit inverted.
use vstd::prelude::*;

verus! {

/// The reflected CRC-32 polynomial.
pub const CRC32_POLY: u32 = 0xEDB8_8320;

/// One bit of the CRC register: shift right, and fold in the polynomial when
/// the bit shifted out is set.
pub open spec fn crc_shift(c: u32) -> u32 {
    if c & 1 == 1 {
        (c >> 1u32) ^ 0xEDB8_8320u32
    } else {
        c >> 1u32
    }
}

/// `n` bit steps of the register.
pub open spec fn crc_shifts(c: u32, n: nat) -> u32
    decreases n,
{
    if n == 0 {
        c
    } else {
        crc_shift(crc_shifts(c, (n - 1) as nat))
    }
}

/// The register after folding in byte `b`: the byte is XORed into the low
/// bits, then eight bit steps follow.
pub open spec fn crc_byte(c: u32, b: u8) -> u32 {
    crc_shifts(c ^ (b as u32), 8)
}

/// The register after all of `data`, from the initial value `0xFFFF_FFFF`.
pub open spec fn crc_register(data: Seq<u8>) -> u32
    decreases data.len(),
{
    if data.len() == 0 {
        0xFFFF_FFFFu32
    } else {
        crc_byte(crc_register(data.drop_last()), data.last())
    }
}

/// The CRC-32 of `data`: the final register with every bit inverted.
pub open spec fn crc32_of(data: Seq<u8>) -> u32 {
    crc_register(data) ^ 0xFFFF_FFFFu32
}

fn shift(c: u32) -> (r: u32)
    ensures
        r == crc_shift(c),
{
    if c & 1 == 1 {
        (c >> 1u32) ^ CRC32_POLY
    } else {
        c >> 1u32
    }
}

/// The CRC-32 of the first `len` bytes of `data`.
pub fn crc32_prefix(data: &[u8], len: usize) -> (r: u32)
    requires
        len <= data@.len(),
    ensures
        r == crc32_of(data@.subrange(0, len as int)),
{
    let mut c: u32 = 0xFFFF_FFFF;
    let mut i: usize = 0;
    while i < len
        invariant
            len <= data@.len(),
            0 <= i <= len,
            c == crc_register(data@.subrange(0, i as int)),
        decreases len - i,
    {
        let start = c ^ (data[i] as u32);
        let mut k: usize = 0;
        c = start;
        while k < 8
            invariant
                0 <= k <= 8,
                c == crc_shifts(start, k as nat),
            decreases 8 - k,
        {
            c = shift(c);
            k = k + 1;
        }
        proof {
            let pre = data@.subrange(0, i as int);
            let next = data@.subrange(0, i + 1);
            assert(next.drop_last() =~= pre);
            assert(next.last() == data@[i as int]);
        }
        i = i + 1;
    }
    c ^ 0xFFFF_FFFF
}

/// The CRC-32 of `data`.
pub fn crc32(data: &[u8]) -> (r: u32)
    ensures
        r == crc32_of(data@),
{
    let r = crc32_prefix(data, data.len());
    proof {
        assert(data@.subrange(0, data@.len() as int) =~= data@);
    }
    r
}

} // verus!
