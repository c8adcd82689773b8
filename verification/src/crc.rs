//! CRC-32 as used by MPEG PSI sections: polynomial 0x04C11DB7, initial
//! value 0xFFFFFFFF, most-significant bit first, no reflection and no
//! final xor. A reassembled section is valid exactly when this checksum
//! over everything but its last four bytes equals the value stored there.

use vstd::prelude::*;

verus! {

/// One shift step of the MSB-first CRC-32 register.
pub open spec fn crc32_bit(c: u32) -> u32 {
    if c & 0x8000_0000u32 != 0 {
        (c << 1u32) ^ 0x04C1_1DB7u32
    } else {
        c << 1u32
    }
}

/// The CRC register after `n` shift steps from `c`.
pub open spec fn crc32_shift(c: u32, n: nat) -> u32
    decreases n,
{
    if n == 0 {
        c
    } else {
        crc32_bit(crc32_shift(c, (n - 1) as nat))
    }
}

/// The CRC register after absorbing one input byte.
pub open spec fn crc32_byte(c: u32, b: u8) -> u32 {
    crc32_shift(c ^ ((b as u32) << 24u32), 8)
}

/// The checksum of a whole byte sequence.
pub open spec fn crc32_seq(s: Seq<u8>) -> u32
    decreases s.len(),
{
    if s.len() == 0 {
        0xFFFF_FFFFu32
    } else {
        crc32_byte(crc32_seq(s.drop_last()), s.last())
    }
}

/// Absorbs one byte into the running CRC register.
pub fn crc32_update(c: u32, b: u8) -> (r: u32)
    ensures
        r == crc32_byte(c, b),
{
    let mut x: u32 = c ^ ((b as u32) << 24u32);
    let mut j: usize = 0;
    while j < 8
        invariant
            j <= 8,
            x == crc32_shift(c ^ ((b as u32) << 24u32), j as nat),
        decreases 8 - j,
    {
        if x & 0x8000_0000u32 != 0 {
            x = (x << 1u32) ^ 0x04C1_1DB7u32;
        } else {
            x = x << 1u32;
        }
        j = j + 1;
    }
    x
}

/// The checksum of `data`, computed byte by byte.
pub fn crc32(data: &[u8]) -> (r: u32)
    ensures
        r == crc32_seq(data@),
{
    let mut c: u32 = 0xFFFF_FFFFu32;
    let mut i: usize = 0;
    while i < data.len()
        invariant
            i <= data@.len(),
            c == crc32_seq(data@.take(i as int)),
        decreases data@.len() - i,
    {
        c = crc32_update(c, data[i]);
        proof {
            assert(data@.take(i + 1).drop_last() =~= data@.take(i as int));
            assert(data@.take(i + 1).last() == data@[i as int]);
        }
        i = i + 1;
    }
    proof {
        assert(data@.take(data@.len() as int) =~= data@);
    }
    c
}

} // verus!
