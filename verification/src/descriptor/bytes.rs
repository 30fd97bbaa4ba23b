use vstd::prelude::*;

verus! {

/// The little-endian 16-bit value held in `s[i]` and `s[i + 1]`.
pub open spec fn le16(s: Seq<u8>, i: int) -> u16 {
    (s[i] + s[i + 1] * 256) as u16
}

/// The little-endian 32-bit value held in `s[i]` through `s[i + 3]`.
pub open spec fn le32(s: Seq<u8>, i: int) -> u32 {
    (s[i] + s[i + 1] * 0x100 + s[i + 2] * 0x1_0000 + s[i + 3] * 0x100_0000) as u32
}

/// The 16-bit value with low byte `lo` and high byte `hi` (`u16::from_le_bytes`).
pub fn u16_from_le(lo: u8, hi: u8) -> (r: u16)
    ensures
        r == lo + hi * 256,
{
    assert((lo as u16) | ((hi as u16) << 8) == lo + hi * 256) by (bit_vector);
    (lo as u16) | ((hi as u16) << 8)
}

/// Read the little-endian 16-bit value at offset `i` (`u16::from_le_bytes`).
pub fn read_le16(buf: &[u8], i: usize) -> (r: u16)
    requires
        i + 1 < buf@.len(),
    ensures
        r == le16(buf@, i as int),
{
    u16_from_le(buf[i], buf[i + 1])
}

/// Read the little-endian 32-bit value at offset `i` (`u32::from_le_bytes`).
pub fn read_le32(buf: &[u8], i: usize) -> (r: u32)
    requires
        i + 3 < buf@.len(),
    ensures
        r == le32(buf@, i as int),
{
    let b0 = buf[i];
    let b1 = buf[i + 1];
    let b2 = buf[i + 2];
    let b3 = buf[i + 3];
    assert((b0 as u32) | ((b1 as u32) << 8) | ((b2 as u32) << 16) | ((b3 as u32) << 24)
        == b0 + b1 * 0x100 + b2 * 0x1_0000 + b3 * 0x100_0000) by (bit_vector);
    (b0 as u32) | ((b1 as u32) << 8) | ((b2 as u32) << 16) | ((b3 as u32) << 24)
}

} // verus!
