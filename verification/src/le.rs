use vstd::prelude::*;

verus! {

/// The four bytes of `v`, least significant first.
pub open spec fn u32_le_bytes(v: u32) -> Seq<u8> {
    seq![
        (v % 0x100) as u8,
        (v / 0x100 % 0x100) as u8,
        (v / 0x1_0000 % 0x100) as u8,
        (v / 0x100_0000 % 0x100) as u8,
    ]
}

/// The eight bytes of `v`, least significant first.
pub open spec fn u64_le_bytes(v: u64) -> Seq<u8> {
    seq![
        (v % 0x100) as u8,
        (v / 0x100 % 0x100) as u8,
        (v / 0x1_0000 % 0x100) as u8,
        (v / 0x100_0000 % 0x100) as u8,
        (v / 0x1_0000_0000 % 0x100) as u8,
        (v / 0x100_0000_0000 % 0x100) as u8,
        (v / 0x1_0000_0000_0000 % 0x100) as u8,
        (v / 0x100_0000_0000_0000 % 0x100) as u8,
    ]
}

/// The number whose little-endian bytes are the first four of `b`.
pub open spec fn u32_of_le_bytes(b: Seq<u8>) -> u32
    recommends
        b.len() >= 4,
{
    (b[0] + b[1] * 0x100 + b[2] * 0x1_0000 + b[3] * 0x100_0000) as u32
}

/// Reading back the bytes of a number gives the number.
pub proof fn lemma_u32_of_le_bytes_of(v: u32)
    ensures
        u32_le_bytes(v).len() == 4,
        u32_of_le_bytes(u32_le_bytes(v)) == v,
{
}

/// Byte `k` of a 32-bit number, computed with shifts and masks.
pub fn u32_byte(v: u32, k: u32) -> (r: u8)
    requires
        k < 4,
    ensures
        r == u32_le_bytes(v)[k as int],
{
    assert((v >> 0u32) & 0xff == v % 0x100 && (v >> 8u32) & 0xff == v / 0x100 % 0x100 && (v >> 16u32)
        & 0xff == v / 0x1_0000 % 0x100 && (v >> 24u32) & 0xff == v / 0x100_0000 % 0x100)
        by (bit_vector);
    assert(k == 0 || k == 1 || k == 2 || k == 3);
    ((v >> (8 * k)) & 0xff) as u8
}

/// Byte `k` of a 64-bit number, computed with shifts and masks.
pub fn u64_byte(v: u64, k: u32) -> (r: u8)
    requires
        k < 8,
    ensures
        r == u64_le_bytes(v)[k as int],
{
    assert((v >> 0u64) & 0xff == v % 0x100 && (v >> 8u64) & 0xff == v / 0x100 % 0x100 && (v >> 16u64)
        & 0xff == v / 0x1_0000 % 0x100 && (v >> 24u64) & 0xff == v / 0x100_0000 % 0x100 && (v
        >> 32u64) & 0xff == v / 0x1_0000_0000 % 0x100 && (v >> 40u64) & 0xff == v
        / 0x100_0000_0000 % 0x100 && (v >> 48u64) & 0xff == v / 0x1_0000_0000_0000 % 0x100 && (v
        >> 56u64) & 0xff == v / 0x100_0000_0000_0000 % 0x100) by (bit_vector);
    assert(k == 0 || k == 1 || k == 2 || k == 3 || k == 4 || k == 5 || k == 6 || k == 7);
    ((v >> (8 * k)) & 0xff) as u8
}

} // verus!
