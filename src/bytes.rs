//! Byte order and fixed-width integer decoding.

use vstd::prelude::*;

verus! {

/// The byte order of the integers inside a TIFF block.
#[derive(Clone, Copy, Debug, PartialEq, Eq, Structural)]
pub enum ByteOrder {
    BigEndian,
    LittleEndian,
}

/// The 16-bit integer held by the two bytes `s[i]`, `s[i + 1]`.
pub open spec fn u16_at(s: Seq<u8>, i: int, order: ByteOrder) -> int {
    match order {
        ByteOrder::BigEndian => s[i] as int * 256 + s[i + 1] as int,
        ByteOrder::LittleEndian => s[i] as int + s[i + 1] as int * 256,
    }
}

/// The 32-bit integer held by the four bytes from `s[i]` on.
pub open spec fn u32_at(s: Seq<u8>, i: int, order: ByteOrder) -> int {
    match order {
        ByteOrder::BigEndian => s[i] as int * 0x100_0000 + s[i + 1] as int * 0x1_0000
            + s[i + 2] as int * 0x100 + s[i + 3] as int,
        ByteOrder::LittleEndian => s[i] as int + s[i + 1] as int * 0x100
            + s[i + 2] as int * 0x1_0000 + s[i + 3] as int * 0x100_0000,
    }
}

/// The two bytes that encode `v` in the given order.
pub open spec fn u16_bytes(v: u16, order: ByteOrder) -> Seq<u8> {
    match order {
        ByteOrder::BigEndian => seq![(v / 256) as u8, (v % 256) as u8],
        ByteOrder::LittleEndian => seq![(v % 256) as u8, (v / 256) as u8],
    }
}

/// Decodes the two bytes of `slice` from `at` on.
pub fn decode_u16(slice: &[u8], at: usize, order: ByteOrder) -> (r: u16)
    requires
        at + 2 <= slice@.len(),
    ensures
        r == u16_at(slice@, at as int, order),
{
    let a = slice[at] as u16;
    let b = slice[at + 1] as u16;
    match order {
        ByteOrder::BigEndian => a * 256 + b,
        ByteOrder::LittleEndian => a + b * 256,
    }
}

/// Decodes the four bytes of `slice` from `at` on.
pub fn decode_u32(slice: &[u8], at: usize, order: ByteOrder) -> (r: u32)
    requires
        at + 4 <= slice@.len(),
    ensures
        r == u32_at(slice@, at as int, order),
{
    let a = slice[at] as u32;
    let b = slice[at + 1] as u32;
    let c = slice[at + 2] as u32;
    let d = slice[at + 3] as u32;
    match order {
        ByteOrder::BigEndian => a * 0x100_0000 + b * 0x1_0000 + c * 0x100 + d,
        ByteOrder::LittleEndian => a + b * 0x100 + c * 0x1_0000 + d * 0x100_0000,
    }
}

/// The two bytes that encode `v` in the given order.
pub fn encode_u16(v: u16, order: ByteOrder) -> (r: [u8; 2])
    ensures
        r@ == u16_bytes(v, order),
{
    let hi = (v / 256) as u8;
    let lo = (v % 256) as u8;
    let r = match order {
        ByteOrder::BigEndian => [hi, lo],
        ByteOrder::LittleEndian => [lo, hi],
    };
    proof {
        assert(r@ =~= u16_bytes(v, order));
    }
    r
}

} // verus!
