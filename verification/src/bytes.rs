//! Little-endian integers inside byte sequences.

use vstd::prelude::*;

verus! {

/// The unsigned 16-bit number whose two bytes stand at `off`, low byte first.
pub open spec fn le_u16(s: Seq<u8>, off: int) -> int {
    s[off] + 256 * s[off + 1]
}

/// The signed 16-bit number whose two bytes stand at `off`, low byte first.
pub open spec fn le_i16(s: Seq<u8>, off: int) -> i16 {
    let u = le_u16(s, off);
    (if u < 0x8000 { u } else { u - 0x10000 }) as i16
}

/// The unsigned 32-bit number whose four bytes stand at `off`, low byte first.
pub open spec fn le_u32(s: Seq<u8>, off: int) -> u32 {
    (s[off] + 0x100 * s[off + 1] + 0x1_0000 * s[off + 2] + 0x100_0000 * s[off + 3]) as u32
}

/// Byte `b` (0 is the lowest) of the two's complement of `v`.
pub open spec fn i16_byte(v: i16, b: int) -> u8 {
    let u = if v < 0 { v + 0x10000 } else { v as int };
    (if b == 0 { u % 256 } else { u / 256 }) as u8
}

/// Byte `b` (0 is the lowest) of `v`.
pub open spec fn u32_byte(v: u32, b: int) -> u8 {
    (if b == 0 {
        v as int % 0x100
    } else if b == 1 {
        v as int / 0x100 % 0x100
    } else if b == 2 {
        v as int / 0x1_0000 % 0x100
    } else {
        v as int / 0x100_0000
    }) as u8
}

/// Reading an `i16` at the place where its two bytes were written gives it back.
pub proof fn i16_round_trip(s: Seq<u8>, off: int, v: i16)
    requires
        s[off] == i16_byte(v, 0),
        s[off + 1] == i16_byte(v, 1),
    ensures
        le_i16(s, off) == v,
{
    let u: int = if v < 0 { v + 0x10000 } else { v as int };
    assert(u == 256 * (u / 256) + u % 256);
    assert(0 <= u / 256 < 256);
}

/// Reading a `u32` at the place where its four bytes were written gives it back.
pub proof fn u32_round_trip(s: Seq<u8>, off: int, v: u32)
    requires
        forall|b: int| 0 <= b < 4 ==> s[off + b] == #[trigger] u32_byte(v, b),
    ensures
        le_u32(s, off) == v,
{
    assert(s[off + 0] == u32_byte(v, 0));
    assert(s[off + 1] == u32_byte(v, 1));
    assert(s[off + 2] == u32_byte(v, 2));
    assert(s[off + 3] == u32_byte(v, 3));
    let u: int = v as int;
    assert(u / 0x100 / 0x100 == u / 0x1_0000 && u / 0x1_0000 / 0x100 == u / 0x100_0000);
    assert(u == 256 * (u / 256) + u % 256);
    assert(u / 256 == 256 * (u / 256 / 256) + u / 256 % 256);
    assert(u / 0x1_0000 == 256 * (u / 0x1_0000 / 256) + u / 0x1_0000 % 256);
}

/// The bytes of a signed number are determined by it.
pub proof fn le_i16_injective(s: Seq<u8>, t: Seq<u8>, off: int)
    requires
        le_i16(s, off) == le_i16(t, off),
    ensures
        s[off] == t[off],
        s[off + 1] == t[off + 1],
{
    assert(le_u16(s, off) == le_u16(t, off));
}

/// The bytes of an unsigned number are determined by it.
pub proof fn le_u32_injective(s: Seq<u8>, t: Seq<u8>, off: int)
    requires
        le_u32(s, off) == le_u32(t, off),
    ensures
        s[off] == t[off],
        s[off + 1] == t[off + 1],
        s[off + 2] == t[off + 2],
        s[off + 3] == t[off + 3],
{
    let a = s[off] + 0x100 * s[off + 1] + 0x1_0000 * s[off + 2] + 0x100_0000 * s[off + 3];
    let b = t[off] + 0x100 * t[off + 1] + 0x1_0000 * t[off + 2] + 0x100_0000 * t[off + 3];
    assert(a == b);
}

/// The signed number made of two bytes, low byte first.
pub fn i16_from_le(lo: u8, hi: u8) -> (v: i16)
    ensures
        v == le_i16(seq![lo, hi], 0),
{
    let u: i32 = lo as i32 + 256 * (hi as i32);
    if u < 0x8000 {
        u as i16
    } else {
        (u - 0x10000) as i16
    }
}

/// Reads the `i16` at `off`.
pub fn read_i16(bytes: &[u8], off: usize) -> (v: i16)
    requires
        off + 2 <= bytes@.len(),
    ensures
        v == le_i16(bytes@, off as int),
{
    i16_from_le(bytes[off], bytes[off + 1])
}

/// Reads the `u32` at `off`.
pub fn read_u32(bytes: &[u8], off: usize) -> (v: u32)
    requires
        off + 4 <= bytes@.len(),
    ensures
        v == le_u32(bytes@, off as int),
{
    bytes[off] as u32 + 0x100 * (bytes[off + 1] as u32) + 0x1_0000 * (bytes[off + 2] as u32)
        + 0x100_0000 * (bytes[off + 3] as u32)
}

/// Appends the two bytes of `v`.
pub fn push_i16(out: &mut Vec<u8>, v: i16)
    ensures
        final(out)@ == old(out)@ + seq![i16_byte(v, 0), i16_byte(v, 1)],
{
    let u: i32 = if v < 0 { v as i32 + 0x10000 } else { v as i32 };
    out.push((u % 256) as u8);
    out.push((u / 256) as u8);
}

/// Appends the four bytes of `v`.
pub fn push_u32(out: &mut Vec<u8>, v: u32)
    ensures
        final(out)@ == old(out)@ + seq![
            u32_byte(v, 0),
            u32_byte(v, 1),
            u32_byte(v, 2),
            u32_byte(v, 3),
        ],
{
    out.push((v % 0x100) as u8);
    out.push((v / 0x100 % 0x100) as u8);
    out.push((v / 0x1_0000 % 0x100) as u8);
    out.push((v / 0x100_0000) as u8);
}

} // verus!
