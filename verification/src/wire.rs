use vstd::prelude::*;

verus! {

/// The 16-bit number that `buf` holds at `pos`, most significant byte first.
pub open spec fn u16_at(buf: Seq<u8>, pos: int) -> u16 {
    (buf[pos] as int * 256 + buf[pos + 1] as int) as u16
}

/// The 32-bit number that `buf` holds at `pos`, most significant byte first.
pub open spec fn u32_at(buf: Seq<u8>, pos: int) -> u32 {
    (buf[pos] as int * 0x100_0000 + buf[pos + 1] as int * 0x1_0000 + buf[pos + 2] as int * 256
        + buf[pos + 3] as int) as u32
}

/// The signed number with the same 32 bits as `bits`, in two's complement.
pub open spec fn as_signed(bits: u32) -> i32 {
    if bits < 0x8000_0000 {
        bits as i32
    } else {
        (bits as int - 0x1_0000_0000) as i32
    }
}

/// The signed 32-bit number that `buf` holds at `pos`, most significant byte
/// first.
pub open spec fn i32_at(buf: Seq<u8>, pos: int) -> i32 {
    as_signed(u32_at(buf, pos))
}

/// The two bytes of `value`, most significant first.
pub open spec fn u16_bytes(value: u16) -> Seq<u8> {
    seq![(value / 256) as u8, (value % 256) as u8]
}

/// Reads the big-endian `u16` at `pos`.
pub fn read_u16(buf: &[u8], pos: usize) -> (value: u16)
    requires
        pos + 2 <= buf.len(),
    ensures
        value == u16_at(buf@, pos as int),
{
    let high: u16 = buf[pos] as u16;
    let low: u16 = buf[pos + 1] as u16;
    high * 256 + low
}

/// Reads the big-endian `u32` at `pos`.
pub fn read_u32(buf: &[u8], pos: usize) -> (value: u32)
    requires
        pos + 4 <= buf.len(),
    ensures
        value == u32_at(buf@, pos as int),
{
    let b0: u32 = buf[pos] as u32;
    let b1: u32 = buf[pos + 1] as u32;
    let b2: u32 = buf[pos + 2] as u32;
    let b3: u32 = buf[pos + 3] as u32;
    b0 * 0x100_0000 + b1 * 0x1_0000 + b2 * 256 + b3
}

/// Reads the big-endian two's-complement `i32` at `pos`.
pub fn read_i32(buf: &[u8], pos: usize) -> (value: i32)
    requires
        pos + 4 <= buf.len(),
    ensures
        value == i32_at(buf@, pos as int),
{
    let bits: u32 = read_u32(buf, pos);
    if bits < 0x8000_0000 {
        bits as i32
    } else {
        let low: i32 = (bits - 0x8000_0000) as i32;
        low + i32::MIN
    }
}

/// Appends the two bytes of `value` to `out`, most significant first.
pub fn push_u16(out: &mut Vec<u8>, value: u16)
    ensures
        final(out)@ == old(out)@ + u16_bytes(value),
{
    out.push((value / 256) as u8);
    out.push((value % 256) as u8);
}

} // verus!
