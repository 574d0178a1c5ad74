use vstd::prelude::*;

verus! {

/// The integer that the two bytes `hi`, `lo` encode, most significant first.
pub open spec fn u16_of(hi: u8, lo: u8) -> int {
    hi * 256 + lo
}

/// The integer that four bytes encode, most significant first.
pub open spec fn u32_of(b0: u8, b1: u8, b2: u8, b3: u8) -> int {
    b0 * 16777216 + b1 * 65536 + b2 * 256 + b3
}

/// Big-endian 16-bit value at `idx` of `data`.
pub open spec fn spec_u16_be(data: Seq<u8>, idx: int) -> int {
    u16_of(data[idx], data[idx + 1])
}

/// Little-endian 16-bit value at `idx` of `data`.
pub open spec fn spec_u16_le(data: Seq<u8>, idx: int) -> int {
    u16_of(data[idx + 1], data[idx])
}

/// Big-endian 32-bit value at `idx` of `data`.
pub open spec fn spec_u32_be(data: Seq<u8>, idx: int) -> int {
    u32_of(data[idx], data[idx + 1], data[idx + 2], data[idx + 3])
}

/// Little-endian 32-bit value at `idx` of `data`.
pub open spec fn spec_u32_le(data: Seq<u8>, idx: int) -> int {
    u32_of(data[idx + 3], data[idx + 2], data[idx + 1], data[idx])
}

/// 16-bit value at `idx` in the given byte order.
pub open spec fn spec_u16(data: Seq<u8>, idx: int, big_endian: bool) -> int {
    if big_endian { spec_u16_be(data, idx) } else { spec_u16_le(data, idx) }
}

/// 32-bit value at `idx` in the given byte order.
pub open spec fn spec_u32(data: Seq<u8>, idx: int, big_endian: bool) -> int {
    if big_endian { spec_u32_be(data, idx) } else { spec_u32_le(data, idx) }
}

fn combine_u16(hi: u8, lo: u8) -> (r: u16)
    ensures r == u16_of(hi, lo),
{
    (hi as u16) * 256 + (lo as u16)
}

fn combine_u32(b0: u8, b1: u8, b2: u8, b3: u8) -> (r: u32)
    ensures r == u32_of(b0, b1, b2, b3),
{
    (b0 as u32) * 16777216 + (b1 as u32) * 65536 + (b2 as u32) * 256 + (b3 as u32)
}

/// Reads the big-endian `u32` that starts at `idx`.
pub fn get_u32(data: &[u8], idx: usize) -> (r: u32)
    requires
        idx + 4 <= data@.len(),
    ensures
        r == spec_u32_be(data@, idx as int),
{
    get_u32_be(data, idx)
}

/// Reads the big-endian `u16` that starts at `idx`.
pub fn get_u16(data: &[u8], idx: usize) -> (r: u16)
    requires
        idx + 2 <= data@.len(),
    ensures
        r == spec_u16_be(data@, idx as int),
{
    get_u16_be(data, idx)
}

/// Reads the big-endian `u32` that starts at `idx`.
pub fn get_u32_be(data: &[u8], idx: usize) -> (r: u32)
    requires
        idx + 4 <= data@.len(),
    ensures
        r == spec_u32_be(data@, idx as int),
{
    combine_u32(data[idx], data[idx + 1], data[idx + 2], data[idx + 3])
}

/// Reads the little-endian `u32` that starts at `idx`.
pub fn get_u32_le(data: &[u8], idx: usize) -> (r: u32)
    requires
        idx + 4 <= data@.len(),
    ensures
        r == spec_u32_le(data@, idx as int),
{
    let b0 = data[idx];
    combine_u32(data[idx + 3], data[idx + 2], data[idx + 1], b0)
}

/// Reads the big-endian `u16` that starts at `idx`.
pub fn get_u16_be(data: &[u8], idx: usize) -> (r: u16)
    requires
        idx + 2 <= data@.len(),
    ensures
        r == spec_u16_be(data@, idx as int),
{
    combine_u16(data[idx], data[idx + 1])
}

/// Reads the little-endian `u16` that starts at `idx`.
pub fn get_u16_le(data: &[u8], idx: usize) -> (r: u16)
    requires
        idx + 2 <= data@.len(),
    ensures
        r == spec_u16_le(data@, idx as int),
{
    let b0 = data[idx];
    combine_u16(data[idx + 1], b0)
}

/// Reads a `u16` at `idx` in the byte order that `big_endian` selects.
pub fn get_u16_order(data: &[u8], idx: usize, big_endian: bool) -> (r: u16)
    requires
        idx + 2 <= data@.len(),
    ensures
        r == spec_u16(data@, idx as int, big_endian),
{
    if big_endian { get_u16_be(data, idx) } else { get_u16_le(data, idx) }
}

/// Reads a `u32` at `idx` in the byte order that `big_endian` selects.
pub fn get_u32_order(data: &[u8], idx: usize, big_endian: bool) -> (r: u32)
    requires
        idx + 4 <= data@.len(),
    ensures
        r == spec_u32(data@, idx as int, big_endian),
{
    if big_endian { get_u32_be(data, idx) } else { get_u32_le(data, idx) }
}

/// Splits a `u16` into its high and low byte.
pub fn unpack_u16(v: u16) -> (r: (u8, u8))
    ensures
        r.0 == v / 256,
        r.1 == v % 256,
        u16_of(r.0, r.1) == v,
{
    let hi = ((v & 0xFF00) >> 8) as u8;
    let lo = (v & 0x00FF) as u8;
    assert(((v & 0xFF00) >> 8) as u8 == v / 256 && (v & 0x00FF) as u8 == v % 256) by (bit_vector);
    (hi, lo)
}

/// Splitting a value into bytes and reading them back gives the value again.
pub proof fn law_unpack_roundtrip(v: u16)
    ensures
        u16_of((v / 256) as u8, (v % 256) as u8) == v,
{
}

} // verus!
