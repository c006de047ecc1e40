//! Little-endian fixed-width reads at byte offsets of a buffer.
use vstd::prelude::*;

verus! {

/// The `u32` stored little-endian in the four bytes at `p`.
pub open spec fn le_u32(d: Seq<u8>, p: int) -> u32 {
    (d[p] as int + d[p + 1] as int * 0x100 + d[p + 2] as int * 0x1_0000 + d[p + 3] as int
        * 0x100_0000) as u32
}

/// The `u16` stored little-endian in the two bytes at `p`.
pub open spec fn le_u16(d: Seq<u8>, p: int) -> u16 {
    (d[p] as int + d[p + 1] as int * 0x100) as u16
}

/// The `u64` stored little-endian in the eight bytes at `p`.
pub open spec fn le_u64(d: Seq<u8>, p: int) -> u64 {
    (le_u32(d, p) as int + le_u32(d, p + 4) as int * 0x1_0000_0000) as u64
}

/// Whether `n` bytes can be read at offset `p`.
pub open spec fn fits(d: Seq<u8>, p: int, n: int) -> bool {
    0 <= p && p + n <= d.len()
}

pub open spec fn spec_u32_at(d: Seq<u8>, p: int) -> Option<u32> {
    if fits(d, p, 4) {
        Some(le_u32(d, p))
    } else {
        None
    }
}

pub open spec fn spec_i32_at(d: Seq<u8>, p: int) -> Option<i32> {
    if fits(d, p, 4) {
        Some(le_u32(d, p) as i32)
    } else {
        None
    }
}

pub open spec fn spec_i16_at(d: Seq<u8>, p: int) -> Option<i16> {
    if fits(d, p, 2) {
        Some(le_u16(d, p) as i16)
    } else {
        None
    }
}

pub open spec fn spec_i64_at(d: Seq<u8>, p: int) -> Option<i64> {
    if fits(d, p, 8) {
        Some(le_u64(d, p) as i64)
    } else {
        None
    }
}

pub open spec fn spec_u8_at(d: Seq<u8>, p: int) -> Option<u8> {
    if fits(d, p, 1) {
        Some(d[p])
    } else {
        None
    }
}

/// Whether `n` bytes fit at `p`, computed without overflow.
fn fits_at(d: &[u8], p: usize, n: usize) -> (r: bool)
    ensures
        r == fits(d@, p as int, n as int),
{
    p <= d.len() && d.len() - p >= n
}

/// Reads the little-endian `u32` at `p`; `None` past the end of `d`.
pub fn read_u32(d: &[u8], p: usize) -> (r: Option<u32>)
    ensures
        r == spec_u32_at(d@, p as int),
{
    if !fits_at(d, p, 4) {
        return None;
    }
    let v = d[p] as u32 + d[p + 1] as u32 * 0x100 + d[p + 2] as u32 * 0x1_0000 + d[p + 3] as u32
        * 0x100_0000;
    Some(v)
}

/// Reads the little-endian `i32` at `p`; `None` past the end of `d`.
pub fn read_i32(d: &[u8], p: usize) -> (r: Option<i32>)
    ensures
        r == spec_i32_at(d@, p as int),
{
    match read_u32(d, p) {
        Some(v) => Some(v as i32),
        None => None,
    }
}

/// Reads the little-endian `i16` at `p`; `None` past the end of `d`.
pub fn read_i16(d: &[u8], p: usize) -> (r: Option<i16>)
    ensures
        r == spec_i16_at(d@, p as int),
{
    if !fits_at(d, p, 2) {
        return None;
    }
    let v = d[p] as u16 + d[p + 1] as u16 * 0x100;
    Some(v as i16)
}

/// Reads the little-endian `i64` at `p`; `None` past the end of `d`.
pub fn read_i64(d: &[u8], p: usize) -> (r: Option<i64>)
    ensures
        r == spec_i64_at(d@, p as int),
{
    if !fits_at(d, p, 8) {
        return None;
    }
    assert(p + 8 <= d.len());
    let lo = read_u32(d, p).unwrap();
    let hi = read_u32(d, p + 4).unwrap();
    assert(hi as u64 * 0x1_0000_0000 <= 0xFFFF_FFFF_0000_0000) by (nonlinear_arith)
        requires
            hi <= 0xFFFF_FFFF,
    ;
    let v = lo as u64 + hi as u64 * 0x1_0000_0000;
    Some(v as i64)
}

/// Reads the byte at `p`; `None` past the end of `d`.
pub fn read_u8(d: &[u8], p: usize) -> (r: Option<u8>)
    ensures
        r == spec_u8_at(d@, p as int),
{
    if p < d.len() {
        Some(d[p])
    } else {
        None
    }
}

/// Reads the byte at `p` as a boolean: any non-zero byte is `true`.
pub fn read_bool(d: &[u8], p: usize) -> (r: Option<bool>)
    ensures
        r == (match spec_u8_at(d@, p as int) {
            Some(b) => Some(b != 0),
            None => None,
        }),
{
    match read_u8(d, p) {
        Some(b) => Some(b != 0),
        None => None,
    }
}

/// Reads the byte at `p` as a character (Latin-1).
pub fn read_char(d: &[u8], p: usize) -> (r: Option<char>)
    ensures
        r == (match spec_u8_at(d@, p as int) {
            Some(b) => Some(b as char),
            None => None,
        }),
{
    match read_u8(d, p) {
        Some(b) => Some(b as char),
        None => None,
    }
}

/// Reads the `u32` at `base + k`, the field at `k` of a record at `base`.
pub fn u32_field(d: &[u8], base: u32, k: usize) -> (r: Option<u32>)
    requires
        k <= 64,
    ensures
        r == spec_u32_at(d@, base + k),
{
    if base as usize > d.len() || d.len() - base as usize <= k {
        return None;
    }
    read_u32(d, base as usize + k)
}

/// Reads the `i32` at `base + k`.
pub fn i32_field(d: &[u8], base: u32, k: usize) -> (r: Option<i32>)
    requires
        k <= 64,
    ensures
        r == spec_i32_at(d@, base + k),
{
    if base as usize > d.len() || d.len() - base as usize <= k {
        return None;
    }
    read_i32(d, base as usize + k)
}

/// Reads the `i16` at `base + k`.
pub fn i16_field(d: &[u8], base: u32, k: usize) -> (r: Option<i16>)
    requires
        k <= 64,
    ensures
        r == spec_i16_at(d@, base + k),
{
    if base as usize > d.len() || d.len() - base as usize <= k {
        return None;
    }
    read_i16(d, base as usize + k)
}

/// Reads the `i64` at `base + k`.
pub fn i64_field(d: &[u8], base: u32, k: usize) -> (r: Option<i64>)
    requires
        k <= 64,
    ensures
        r == spec_i64_at(d@, base + k),
{
    if base as usize > d.len() || d.len() - base as usize <= k {
        return None;
    }
    read_i64(d, base as usize + k)
}

/// Reads the byte at `base + k`.
pub fn u8_field(d: &[u8], base: u32, k: usize) -> (r: Option<u8>)
    requires
        k <= 64,
    ensures
        r == spec_u8_at(d@, base + k),
{
    if base as usize > d.len() || d.len() - base as usize <= k {
        return None;
    }
    read_u8(d, base as usize + k)
}

} // verus!
