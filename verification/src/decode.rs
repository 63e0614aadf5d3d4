//! Little-endian decoding of fixed-layout records from byte slices.
//!
//! Every multi-byte integer on disk is little-endian; the decoders here
//! state their results as arithmetic over the byte sequence, so nothing
//! depends on host endianness.

use vstd::prelude::*;
use crate::error::Error;

verus! {

/// The little-endian 16-bit value stored at byte offset `i` of `s`.
pub open spec fn le_u16(s: Seq<u8>, i: int) -> u16 {
    (s[i] + s[i + 1] * 0x100) as u16
}

/// The little-endian 32-bit value stored at byte offset `i` of `s`.
pub open spec fn le_u32(s: Seq<u8>, i: int) -> u32 {
    (s[i] + s[i + 1] * 0x100 + s[i + 2] * 0x1_0000 + s[i + 3] * 0x100_0000) as u32
}

/// The little-endian 64-bit value stored at byte offset `i` of `s`.
pub open spec fn le_u64(s: Seq<u8>, i: int) -> u64 {
    (le_u32(s, i) + le_u32(s, i + 4) * 0x1_0000_0000) as u64
}

/// Decode the 16-bit little-endian integer at `off`, checking the bound.
pub fn read_u16_le(s: &[u8], off: usize) -> (r: Result<u16, Error>)
    ensures
        off + 2 <= s@.len() ==> r == Ok::<u16, Error>(le_u16(s@, off as int)),
        off + 2 > s@.len() ==> (r matches Err(e) && e is InvalidData),
{
    if off < s.len() && s.len() - off >= 2 {
        let b0 = s[off];
        let b1 = s[off + 1];
        Ok(b0 as u16 + b1 as u16 * 0x100)
    } else {
        Err(Error::invalid_data())
    }
}

/// Decode the 32-bit little-endian integer at `off`, checking the bound.
pub fn read_u32_le(s: &[u8], off: usize) -> (r: Result<u32, Error>)
    ensures
        off + 4 <= s@.len() ==> r == Ok::<u32, Error>(le_u32(s@, off as int)),
        off + 4 > s@.len() ==> (r matches Err(e) && e is InvalidData),
{
    if off < s.len() && s.len() - off >= 4 {
        let b0 = s[off] as u32;
        let b1 = s[off + 1] as u32;
        let b2 = s[off + 2] as u32;
        let b3 = s[off + 3] as u32;
        Ok(b0 + b1 * 0x100 + b2 * 0x1_0000 + b3 * 0x100_0000)
    } else {
        Err(Error::invalid_data())
    }
}

/// Decode the 64-bit little-endian integer at `off`, checking the bound.
pub fn read_u64_le(s: &[u8], off: usize) -> (r: Result<u64, Error>)
    ensures
        off + 8 <= s@.len() ==> r == Ok::<u64, Error>(le_u64(s@, off as int)),
        off + 8 > s@.len() ==> (r matches Err(e) && e is InvalidData),
{
    if off < s.len() && s.len() - off >= 8 {
        let lo = u16_pair_u32(s, off);
        let hi = u16_pair_u32(s, off + 4);
        Ok(lo as u64 + hi as u64 * 0x1_0000_0000)
    } else {
        Err(Error::invalid_data())
    }
}

/// Decode the 16-bit little-endian integer at `off`; the bound is a precondition.
pub fn get_u16(s: &[u8], off: usize) -> (r: u16)
    requires
        off + 2 <= s@.len(),
    ensures
        r == le_u16(s@, off as int),
{
    s[off] as u16 + s[off + 1] as u16 * 0x100
}

/// Decode the 32-bit little-endian integer at `off`; the bound is a precondition.
pub fn get_u32(s: &[u8], off: usize) -> (r: u32)
    requires
        off + 4 <= s@.len(),
    ensures
        r == le_u32(s@, off as int),
{
    u16_pair_u32(s, off)
}

fn u16_pair_u32(s: &[u8], off: usize) -> (r: u32)
    requires
        off + 4 <= s@.len(),
    ensures
        r == le_u32(s@, off as int),
{
    s[off] as u32 + s[off + 1] as u32 * 0x100 + s[off + 2] as u32 * 0x1_0000
        + s[off + 3] as u32 * 0x100_0000
}

/// Decode the 64-bit little-endian integer at `off`; the bound is a precondition.
pub fn get_u64(s: &[u8], off: usize) -> (r: u64)
    requires
        off + 8 <= s@.len(),
    ensures
        r == le_u64(s@, off as int),
{
    let l = s.len();
    assert(off + 8 <= l);
    let lo = u16_pair_u32(s, off);
    let hi = u16_pair_u32(s, off + 4);
    lo as u64 + hi as u64 * 0x1_0000_0000
}

/// Copy `n` bytes starting at `off` out of `s`, checking the bound.
pub fn read_fixed_bytes(s: &[u8], off: usize, n: usize) -> (r: Result<Vec<u8>, Error>)
    ensures
        off + n <= s@.len() ==> (r matches Ok(v) && v@ == s@.subrange(
            off as int,
            off as int + n as int,
        )),
        off + n > s@.len() ==> (r matches Err(e) && e is InvalidData),
{
    let l = s.len();
    if off <= l && l - off >= n {
        let mut v: Vec<u8> = Vec::new();
        let mut i: usize = 0;
        while i < n
            invariant
                i <= n,
                off + n <= l,
                l == s@.len(),
                v@ == s@.subrange(off as int, off as int + i as int),
            decreases n - i,
        {
            v.push(s[off + i]);
            i += 1;
            proof {
                assert(v@ =~= s@.subrange(off as int, off as int + i as int));
            }
        }
        Ok(v)
    } else {
        Err(Error::invalid_data())
    }
}

} // verus!
