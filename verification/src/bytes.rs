//! Fixed-width integer reads from byte buffers and range copies.

use vstd::prelude::*;

verus! {

/// The little-endian value of `s[off..off+2]`.
pub open spec fn le_u16(s: Seq<u8>, off: int) -> u16 {
    (s[off] as u16) | ((s[off + 1] as u16) << 8)
}

/// The little-endian value of `s[off..off+4]`.
pub open spec fn le_u32(s: Seq<u8>, off: int) -> u32 {
    (s[off] as u32) | ((s[off + 1] as u32) << 8) | ((s[off + 2] as u32) << 16) | ((s[off + 3] as u32) << 24)
}

/// The little-endian value of `s[off..off+8]`.
pub open spec fn le_u64(s: Seq<u8>, off: int) -> u64 {
    (le_u32(s, off) as u64) | ((le_u32(s, off + 4) as u64) << 32)
}

/// The big-endian value of `s[off..off+4]`.
pub open spec fn be_u32(s: Seq<u8>, off: int) -> u32 {
    ((s[off] as u32) << 24) | ((s[off + 1] as u32) << 16) | ((s[off + 2] as u32) << 8) | (s[off + 3] as u32)
}

/// The big-endian value of `s[off..off+8]`.
pub open spec fn be_u64(s: Seq<u8>, off: int) -> u64 {
    ((be_u32(s, off) as u64) << 32) | (be_u32(s, off + 4) as u64)
}

/// Read a little-endian u16 at `off`.
pub fn read_le_u16(s: &[u8], off: usize) -> (r: u16)
    requires
        off + 2 <= s.len(),
    ensures
        r == le_u16(s@, off as int),
{
    (s[off] as u16) | ((s[off + 1] as u16) << 8)
}

/// Read a little-endian u32 at `off`.
pub fn read_le_u32(s: &[u8], off: usize) -> (r: u32)
    requires
        off + 4 <= s.len(),
    ensures
        r == le_u32(s@, off as int),
{
    (s[off] as u32) | ((s[off + 1] as u32) << 8) | ((s[off + 2] as u32) << 16) | ((s[off + 3] as u32) << 24)
}

/// Read a little-endian u64 at `off`.
pub fn read_le_u64(s: &[u8], off: usize) -> (r: u64)
    requires
        off + 8 <= s.len(),
    ensures
        r == le_u64(s@, off as int),
{
    let lo = read_le_u32(s, off);
    let hi = read_le_u32(s, off + 4);
    (lo as u64) | ((hi as u64) << 32)
}

/// Read a big-endian u32 at `off`.
pub fn read_be_u32(s: &[u8], off: usize) -> (r: u32)
    requires
        off + 4 <= s.len(),
    ensures
        r == be_u32(s@, off as int),
{
    ((s[off] as u32) << 24) | ((s[off + 1] as u32) << 16) | ((s[off + 2] as u32) << 8) | (s[off + 3] as u32)
}

/// Read a big-endian u64 at `off`.
pub fn read_be_u64(s: &[u8], off: usize) -> (r: u64)
    requires
        off + 8 <= s.len(),
    ensures
        r == be_u64(s@, off as int),
{
    let hi = read_be_u32(s, off);
    let lo = read_be_u32(s, off + 4);
    ((hi as u64) << 32) | (lo as u64)
}

/// A copy of `s[start..end]`.
pub fn copy_range(s: &[u8], start: usize, end: usize) -> (r: Vec<u8>)
    requires
        start <= end <= s@.len(),
    ensures
        r@ == s@.subrange(start as int, end as int),
{
    let mut out: Vec<u8> = Vec::new();
    let mut i = start;
    while i < end
        invariant
            start <= i <= end <= s@.len(),
            out@ == s@.subrange(start as int, i as int),
        decreases end - i,
    {
        out.push(s[i]);
        i = i + 1;
        proof {
            assert(out@ =~= s@.subrange(start as int, i as int));
        }
    }
    out
}

/// An integer taken modulo 2^64: the machine's wrapping address arithmetic.
pub open spec fn wrap64(x: int) -> u64 {
    (x % 0x1_0000_0000_0000_0000int) as u64
}

/// `a + b` modulo 2^64.
pub fn add_wrapping(a: u64, b: u64) -> (r: u64)
    ensures
        r == wrap64(a + b),
{
    let r = a.wrapping_add(b);
    proof {
        if a + b > u64::MAX {
            assert((a + b) % 0x1_0000_0000_0000_0000int == a + b - 0x1_0000_0000_0000_0000int);
        } else {
            assert((a + b) % 0x1_0000_0000_0000_0000int == a + b);
        }
    }
    r
}

/// `a + b` for a signed `b`, modulo 2^64.
pub fn add_signed_wrapping(a: u64, b: i64) -> (r: u64)
    ensures
        r == wrap64(a + b),
{
    let r = a.wrapping_add_signed(b);
    proof {
        if a + b > u64::MAX {
            assert((a + b) % 0x1_0000_0000_0000_0000int == a + b - 0x1_0000_0000_0000_0000int);
        } else if a + b < 0 {
            assert((a + b) % 0x1_0000_0000_0000_0000int == a + b + 0x1_0000_0000_0000_0000int);
        } else {
            assert((a + b) % 0x1_0000_0000_0000_0000int == a + b);
        }
    }
    r
}

/// `a - b` modulo 2^64.
pub fn sub_wrapping(a: u64, b: u64) -> (r: u64)
    ensures
        r == wrap64(a - b),
{
    let r = a.wrapping_sub(b);
    proof {
        if a - b < 0 {
            assert((a - b) % 0x1_0000_0000_0000_0000int == a - b + 0x1_0000_0000_0000_0000int);
        } else {
            assert((a - b) % 0x1_0000_0000_0000_0000int == a - b);
        }
    }
    r
}

} // verus!
