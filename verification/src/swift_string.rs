//! Swift String values as Darwin lays them out, and their repacking into
//! the Linux small-string form.

use vstd::prelude::*;

verus! {

/// A Darwin Swift String: two machine words.
#[derive(Clone, Copy, Debug)]
pub struct DarwinString {
    pub word0: u64,
    pub word1: u64,
}

/// A Linux Swift String: two machine words.
#[derive(Clone, Copy, Debug)]
pub struct LinuxString {
    pub word0: u64,
    pub word1: u64,
}

/// Byte `i` (0-based, little-endian) of a word.
pub open spec fn word_byte(w: u64, i: int) -> u8 {
    ((w >> (8 * i) as u64) & 0xff) as u8
}

/// The bytes `lo..hi` of `bytes`, packed little-endian into one word
/// (byte `lo` lowest); a byte at or past `count` is left out.
pub open spec fn pack_word(bytes: Seq<u8>, lo: int, count: int, n: nat) -> u64
    decreases n,
{
    if n == 0 {
        0
    } else {
        let prev = pack_word(bytes, lo, count, (n - 1) as nat);
        let i = lo + n - 1;
        if i < count { prev | ((bytes[i] as u64) << (8 * (n - 1)) as u64) } else { prev }
    }
}

/// The Linux small string holding the first `count` of `bytes` (at most 15).
pub open spec fn small_linux_string(bytes: Seq<u8>, count: int) -> LinuxString {
    LinuxString {
        word0: pack_word(bytes, 0, count, 8),
        word1: pack_word(bytes, 8, count, 7) | (((0xE0u64 | count as u64)) << 56u64),
    }
}

/// The 15 inline bytes of a Darwin small string: word0's eight, then the
/// low seven of word1.
pub open spec fn small_bytes(s: DarwinString) -> Seq<u8> {
    Seq::new(15, |i: int| if i < 8 { word_byte(s.word0, i) } else { word_byte(s.word1, i - 8) })
}

impl DarwinString {
    /// Whether this is a small string: word1's top nibble is 0xE.
    pub open spec fn spec_is_small(&self) -> bool {
        self.word1 >> 60 == 0xE
    }

    /// Whether this is an NSString-bridged string: bit 62 of word1.
    pub open spec fn spec_is_bridged(&self) -> bool {
        (self.word1 >> 62) & 1 == 1
    }

    pub fn is_small(&self) -> (r: bool)
        ensures
            r == self.spec_is_small(),
    {
        (self.word1 >> 60) == 0xE
    }

    pub fn is_bridged(&self) -> (r: bool)
        ensures
            r == self.spec_is_bridged(),
    {
        (self.word1 >> 62) & 1 == 1
    }

    /// The Linux form: a small string is repacked from its own bytes and
    /// count (word1 bits 56..60); a bridged one from the first (at most 15)
    /// bytes of the NSString it points to, `bridged_bytes` (empty for a null
    /// pointer); any other passes through unchanged.
    pub fn to_linux_string(&self, bridged_bytes: &[u8]) -> (r: LinuxString)
        ensures
            self.spec_is_small() ==> r == small_linux_string(small_bytes(*self), ((self.word1 >> 56) & 0x0F) as int),
            !self.spec_is_small() && self.spec_is_bridged() ==> r == small_linux_string(bridged_bytes@,
                if bridged_bytes@.len() < 15 { bridged_bytes@.len() as int } else { 15 }),
            !self.spec_is_small() && !self.spec_is_bridged() ==> r == (LinuxString { word0: self.word0, word1: self.word1 }),
    {
        if self.is_small() {
            let w1 = self.word1;
            let c = (w1 >> 56) & 0x0F;
            assert((w1 >> 56) & 0x0F <= 15) by (bit_vector);
            let count = c as usize;
            let mut bytes: Vec<u8> = Vec::new();
            let mut i: usize = 0;
            while i < 15
                invariant
                    i <= 15,
                    bytes@ =~= small_bytes(*self).take(i as int),
                decreases 15 - i,
            {
                let b = if i < 8 { ((self.word0 >> (8 * i) as u64) & 0xff) as u8 }
                    else { ((self.word1 >> (8 * (i - 8)) as u64) & 0xff) as u8 };
                bytes.push(b);
                i = i + 1;
            }
            proof {
                assert(bytes@ =~= small_bytes(*self));
            }
            pack_small(bytes.as_slice(), count)
        } else if self.is_bridged() {
            let count = if bridged_bytes.len() < 15 { bridged_bytes.len() } else { 15 };
            pack_small(bridged_bytes, count)
        } else {
            LinuxString { word0: self.word0, word1: self.word1 }
        }
    }
}

/// Pack the first `count` bytes into the Linux small-string form.
fn pack_small(bytes: &[u8], count: usize) -> (r: LinuxString)
    requires
        count <= 15,
        count <= bytes@.len(),
    ensures
        r == small_linux_string(bytes@, count as int),
{
    let w0 = pack_bytes(bytes, 0, count, 8);
    let w1 = pack_bytes(bytes, 8, count, 7);
    LinuxString { word0: w0, word1: w1 | ((0xE0u64 | count as u64) << 56u64) }
}

/// `pack_word` over `n` bytes from `lo`.
fn pack_bytes(bytes: &[u8], lo: usize, count: usize, n: usize) -> (r: u64)
    requires
        n <= 8,
        lo + n <= 15,
        count <= bytes@.len(),
    ensures
        r == pack_word(bytes@, lo as int, count as int, n as nat),
{
    let mut w: u64 = 0;
    let mut k: usize = 0;
    while k < n
        invariant
            k <= n <= 8,
            lo + n <= 15,
            count <= bytes@.len(),
            w == pack_word(bytes@, lo as int, count as int, k as nat),
        decreases n - k,
    {
        let i = lo + k;
        if i < count {
            w = w | ((bytes[i] as u64) << (8 * k) as u64);
        }
        k = k + 1;
    }
    w
}

/// Byte `k` of a packed word is the packed byte at `lo + k` (0 where none
/// was packed).
proof fn lemma_pack_word_bytes(bytes: Seq<u8>, lo: int, count: int, n: nat, k: int)
    requires
        n <= 8,
        0 <= k < 8,
    ensures
        word_byte(pack_word(bytes, lo, count, n), k) == (if k < n && lo + k < count { bytes[lo + k] } else { 0u8 }),
        n < 8 ==> pack_word(bytes, lo, count, n) >> (8 * n) as u64 == 0,
    decreases n,
{
    let sk: u64 = (8 * k) as u64;
    let kk: u64 = k as u64;
    if n == 0 {
        assert(((0u64 >> sk) & 0xff) as u8 == 0u8 && (0u64 >> 0u64) == 0) by (bit_vector);
    } else {
        let m = (n - 1) as nat;
        lemma_pack_word_bytes(bytes, lo, count, m, k);
        let prev = pack_word(bytes, lo, count, m);
        let i = lo + m;
        let sh: u64 = (8 * m) as u64;
        let sn: u64 = (8 * n) as u64;
        let mm: u64 = m as u64;
        let b: u64 = if i < count { bytes[i] as u64 } else { 0 };
        let w = prev | (b << sh);
        assert(pack_word(bytes, lo, count, n) == w) by {
            if i >= count {
                assert(prev | (0u64 << sh) == prev) by (bit_vector);
            }
        }
        assert(word_byte(prev, k) == ((prev >> sk) & 0xff) as u8);
        assert(word_byte(w, k) == ((w >> sk) & 0xff) as u8);
        assert(mm < 8 && kk < 8 && sh == 8 * mm && sk == 8 * kk && sn == sh + 8 && b < 256
            && (mm > 0 ==> prev >> sh == 0) && (mm == 0 ==> prev == 0) ==> {
            &&& ((w >> sk) & 0xff) as u8 == (if kk < mm { ((prev >> sk) & 0xff) as u8 }
                    else if kk == mm { b as u8 } else { 0u8 })
            &&& (sn < 64 ==> w >> sn == 0)
        }) by (bit_vector)
            requires
                w == prev | (b << sh);
        if m == 0 {
            assert(prev == 0);
        }
    }
}

/// A Linux small string holds its bytes in order: byte `i` of the string
/// (for `i` below the count) is byte `i` of word0 for `i < 8` and byte
/// `i - 8` of word1 otherwise; the unused bytes are 0; and word1's top byte
/// is 0xE0 plus the count.
pub proof fn law_linux_small_string_holds_its_bytes(bytes: Seq<u8>, count: int, i: int)
    requires
        0 <= count <= 15,
        count <= bytes.len(),
        0 <= i < 15,
    ensures
        i < 8 ==> word_byte(small_linux_string(bytes, count).word0, i) == (if i < count { bytes[i] } else { 0u8 }),
        8 <= i ==> word_byte(small_linux_string(bytes, count).word1, i - 8) == (if i < count { bytes[i] } else { 0u8 }),
        word_byte(small_linux_string(bytes, count).word1, 7) == 0xE0 + count,
{
    if i < 8 {
        lemma_pack_word_bytes(bytes, 0, count, 8, i);
    }
    let p1 = pack_word(bytes, 8, count, 7);
    lemma_pack_word_bytes(bytes, 8, count, 7, 7);
    let c = count as u64;
    if 8 <= i {
        lemma_pack_word_bytes(bytes, 8, count, 7, i - 8);
        let k = (i - 8) as u64;
        assert(k < 7 && c < 16 && p1 >> 56u64 == 0 ==>
            (((p1 | ((0xE0u64 | c) << 56u64)) >> (8 * k)) & 0xff) as u8 == (((p1 >> (8 * k)) & 0xff) as u8)) by (bit_vector);
    }
    assert(c < 16 && p1 >> 56u64 == 0 ==>
        (((p1 | ((0xE0u64 | c) << 56u64)) >> 56u64) & 0xff) as u8 == (0xE0u64 + c) as u8) by (bit_vector);
}

} // verus!
