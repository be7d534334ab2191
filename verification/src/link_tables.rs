//! What goblin's bind-opcode interpreter and export-trie walk read of an
//! image, and the checks that keep them within goblin's tables.
//!
//! goblin indexes its segment and library lists with values taken from the
//! bind opcodes and the export trie, adds offsets without checking, and
//! walks the trie recursively. The checks below follow the same reads, in
//! the same order, and accept a stream or trie only where none of that can
//! fail. Where goblin would stop with an error the checks stop too; where a
//! read is one goblin may refuse for its own reasons (a name that is not
//! UTF-8) the checks go on, so they accept no more than goblin survives.
//!
//! They are stricter than goblin in four places, none of which a linker
//! produces: a bind run longer than the image or whose offsets wrap past
//! 2^64, a trie child that does not lie after its parent, and a trie deeper
//! than `MAX_TRIE_DEPTH`. The walks followed are those of goblin 0.9; a
//! newer goblin has to be read against them again.

use vstd::prelude::*;
use crate::macho::{mach_ctx, rd32, rd64, is_text_name, read_u32_in, read_u64_in, LC_SEGMENT_32, LC_SEGMENT_64_CMD};
use crate::bytes::{read_be_u32, wrap64, add_wrapping};
use crate::text::owned;

verus! {

pub const LC_LOAD_DYLIB_CMD: u32 = 0xc;
pub const LC_LOAD_WEAK_DYLIB_CMD: u32 = 0x8000_0018;
pub const LC_REEXPORT_DYLIB_CMD: u32 = 0x8000_001f;
pub const LC_LOAD_UPWARD_DYLIB_CMD: u32 = 0x8000_0023;
pub const LC_LAZY_LOAD_DYLIB_CMD: u32 = 0x20;
pub const LC_DYLD_INFO_CMD: u32 = 0x22;
pub const LC_DYLD_INFO_ONLY_CMD: u32 = 0x8000_0022;
pub const LC_DYLD_EXPORTS_TRIE_CMD: u32 = 0x8000_0033;

/// Whether a load command adds a library to goblin's library list.
pub open spec fn adds_library(cmd: u32) -> bool {
    cmd == LC_LOAD_DYLIB_CMD || cmd == LC_LOAD_WEAK_DYLIB_CMD || cmd == LC_REEXPORT_DYLIB_CMD
        || cmd == LC_LOAD_UPWARD_DYLIB_CMD || cmd == LC_LAZY_LOAD_DYLIB_CMD
}

/// What goblin's walks use of the load commands: each segment's (vmaddr,
/// fileoff) in command order, the length of its library list ("self" plus
/// one per dylib command), the bind and lazy-bind streams of the last
/// LC_DYLD_INFO(_ONLY), and the export trie of the last command naming one.
pub struct LinkScan {
    pub segs: Seq<(u64, u64)>,
    pub nlibs: nat,
    pub binds: Option<(u32, u32, u32, u32)>,
    pub trie: Option<(u32, u32)>,
}

/// goblin's walk over `left` more load commands from `off`, gathering a
/// `LinkScan`; None where a command cannot be read (goblin stops there).
pub open spec fn walk_tables(data: Seq<u8>, le: bool, off: int, left: nat, acc: LinkScan) -> Option<LinkScan>
    decreases left,
{
    if left == 0 {
        Some(acc)
    } else if off < 0 || data.len() - off < 8 {
        None
    } else {
        let cmd = rd32(data, off, le);
        let size = rd32(data, off + 4, le) as int;
        let avail = data.len() - off;
        let next = (left - 1) as nat;
        if size > avail {
            None
        } else if cmd == LC_SEGMENT_64_CMD {
            if avail < 72 { None } else {
                walk_tables(data, le, off + size, next, LinkScan {
                    segs: acc.segs.push((rd64(data, off + 24, le), rd64(data, off + 40, le))), ..acc })
            }
        } else if cmd == LC_SEGMENT_32 {
            if avail < 56 { None } else {
                walk_tables(data, le, off + size, next, LinkScan {
                    segs: acc.segs.push((rd32(data, off + 24, le) as u64, rd32(data, off + 32, le) as u64)), ..acc })
            }
        } else if adds_library(cmd) {
            if avail < 24 { None } else {
                walk_tables(data, le, off + size, next, LinkScan { nlibs: acc.nlibs + 1, ..acc })
            }
        } else if cmd == LC_DYLD_INFO_CMD || cmd == LC_DYLD_INFO_ONLY_CMD {
            if avail < 48 { None } else {
                walk_tables(data, le, off + size, next, LinkScan {
                    binds: Some((rd32(data, off + 16, le), rd32(data, off + 20, le),
                        rd32(data, off + 32, le), rd32(data, off + 36, le))),
                    trie: Some((rd32(data, off + 40, le), rd32(data, off + 44, le))),
                    ..acc })
            }
        } else if cmd == LC_DYLD_EXPORTS_TRIE_CMD {
            if avail < 16 { None } else {
                walk_tables(data, le, off + size, next, LinkScan {
                    trie: Some((rd32(data, off + 8, le), rd32(data, off + 12, le))), ..acc })
            }
        } else {
            walk_tables(data, le, off + size, next, acc)
        }
    }
}

/// The scan of an image's load commands with its pointer size (8 or 4),
/// where goblin's `MachO::parse` gets through them; None where it refuses
/// the image first (then neither walk runs).
pub open spec fn link_scan(data: Seq<u8>) -> Option<(u64, LinkScan)> {
    match mach_ctx(data) {
        None => None,
        Some((le, is64)) => {
            let hs: int = if is64 { 32 } else { 28 };
            if data.len() < hs {
                None
            } else {
                let ncmds = rd32(data, 16, le);
                let sizeofcmds = rd32(data, 20, le);
                if ncmds > sizeofcmds / 8 || sizeofcmds > data.len() {
                    None
                } else {
                    let init = LinkScan { segs: Seq::empty(), nlibs: 1, binds: None, trie: None };
                    match walk_tables(data, le, hs, ncmds as nat, init) {
                        Some(sc) => Some((if is64 { 8u64 } else { 4u64 }, sc)),
                        None => None,
                    }
                }
            }
        }
    }
}

/// The exec form of a `LinkScan`.
pub struct LinkTables {
    pub ptr_size: u64,
    pub segs: Vec<(u64, u64)>,
    pub nlibs: u64,
    pub binds: Option<(u32, u32, u32, u32)>,
    pub trie: Option<(u32, u32)>,
}

impl LinkTables {
    pub open spec fn scan(&self) -> LinkScan {
        LinkScan { segs: self.segs@, nlibs: self.nlibs as nat, binds: self.binds, trie: self.trie }
    }
}

/// `link_scan` computed.
pub fn scan_link_tables(data: &[u8]) -> (r: Option<LinkTables>)
    ensures
        match link_scan(data@) {
            Some((ps, sc)) => r matches Some(t) && t.ptr_size == ps && t.scan() == sc,
            None => r is None,
        },
{
    if data.len() < 4 {
        return None;
    }
    let m = read_be_u32(data, 0);
    let (le, is64): (bool, bool) = if m == 0xcffa_edfe {
        (true, true)
    } else if m == 0xcefa_edfe {
        (true, false)
    } else if m == 0xfeed_facf {
        (false, true)
    } else if m == 0xfeed_face {
        (false, false)
    } else {
        return None;
    };
    let hs: usize = if is64 { 32 } else { 28 };
    if data.len() < hs {
        return None;
    }
    let ncmds = read_u32_in(data, 16, le);
    let sizeofcmds = read_u32_in(data, 20, le);
    if ncmds > sizeofcmds / 8 || sizeofcmds as usize > data.len() {
        return None;
    }
    let ghost init = LinkScan { segs: Seq::empty(), nlibs: 1, binds: None, trie: None };
    let mut t = LinkTables { ptr_size: if is64 { 8 } else { 4 }, segs: Vec::new(), nlibs: 1, binds: None, trie: None };
    let mut off: usize = hs;
    let mut left: u32 = ncmds;
    proof {
        assert(t.scan() =~= init);
    }
    while left > 0
        invariant
            off <= data@.len(),
            mach_ctx(data@) == Some((le, is64)),
            hs == (if is64 { 32usize } else { 28usize }),
            data@.len() >= hs,
            ncmds == rd32(data@, 16, le),
            sizeofcmds == rd32(data@, 20, le),
            !(ncmds > sizeofcmds / 8 || sizeofcmds > data@.len()),
            t.ptr_size == (if is64 { 8u64 } else { 4u64 }),
            t.nlibs <= 1 + ncmds - left,
            left <= ncmds,
            init == (LinkScan { segs: Seq::empty(), nlibs: 1, binds: None, trie: None }),
            walk_tables(data@, le, hs as int, ncmds as nat, init)
                == walk_tables(data@, le, off as int, left as nat, t.scan()),
        decreases left,
    {
        if data.len() - off < 8 {
            return None;
        }
        let cmd = read_u32_in(data, off, le);
        let size = read_u32_in(data, off + 4, le) as usize;
        let avail = data.len() - off;
        if size > avail {
            return None;
        }
        let ghost before = t.scan();
        if cmd == LC_SEGMENT_64_CMD {
            if avail < 72 {
                return None;
            }
            let seg = (read_u64_in(data, off + 24, le), read_u64_in(data, off + 40, le));
            t.segs.push(seg);
            proof { assert(t.scan() =~= LinkScan { segs: before.segs.push(seg), ..before }); }
        } else if cmd == LC_SEGMENT_32 {
            if avail < 56 {
                return None;
            }
            let seg = (read_u32_in(data, off + 24, le) as u64, read_u32_in(data, off + 32, le) as u64);
            t.segs.push(seg);
            proof { assert(t.scan() =~= LinkScan { segs: before.segs.push(seg), ..before }); }
        } else if cmd == LC_LOAD_DYLIB_CMD || cmd == LC_LOAD_WEAK_DYLIB_CMD || cmd == LC_REEXPORT_DYLIB_CMD
            || cmd == LC_LOAD_UPWARD_DYLIB_CMD || cmd == LC_LAZY_LOAD_DYLIB_CMD {
            if avail < 24 {
                return None;
            }
            t.nlibs = t.nlibs + 1;
        } else if cmd == LC_DYLD_INFO_CMD || cmd == LC_DYLD_INFO_ONLY_CMD {
            if avail < 48 {
                return None;
            }
            t.binds = Some((read_u32_in(data, off + 16, le), read_u32_in(data, off + 20, le),
                read_u32_in(data, off + 32, le), read_u32_in(data, off + 36, le)));
            t.trie = Some((read_u32_in(data, off + 40, le), read_u32_in(data, off + 44, le)));
        } else if cmd == LC_DYLD_EXPORTS_TRIE_CMD {
            if avail < 16 {
                return None;
            }
            t.trie = Some((read_u32_in(data, off + 8, le), read_u32_in(data, off + 12, le)));
        }
        off = off + size;
        left = left - 1;
    }
    Some(t)
}

// ---- LEB128 numbers and NUL-terminated names, as scroll reads them ----

/// scroll's unsigned LEB128 read at `off`, from its `count`-th byte on with
/// `acc` gathered so far: the value and the offset past it; None where scroll
/// fails (past the data, or a tenth byte other than 0 or 1).
pub open spec fn uleb_from(data: Seq<u8>, off: int, count: int, shift: u64, acc: u64) -> Option<(u64, int)>
    decreases 70 - shift,
{
    if shift > 63 || off < 0 || count < 0 || off + count >= data.len() {
        None
    } else {
        let b = data[off + count];
        if shift == 63 && b != 0 && b != 1 {
            None
        } else {
            let v = acc | (((b & 0x7f) as u64) << shift);
            if b & 0x80 == 0 {
                Some((v, off + count + 1))
            } else {
                uleb_from(data, off, count + 1, (shift + 7) as u64, v)
            }
        }
    }
}

/// scroll's unsigned LEB128 read at `off`.
pub open spec fn uleb(data: Seq<u8>, off: int) -> Option<(u64, int)> {
    uleb_from(data, off, 0, 0, 0)
}

/// The offset past scroll's signed LEB128 read at `off` from its `count`-th
/// byte; None where scroll fails.
pub open spec fn sleb_end_from(data: Seq<u8>, off: int, count: int, shift: u64) -> Option<int>
    decreases 70 - shift,
{
    if shift > 63 || off < 0 || count < 0 || off + count >= data.len() {
        None
    } else {
        let b = data[off + count];
        if shift == 63 && b != 0 && b != 0x7f {
            None
        } else if b & 0x80 == 0 {
            Some(off + count + 1)
        } else {
            sleb_end_from(data, off, count + 1, (shift + 7) as u64)
        }
    }
}

/// The number of bytes before the first NUL at or after `off` (to the end
/// of the data when there is none).
pub open spec fn name_len(data: Seq<u8>, off: int) -> int
    decreases data.len() - off,
{
    if off < 0 || off >= data.len() || data[off] == 0 { 0 } else { 1 + name_len(data, off + 1) }
}

/// The offset past a NUL-terminated name read at `off`; None past the data.
pub open spec fn name_end(data: Seq<u8>, off: int) -> Option<int> {
    if off < 0 || off >= data.len() { None } else { Some(off + name_len(data, off) + 1) }
}

/// `uleb` computed: the value and the offset past it.
pub fn read_uleb(data: &[u8], off: usize) -> (r: Option<(u64, usize)>)
    ensures
        match uleb(data@, off as int) {
            Some((v, n)) => r matches Some((v2, n2)) && v2 == v && n2 as int == n && off < n <= data@.len(),
            None => r is None,
        },
{
    let mut count: usize = 0;
    let mut shift: u64 = 0;
    let mut acc: u64 = 0;
    loop
        invariant
            shift == 7 * count,
            count <= 10,
            uleb(data@, off as int) == uleb_from(data@, off as int, count as int, shift, acc),
        decreases 70 - shift,
    {
        if shift > 63 || off >= data.len() || data.len() - off <= count {
            return None;
        }
        let b = data[off + count];
        if shift == 63 && b != 0 && b != 1 {
            return None;
        }
        acc = acc | (((b & 0x7f) as u64) << shift);
        if b & 0x80 == 0 {
            return Some((acc, off + count + 1));
        }
        count = count + 1;
        shift = shift + 7;
    }
}

/// The offset past a signed LEB128 read at `off`.
pub fn read_sleb_end(data: &[u8], off: usize) -> (r: Option<usize>)
    ensures
        match sleb_end_from(data@, off as int, 0, 0) {
            Some(n) => r matches Some(n2) && n2 as int == n && off < n <= data@.len(),
            None => r is None,
        },
{
    let mut count: usize = 0;
    let mut shift: u64 = 0;
    loop
        invariant
            shift == 7 * count,
            count <= 10,
            sleb_end_from(data@, off as int, 0, 0) == sleb_end_from(data@, off as int, count as int, shift),
        decreases 70 - shift,
    {
        if shift > 63 || off >= data.len() || data.len() - off <= count {
            return None;
        }
        let b = data[off + count];
        if shift == 63 && b != 0 && b != 0x7f {
            return None;
        }
        if b & 0x80 == 0 {
            return Some(off + count + 1);
        }
        count = count + 1;
        shift = shift + 7;
    }
}

/// Where a NUL-terminated name read at `off` stops: the offset of its NUL,
/// or the end of the data when it has none (the read then ends one past the
/// data); None where the read fails.
pub fn read_name_stop(data: &[u8], off: usize) -> (r: Option<usize>)
    ensures
        match name_end(data@, off as int) {
            Some(n) => r matches Some(n2) && n2 as int == n - 1 && off <= n - 1 <= data@.len(),
            None => r is None,
        },
{
    if off >= data.len() {
        return None;
    }
    let mut i: usize = off;
    while i < data.len() && data[i] != 0
        invariant
            off <= i <= data@.len(),
            name_len(data@, off as int) == (i - off) + name_len(data@, i as int),
        decreases data.len() - i,
    {
        i = i + 1;
    }
    Some(i)
}

/// A read advances: LEB128 numbers and names take at least one byte.
pub proof fn lemma_uleb_from_advances(data: Seq<u8>, off: int, count: int, shift: u64, acc: u64)
    ensures
        uleb_from(data, off, count, shift, acc) matches Some((v, n)) ==> off + count < n <= data.len(),
    decreases 70 - shift,
{
    if !(shift > 63 || off < 0 || count < 0 || off + count >= data.len()) {
        let b = data[off + count];
        if !(shift == 63 && b != 0 && b != 1) && b & 0x80 != 0 {
            lemma_uleb_from_advances(data, off, count + 1, (shift + 7) as u64, acc | (((b & 0x7f) as u64) << shift));
        }
    }
}

pub proof fn lemma_sleb_end_advances(data: Seq<u8>, off: int, count: int, shift: u64)
    ensures
        sleb_end_from(data, off, count, shift) matches Some(n) ==> off + count < n <= data.len(),
    decreases 70 - shift,
{
    if !(shift > 63 || off < 0 || count < 0 || off + count >= data.len()) {
        let b = data[off + count];
        if !(shift == 63 && b != 0 && b != 0x7f) && b & 0x80 != 0 {
            lemma_sleb_end_advances(data, off, count + 1, (shift + 7) as u64);
        }
    }
}

pub proof fn lemma_name_len_bounds(data: Seq<u8>, off: int)
    ensures
        0 <= name_len(data, off),
        0 <= off <= data.len() ==> off + name_len(data, off) <= data.len(),
    decreases data.len() - off,
{
    if !(off < 0 || off >= data.len() || data[off] == 0) {
        lemma_name_len_bounds(data, off + 1);
    }
}

// ---- goblin's bind-opcode interpreter ----

/// How a walk of goblin's ends: it would fail inside goblin (or the check
/// refuses it), it stops with goblin's own error, or it runs to its end.
#[derive(Debug, Clone, Copy, PartialEq, Eq, Structural)]
pub enum WalkEnd {
    Refused,
    Stops,
    Ends,
}

/// Whether an import bound with segment index `si`, segment offset `so`
/// and library ordinal `ord` lies within goblin's tables: goblin indexes its
/// segments and libraries with them and adds `so` to the segment's file
/// offset and address unchecked.
pub open spec fn bind_fits(sc: LinkScan, si: u8, so: u64, ord: u8) -> bool {
    &&& (si as int) < sc.segs.len()
    &&& sc.segs[si as int].0 + so <= u64::MAX
    &&& sc.segs[si as int].1 + so <= u64::MAX
    &&& (ord as int) < sc.nlibs
}

/// Whether a run of `count` binds, `step` bytes apart from `so`, all fit.
/// The check takes no run longer than the image (goblin keeps each import
/// in memory) and none whose offsets wrap past 2^64.
pub open spec fn bind_run_fits(sc: LinkScan, si: u8, so: u64, ord: u8, count: u64, step: u64, len: nat) -> bool {
    count == 0 || {
        &&& count <= len
        &&& bind_fits(sc, si, so, ord)
        &&& sc.segs[si as int].0 + so + (count - 1) * step <= u64::MAX
        &&& sc.segs[si as int].1 + so + (count - 1) * step <= u64::MAX
    }
}

/// goblin's bind interpreter over the opcodes at `off..end`, with segment
/// index `si`, segment offset `so` and library ordinal `ord` set so far, for
/// pointers of `ps` bytes.
pub open spec fn bind_walk(data: Seq<u8>, sc: LinkScan, ps: u64, end: int, off: int, si: u8, so: u64, ord: u8) -> WalkEnd
    decreases data.len() - off,
{
    if off >= end {
        WalkEnd::Ends
    } else if off < 0 || off >= data.len() {
        WalkEnd::Stops
    } else {
        let op = data[off];
        let imm = op & 0x0f;
        let hi = op & 0xf0;
        let o1 = off + 1;
        if hi == 0x00 {
            bind_walk(data, sc, ps, end, o1, 0, 0, 0)
        } else if hi == 0x10 {
            bind_walk(data, sc, ps, end, o1, si, so, imm)
        } else if hi == 0x20 {
            match uleb(data, o1) {
                None => WalkEnd::Stops,
                Some((v, n)) => {
                    proof { lemma_uleb_from_advances(data, o1, 0, 0, 0); }
                    bind_walk(data, sc, ps, end, n, si, so, v as u8)
                },
            }
        } else if hi == 0x40 {
            match name_end(data, o1) {
                None => WalkEnd::Stops,
                Some(n) => {
                    proof { lemma_name_len_bounds(data, o1); }
                    if n > data.len() {
                        // the name ran to the end of the data: the next read is past it
                        if n >= end { WalkEnd::Ends } else { WalkEnd::Stops }
                    } else {
                        bind_walk(data, sc, ps, end, n, si, so, ord)
                    }
                },
            }
        } else if hi == 0x60 {
            match sleb_end_from(data, o1, 0, 0) {
                None => WalkEnd::Stops,
                Some(n) => {
                    proof { lemma_sleb_end_advances(data, o1, 0, 0); }
                    bind_walk(data, sc, ps, end, n, si, so, ord)
                },
            }
        } else if hi == 0x70 {
            match uleb(data, o1) {
                None => WalkEnd::Stops,
                Some((v, n)) => {
                    proof { lemma_uleb_from_advances(data, o1, 0, 0, 0); }
                    bind_walk(data, sc, ps, end, n, imm, v, ord)
                },
            }
        } else if hi == 0x80 {
            match uleb(data, o1) {
                None => WalkEnd::Stops,
                Some((v, n)) => {
                    proof { lemma_uleb_from_advances(data, o1, 0, 0, 0); }
                    bind_walk(data, sc, ps, end, n, si, wrap64(so + v), ord)
                },
            }
        } else if hi == 0x90 {
            if !bind_fits(sc, si, so, ord) {
                WalkEnd::Refused
            } else {
                bind_walk(data, sc, ps, end, o1, si, wrap64(so + ps), ord)
            }
        } else if hi == 0xa0 {
            if !bind_fits(sc, si, so, ord) {
                WalkEnd::Refused
            } else {
                match uleb(data, o1) {
                    None => WalkEnd::Stops,
                    Some((v, n)) => {
                        proof { lemma_uleb_from_advances(data, o1, 0, 0, 0); }
                        bind_walk(data, sc, ps, end, n, si, wrap64(so + v + ps), ord)
                    },
                }
            }
        } else if hi == 0xb0 {
            if !bind_fits(sc, si, so, ord) {
                WalkEnd::Refused
            } else {
                bind_walk(data, sc, ps, end, o1, si, wrap64(so + imm * ps + ps), ord)
            }
        } else if hi == 0xc0 {
            match uleb(data, o1) {
                None => WalkEnd::Stops,
                Some((count, n1)) => match uleb(data, n1) {
                    None => WalkEnd::Stops,
                    Some((skip, n2)) => {
                        proof {
                            lemma_uleb_from_advances(data, o1, 0, 0, 0);
                            lemma_uleb_from_advances(data, n1, 0, 0, 0);
                        }
                        if skip + ps > u64::MAX {
                            WalkEnd::Refused
                        } else if !bind_run_fits(sc, si, so, ord, count, (skip + ps) as u64, data.len()) {
                            WalkEnd::Refused
                        } else {
                            bind_walk(data, sc, ps, end, n2, si, wrap64(so + count * (skip + ps)), ord)
                        }
                    },
                },
            }
        } else {
            bind_walk(data, sc, ps, end, o1, si, so, ord)
        }
    }
}

/// goblin's two runs of the bind interpreter: the bind stream, then, when
/// that ran to its end, the lazy-bind stream.
pub open spec fn binds_walk(data: Seq<u8>, ps: u64, sc: LinkScan) -> WalkEnd {
    match sc.binds {
        None => WalkEnd::Ends,
        Some((bo, bs, lo, ls)) => {
            let first = bind_walk(data, sc, ps, bo + bs, bo as int, 0, 0, 0);
            if first == WalkEnd::Ends { bind_walk(data, sc, ps, lo + ls, lo as int, 0, 0, 0) } else { first }
        },
    }
}

/// Whether goblin's `imports()` on the parsed image stays within its
/// tables: its parse gets no further than the load commands, or its bind
/// interpreter is not refused.
pub open spec fn binds_within_tables(data: Seq<u8>) -> bool {
    match link_scan(data) {
        None => true,
        Some((ps, sc)) => binds_walk(data, ps, sc) != WalkEnd::Refused,
    }
}

/// Wrapping twice is wrapping once.
proof fn lemma_wrap64_twice(a: int, b: int)
    requires
        a >= 0,
        0 <= b < 0x1_0000_0000_0000_0000int,
    ensures
        wrap64(wrap64(a) + b) == wrap64(a + b),
{
    vstd::arithmetic::div_mod::lemma_add_mod_noop(a, b, 0x1_0000_0000_0000_0000int);
    assert(b % 0x1_0000_0000_0000_0000int == b);
    assert(wrap64(a) as int == a % 0x1_0000_0000_0000_0000int);
}

/// `bind_fits` computed.
fn bind_fits_check(t: &LinkTables, si: u8, so: u64, ord: u8) -> (r: bool)
    ensures
        r == bind_fits(t.scan(), si, so, ord),
{
    if (si as usize) >= t.segs.len() || (ord as u64) >= t.nlibs {
        return false;
    }
    let seg = t.segs[si as usize];
    seg.0 <= u64::MAX - so && seg.1 <= u64::MAX - so
}

/// The result of a run of binds: None where the check refuses it, else the
/// segment offset after it (see `bind_run_fits`).
fn bind_run_check(t: &LinkTables, len: usize, si: u8, so: u64, ord: u8, count: u64, step: u64) -> (r: Option<u64>)
    requires
        step > 0,
    ensures
        match r {
            None => !bind_run_fits(t.scan(), si, so, ord, count, step, len as nat),
            Some(x) => bind_run_fits(t.scan(), si, so, ord, count, step, len as nat) && x == wrap64(so + count * step),
        },
{
    if count == 0 {
        proof { assert(wrap64(so + count * step) == so); }
        return Some(so);
    }
    if count > len as u64 || !bind_fits_check(t, si, so, ord) {
        return None;
    }
    let seg = t.segs[si as usize];
    let top = if seg.0 >= seg.1 { seg.0 } else { seg.1 };
    let room = u64::MAX - top - so;
    let c1 = count - 1;
    if c1 > room / step {
        proof {
            assert(c1 * step > room) by (nonlinear_arith)
                requires c1 > room / step, step > 0;
        }
        return None;
    }
    proof {
        assert(c1 * step <= room) by (nonlinear_arith)
            requires c1 <= room / step, step > 0;
        assert(c1 * step + step == count * step) by (nonlinear_arith)
            requires c1 == count - 1;
    }
    let t1 = so + c1 * step;
    Some(add_wrapping(t1, step))
}

/// goblin's bind interpreter over the stream of `size` bytes at `start`.
fn bind_stream_check(data: &[u8], t: &LinkTables, start: u32, size: u32) -> (r: WalkEnd)
    requires
        t.ptr_size == 8 || t.ptr_size == 4,
    ensures
        r == bind_walk(data@, t.scan(), t.ptr_size, start + size, start as int, 0, 0, 0),
{
    let ghost sc = t.scan();
    let ghost ps = t.ptr_size;
    let ghost d = data@;
    let ps_exec = t.ptr_size;
    let end: u64 = start as u64 + size as u64;
    let mut off: usize = start as usize;
    let mut si: u8 = 0;
    let mut so: u64 = 0;
    let mut ord: u8 = 0;
    loop
        invariant
            d == data@,
            sc == t.scan(),
            ps == t.ptr_size,
            ps_exec == ps,
            ps == 8 || ps == 4,
            end == start + size,
            bind_walk(d, sc, ps, start + size, start as int, 0, 0, 0)
                == bind_walk(d, sc, ps, end as int, off as int, si, so, ord),
        decreases data@.len() - off,
    {
        if off as u64 >= end {
            return WalkEnd::Ends;
        }
        if off >= data.len() {
            return WalkEnd::Stops;
        }
        let op = data[off];
        let imm = op & 0x0f;
        let hi = op & 0xf0;
        let o1 = off + 1;
        if hi == 0x00 {
            si = 0;
            so = 0;
            ord = 0;
            off = o1;
        } else if hi == 0x10 {
            ord = imm;
            off = o1;
        } else if hi == 0x20 {
            match read_uleb(data, o1) {
                None => { return WalkEnd::Stops; },
                Some((v, n)) => {
                    ord = v as u8;
                    off = n;
                },
            }
        } else if hi == 0x40 {
            match read_name_stop(data, o1) {
                None => { return WalkEnd::Stops; },
                Some(i) => {
                    if i == data.len() {
                        return if data.len() as u64 >= end - 1 { WalkEnd::Ends } else { WalkEnd::Stops };
                    }
                    off = i + 1;
                },
            }
        } else if hi == 0x60 {
            match read_sleb_end(data, o1) {
                None => { return WalkEnd::Stops; },
                Some(n) => { off = n; },
            }
        } else if hi == 0x70 {
            match read_uleb(data, o1) {
                None => { return WalkEnd::Stops; },
                Some((v, n)) => {
                    si = imm;
                    so = v;
                    off = n;
                },
            }
        } else if hi == 0x80 {
            match read_uleb(data, o1) {
                None => { return WalkEnd::Stops; },
                Some((v, n)) => {
                    so = add_wrapping(so, v);
                    off = n;
                },
            }
        } else if hi == 0x90 {
            if !bind_fits_check(t, si, so, ord) {
                return WalkEnd::Refused;
            }
            so = add_wrapping(so, ps_exec);
            off = o1;
        } else if hi == 0xa0 {
            if !bind_fits_check(t, si, so, ord) {
                return WalkEnd::Refused;
            }
            match read_uleb(data, o1) {
                None => { return WalkEnd::Stops; },
                Some((v, n)) => {
                    proof { lemma_wrap64_twice(so + v, ps as int); }
                    so = add_wrapping(add_wrapping(so, v), ps_exec);
                    off = n;
                },
            }
        } else if hi == 0xb0 {
            if !bind_fits_check(t, si, so, ord) {
                return WalkEnd::Refused;
            }
            let scaled: u64 = (imm as u64) * ps_exec;
            proof { lemma_wrap64_twice(so + scaled, ps as int); }
            so = add_wrapping(add_wrapping(so, scaled), ps_exec);
            off = o1;
        } else if hi == 0xc0 {
            match read_uleb(data, o1) {
                None => { return WalkEnd::Stops; },
                Some((count, n1)) => {
                    match read_uleb(data, n1) {
                        None => { return WalkEnd::Stops; },
                        Some((skip, n2)) => {
                            if skip > u64::MAX - ps_exec {
                                return WalkEnd::Refused;
                            }
                            match bind_run_check(t, data.len(), si, so, ord, count, skip + ps_exec) {
                                None => { return WalkEnd::Refused; },
                                Some(x) => {
                                    so = x;
                                    off = n2;
                                },
                            }
                        },
                    }
                },
            }
        } else {
            off = o1;
        }
    }
}

/// goblin's two runs of its bind interpreter (see `binds_walk`).
fn binds_check(data: &[u8], t: &LinkTables) -> (r: WalkEnd)
    requires
        t.ptr_size == 8 || t.ptr_size == 4,
    ensures
        r == binds_walk(data@, t.ptr_size, t.scan()),
{
    match t.binds {
        None => WalkEnd::Ends,
        Some((bo, bs, lo, ls)) => {
            let first = bind_stream_check(data, t, bo, bs);
            if first == WalkEnd::Ends { bind_stream_check(data, t, lo, ls) } else { first }
        },
    }
}

// ---- goblin's export-trie walk ----

/// goblin's reading of `n` more branches of a trie node from `off`, each a
/// name and a child offset relative to the trie's start `ls`: the children
/// read (`acc` and on) when all `n` are read (`Ends`), else how the reading
/// ends. A child offset past usize is refused (goblin adds it unchecked).
pub open spec fn read_kids(data: Seq<u8>, ls: int, off: int, n: nat, acc: Seq<int>) -> (WalkEnd, Seq<int>)
    decreases n,
{
    if n == 0 {
        (WalkEnd::Ends, acc)
    } else {
        match name_end(data, off) {
            None => (WalkEnd::Stops, acc),
            Some(o2) => match uleb(data, o2) {
                None => (WalkEnd::Stops, acc),
                Some((v, o3)) => if v + ls > usize::MAX {
                    (WalkEnd::Refused, acc)
                } else {
                    read_kids(data, ls, o3, (n - 1) as nat, acc.push(v + ls))
                },
            },
        }
    }
}

/// goblin's parse of a terminal node's export information at `off` with
/// flags `flags`: a re-export's library ordinal indexes goblin's library
/// list of `nlibs`.
pub open spec fn export_info_walk(data: Seq<u8>, nlibs: nat, flags: u64, off: int) -> WalkEnd {
    let kind = flags & 3;
    if flags & 8 != 0 && kind != 3 {
        match uleb(data, off) {
            None => WalkEnd::Stops,
            Some((ord, o4)) => if o4 >= data.len() {
                WalkEnd::Stops
            } else if ord >= nlibs {
                WalkEnd::Refused
            } else {
                WalkEnd::Ends
            },
        }
    } else if kind == 0 && flags & 0x10 != 0 {
        match uleb(data, off) {
            None => WalkEnd::Stops,
            Some((_v, o4)) => match uleb(data, o4) {
                None => WalkEnd::Stops,
                Some(_w) => WalkEnd::Ends,
            },
        }
    } else {
        match uleb(data, off) {
            None => WalkEnd::Stops,
            Some(_v) => WalkEnd::Ends,
        }
    }
}

/// How many levels deep the check follows a trie: goblin recurses once per
/// level, so a deeper trie could run it out of stack.
pub const MAX_TRIE_DEPTH: u64 = 4096;

/// goblin's walk of the trie node at `node`, `depth` levels below the root,
/// for a trie at `ls..le`. The check takes only tries whose children lie
/// after their parent (as linkers lay them out), which keeps the walk from
/// looping back, and no deeper than `MAX_TRIE_DEPTH`.
pub open spec fn trie_node(data: Seq<u8>, ls: int, le: int, nlibs: nat, node: int, depth: nat) -> WalkEnd
    decreases le - node, 1int, 0int,
{
    if node >= le || node < 0 {
        WalkEnd::Ends
    } else {
        match uleb(data, node) {
            None => WalkEnd::Stops,
            Some((ts, o)) => if ts == 0 {
                match uleb(data, o) {
                    None => WalkEnd::Stops,
                    Some((nb, o2)) => if nb > usize::MAX {
                        WalkEnd::Refused
                    } else if nb > data.len() {
                        WalkEnd::Stops
                    } else {
                        let (e, kids) = read_kids(data, ls, o2, nb as nat, Seq::empty());
                        if e != WalkEnd::Ends { e } else { trie_kids(data, ls, le, nlibs, node, depth, kids, 0) }
                    },
                }
            } else if o + ts > usize::MAX {
                WalkEnd::Refused
            } else {
                match uleb(data, o + ts) {
                    None => WalkEnd::Stops,
                    Some((nch, c2)) => match uleb(data, o) {
                        None => WalkEnd::Stops,
                        Some((flags, o3)) => {
                            let info = export_info_walk(data, nlibs, flags, o3);
                            if info != WalkEnd::Ends {
                                info
                            } else if nch > usize::MAX {
                                WalkEnd::Refused
                            } else if nch == 0 {
                                WalkEnd::Ends
                            } else if nch > data.len() {
                                WalkEnd::Stops
                            } else {
                                let (e, kids) = read_kids(data, ls, c2, nch as nat, Seq::empty());
                                if e != WalkEnd::Ends { e } else { trie_kids(data, ls, le, nlibs, node, depth, kids, 0) }
                            }
                        },
                    },
                }
            },
        }
    }
}

/// goblin's walk of the children `kids[i..]` of the node at `parent`
/// (`depth` levels below the root), in order, stopping at the first that
/// does not run to its end.
pub open spec fn trie_kids(data: Seq<u8>, ls: int, le: int, nlibs: nat, parent: int, depth: nat, kids: Seq<int>, i: int) -> WalkEnd
    decreases le - parent, 0int, kids.len() - i,
{
    if i < 0 || i >= kids.len() {
        WalkEnd::Ends
    } else if kids[i] <= parent {
        WalkEnd::Refused
    } else if kids[i] >= le {
        trie_kids(data, ls, le, nlibs, parent, depth, kids, i + 1)
    } else if depth + 1 > MAX_TRIE_DEPTH {
        WalkEnd::Refused
    } else {
        let e = trie_node(data, ls, le, nlibs, kids[i], depth + 1);
        if e != WalkEnd::Ends { e } else { trie_kids(data, ls, le, nlibs, parent, depth, kids, i + 1) }
    }
}

/// The byte range goblin takes for a trie at `off` of `size` bytes: empty
/// when it does not lie within the data.
pub open spec fn trie_range(len: nat, off: u32, size: u32) -> (int, int) {
    if off + size <= len { (off as int, off + size) } else { (0, 0) }
}

/// goblin's walk of the image's export trie, from its root.
pub open spec fn exports_walk(data: Seq<u8>, sc: LinkScan) -> WalkEnd {
    match sc.trie {
        None => WalkEnd::Ends,
        Some((off, size)) => {
            let (ls, le) = trie_range(data.len(), off, size);
            trie_node(data, ls, le, sc.nlibs, ls, 0)
        },
    }
}

/// Whether goblin's `exports()` on the parsed image stays within its
/// library list and returns: its parse gets no further than the load
/// commands, or its trie walk is not refused.
pub open spec fn exports_within_tables(data: Seq<u8>) -> bool {
    match link_scan(data) {
        None => true,
        Some((_ps, sc)) => exports_walk(data, sc) != WalkEnd::Refused,
    }
}

/// Offsets as integers.
pub open spec fn offsets(v: Seq<usize>) -> Seq<int> {
    v.map_values(|x: usize| x as int)
}

/// `read_kids` computed from no children read yet.
fn read_kids_check(data: &[u8], ls: usize, off: usize, n: u64) -> (r: (WalkEnd, Vec<usize>))
    ensures
        ({
            let (e, k) = read_kids(data@, ls as int, off as int, n as nat, Seq::empty());
            r.0 == e && (e == WalkEnd::Ends ==> offsets(r.1@) == k)
        }),
{
    let mut kids: Vec<usize> = Vec::new();
    let mut at: usize = off;
    let mut left: u64 = n;
    proof { assert(offsets(kids@) =~= Seq::<int>::empty()); }
    while left > 0
        invariant
            read_kids(data@, ls as int, off as int, n as nat, Seq::empty())
                == read_kids(data@, ls as int, at as int, left as nat, offsets(kids@)),
        decreases left,
    {
        let stop = match read_name_stop(data, at) {
            None => { return (WalkEnd::Stops, kids); },
            Some(i) => i,
        };
        if stop == data.len() {
            proof { assert(uleb(data@, data@.len() + 1int) is None); }
            return (WalkEnd::Stops, kids);
        }
        let (v, o3) = match read_uleb(data, stop + 1) {
            None => { return (WalkEnd::Stops, kids); },
            Some(x) => x,
        };
        if v > (usize::MAX - ls) as u64 {
            return (WalkEnd::Refused, kids);
        }
        let ghost before = offsets(kids@);
        kids.push(v as usize + ls);
        proof { assert(offsets(kids@) =~= before.push(v + ls)); }
        at = o3;
        left = left - 1;
    }
    (WalkEnd::Ends, kids)
}

/// `export_info_walk` computed.
fn export_info_check(data: &[u8], nlibs: u64, flags: u64, off: usize) -> (r: WalkEnd)
    ensures
        r == export_info_walk(data@, nlibs as nat, flags, off as int),
{
    let kind = flags & 3;
    if flags & 8 != 0 && kind != 3 {
        match read_uleb(data, off) {
            None => WalkEnd::Stops,
            Some((ord, o4)) => if o4 >= data.len() {
                WalkEnd::Stops
            } else if ord >= nlibs {
                WalkEnd::Refused
            } else {
                WalkEnd::Ends
            },
        }
    } else if kind == 0 && flags & 0x10 != 0 {
        match read_uleb(data, off) {
            None => WalkEnd::Stops,
            Some((_v, o4)) => match read_uleb(data, o4) {
                None => WalkEnd::Stops,
                Some(_w) => WalkEnd::Ends,
            },
        }
    } else {
        match read_uleb(data, off) {
            None => WalkEnd::Stops,
            Some(_v) => WalkEnd::Ends,
        }
    }
}

/// `trie_node` computed.
fn trie_node_check(data: &[u8], ls: usize, le: usize, nlibs: u64, node: usize, depth: u64) -> (r: WalkEnd)
    requires
        depth <= MAX_TRIE_DEPTH,
    ensures
        r == trie_node(data@, ls as int, le as int, nlibs as nat, node as int, depth as nat),
    decreases le - node, 1int, 0int,
{
    if node >= le {
        return WalkEnd::Ends;
    }
    let (ts, o) = match read_uleb(data, node) {
        None => { return WalkEnd::Stops; },
        Some(x) => x,
    };
    if ts == 0 {
        let (nb, o2) = match read_uleb(data, o) {
            None => { return WalkEnd::Stops; },
            Some(x) => x,
        };
        if nb > usize::MAX as u64 {
            return WalkEnd::Refused;
        }
        if nb > data.len() as u64 {
            return WalkEnd::Stops;
        }
        let (e, kids) = read_kids_check(data, ls, o2, nb);
        if e != WalkEnd::Ends {
            return e;
        }
        trie_kids_check(data, ls, le, nlibs, node, depth, &kids, 0)
    } else {
        if ts > (usize::MAX - o) as u64 {
            return WalkEnd::Refused;
        }
        let cs = o + ts as usize;
        let (nch, c2) = match read_uleb(data, cs) {
            None => { return WalkEnd::Stops; },
            Some(x) => x,
        };
        let (flags, o3) = match read_uleb(data, o) {
            None => { return WalkEnd::Stops; },
            Some(x) => x,
        };
        let info = export_info_check(data, nlibs, flags, o3);
        if info != WalkEnd::Ends {
            return info;
        }
        if nch > usize::MAX as u64 {
            return WalkEnd::Refused;
        }
        if nch == 0 {
            return WalkEnd::Ends;
        }
        if nch > data.len() as u64 {
            return WalkEnd::Stops;
        }
        let (e, kids) = read_kids_check(data, ls, c2, nch);
        if e != WalkEnd::Ends {
            return e;
        }
        trie_kids_check(data, ls, le, nlibs, node, depth, &kids, 0)
    }
}

/// `trie_kids` computed.
fn trie_kids_check(data: &[u8], ls: usize, le: usize, nlibs: u64, parent: usize, depth: u64, kids: &Vec<usize>, i: usize) -> (r: WalkEnd)
    requires
        parent < le,
        i <= kids@.len(),
        depth <= MAX_TRIE_DEPTH,
    ensures
        r == trie_kids(data@, ls as int, le as int, nlibs as nat, parent as int, depth as nat, offsets(kids@), i as int),
    decreases le - parent, 0int, kids@.len() - i,
{
    if i >= kids.len() {
        return WalkEnd::Ends;
    }
    let k = kids[i];
    proof { assert(offsets(kids@)[i as int] == k as int); }
    if k <= parent {
        return WalkEnd::Refused;
    }
    if k >= le {
        return trie_kids_check(data, ls, le, nlibs, parent, depth, kids, i + 1);
    }
    if depth >= MAX_TRIE_DEPTH {
        return WalkEnd::Refused;
    }
    let e = trie_node_check(data, ls, le, nlibs, k, depth + 1);
    if e != WalkEnd::Ends {
        return e;
    }
    trie_kids_check(data, ls, le, nlibs, parent, depth, kids, i + 1)
}

/// `exports_walk` computed.
fn exports_check(data: &[u8], t: &LinkTables) -> (r: WalkEnd)
    ensures
        r == exports_walk(data@, t.scan()),
{
    match t.trie {
        None => WalkEnd::Ends,
        Some((off, size)) => {
            let (ls, le): (usize, usize) = if (off as u64) + (size as u64) <= data.len() as u64 {
                (off as usize, off as usize + size as usize)
            } else {
                (0, 0)
            };
            trie_node_check(data, ls, le, t.nlibs, ls, 0)
        },
    }
}

/// Whether `binds_within_tables` holds of `data`.
pub fn binds_within_tables_check(data: &[u8]) -> (r: bool)
    ensures
        r == binds_within_tables(data@),
{
    match scan_link_tables(data) {
        None => true,
        Some(t) => binds_check(data, &t) != WalkEnd::Refused,
    }
}

/// Whether `exports_within_tables` holds of `data`.
pub fn exports_within_tables_check(data: &[u8]) -> (r: bool)
    ensures
        r == exports_within_tables(data@),
{
    match scan_link_tables(data) {
        None => true,
        Some(t) => exports_check(data, &t) != WalkEnd::Refused,
    }
}

/// The text of the error given for bind opcodes that the check refuses.
pub open spec fn binds_refused_text() -> Seq<char> {
    "bind opcodes reach past the image's segment or library tables"@
}

/// The text of the error given for an export trie that the check refuses.
pub open spec fn exports_refused_text() -> Seq<char> {
    "export trie reaches past the image's library table or loops back"@
}

/// The error for refused bind opcodes.
pub fn binds_refused_error() -> (r: String)
    ensures
        r@ == binds_refused_text(),
{
    owned("bind opcodes reach past the image's segment or library tables")
}

/// The error for a refused export trie.
pub fn exports_refused_error() -> (r: String)
    ensures
        r@ == exports_refused_text(),
{
    owned("export trie reaches past the image's library table or loops back")
}

} // verus!
