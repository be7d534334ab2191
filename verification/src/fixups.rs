//! LC_DYLD_CHAINED_FIXUPS: the import table, the per-page chain starts, and
//! the decoding of each 64-bit chained pointer (DYLD_CHAINED_PTR_64).
//!
//! The tables are read from the image's bytes; walking a chain reads and
//! patches mapped memory, which the caller does with `decode_chained_pointer`.

use vstd::prelude::*;
use vstd::utf8::*;
use crate::bytes::{le_u16, le_u32, read_le_u16, read_le_u32};
use crate::macho::{MachOBinary, LoaderError, Segment, text_vmaddr, text_segment_vmaddr};
use crate::text::{cstr_prefix, c_prefix, utf8_text, owned};

verus! {

/// The dyld_chained_fixups_header at the start of the fixups blob.
#[derive(Clone, Copy, Debug, PartialEq, Eq, Structural)]
pub struct ChainedFixupsHeader {
    pub fixups_version: u32,
    pub starts_offset: u32,
    pub imports_offset: u32,
    pub symbols_offset: u32,
    pub imports_count: u32,
    pub imports_format: u32,
    pub symbols_format: u32,
}

/// The header stored at `base`.
pub open spec fn header_at(data: Seq<u8>, base: int) -> ChainedFixupsHeader {
    ChainedFixupsHeader {
        fixups_version: le_u32(data, base),
        starts_offset: le_u32(data, base + 4),
        imports_offset: le_u32(data, base + 8),
        symbols_offset: le_u32(data, base + 12),
        imports_count: le_u32(data, base + 16),
        imports_format: le_u32(data, base + 20),
        symbols_format: le_u32(data, base + 24),
    }
}

/// Read the header at `base`, when its 28 bytes lie within the data.
pub fn read_header(data: &[u8], base: usize) -> (r: Option<ChainedFixupsHeader>)
    ensures
        r is Some <==> base + 28 <= data@.len(),
        r matches Some(h) ==> h == header_at(data@, base as int),
{
    if base > data.len() || data.len() - base < 28 {
        return None;
    }
    Some(ChainedFixupsHeader {
        fixups_version: read_le_u32(data, base),
        starts_offset: read_le_u32(data, base + 4),
        imports_offset: read_le_u32(data, base + 8),
        symbols_offset: read_le_u32(data, base + 12),
        imports_count: read_le_u32(data, base + 16),
        imports_format: read_le_u32(data, base + 20),
        symbols_format: read_le_u32(data, base + 24),
    })
}

/// One import of the table: the library ordinal and the names it resolves to.
#[derive(Debug)]
pub struct ChainedImport {
    pub lib_ordinal: u32,
    pub dylib: String,
    pub name: String,
}

/// The text "self".
pub open spec fn self_text() -> Seq<char> {
    seq!['s', 'e', 'l', 'f']
}

/// The library an ordinal names: dependency `ordinal - 1` for ordinals in
/// 1..0xFD that name a dependency, "self" otherwise.
pub open spec fn dylib_for(ordinal: u32, deps: Seq<Seq<char>>) -> Seq<char> {
    if 0 < ordinal && ordinal < 0xFD && ordinal <= deps.len() { deps[ordinal - 1] } else { self_text() }
}

/// The raw 32-bit import entry `i` (lib_ordinal:8, weak_import:1, name_offset:23).
pub open spec fn import_raw(data: Seq<u8>, base: int, h: ChainedFixupsHeader, i: int) -> u32 {
    le_u32(data, base + h.imports_offset + 4 * i)
}

/// The data offset of import `i`'s name.
pub open spec fn import_name_offset(base: int, h: ChainedFixupsHeader, raw: u32) -> int {
    base + h.symbols_offset + (raw >> 9u32)
}

/// Import `i` as (ordinal, dylib, name), or None when its entry or its
/// NUL-terminated UTF-8 name does not lie within the data.
pub open spec fn spec_import(data: Seq<u8>, base: int, h: ChainedFixupsHeader, i: int,
    deps: Seq<Seq<char>>) -> Option<(u32, Seq<char>, Seq<char>)> {
    if base + h.imports_offset + 4 * i + 4 > data.len() {
        None
    } else {
        let raw = import_raw(data, base, h, i);
        let off = import_name_offset(base, h, raw);
        if h.symbols_offset + (raw >> 9u32) > u32::MAX || off >= data.len() {
            None
        } else {
            let bytes = cstr_prefix(data.skip(off));
            if bytes.len() == data.len() - off || !valid_utf8(bytes) {
                None
            } else {
                Some((raw & 0xFF, dylib_for(raw & 0xFF, deps), decode_utf8(bytes)))
            }
        }
    }
}

/// Whether an exec import carries the given decoded entry.
pub open spec fn import_is(v: ChainedImport, e: Option<(u32, Seq<char>, Seq<char>)>) -> bool {
    match e {
        Some((o, d, nm)) => v.lib_ordinal == o && v.dylib@ == d && v.name@ == nm,
        None => false,
    }
}

/// Whether the exec imports are the first `n` imports of the table.
pub open spec fn imports_match(v: Seq<ChainedImport>, data: Seq<u8>, base: int,
    h: ChainedFixupsHeader, deps: Seq<Seq<char>>, n: int) -> bool {
    v.len() == n && forall|i: int| 0 <= i < n ==> import_is(#[trigger] v[i], spec_import(data, base, h, i, deps))
}

/// The texts of a sequence of strings.
pub open spec fn texts(v: Seq<String>) -> Seq<Seq<char>> {
    Seq::new(v.len(), |i: int| v[i]@)
}

/// The names of the dependencies, in order.
pub open spec fn dep_names(b: &MachOBinary) -> Seq<Seq<char>> {
    Seq::new(b.dylib_deps@.len(), |i: int| b.dylib_deps@[i].name@)
}

proof fn lemma_prefix_len(s: Seq<u8>)
    ensures
        cstr_prefix(s).len() <= s.len(),
        cstr_prefix(s).len() < s.len() ==> s[cstr_prefix(s).len() as int] == 0,
    decreases s.len(),
{
    if s.len() > 0 && s[0] != 0 {
        lemma_prefix_len(s.drop_first());
    }
}

/// Read the import table of the fixups blob at `base`: each entry's ordinal,
/// the dependency it names, and its symbol name. `None` when an entry or a
/// name lies outside the data, or a name is not UTF-8.
pub fn read_imports(data: &[u8], base: usize, h: ChainedFixupsHeader, deps: &Vec<String>) -> (r: Option<Vec<ChainedImport>>)
    ensures
        r matches Some(v) ==> imports_match(v@, data@, base as int, h,
            texts(deps@), h.imports_count as int),
        r is None ==> exists|i: int| 0 <= i < h.imports_count && #[trigger] spec_import(data@, base as int, h,
            i, texts(deps@)) is None,
{
    let ghost dnames = texts(deps@);
    let self_word = owned("self");
    proof {
        reveal_strlit("self");
        assert(self_word@ =~= self_text());
    }
    let mut out: Vec<ChainedImport> = Vec::new();
    let mut i: u32 = 0;
    while i < h.imports_count
        invariant
            i <= h.imports_count,
            self_word@ == self_text(),
            dnames == texts(deps@),
            imports_match(out@, data@, base as int, h, dnames, i as int),
        decreases h.imports_count - i,
    {
        let entry_off: u128 = base as u128 + h.imports_offset as u128 + 4 * (i as u128);
        if entry_off + 4 > data.len() as u128 {
            proof { assert(spec_import(data@, base as int, h, i as int, dnames) is None); }
            return None;
        }
        let raw = read_le_u32(data, entry_off as usize);
        let ordinal = raw & 0xFF;
        let sym_rel: u64 = h.symbols_offset as u64 + (raw >> 9) as u64;
        if sym_rel > u32::MAX as u64 {
            proof { assert(spec_import(data@, base as int, h, i as int, dnames) is None); }
            return None;
        }
        let off: u128 = base as u128 + sym_rel as u128;
        if off >= data.len() as u128 {
            proof { assert(spec_import(data@, base as int, h, i as int, dnames) is None); }
            return None;
        }
        let tail = slice_from(data, off as usize);
        let bytes = c_prefix(tail);
        proof {
            lemma_prefix_len(tail@);
        }
        if bytes.len() == tail.len() {
            proof { assert(spec_import(data@, base as int, h, i as int, dnames) is None); }
            return None;
        }
        let name = match utf8_text(bytes.as_slice()) {
            Some(n) => n,
            None => {
                proof { assert(spec_import(data@, base as int, h, i as int, dnames) is None); }
                return None;
            },
        };
        let dylib = if 0 < ordinal && ordinal < 0xFD && (ordinal as usize) <= deps.len() {
            deps[(ordinal - 1) as usize].clone()
        } else {
            self_word.clone()
        };
        out.push(ChainedImport { lib_ordinal: ordinal, dylib, name });
        i = i + 1;
    }
    Some(out)
}

/// The suffix of `data` from `start`.
fn slice_from(data: &[u8], start: usize) -> (r: &[u8])
    requires
        start <= data@.len(),
    ensures
        r@ == data@.skip(start as int),
{
    data.split_at(start).1
}


/// The text "__PAGEZERO".
pub open spec fn pagezero_text() -> Seq<char> {
    seq!['_', '_', 'P', 'A', 'G', 'E', 'Z', 'E', 'R', 'O']
}

/// The chain starts on the first `n` pages of a segment whose
/// dyld_chained_starts_in_segment lies at `ss`: for each page whose
/// page_start is not 0xFFFF, vmaddr + page * page_size + page_start.
/// None when a read leaves the data or an address overflows.
pub open spec fn page_starts(data: Seq<u8>, ss: int, vmaddr: u64, page_size: u16, n: nat) -> Option<Seq<u64>>
    decreases n,
{
    if n == 0 {
        Some(Seq::empty())
    } else {
        match page_starts(data, ss, vmaddr, page_size, (n - 1) as nat) {
            None => None,
            Some(prev) => {
                let j = n - 1;
                if ss + 22 + 2 * j + 2 > data.len() {
                    None
                } else {
                    let ps = le_u16(data, ss + 22 + 2 * j);
                    if ps == 0xFFFF {
                        Some(prev)
                    } else {
                        let a = vmaddr + j * page_size + ps;
                        if a > u64::MAX { None } else { Some(prev.push(a as u64)) }
                    }
                }
            },
        }
    }
}

/// Each page's chain starts in that page: when each of the first `n` pages
/// of a segment has a chain (its page_start is not 0xFFFF) starting inside
/// the page (page_start < page_size), there is one start per page, and the
/// start for page `j` lies in page `j` of the segment, page_start[j] bytes
/// into it.
pub proof fn law_chain_starts_lie_in_their_pages(data: Seq<u8>, ss: int, vmaddr: u64, page_size: u16, n: nat)
    requires
        ss >= 0,
        ss + 22 + 2 * n <= data.len(),
        forall|j: int| 0 <= j < n ==> #[trigger] le_u16(data, ss + 22 + 2 * j) != 0xFFFF
            && le_u16(data, ss + 22 + 2 * j) < page_size,
        vmaddr + n * page_size <= u64::MAX,
    ensures
        page_starts(data, ss, vmaddr, page_size, n) matches Some(v) && v.len() == n
            && forall|j: int| 0 <= j < n ==> {
                &&& vmaddr + j * page_size <= #[trigger] v[j]
                &&& v[j] < vmaddr + (j + 1) * page_size
                &&& v[j] - (vmaddr + j * page_size) == le_u16(data, ss + 22 + 2 * j)
            },
    decreases n,
{
    if n > 0 {
        let m = (n - 1) as nat;
        assert(m * page_size + page_size == n * page_size) by (nonlinear_arith)
            requires m == n - 1;
        assert(vmaddr + m * page_size <= u64::MAX) by (nonlinear_arith)
            requires vmaddr + n * page_size <= u64::MAX, m * page_size + page_size == n * page_size;
        law_chain_starts_lie_in_their_pages(data, ss, vmaddr, page_size, m);
        let prev = page_starts(data, ss, vmaddr, page_size, m)->Some_0;
        let ps = le_u16(data, ss + 22 + 2 * m);
        assert(ps != 0xFFFF && ps < page_size);
        let a = vmaddr + m * page_size + ps;
        assert(a <= u64::MAX);
        let v = prev.push(a as u64);
        assert(page_starts(data, ss, vmaddr, page_size, n) == Some(v));
        assert forall|j: int| 0 <= j < n implies {
            &&& vmaddr + j * page_size <= #[trigger] v[j]
            &&& v[j] < vmaddr + (j + 1) * page_size
            &&& v[j] - (vmaddr + j * page_size) == le_u16(data, ss + 22 + 2 * j)
        } by {
            if j < m {
                assert(v[j] == prev[j]);
            } else {
                assert(j == m);
                assert((j + 1) * page_size == j * page_size + page_size) by (nonlinear_arith);
            }
        }
    }
}

/// The chain starts of segment `i` of the starts table at `sa`.
pub open spec fn segment_chain_starts(data: Seq<u8>, sa: int, segs: Seq<Segment>, i: int) -> Option<Seq<u64>> {
    if sa + 4 + 4 * i + 4 > data.len() {
        None
    } else {
        let info = le_u32(data, sa + 4 + 4 * i);
        if info == 0 {
            Some(Seq::empty())
        } else {
            let ss = sa + info;
            if ss + 22 > data.len() {
                None
            } else if i >= segs.len() || segs[i].name@ == pagezero_text() {
                Some(Seq::empty())
            } else {
                page_starts(data, ss, segs[i].vmaddr, le_u16(data, ss + 4), le_u16(data, ss + 20) as nat)
            }
        }
    }
}

/// The chain starts of the first `n` segments of the starts table at `sa`, in order.
pub open spec fn chain_starts_upto(data: Seq<u8>, sa: int, segs: Seq<Segment>, n: nat) -> Option<Seq<u64>>
    decreases n,
{
    if n == 0 {
        Some(Seq::empty())
    } else {
        match (chain_starts_upto(data, sa, segs, (n - 1) as nat), segment_chain_starts(data, sa, segs, n - 1)) {
            (Some(a), Some(b)) => Some(a + b),
            _ => None,
        }
    }
}

/// All chain starts of the blob at `base`.
pub open spec fn spec_chain_starts(data: Seq<u8>, base: int, h: ChainedFixupsHeader, segs: Seq<Segment>) -> Option<Seq<u64>> {
    let sa = base + h.starts_offset;
    if sa + 4 > data.len() {
        None
    } else {
        chain_starts_upto(data, sa, segs, le_u32(data, sa) as nat)
    }
}

/// Whether `name` is "__PAGEZERO".
pub fn is_pagezero(name: &String) -> (r: bool)
    ensures
        r == (name@ == pagezero_text()),
{
    let z = owned("__PAGEZERO");
    proof {
        reveal_strlit("__PAGEZERO");
        assert(z@ =~= pagezero_text());
    }
    *name == z
}

proof fn lemma_page_starts_none(data: Seq<u8>, ss: int, vmaddr: u64, page_size: u16, n: nat, m: nat)
    requires
        n <= m,
        page_starts(data, ss, vmaddr, page_size, n) is None,
    ensures
        page_starts(data, ss, vmaddr, page_size, m) is None,
    decreases m - n,
{
    if n < m {
        lemma_page_starts_none(data, ss, vmaddr, page_size, n, (m - 1) as nat);
    }
}

proof fn lemma_upto_none(data: Seq<u8>, sa: int, segs: Seq<Segment>, n: nat, m: nat)
    requires
        n <= m,
        chain_starts_upto(data, sa, segs, n) is None,
    ensures
        chain_starts_upto(data, sa, segs, m) is None,
    decreases m - n,
{
    if n < m {
        lemma_upto_none(data, sa, segs, n, (m - 1) as nat);
    }
}

/// The addresses of the first fixup of every page the starts table lists,
/// segment by segment (segments beyond the image's, and __PAGEZERO, skipped).
pub fn read_chain_starts(data: &[u8], base: usize, h: ChainedFixupsHeader, segs: &Vec<Segment>) -> (r: Option<Vec<u64>>)
    ensures
        r matches Some(v) ==> spec_chain_starts(data@, base as int, h, segs@) == Some(v@),
        r is None ==> spec_chain_starts(data@, base as int, h, segs@) is None,
{
    let sa: u128 = base as u128 + h.starts_offset as u128;
    if sa + 4 > data.len() as u128 {
        return None;
    }
    let sa = sa as usize;
    assert(sa as int == base + h.starts_offset);
    let seg_count = read_le_u32(data, sa);
    let mut out: Vec<u64> = Vec::new();
    let mut i: u32 = 0;
    while i < seg_count
        invariant
            i <= seg_count,
            sa + 4 <= data@.len(),
            sa as int == base + h.starts_offset,
            seg_count == le_u32(data@, sa as int),
            chain_starts_upto(data@, sa as int, segs@, i as nat) == Some(out@),
        decreases seg_count - i,
    {
        let info_off: u128 = sa as u128 + 4 + 4 * (i as u128);
        if info_off + 4 > data.len() as u128 {
            proof {
                lemma_upto_none(data@, sa as int, segs@, (i + 1) as nat, seg_count as nat);
                assert(spec_chain_starts(data@, base as int, h, segs@) is None);
            }
            return None;
        }
        let info = read_le_u32(data, info_off as usize);
        let ghost before = out@;
        if info != 0 {
            let ss: u128 = sa as u128 + info as u128;
            if ss + 22 > data.len() as u128 {
                proof { lemma_upto_none(data@, sa as int, segs@, (i + 1) as nat, seg_count as nat); }
                return None;
            }
            let ss = ss as usize;
            let idx = i as usize;
            if idx < segs.len() && !is_pagezero(&segs[idx].name) {
                let vmaddr = segs[idx].vmaddr;
                let page_size = read_le_u16(data, ss + 4);
                let page_count = read_le_u16(data, ss + 20);
                let mut j: u16 = 0;
                while j < page_count
                    invariant
                        j <= page_count,
                        ss + 22 <= data@.len(),
                        i < seg_count,
                        sa + 4 <= data@.len(),
                        sa as int == base + h.starts_offset,
                        seg_count == le_u32(data@, sa as int),
                        chain_starts_upto(data@, sa as int, segs@, i as nat) == Some(before),
                        sa + 4 + 4 * i + 4 <= data@.len(),
                        info == le_u32(data@, sa + 4 + 4 * i),
                        info != 0,
                        ss == sa + info,
                        (i as int) < segs@.len(),
                        segs@[i as int].name@ != pagezero_text(),
                        vmaddr == segs@[i as int].vmaddr,
                        page_size == le_u16(data@, ss + 4),
                        page_count == le_u16(data@, ss + 20),
                        page_starts(data@, ss as int, vmaddr, page_size, j as nat) == Some(out@.skip(before.len() as int)),
                        out@.len() >= before.len(),
                        out@.take(before.len() as int) == before,
                    decreases page_count - j,
                {
                    let pos: u128 = ss as u128 + 22 + 2 * (j as u128);
                    if pos + 2 > data.len() as u128 {
                        proof {
                            lemma_page_starts_none(data@, ss as int, vmaddr, page_size, (j + 1) as nat, page_count as nat);
                            lemma_upto_none(data@, sa as int, segs@, (i + 1) as nat, seg_count as nat);
                        }
                        return None;
                    }
                    let ps = read_le_u16(data, pos as usize);
                    if ps != 0xFFFF {
                        let jj = j as u128;
                        let pz = page_size as u128;
                        assert(jj * pz <= 0xFFFF * 0xFFFF) by (nonlinear_arith)
                            requires jj <= 0xFFFF, pz <= 0xFFFF;
                        let a: u128 = vmaddr as u128 + jj * pz + ps as u128;
                        if a > u64::MAX as u128 {
                            proof {
                                lemma_page_starts_none(data@, ss as int, vmaddr, page_size, (j + 1) as nat, page_count as nat);
                                lemma_upto_none(data@, sa as int, segs@, (i + 1) as nat, seg_count as nat);
                            }
                            return None;
                        }
                        let ghost o = out@;
                        out.push(a as u64);
                        proof {
                            assert(out@.skip(before.len() as int) =~= o.skip(before.len() as int).push(a as u64));
                            assert(out@.take(before.len() as int) =~= o.take(before.len() as int));
                        }
                    }
                    j = j + 1;
                }
                proof {
                    assert(out@ =~= before + out@.skip(before.len() as int));
                }
            } else {
                proof {
                    assert(out@ =~= before + Seq::<u64>::empty());
                }
            }
        } else {
            proof {
                assert(out@ =~= before + Seq::<u64>::empty());
            }
        }
        i = i + 1;
    }
    Some(out)
}


/// Whether a chained pointer is a bind (bit 63).
pub open spec fn chain_is_bind(encoded: u64) -> bool {
    (encoded >> 63u64) != 0
}

/// The stride, in 4-byte units, to the next pointer of the chain (0: last).
pub open spec fn chain_next(encoded: u64) -> u64 {
    (encoded >> 51u64) & 0xFFFu64
}

/// The import ordinal of a bind (DYLD_CHAINED_PTR_64_BIND: ordinal:24).
pub open spec fn bind_ordinal(encoded: u64) -> u64 {
    encoded & 0xFF_FFFFu64
}

/// The unpacked target of a rebase (DYLD_CHAINED_PTR_64_REBASE: target:36, high8:8).
pub open spec fn rebase_target(encoded: u64) -> u64 {
    (((encoded >> 36u64) & 0xFFu64) << 56u64) | (encoded & 0xF_FFFF_FFFFu64)
}

/// The value a chained pointer stands for: the resolved import of a bind
/// (0 for an ordinal outside the table), or the preferred load address plus
/// the unpacked target of a rebase.
pub open spec fn chained_value(encoded: u64, imports: Seq<u64>, preferred: u64) -> int {
    if chain_is_bind(encoded) {
        if bind_ordinal(encoded) < imports.len() { imports[bind_ordinal(encoded) as int] as int } else { 0 }
    } else {
        preferred + rebase_target(encoded)
    }
}

/// A DYLD_CHAINED_PTR_64 bind built from its fields (ordinal in bits 0..24,
/// next in bits 51..63, bind flag in bit 63) decodes to the import of that
/// ordinal and that stride.
pub proof fn law_bind_pointer_round_trip(ordinal: u64, next: u64, imports: Seq<u64>, preferred: u64)
    requires
        ordinal < imports.len(),
        ordinal < 0x100_0000,
        next < 0x1000,
    ensures
        chain_is_bind((1u64 << 63u64) | (next << 51u64) | ordinal),
        chain_next((1u64 << 63u64) | (next << 51u64) | ordinal) == next,
        chained_value((1u64 << 63u64) | (next << 51u64) | ordinal, imports, preferred) == imports[ordinal as int],
{
    assert(ordinal < 0x100_0000 && next < 0x1000 ==> {
        let e = (1u64 << 63u64) | (next << 51u64) | ordinal;
        &&& (e >> 63u64) != 0
        &&& (e >> 51u64) & 0xFFFu64 == next
        &&& e & 0xFF_FFFFu64 == ordinal
    }) by (bit_vector);
}

/// A DYLD_CHAINED_PTR_64 rebase built from its fields (target in bits
/// 0..36, high byte in bits 36..44, next in bits 51..63) decodes to the
/// preferred load address plus the target with the high byte at the top,
/// and that stride.
pub proof fn law_rebase_pointer_round_trip(target: u64, high8: u64, next: u64, imports: Seq<u64>, preferred: u64)
    requires
        target < 0x10_0000_0000,
        high8 < 0x100,
        next < 0x1000,
    ensures
        !chain_is_bind((next << 51u64) | (high8 << 36u64) | target),
        chain_next((next << 51u64) | (high8 << 36u64) | target) == next,
        chained_value((next << 51u64) | (high8 << 36u64) | target, imports, preferred)
            == preferred + (high8 * 0x100_0000_0000_0000 + target),
{
    assert(target < 0x10_0000_0000 && high8 < 0x100 && next < 0x1000 ==> {
        let e = (next << 51u64) | (high8 << 36u64) | target;
        &&& (e >> 63u64) == 0
        &&& (e >> 51u64) & 0xFFFu64 == next
        &&& (((e >> 36u64) & 0xFFu64) << 56u64) | (e & 0xF_FFFF_FFFFu64) == high8 * 0x100_0000_0000_0000 + target
    }) by (bit_vector);
}

/// The address of the chain's next pointer after the one at `at` whose
/// stride is `next` (in 4-byte units): `None` at the end of the chain
/// (stride 0), else `at` advanced by `next * 4`, wrapping as an address does.
pub fn next_fixup_address(at: u64, next: u64) -> (r: Option<u64>)
    requires
        next <= 0xFFF,
    ensures
        next == 0 ==> r is None,
        next != 0 ==> r == Some(((at + next * 4) % 0x1_0000_0000_0000_0000) as u64),
{
    if next == 0 {
        None
    } else {
        let step: u64 = next * 4;
        Some(at.wrapping_add(step))
    }
}

/// Decode one chained pointer: the value to store in its place and the
/// stride to the next pointer of the chain.
pub fn decode_chained_pointer(encoded: u64, imports: &Vec<u64>, preferred_load_address: u64) -> (r: (u64, u64))
    requires
        chained_value(encoded, imports@, preferred_load_address) <= u64::MAX,
    ensures
        r.0 == chained_value(encoded, imports@, preferred_load_address),
        r.1 == chain_next(encoded),
{
    let is_bind = (encoded >> 63) != 0;
    let next = (encoded >> 51) & 0xFFF;
    let addr = if is_bind {
        let ordinal = encoded & 0xFFFFFF;
        if ordinal < imports.len() as u64 {
            imports[ordinal as usize]
        } else {
            0
        }
    } else {
        let target = encoded & 0xFFFFFFFFF;
        let high8 = (encoded >> 36) & 0xFF;
        let unpacked_target = (high8 << 56) | target;
        preferred_load_address + unpacked_target
    };
    (addr, next)
}

/// Everything the chain walk needs: the header, the imports (each resolved
/// by the caller), the first pointer of every chain, and the base that
/// rebases are relative to.
#[derive(Debug)]
pub struct FixupPlan {
    pub header: ChainedFixupsHeader,
    pub imports: Vec<ChainedImport>,
    pub chain_starts: Vec<u64>,
    pub preferred_load_address: u64,
}

/// Read the chained-fixups tables of a binary: `Ok(None)` when it has no
/// LC_DYLD_CHAINED_FIXUPS; an error when the blob, its header, an import or
/// a starts entry lies outside the image (or a name is not UTF-8).
pub fn plan_fixups(binary: &MachOBinary) -> (r: Result<Option<FixupPlan>, LoaderError>)
    ensures
        binary.chained_fixups is None ==> r matches Ok(None),
        binary.chained_fixups matches Some((off, size)) ==> {
            let data = binary.data@;
            let deps = dep_names(binary);
            if off + size > data.len() || off + 28 > data.len() {
                r is Err
            } else {
                let h = header_at(data, off as int);
                let ok_imports = forall|i: int| 0 <= i < h.imports_count ==> #[trigger] spec_import(data, off as int, h, i, deps) is Some;
                match spec_chain_starts(data, off as int, h, binary.segments@) {
                    Some(starts) => if ok_imports {
                        r matches Ok(Some(p)) && p.header == h && p.chain_starts@ == starts
                            && imports_match(p.imports@, data, off as int, h, deps, h.imports_count as int)
                            && p.preferred_load_address == text_vmaddr(binary.segments@)
                    } else {
                        r is Err
                    },
                    None => r is Err,
                }
            }
        },
{
    let (off, size) = match binary.chained_fixups {
        Some(x) => x,
        None => { return Ok(None); },
    };
    let data = binary.data.as_slice();
    if off as u64 + size as u64 > data.len() as u64 || off as u64 + 28 > data.len() as u64 {
        return Err(LoaderError::Parse(owned("chained fixups outside the image")));
    }
    let base = off as usize;
    let header = match read_header(data, base) {
        Some(h) => h,
        None => { return Err(LoaderError::Parse(owned("chained fixups header outside the image"))); },
    };
    let mut dep_names_v: Vec<String> = Vec::new();
    let mut k: usize = 0;
    while k < binary.dylib_deps.len()
        invariant
            k <= binary.dylib_deps@.len(),
            dep_names_v@.len() == k,
            forall|j: int| 0 <= j < k ==> #[trigger] dep_names_v@[j]@ == binary.dylib_deps@[j].name@,
        decreases binary.dylib_deps.len() - k,
    {
        dep_names_v.push(binary.dylib_deps[k].name.clone());
        k = k + 1;
    }
    proof {
        assert(texts(dep_names_v@) =~= dep_names(binary));
    }
    let imports = match read_imports(data, base, header, &dep_names_v) {
        Some(v) => v,
        None => { return Err(LoaderError::Parse(owned("chained import outside the image"))); },
    };
    proof {
        assert forall|i: int| 0 <= i < header.imports_count implies
            #[trigger] spec_import(data@, base as int, header, i, dep_names(binary)) is Some by {
            assert(import_is(imports@[i], spec_import(data@, base as int, header, i, dep_names(binary))));
        }
    }
    let starts = match read_chain_starts(data, base, header, &binary.segments) {
        Some(v) => v,
        None => { return Err(LoaderError::Parse(owned("chained starts outside the image"))); },
    };
    let preferred_load_address = text_segment_vmaddr(&binary.segments);
    Ok(Some(FixupPlan { header, imports, chain_starts: starts, preferred_load_address }))
}

/// `decode_chained_pointer` unless the value would pass 2^64 (a rebase
/// whose target, added to the preferred load address, overflows): None then.
pub fn decode_chained_pointer_checked(encoded: u64, imports: &Vec<u64>, preferred_load_address: u64) -> (r: Option<(u64, u64)>)
    ensures
        r is None <==> chained_value(encoded, imports@, preferred_load_address) > u64::MAX,
        r matches Some(x) ==> x.0 == chained_value(encoded, imports@, preferred_load_address) && x.1 == chain_next(encoded),
{
    if (encoded >> 63u64) == 0 {
        let target = (((encoded >> 36u64) & 0xFFu64) << 56u64) | (encoded & 0xF_FFFF_FFFFu64);
        if preferred_load_address > u64::MAX - target {
            return None;
        }
    }
    Some(decode_chained_pointer(encoded, imports, preferred_load_address))
}

} // verus!
