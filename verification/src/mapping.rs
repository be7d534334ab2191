//! How an image's segments are laid out in memory: whether it needs a
//! slide, how large a region it takes, where each segment goes with which
//! protection and which bytes, and where execution starts.

use vstd::prelude::*;
use crate::bytes::{wrap64, add_wrapping, sub_wrapping};
use crate::fixups::{is_pagezero, pagezero_text};
use crate::macho::{MachOBinary, Segment, LoaderError, LoaderErrorView, find_text_segment, first_text_index,
    text_vmaddr, text_segment_vmaddr};

verus! {

broadcast use vstd::string::group_string_axioms;

/// Mach-O VM_PROT_READ/WRITE/EXECUTE (1, 2, 4) onto Linux PROT_READ/WRITE/EXEC,
/// which have the same values; other bits are dropped.
pub fn macho_prot_to_linux(prot: u32) -> (r: i32)
    ensures
        r == (prot % 8) as i32,
{
    let r = (if prot & 1 != 0 { 1i32 } else { 0 }) | (if prot & 2 != 0 { 2i32 } else { 0 })
        | (if prot & 4 != 0 { 4i32 } else { 0 });
    assert(((if prot & 1 != 0 { 1i32 } else { 0 }) | (if prot & 2 != 0 { 2i32 } else { 0 })
        | (if prot & 4 != 0 { 4i32 } else { 0 })) == (prot % 8) as i32) by (bit_vector);
    r
}

/// Whether an image needs a slide: its __TEXT lies at address 0 (a dylib),
/// or it has none.
pub fn needs_slide(binary: &MachOBinary) -> (r: bool)
    ensures
        r == (text_vmaddr(binary.segments@) == 0),
{
    text_segment_vmaddr(&binary.segments) == 0
}

/// Whether no segment's end (vmaddr + vmsize) passes 2^64.
pub open spec fn segments_fit(segs: Seq<Segment>) -> bool {
    forall|i: int| 0 <= i < segs.len() ==> #[trigger] segs[i].vmaddr + segs[i].vmsize <= u64::MAX
}

/// The highest end among the first `n` segments other than __PAGEZERO (0 without one).
pub open spec fn region_end(segs: Seq<Segment>, n: nat) -> int
    decreases n,
{
    if n == 0 {
        0
    } else {
        let prev = region_end(segs, (n - 1) as nat);
        let s = segs[n - 1];
        if s.name@ == pagezero_text() || s.vmaddr + s.vmsize <= prev { prev } else { s.vmaddr + s.vmsize }
    }
}

/// Whether `segments_fit` holds.
pub fn check_segments_fit(segs: &Vec<Segment>) -> (r: bool)
    ensures
        r == segments_fit(segs@),
{
    let mut i: usize = 0;
    while i < segs.len()
        invariant
            i <= segs@.len(),
            forall|k: int| 0 <= k < i ==> #[trigger] segs@[k].vmaddr + segs@[k].vmsize <= u64::MAX,
        decreases segs.len() - i,
    {
        if segs[i].vmaddr > u64::MAX - segs[i].vmsize {
            return false;
        }
        i = i + 1;
    }
    true
}

/// The size of the region a slid image takes: the highest end of its
/// segments other than __PAGEZERO; an error when that is 0.
pub fn slide_region_size(segs: &Vec<Segment>) -> (r: Result<u64, LoaderError>)
    requires
        segments_fit(segs@),
    ensures
        region_end(segs@, segs@.len()) > 0 ==> r == Ok::<u64, LoaderError>(region_end(segs@, segs@.len()) as u64),
        region_end(segs@, segs@.len()) == 0 ==> (r matches Err(e) && e.view() == LoaderErrorView::Mmap("dylib has no segments"@)),
{
    let mut best: u64 = 0;
    let mut i: usize = 0;
    while i < segs.len()
        invariant
            i <= segs@.len(),
            segments_fit(segs@),
            best == region_end(segs@, i as nat),
        decreases segs.len() - i,
    {
        let s = &segs[i];
        if !is_pagezero(&s.name) {
            assert(segs@[i as int].vmaddr + segs@[i as int].vmsize <= u64::MAX);
            let end = s.vmaddr + s.vmsize;
            if end > best {
                best = end;
            }
        }
        i = i + 1;
    }
    if best == 0 {
        Err(LoaderError::Mmap("dylib has no segments".to_string()))
    } else {
        Ok(best)
    }
}

/// Where one segment goes and what it holds.
#[derive(Debug)]
pub struct SegmentMap {
    /// Its address (slide added); 0 lets the kernel choose.
    pub addr: u64,
    pub size: u64,
    /// The (file offset, length) of the bytes copied in, when the file holds them.
    pub copy: Option<(u64, u64)>,
    /// Linux protection applied after the copy.
    pub prot: i32,
}

/// Where a segment goes: None for a segment of size 0 (nothing is mapped).
pub fn segment_map(seg: &Segment, slide: u64, data_len: usize) -> (r: Option<SegmentMap>)
    ensures
        seg.vmsize == 0 ==> r is None,
        seg.vmsize != 0 ==> (r matches Some(m) && m.addr == wrap64(seg.vmaddr + slide) && m.size == seg.vmsize
            && m.prot == (seg.initprot % 8) as i32
            && m.copy == (if seg.filesize > 0 && seg.fileoff + seg.filesize <= data_len {
                Some((seg.fileoff, seg.filesize))
            } else {
                None
            })),
{
    if seg.vmsize == 0 {
        return None;
    }
    let copy = if seg.filesize > 0 && seg.fileoff <= data_len as u64 && seg.filesize <= data_len as u64 - seg.fileoff {
        Some((seg.fileoff, seg.filesize))
    } else {
        None
    };
    Some(SegmentMap { addr: add_wrapping(seg.vmaddr, slide), size: seg.vmsize, copy,
        prot: macho_prot_to_linux(seg.initprot) })
}

/// Where execution starts once the image lies at `slide`: LC_MAIN's offset
/// counts from where __TEXT's file offset 0 lands, LC_UNIXTHREAD's address
/// moves with the slide.
pub open spec fn spec_entry_address(b: MachOBinary, slide: u64) -> Result<u64, LoaderErrorView> {
    if b.entry_is_offset {
        match first_text_index(b.segments@) {
            Some(t) => {
                let ts = b.segments@[t];
                Ok(wrap64(wrap64(wrap64(ts.vmaddr + slide) - ts.fileoff) + b.entry_point))
            },
            None => Err(LoaderErrorView::NoTextSegment),
        }
    } else {
        Ok(wrap64(b.entry_point + slide))
    }
}

pub fn entry_address(binary: &MachOBinary, slide: u64) -> (r: Result<u64, LoaderError>)
    ensures
        match spec_entry_address(*binary, slide) {
            Ok(a) => r matches Ok(x) && x == a,
            Err(e) => r matches Err(x) && x.view() == e,
        },
{
    if binary.entry_is_offset {
        match find_text_segment(&binary.segments) {
            Some(t) => {
                let ts = &binary.segments[t];
                let base = sub_wrapping(add_wrapping(ts.vmaddr, slide), ts.fileoff);
                Ok(add_wrapping(base, binary.entry_point))
            },
            None => Err(LoaderError::NoTextSegment),
        }
    } else {
        Ok(add_wrapping(binary.entry_point, slide))
    }
}

} // verus!
