//! Mach-O image description: segments, dependencies, entry point and the
//! LINKEDIT tables the loader needs, read through goblin's parser.

use vstd::prelude::*;
use goblin::mach::load_command::CommandVariant;
use crate::text::{fixed_name, name_text, owned};
use crate::bytes::{be_u32, be_u64, le_u32, le_u64, read_be_u32, read_be_u64, read_le_u32, read_le_u64, copy_range};

verus! {

pub const CPU_TYPE_X86_64: u32 = 0x01000007;

/// Errors of loading a Mach-O image.
#[derive(Debug)]
pub enum LoaderError {
    /// An I/O failure, with its message.
    Io(String),
    NotMachO,
    UnsupportedFileType(u32),
    UnsupportedCpuType(u32),
    NoTextSegment,
    NoEntryPoint,
    /// goblin refused the image; the message is goblin's.
    Parse(String),
    Mmap(String),
    NoArchSlice(String),
}

/// The abstract value of a `LoaderError`.
pub enum LoaderErrorView {
    Io(Seq<char>),
    NotMachO,
    UnsupportedFileType(u32),
    UnsupportedCpuType(u32),
    NoTextSegment,
    NoEntryPoint,
    Parse(Seq<char>),
    Mmap(Seq<char>),
    NoArchSlice(Seq<char>),
}

impl LoaderError {
    pub open spec fn view(&self) -> LoaderErrorView {
        match self {
            LoaderError::Io(s) => LoaderErrorView::Io(s@),
            LoaderError::NotMachO => LoaderErrorView::NotMachO,
            LoaderError::UnsupportedFileType(t) => LoaderErrorView::UnsupportedFileType(*t),
            LoaderError::UnsupportedCpuType(t) => LoaderErrorView::UnsupportedCpuType(*t),
            LoaderError::NoTextSegment => LoaderErrorView::NoTextSegment,
            LoaderError::NoEntryPoint => LoaderErrorView::NoEntryPoint,
            LoaderError::Parse(s) => LoaderErrorView::Parse(s@),
            LoaderError::Mmap(s) => LoaderErrorView::Mmap(s@),
            LoaderError::NoArchSlice(s) => LoaderErrorView::NoArchSlice(s@),
        }
    }
}

/// An LC_SEGMENT_64 command as goblin reads it.
#[derive(Clone, Copy, Debug)]
pub struct SegmentCmd {
    pub segname: [u8; 16],
    pub vmaddr: u64,
    pub vmsize: u64,
    pub fileoff: u64,
    pub filesize: u64,
    pub initprot: u32,
    pub maxprot: u32,
}

/// An entry-point command: LC_MAIN (entry offset) or LC_UNIXTHREAD
/// (flavor, count, raw thread state).
#[derive(Clone, Copy, Debug)]
pub enum EntryCmd {
    Main(u64),
    UnixThread(u32, u32, [u32; 70]),
}

/// A LINKEDIT-related command.
#[derive(Clone, Copy, Debug)]
pub enum LinkeditCmd {
    /// LC_DYLD_CHAINED_FIXUPS (dataoff, datasize)
    ChainedFixups(u32, u32),
    /// LC_DYLD_EXPORTS_TRIE (dataoff, datasize)
    ExportsTrie(u32, u32),
    /// LC_SYMTAB (symoff, nsyms, stroff)
    Symtab(u32, u32, u32),
    /// LC_DYSYMTAB (indirectsymoff, nindirectsyms)
    Dysymtab(u32, u32),
    /// LC_ROUTINES_64 (init_address)
    Routines64(u64),
}

/// One load command, seen through the three kinds the loader reads.
pub struct CommandSummary {
    pub segment: Option<SegmentCmd>,
    pub entry: Option<EntryCmd>,
    pub linkedit: Option<LinkeditCmd>,
}

/// A section header as goblin reads it.
#[derive(Clone, Copy, Debug)]
pub struct SectionInfo {
    pub sectname: [u8; 16],
    pub addr: u64,
    pub size: u64,
    pub flags: u32,
}

// ---- Where goblin places the entry point ----
//
// `MachO::parse` turns the first LC_MAIN's entry offset into an address by
// adding it to the first __TEXT segment's vmaddr minus its fileoff, with
// unchecked u64 arithmetic. The spec functions below follow its walk over
// the load commands (the same magic, header and command offsets, and the
// reads it makes of segment and LC_MAIN commands) far enough to say when
// that arithmetic stays in range. They follow goblin 0.9's parse; a newer
// goblin has to be read against them again.

/// The byte order and width goblin reads an image with, from its magic:
/// (little-endian, 64-bit); None for a magic that is not a Mach-O one.
pub open spec fn mach_ctx(data: Seq<u8>) -> Option<(bool, bool)> {
    if data.len() < 4 {
        None
    } else {
        let m = be_u32(data, 0);
        if m == 0xcffa_edfeu32 { Some((true, true)) }
        else if m == 0xcefa_edfeu32 { Some((true, false)) }
        else if m == 0xfeed_facfu32 { Some((false, true)) }
        else if m == 0xfeed_faceu32 { Some((false, false)) }
        else { None }
    }
}

/// A u32 at `off` in the image's byte order.
pub open spec fn rd32(data: Seq<u8>, off: int, le: bool) -> u32 {
    if le { le_u32(data, off) } else { be_u32(data, off) }
}

/// A u64 at `off` in the image's byte order.
pub open spec fn rd64(data: Seq<u8>, off: int, le: bool) -> u64 {
    if le { le_u64(data, off) } else { be_u64(data, off) }
}

/// Whether the 16-byte segment name at `off` starts with "__TEXT\0".
pub open spec fn is_text_name(data: Seq<u8>, off: int) -> bool {
    data[off] == 0x5f && data[off + 1] == 0x5f && data[off + 2] == 0x54 && data[off + 3] == 0x45
        && data[off + 4] == 0x58 && data[off + 5] == 0x54 && data[off + 6] == 0
}

pub const LC_SEGMENT_32: u32 = 0x1;
pub const LC_SEGMENT_64_CMD: u32 = 0x19;
pub const LC_MAIN_CMD: u32 = 0x8000_0028;

/// goblin's walk over `left` more load commands from `off`: the first
/// __TEXT segment's (vmaddr, fileoff) and the first LC_MAIN's entry offset
/// found, given those found so far; None where a command cannot be read
/// (goblin stops with an error there).
pub open spec fn walk_entry(data: Seq<u8>, le: bool, off: int, left: nat, text: Option<(u64, u64)>,
    main: Option<u64>) -> Option<(Option<(u64, u64)>, Option<u64>)>
    decreases left,
{
    if left == 0 {
        Some((text, main))
    } else if off < 0 || data.len() - off < 8 {
        None
    } else {
        let cmd = rd32(data, off, le);
        let size = rd32(data, off + 4, le) as int;
        let avail = data.len() - off;
        if size > avail {
            None
        } else if cmd == LC_SEGMENT_64_CMD {
            if avail < 72 {
                None
            } else {
                let t = if text is None && is_text_name(data, off + 8) {
                    Some((rd64(data, off + 24, le), rd64(data, off + 40, le)))
                } else {
                    text
                };
                walk_entry(data, le, off + size, (left - 1) as nat, t, main)
            }
        } else if cmd == LC_SEGMENT_32 {
            if avail < 56 {
                None
            } else {
                let t = if text is None && is_text_name(data, off + 8) {
                    Some((rd32(data, off + 24, le) as u64, rd32(data, off + 32, le) as u64))
                } else {
                    text
                };
                walk_entry(data, le, off + size, (left - 1) as nat, t, main)
            }
        } else if cmd == LC_MAIN_CMD {
            if avail < 24 {
                None
            } else {
                let m = if main is None { Some(rd64(data, off + 8, le)) } else { main };
                walk_entry(data, le, off + size, (left - 1) as nat, text, m)
            }
        } else {
            walk_entry(data, le, off + size, (left - 1) as nat, text, main)
        }
    }
}

/// Whether goblin's `MachO::parse(data, 0)` computes the entry address
/// without leaving u64: once its walk reaches both a __TEXT segment and an
/// LC_MAIN, fileoff <= vmaddr and vmaddr - fileoff + entryoff fits. Images
/// that goblin refuses before that point (bad magic, short header, too many
/// or unreadable commands) are fine.
pub open spec fn entry_fits(data: Seq<u8>) -> bool {
    match mach_ctx(data) {
        None => true,
        Some((le, is64)) => {
            let hs: int = if is64 { 32 } else { 28 };
            if data.len() < hs {
                true
            } else {
                let ncmds = rd32(data, 16, le);
                let sizeofcmds = rd32(data, 20, le);
                if ncmds > sizeofcmds / 8 || sizeofcmds > data.len() {
                    true
                } else {
                    match walk_entry(data, le, hs, ncmds as nat, None, None) {
                        Some((Some((va, fo)), Some(e))) => fo <= va && va - fo + e <= u64::MAX,
                        _ => true,
                    }
                }
            }
        }
    }
}

pub(crate) fn read_u32_in(data: &[u8], off: usize, le: bool) -> (r: u32)
    requires
        off + 4 <= data@.len(),
    ensures
        r == rd32(data@, off as int, le),
{
    if le { read_le_u32(data, off) } else { read_be_u32(data, off) }
}

pub(crate) fn read_u64_in(data: &[u8], off: usize, le: bool) -> (r: u64)
    requires
        off + 8 <= data@.len(),
    ensures
        r == rd64(data@, off as int, le),
{
    if le { read_le_u64(data, off) } else { read_be_u64(data, off) }
}

/// Whether `entry_fits` holds of `data`.
pub fn entry_fits_check(data: &[u8]) -> (r: bool)
    ensures
        r == entry_fits(data@),
{
    if data.len() < 4 {
        return true;
    }
    let m = read_be_u32(data, 0);
    let (le, is64): (bool, bool) = if m == 0xcffa_edfe {
        (true, true)
    } else if m == 0xcefa_edfe {
        (true, false)
    } else if m == 0xfeed_facf {
        (false, true)
    } else if m == 0xfeed_face {
        (false, false)
    } else {
        return true;
    };
    let hs: usize = if is64 { 32 } else { 28 };
    if data.len() < hs {
        return true;
    }
    let ncmds = read_u32_in(data, 16, le);
    let sizeofcmds = read_u32_in(data, 20, le);
    if ncmds > sizeofcmds / 8 || sizeofcmds as usize > data.len() {
        return true;
    }
    let mut off: usize = hs;
    let mut left: u32 = ncmds;
    let mut text: Option<(u64, u64)> = None;
    let mut main: Option<u64> = None;
    while left > 0
        invariant
            off <= data@.len(),
            mach_ctx(data@) == Some((le, is64)),
            hs == (if is64 { 32usize } else { 28usize }),
            data@.len() >= hs,
            ncmds == rd32(data@, 16, le),
            sizeofcmds == rd32(data@, 20, le),
            !(ncmds > sizeofcmds / 8 || sizeofcmds > data@.len()),
            walk_entry(data@, le, hs as int, ncmds as nat, None, None)
                == walk_entry(data@, le, off as int, left as nat, text, main),
        decreases left,
    {
        if data.len() - off < 8 {
            return true;
        }
        let cmd = read_u32_in(data, off, le);
        let size = read_u32_in(data, off + 4, le) as usize;
        let avail = data.len() - off;
        if size > avail {
            return true;
        }
        if cmd == LC_SEGMENT_64_CMD {
            if avail < 72 {
                return true;
            }
            if text.is_none() && data[off + 8] == 0x5f && data[off + 9] == 0x5f && data[off + 10] == 0x54
                && data[off + 11] == 0x45 && data[off + 12] == 0x58 && data[off + 13] == 0x54 && data[off + 14] == 0 {
                text = Some((read_u64_in(data, off + 24, le), read_u64_in(data, off + 40, le)));
            }
        } else if cmd == LC_SEGMENT_32 {
            if avail < 56 {
                return true;
            }
            if text.is_none() && data[off + 8] == 0x5f && data[off + 9] == 0x5f && data[off + 10] == 0x54
                && data[off + 11] == 0x45 && data[off + 12] == 0x58 && data[off + 13] == 0x54 && data[off + 14] == 0 {
                text = Some((read_u32_in(data, off + 24, le) as u64, read_u32_in(data, off + 32, le) as u64));
            }
        } else if cmd == LC_MAIN_CMD {
            if avail < 24 {
                return true;
            }
            if main.is_none() {
                main = Some(read_u64_in(data, off + 8, le));
            }
        }
        off = off + size;
        left = left - 1;
    }
    match (text, main) {
        (Some((va, fo)), Some(e)) => fo <= va && e <= u64::MAX - (va - fo),
        _ => true,
    }
}

/// The text of the error given for an image whose entry address leaves u64.
pub open spec fn entry_overflow_text() -> Seq<char> {
    "image entry point lies outside the address space"@
}

/// Refuse an image on which goblin's entry-address arithmetic would leave u64.
pub fn check_entry(data: &[u8]) -> (r: Result<(), String>)
    ensures
        r is Ok <==> entry_fits(data@),
        r matches Err(m) ==> m@ == entry_overflow_text(),
{
    if entry_fits_check(data) {
        Ok(())
    } else {
        Err(owned("image entry point lies outside the address space"))
    }
}

/// What goblin's `MachO::parse(data, 0)` yields for an image.
pub struct MachOSummary {
    pub file_type: u32,
    pub cpu_type: u32,
    pub commands: Seq<CommandSummary>,
    /// For each segment, each section header (None where goblin could not read it).
    pub sections: Seq<Seq<Option<SectionInfo>>>,
    pub libs: Seq<Seq<char>>,
    pub rpaths: Seq<Seq<char>>,
    pub name: Option<Seq<char>>,
}

/// The result of goblin's `MachO::parse(data, 0)`: the image's summary, or
/// goblin's error message.
pub uninterp spec fn goblin_macho(data: Seq<u8>) -> Result<MachOSummary, Seq<char>>;

/// What the loader reads of an image: goblin's result, or the entry-overflow
/// error where goblin's own entry arithmetic would leave u64 (`entry_fits`).
pub open spec fn parsed_image(data: Seq<u8>) -> Result<MachOSummary, Seq<char>> {
    if entry_fits(data) { goblin_macho(data) } else { Err(entry_overflow_text()) }
}

/// `goblin::mach::MachO::parse(data, 0)`: the header's file and CPU type,
/// or goblin's error message.
/// Its `requires` keeps out the images on which goblin's entry arithmetic
/// would leave u64 (see `entry_fits`), where goblin panics.
#[verifier::external_body]
fn goblin_header(data: &[u8]) -> (r: Result<(u32, u32), String>)
    requires
        entry_fits(data@),
    ensures
        match goblin_macho(data@) {
            Ok(s) => r == Ok::<(u32, u32), String>((s.file_type, s.cpu_type)),
            Err(e) => r matches Err(m) && m@ == e,
        },
{
    let m = goblin::mach::MachO::parse(data, 0).map_err(|e| e.to_string())?;
    Ok((m.header.filetype, m.header.cputype))
}

/// `goblin::mach::MachO::parse(data, 0)`: for each load command, its
/// LC_SEGMENT_64 fields when it is one.
/// Its `requires` keeps out the images on which goblin's entry arithmetic
/// would leave u64 (see `entry_fits`), where goblin panics.
#[verifier::external_body]
fn goblin_segment_commands(data: &[u8]) -> (r: Result<Vec<Option<SegmentCmd>>, String>)
    requires
        entry_fits(data@),
    ensures
        match goblin_macho(data@) {
            Ok(s) => r matches Ok(v) && v@.len() == s.commands.len()
                && forall|i: int| 0 <= i < v@.len() ==> #[trigger] v@[i] == s.commands[i].segment,
            Err(e) => r matches Err(m) && m@ == e,
        },
{
    let m = goblin::mach::MachO::parse(data, 0).map_err(|e| e.to_string())?;
    Ok(m.load_commands.iter().map(|lc| match &lc.command {
        CommandVariant::Segment64(c) => Some(SegmentCmd { segname: c.segname, vmaddr: c.vmaddr,
            vmsize: c.vmsize, fileoff: c.fileoff, filesize: c.filesize, initprot: c.initprot,
            maxprot: c.maxprot }),
        _ => None,
    }).collect())
}

/// `goblin::mach::MachO::parse(data, 0)`: for each load command, its
/// LC_MAIN or LC_UNIXTHREAD fields when it is one.
/// Its `requires` keeps out the images on which goblin's entry arithmetic
/// would leave u64 (see `entry_fits`), where goblin panics.
#[verifier::external_body]
fn goblin_entry_commands(data: &[u8]) -> (r: Result<Vec<Option<EntryCmd>>, String>)
    requires
        entry_fits(data@),
    ensures
        match goblin_macho(data@) {
            Ok(s) => r matches Ok(v) && v@.len() == s.commands.len()
                && forall|i: int| 0 <= i < v@.len() ==> #[trigger] v@[i] == s.commands[i].entry,
            Err(e) => r matches Err(m) && m@ == e,
        },
{
    let m = goblin::mach::MachO::parse(data, 0).map_err(|e| e.to_string())?;
    Ok(m.load_commands.iter().map(|lc| match &lc.command {
        CommandVariant::Main(c) => Some(EntryCmd::Main(c.entryoff)),
        CommandVariant::Unixthread(t) => Some(EntryCmd::UnixThread(t.flavor, t.count, t.thread_state)),
        _ => None,
    }).collect())
}

/// `goblin::mach::MachO::parse(data, 0)`: for each load command, its
/// LINKEDIT-related fields when it is one of those the loader reads.
/// Its `requires` keeps out the images on which goblin's entry arithmetic
/// would leave u64 (see `entry_fits`), where goblin panics.
#[verifier::external_body]
pub(crate) fn goblin_linkedit_commands(data: &[u8]) -> (r: Result<Vec<Option<LinkeditCmd>>, String>)
    requires
        entry_fits(data@),
    ensures
        match goblin_macho(data@) {
            Ok(s) => r matches Ok(v) && v@.len() == s.commands.len()
                && forall|i: int| 0 <= i < v@.len() ==> #[trigger] v@[i] == s.commands[i].linkedit,
            Err(e) => r matches Err(m) && m@ == e,
        },
{
    let m = goblin::mach::MachO::parse(data, 0).map_err(|e| e.to_string())?;
    Ok(m.load_commands.iter().map(|lc| match &lc.command {
        CommandVariant::DyldChainedFixups(c) => Some(LinkeditCmd::ChainedFixups(c.dataoff, c.datasize)),
        CommandVariant::DyldExportsTrie(c) => Some(LinkeditCmd::ExportsTrie(c.dataoff, c.datasize)),
        CommandVariant::Symtab(c) => Some(LinkeditCmd::Symtab(c.symoff, c.nsyms, c.stroff)),
        CommandVariant::Dysymtab(c) => Some(LinkeditCmd::Dysymtab(c.indirectsymoff, c.nindirectsyms)),
        CommandVariant::Routines64(c) => Some(LinkeditCmd::Routines64(c.init_address)),
        _ => None,
    }).collect())
}

/// `goblin::mach::MachO::parse(data, 0)`: for each segment, the headers of
/// its sections, in order (None for a header goblin could not read).
/// Its `requires` keeps out the images on which goblin's entry arithmetic
/// would leave u64 (see `entry_fits`), where goblin panics.
#[verifier::external_body]
pub(crate) fn goblin_sections(data: &[u8]) -> (r: Result<Vec<Vec<Option<SectionInfo>>>, String>)
    requires
        entry_fits(data@),
    ensures
        match goblin_macho(data@) {
            Ok(s) => r matches Ok(v) && v@.len() == s.sections.len()
                && forall|i: int| 0 <= i < v@.len() ==> #[trigger] v@[i]@ == s.sections[i],
            Err(e) => r matches Err(m) && m@ == e,
        },
{
    let m = goblin::mach::MachO::parse(data, 0).map_err(|e| e.to_string())?;
    Ok(m.segments.iter().map(|seg| seg.into_iter().map(|sr| sr.ok().map(|(sec, _)|
        SectionInfo { sectname: sec.sectname, addr: sec.addr, size: sec.size, flags: sec.flags })).collect()).collect())
}

/// `goblin::mach::MachO::parse(data, 0)`: the dylib names (goblin puts
/// "self" or the image's own id first), the rpaths and the image's own id.
/// Its `requires` keeps out the images on which goblin's entry arithmetic
/// would leave u64 (see `entry_fits`), where goblin panics.
#[verifier::external_body]
fn goblin_dylib_names(data: &[u8]) -> (r: Result<(Vec<String>, Vec<String>, Option<String>), String>)
    requires
        entry_fits(data@),
    ensures
        match goblin_macho(data@) {
            Ok(s) => r matches Ok(v) && v.0@.len() == s.libs.len() && v.1@.len() == s.rpaths.len()
                && (forall|i: int| 0 <= i < v.0@.len() ==> #[trigger] v.0@[i]@ == s.libs[i])
                && (forall|i: int| 0 <= i < v.1@.len() ==> #[trigger] v.1@[i]@ == s.rpaths[i])
                && (v.2 matches Some(n) ==> s.name == Some(n@)) && (v.2 is None <==> s.name is None),
            Err(e) => r matches Err(m) && m@ == e,
        },
{
    let m = goblin::mach::MachO::parse(data, 0).map_err(|e| e.to_string())?;
    let libs = m.libs.iter().map(|s| s.to_string()).collect();
    Ok((libs, m.rpaths.iter().map(|s| s.to_string()).collect(), m.name.map(|s| s.to_string())))
}


/// A fat-header entry: CPU type and the slice's offset and size.
#[derive(Clone, Copy, Debug)]
pub struct FatArchInfo {
    pub cputype: u32,
    pub offset: u32,
    pub size: u32,
}

/// What goblin's `Mach::parse` finds: a fat container (with its arch table
/// or the error reading it) or a single image (with its CPU type).
pub enum MachKind {
    Fat(Result<Vec<FatArchInfo>, String>),
    Binary(u32),
}

/// The abstract value of a `MachKind`.
pub enum MachKindSummary {
    Fat(Result<Seq<FatArchInfo>, Seq<char>>),
    Binary(u32),
}

impl MachKind {
    pub open spec fn view(&self) -> MachKindSummary {
        match self {
            MachKind::Fat(Ok(v)) => MachKindSummary::Fat(Ok(v@)),
            MachKind::Fat(Err(e)) => MachKindSummary::Fat(Err(e@)),
            MachKind::Binary(c) => MachKindSummary::Binary(*c),
        }
    }
}

/// The result of goblin's `Mach::parse(data)`.
pub uninterp spec fn goblin_mach(data: Seq<u8>) -> Result<MachKindSummary, Seq<char>>;

/// What the loader reads of a file's container kind: goblin's result, or the
/// entry-overflow error for a single image on which `entry_fits` fails.
pub open spec fn parsed_kind(data: Seq<u8>) -> Result<MachKindSummary, Seq<char>> {
    if entry_fits(data) { goblin_mach(data) } else { Err(entry_overflow_text()) }
}

/// `goblin::mach::Mach::parse(data)`: a fat container's arch table, or a
/// single image's CPU type, or goblin's error message.
/// Its `requires` keeps out the images on which goblin's entry arithmetic
/// would leave u64 (see `entry_fits`), where goblin panics.
#[verifier::external_body]
fn goblin_mach_kind(data: &[u8]) -> (r: Result<MachKind, String>)
    requires
        entry_fits(data@),
    ensures
        match goblin_mach(data@) {
            Ok(k) => r matches Ok(v) && v.view() == k,
            Err(e) => r matches Err(m) && m@ == e,
        },
{
    match goblin::mach::Mach::parse(data).map_err(|e| e.to_string())? {
        goblin::mach::Mach::Fat(f) => Ok(MachKind::Fat(f.arches().map(|v| v.iter().map(|a|
            FatArchInfo { cputype: a.cputype, offset: a.offset, size: a.size }).collect())
            .map_err(|e| e.to_string()))),
        goblin::mach::Mach::Binary(m) => Ok(MachKind::Binary(m.header.cputype)),
    }
}

/// A mapped segment of the image.
#[derive(Debug, Clone)]
pub struct Segment {
    pub name: String,
    pub vmaddr: u64,
    pub vmsize: u64,
    pub fileoff: u64,
    pub filesize: u64,
    pub initprot: u32,
    pub maxprot: u32,
}

/// The abstract value of a `Segment`.
pub struct SegmentView {
    pub name: Seq<char>,
    pub vmaddr: u64,
    pub vmsize: u64,
    pub fileoff: u64,
    pub filesize: u64,
    pub initprot: u32,
    pub maxprot: u32,
}

impl Segment {
    pub open spec fn view(&self) -> SegmentView {
        SegmentView {
            name: self.name@,
            vmaddr: self.vmaddr,
            vmsize: self.vmsize,
            fileoff: self.fileoff,
            filesize: self.filesize,
            initprot: self.initprot,
            maxprot: self.maxprot,
        }
    }
}

/// A dylib the image depends on.
#[derive(Debug, Clone)]
pub struct DylibDep {
    pub name: String,
    pub current_version: u32,
    pub compat_version: u32,
}

/// The segment an LC_SEGMENT_64 command describes.
pub open spec fn segment_of(c: SegmentCmd) -> SegmentView {
    SegmentView {
        name: name_text(c.segname@),
        vmaddr: c.vmaddr,
        vmsize: c.vmsize,
        fileoff: c.fileoff,
        filesize: c.filesize,
        initprot: c.initprot,
        maxprot: c.maxprot,
    }
}

/// The segments of the LC_SEGMENT_64 commands, in command order.
pub open spec fn segments_of(cmds: Seq<CommandSummary>) -> Seq<SegmentView>
    decreases cmds.len(),
{
    if cmds.len() == 0 {
        Seq::empty()
    } else {
        let prev = segments_of(cmds.drop_last());
        match cmds.last().segment {
            Some(c) => prev.push(segment_of(c)),
            None => prev,
        }
    }
}

/// The entry address in an x86_64 thread state: rip is registers 32 (low) and 33 (high).
pub open spec fn thread_rip(state: [u32; 70]) -> u64 {
    ((state@[33] as u64) << 32) | (state@[32] as u64)
}

/// The entry point and whether it is an offset from __TEXT: the last LC_MAIN,
/// or LC_UNIXTHREAD carrying an x86_64 thread state (flavor 4, count >= 42),
/// wins; (0, false) when there is none.
pub open spec fn entry_of(cmds: Seq<CommandSummary>) -> (u64, bool)
    decreases cmds.len(),
{
    if cmds.len() == 0 {
        (0, false)
    } else {
        let prev = entry_of(cmds.drop_last());
        match cmds.last().entry {
            Some(EntryCmd::Main(off)) => (off, true),
            Some(EntryCmd::UnixThread(flavor, count, state)) =>
                if flavor == 4 && count >= 42 { (thread_rip(state), false) } else { prev },
            None => prev,
        }
    }
}

/// The (offset, size) of the last LC_DYLD_CHAINED_FIXUPS.
pub open spec fn chained_fixups_of(cmds: Seq<CommandSummary>) -> Option<(u32, u32)>
    decreases cmds.len(),
{
    if cmds.len() == 0 {
        None
    } else {
        match cmds.last().linkedit {
            Some(LinkeditCmd::ChainedFixups(o, n)) => Some((o, n)),
            _ => chained_fixups_of(cmds.drop_last()),
        }
    }
}

/// The (offset, size) of the last LC_DYLD_EXPORTS_TRIE.
pub open spec fn exports_trie_of(cmds: Seq<CommandSummary>) -> Option<(u32, u32)>
    decreases cmds.len(),
{
    if cmds.len() == 0 {
        None
    } else {
        match cmds.last().linkedit {
            Some(LinkeditCmd::ExportsTrie(o, n)) => Some((o, n)),
            _ => exports_trie_of(cmds.drop_last()),
        }
    }
}

/// The text "self".
pub open spec fn self_text() -> Seq<char> {
    seq!['s', 'e', 'l', 'f']
}

/// Whether a dylib name is a real dependency: not empty, not the image's
/// own id and not goblin's "self" placeholder.
pub open spec fn is_dependency(lib: Seq<char>, self_name: Seq<char>) -> bool {
    lib.len() > 0 && lib != self_name && lib != self_text()
}

/// The dependency names, in order.
pub open spec fn deps_of(libs: Seq<Seq<char>>, self_name: Seq<char>) -> Seq<Seq<char>>
    decreases libs.len(),
{
    if libs.len() == 0 {
        Seq::empty()
    } else {
        let prev = deps_of(libs.drop_last(), self_name);
        if is_dependency(libs.last(), self_name) { prev.push(libs.last()) } else { prev }
    }
}

/// What the loader extracts from one image.
pub struct InfoSpec {
    pub file_type: u32,
    pub cpu_type: u32,
    pub entry_point: u64,
    pub entry_is_offset: bool,
    pub segments: Seq<SegmentView>,
    pub dylib_deps: Seq<Seq<char>>,
    pub rpaths: Seq<Seq<char>>,
    pub chained_fixups: Option<(u32, u32)>,
    pub exports_trie: Option<(u32, u32)>,
}

/// The information of an image, or why it is refused: goblin's parse error,
/// or a CPU type other than x86_64.
pub open spec fn spec_extract_info(data: Seq<u8>) -> Result<InfoSpec, LoaderErrorView> {
    match parsed_image(data) {
        Err(e) => Err(LoaderErrorView::Parse(e)),
        Ok(s) => if s.cpu_type != CPU_TYPE_X86_64 {
            Err(LoaderErrorView::UnsupportedCpuType(s.cpu_type))
        } else {
            let self_name = match s.name { Some(n) => n, None => Seq::<char>::empty() };
            Ok(InfoSpec {
                file_type: s.file_type,
                cpu_type: s.cpu_type,
                entry_point: entry_of(s.commands).0,
                entry_is_offset: entry_of(s.commands).1,
                segments: segments_of(s.commands),
                dylib_deps: deps_of(s.libs, self_name),
                rpaths: s.rpaths,
                chained_fixups: chained_fixups_of(s.commands),
                exports_trie: exports_trie_of(s.commands),
            })
        },
    }
}

/// The parsed description of a Mach-O image, with its bytes.
#[derive(Debug)]
pub struct MachOBinary {
    pub path: String,
    pub file_type: u32,
    pub cpu_type: u32,
    /// Entry point offset from __TEXT base (LC_MAIN) or absolute address (LC_UNIXTHREAD).
    pub entry_point: u64,
    /// Whether entry_point is relative to __TEXT (LC_MAIN) or absolute (LC_UNIXTHREAD).
    pub entry_is_offset: bool,
    pub segments: Vec<Segment>,
    pub dylib_deps: Vec<DylibDep>,
    pub rpaths: Vec<String>,
    /// (offset, size)
    pub chained_fixups: Option<(u32, u32)>,
    /// (offset, size)
    pub exports_trie: Option<(u32, u32)>,
    pub data: Vec<u8>,
    pub slide: u64,
}

/// Extracted information, held in exec values.
struct ParsedInfo {
    file_type: u32,
    cpu_type: u32,
    entry_point: u64,
    entry_is_offset: bool,
    segments: Vec<Segment>,
    dylib_deps: Vec<DylibDep>,
    rpaths: Vec<String>,
    chained_fixups: Option<(u32, u32)>,
    exports_trie: Option<(u32, u32)>,
}

/// Whether exec segments hold the given abstract segments.
pub open spec fn segments_match(v: Seq<Segment>, s: Seq<SegmentView>) -> bool {
    v.len() == s.len() && forall|i: int| 0 <= i < v.len() ==> #[trigger] v[i].view() == s[i]
}

/// Whether exec dependencies carry the given names (and zero versions).
pub open spec fn deps_match(v: Seq<DylibDep>, s: Seq<Seq<char>>) -> bool {
    v.len() == s.len() && forall|i: int| 0 <= i < v.len() ==>
        #[trigger] v[i].name@ == s[i] && v[i].current_version == 0 && v[i].compat_version == 0
}

/// Whether exec strings hold the given texts.
pub open spec fn strings_match(v: Seq<String>, s: Seq<Seq<char>>) -> bool {
    v.len() == s.len() && forall|i: int| 0 <= i < v.len() ==> #[trigger] v[i]@ == s[i]
}

impl ParsedInfo {
    spec fn matches(&self, info: InfoSpec) -> bool {
        &&& self.file_type == info.file_type
        &&& self.cpu_type == info.cpu_type
        &&& self.entry_point == info.entry_point
        &&& self.entry_is_offset == info.entry_is_offset
        &&& segments_match(self.segments@, info.segments)
        &&& deps_match(self.dylib_deps@, info.dylib_deps)
        &&& strings_match(self.rpaths@, info.rpaths)
        &&& self.chained_fixups == info.chained_fixups
        &&& self.exports_trie == info.exports_trie
    }
}

impl MachOBinary {
    /// Whether this binary carries the information `info` about `data`.
    pub open spec fn describes(&self, info: InfoSpec) -> bool {
        &&& self.file_type == info.file_type
        &&& self.cpu_type == info.cpu_type
        &&& self.entry_point == info.entry_point
        &&& self.entry_is_offset == info.entry_is_offset
        &&& segments_match(self.segments@, info.segments)
        &&& deps_match(self.dylib_deps@, info.dylib_deps)
        &&& strings_match(self.rpaths@, info.rpaths)
        &&& self.chained_fixups == info.chained_fixups
        &&& self.exports_trie == info.exports_trie
    }
}

/// Whether the first four bytes are a fat magic (0xcafebabe or 0xcafebabf, big-endian).
pub open spec fn has_fat_magic(data: Seq<u8>) -> bool {
    data.len() >= 4 && (be_u32(data, 0) == 0xcafe_babeu32 || be_u32(data, 0) == 0xcafe_babfu32)
}

/// The first x86_64 entry of an arch table.
pub open spec fn first_x86_64(arches: Seq<FatArchInfo>) -> Option<FatArchInfo>
    decreases arches.len(),
{
    if arches.len() == 0 {
        None
    } else if arches[0].cputype == CPU_TYPE_X86_64 {
        Some(arches[0])
    } else {
        first_x86_64(arches.drop_first())
    }
}

/// Whether the x86_64 slice a fat container names lies within the data
/// (taking it would panic otherwise).
pub open spec fn fat_slice_in_bounds(data: Seq<u8>) -> bool {
    has_fat_magic(data) ==> match parsed_kind(data) {
        Ok(MachKindSummary::Fat(Ok(arches))) => match first_x86_64(arches) {
            Some(a) => a.offset + a.size <= data.len(),
            None => true,
        },
        _ => true,
    }
}

/// What `MachOBinary::parse` yields: the information and the bytes the
/// binary keeps (the x86_64 slice of a fat container), or the error.
pub open spec fn spec_parse(data: Seq<u8>) -> Result<(InfoSpec, Seq<u8>), LoaderErrorView> {
    if has_fat_magic(data) {
        match parsed_kind(data) {
            Err(e) => Err(LoaderErrorView::Parse(e)),
            Ok(MachKindSummary::Fat(Err(e))) => Err(LoaderErrorView::Parse(e)),
            Ok(MachKindSummary::Fat(Ok(arches))) => match first_x86_64(arches) {
                Some(a) => {
                    let slice = data.subrange(a.offset as int, a.offset + a.size);
                    match spec_extract_info(slice) {
                        Ok(info) => Ok((info, slice)),
                        Err(e) => Err(e),
                    }
                },
                None => Err(LoaderErrorView::UnsupportedCpuType(0)),
            },
            Ok(MachKindSummary::Binary(cpu)) => if cpu == CPU_TYPE_X86_64 {
                match spec_extract_info(data) {
                    Ok(info) => Ok((info, data)),
                    Err(e) => Err(e),
                }
            } else {
                Err(LoaderErrorView::UnsupportedCpuType(cpu))
            },
        }
    } else {
        match spec_extract_info(data) {
            Ok(info) => Ok((info, data)),
            Err(e) => Err(e),
        }
    }
}


/// Whether `fat_slice_in_bounds` holds of `data`.
fn fat_slice_ok(data: &[u8]) -> (r: bool)
    ensures
        r == fat_slice_in_bounds(data@),
{
    let is_fat = data.len() >= 4 && {
        let magic = read_be_u32(data, 0);
        magic == 0xcafe_babe || magic == 0xcafe_babf
    };
    if !is_fat {
        return true;
    }
    let kind = goblin_mach_kind(data);
    if let Ok(MachKind::Fat(Ok(arches))) = kind {
        let mut i: usize = 0;
        proof {
            assert(arches@.skip(0) =~= arches@);
        }
        while i < arches.len()
            invariant
                i <= arches@.len(),
                first_x86_64(arches@) == first_x86_64(arches@.skip(i as int)),
                parsed_kind(data@) == Ok::<MachKindSummary, Seq<char>>(MachKindSummary::Fat(Ok(arches@))),
                has_fat_magic(data@),
            decreases arches.len() - i,
        {
            if arches[i].cputype == CPU_TYPE_X86_64 {
                proof {
                    assert(arches@.skip(i as int)[0] == arches@[i as int]);
                }
                return arches[i].offset as u64 + arches[i].size as u64 <= data.len() as u64;
            }
            proof {
                assert(arches@.skip(i as int).drop_first() =~= arches@.skip(i + 1));
            }
            i = i + 1;
        }
        proof {
            assert(arches@.skip(i as int).len() == 0);
        }
        true
    } else {
        true
    }
}

impl MachOBinary {
    /// Parse an image; fat binaries are narrowed to the x86_64 slice.
    pub fn parse(path: String, data: Vec<u8>) -> (r: Result<Self, LoaderError>)
        requires
            fat_slice_in_bounds(data@),
        ensures
            match spec_parse(data@) {
                Ok((info, bytes)) => r matches Ok(b) && b.describes(info) && b.data@ == bytes
                    && b.path@ == path@ && b.slide == 0,
                Err(e) => r matches Err(err) && err.view() == e,
            },
    {
        let is_fat = data.len() >= 4 && {
            let magic = read_be_u32(data.as_slice(), 0);
            magic == 0xcafe_babe || magic == 0xcafe_babf
        };
        if is_fat {
            Self::parse_fat(path, data)
        } else {
            Self::parse_single(path, data)
        }
    }

    /// Parse `parse`'s input unless it names an x86_64 slice outside the data;
    /// `None` then, where `parse` itself would panic.
    pub fn parse_checked(path: String, data: Vec<u8>) -> (r: Option<Result<Self, LoaderError>>)
        ensures
            r is None <==> !fat_slice_in_bounds(data@),
            r matches Some(res) ==> match spec_parse(data@) {
                Ok((info, bytes)) => res matches Ok(b) && b.describes(info) && b.data@ == bytes
                    && b.path@ == path@ && b.slide == 0,
                Err(e) => res matches Err(err) && err.view() == e,
            },
    {
        if fat_slice_ok(data.as_slice()) {
            Some(Self::parse(path, data))
        } else {
            None
        }
    }

    fn parse_single(path: String, data: Vec<u8>) -> (r: Result<Self, LoaderError>)
        ensures
            match spec_extract_info(data@) {
                Ok(info) => r matches Ok(b) && b.describes(info) && b.data@ == data@
                    && b.path@ == path@ && b.slide == 0,
                Err(e) => r matches Err(err) && err.view() == e,
            },
    {
        let info = match Self::extract_info(data.as_slice()) {
            Ok(i) => i,
            Err(e) => { return Err(e); },
        };
        Ok(MachOBinary {
            path,
            file_type: info.file_type,
            cpu_type: info.cpu_type,
            entry_point: info.entry_point,
            entry_is_offset: info.entry_is_offset,
            segments: info.segments,
            dylib_deps: info.dylib_deps,
            rpaths: info.rpaths,
            chained_fixups: info.chained_fixups,
            exports_trie: info.exports_trie,
            data,
            slide: 0,
        })
    }

    fn parse_fat(path: String, data: Vec<u8>) -> (r: Result<Self, LoaderError>)
        requires
            has_fat_magic(data@),
            fat_slice_in_bounds(data@),
        ensures
            match spec_parse(data@) {
                Ok((info, bytes)) => r matches Ok(b) && b.describes(info) && b.data@ == bytes
                    && b.path@ == path@ && b.slide == 0,
                Err(e) => r matches Err(err) && err.view() == e,
            },
    {
        let kind = match goblin_mach_kind(data.as_slice()) {
            Ok(k) => k,
            Err(e) => { return Err(LoaderError::Parse(e)); },
        };
        match kind {
            MachKind::Fat(arches) => {
                let arches = match arches {
                    Ok(a) => a,
                    Err(e) => { return Err(LoaderError::Parse(e)); },
                };
                let mut i: usize = 0;
                proof {
                    assert(arches@.skip(0) =~= arches@);
                }
                while i < arches.len()
                    invariant
                        i <= arches@.len(),
                        first_x86_64(arches@) == first_x86_64(arches@.skip(i as int)),
                        parsed_kind(data@) == Ok::<MachKindSummary, Seq<char>>(MachKindSummary::Fat(Ok(arches@))),
                        has_fat_magic(data@),
                        fat_slice_in_bounds(data@),
                    decreases arches.len() - i,
                {
                    if arches[i].cputype == CPU_TYPE_X86_64 {
                        proof {
                            assert(arches@.skip(i as int)[0] == arches@[i as int]);
                            assert(first_x86_64(arches@) == Some(arches@[i as int]));
                            assert(arches@[i as int].offset + arches@[i as int].size <= data@.len());
                        }
                        let dlen = data.len();
                        let offset = arches[i].offset as usize;
                        let size = arches[i].size as usize;
                        let slice = copy_range(data.as_slice(), offset, offset + size);
                        return Self::parse_single(path, slice);
                    }
                    proof {
                        assert(arches@.skip(i as int).drop_first() =~= arches@.skip(i + 1));
                    }
                    i = i + 1;
                }
                proof {
                    assert(arches@.skip(i as int).len() == 0);
                }
                Err(LoaderError::UnsupportedCpuType(0))
            },
            MachKind::Binary(cpu) => {
                if cpu == CPU_TYPE_X86_64 {
                    Self::parse_single(path, data)
                } else {
                    Err(LoaderError::UnsupportedCpuType(cpu))
                }
            },
        }
    }

    /// Extract the loader's information from an image.
    fn extract_info(data: &[u8]) -> (r: Result<ParsedInfo, LoaderError>)
        ensures
            match spec_extract_info(data@) {
                Ok(info) => r matches Ok(p) && p.matches(info),
                Err(e) => r matches Err(err) && err.view() == e,
            },
    {
        match check_entry(data) {
            Err(m) => { return Err(LoaderError::Parse(m)); },
            Ok(_) => {},
        }
        let (file_type, cpu_type) = match goblin_header(data) {
            Ok(h) => h,
            Err(e) => { return Err(LoaderError::Parse(e)); },
        };
        if cpu_type != CPU_TYPE_X86_64 {
            return Err(LoaderError::UnsupportedCpuType(cpu_type));
        }
        let ghost s = parsed_image(data@)->Ok_0;
        let seg_cmds = match goblin_segment_commands(data) {
            Ok(v) => v,
            Err(e) => { return Err(LoaderError::Parse(e)); },
        };
        let entry_cmds = match goblin_entry_commands(data) {
            Ok(v) => v,
            Err(e) => { return Err(LoaderError::Parse(e)); },
        };
        let link_cmds = match goblin_linkedit_commands(data) {
            Ok(v) => v,
            Err(e) => { return Err(LoaderError::Parse(e)); },
        };
        let names = match goblin_dylib_names(data) {
            Ok(v) => v,
            Err(e) => { return Err(LoaderError::Parse(e)); },
        };
        let (libs, rpaths, name) = names;

        let mut segments: Vec<Segment> = Vec::new();
        let mut entry_point: u64 = 0;
        let mut entry_is_offset = false;
        let mut chained_fixups: Option<(u32, u32)> = None;
        let mut exports_trie: Option<(u32, u32)> = None;
        let n = seg_cmds.len();
        let mut i: usize = 0;
        while i < n
            invariant
                n == seg_cmds@.len() == entry_cmds@.len() == link_cmds@.len() == s.commands.len(),
                forall|j: int| 0 <= j < n ==> #[trigger] seg_cmds@[j] == s.commands[j].segment,
                forall|j: int| 0 <= j < n ==> #[trigger] entry_cmds@[j] == s.commands[j].entry,
                forall|j: int| 0 <= j < n ==> #[trigger] link_cmds@[j] == s.commands[j].linkedit,
                i <= n,
                segments_match(segments@, segments_of(s.commands.take(i as int))),
                (entry_point, entry_is_offset) == entry_of(s.commands.take(i as int)),
                chained_fixups == chained_fixups_of(s.commands.take(i as int)),
                exports_trie == exports_trie_of(s.commands.take(i as int)),
            decreases n - i,
        {
            proof {
                assert(s.commands.take(i + 1).drop_last() =~= s.commands.take(i as int));
                assert(s.commands.take(i + 1).last() == s.commands[i as int]);
            }
            match seg_cmds[i] {
                Some(c) => {
                    let seg = Segment {
                        name: fixed_name(&c.segname),
                        vmaddr: c.vmaddr,
                        vmsize: c.vmsize,
                        fileoff: c.fileoff,
                        filesize: c.filesize,
                        initprot: c.initprot,
                        maxprot: c.maxprot,
                    };
                    segments.push(seg);
                },
                None => {},
            }
            match entry_cmds[i] {
                Some(EntryCmd::Main(off)) => {
                    entry_point = off;
                    entry_is_offset = true;
                },
                Some(EntryCmd::UnixThread(flavor, count, state)) => {
                    if flavor == 4 && count >= 42 {
                        entry_point = ((state[33] as u64) << 32) | (state[32] as u64);
                        entry_is_offset = false;
                    }
                },
                None => {},
            }
            match link_cmds[i] {
                Some(LinkeditCmd::ChainedFixups(o, sz)) => { chained_fixups = Some((o, sz)); },
                Some(LinkeditCmd::ExportsTrie(o, sz)) => { exports_trie = Some((o, sz)); },
                _ => {},
            }
            i = i + 1;
        }
        proof {
            assert(s.commands.take(n as int) =~= s.commands);
        }

        let self_name = match name { Some(nm) => nm, None => String::new() };
        let self_word = owned("self");
        proof {
            reveal_strlit("self");
            assert(self_word@ =~= self_text());
        }
        let mut dylib_deps: Vec<DylibDep> = Vec::new();
        let mut k: usize = 0;
        while k < libs.len()
            invariant
                k <= libs@.len() == s.libs.len(),
                forall|j: int| 0 <= j < libs@.len() ==> #[trigger] libs@[j]@ == s.libs[j],
                self_name@ == (match s.name { Some(nm) => nm, None => Seq::<char>::empty() }),
                self_word@ == self_text(),
                deps_match(dylib_deps@, deps_of(s.libs.take(k as int), self_name@)),
            decreases libs.len() - k,
        {
            proof {
                assert(s.libs.take(k + 1).drop_last() =~= s.libs.take(k as int));
            }
            let lib = &libs[k];
            if lib.as_str().unicode_len() > 0 && !(*lib == self_name) && !(*lib == self_word) {
                dylib_deps.push(DylibDep { name: lib.clone(), current_version: 0, compat_version: 0 });
            }
            k = k + 1;
        }
        proof {
            assert(s.libs.take(libs@.len() as int) =~= s.libs);
        }

        Ok(ParsedInfo {
            file_type,
            cpu_type,
            entry_point,
            entry_is_offset,
            segments,
            dylib_deps,
            rpaths,
            chained_fixups,
            exports_trie,
        })
    }
}


/// The text "__TEXT".
pub open spec fn text_name() -> Seq<char> {
    seq!['_', '_', 'T', 'E', 'X', 'T']
}

/// The index of the first segment named "__TEXT".
pub open spec fn first_text_index(segs: Seq<Segment>) -> Option<int>
    decreases segs.len(),
{
    if segs.len() == 0 {
        None
    } else if segs[0].name@ == text_name() {
        Some(0)
    } else {
        match first_text_index(segs.drop_first()) {
            Some(i) => Some(i + 1),
            None => None,
        }
    }
}

proof fn lemma_first_text_index_bound(segs: Seq<Segment>)
    ensures
        first_text_index(segs) matches Some(i) ==> 0 <= i < segs.len() && segs[i].name@ == text_name(),
    decreases segs.len(),
{
    if segs.len() > 0 && segs[0].name@ != text_name() {
        lemma_first_text_index_bound(segs.drop_first());
    }
}

/// The position of the first "__TEXT" segment.
pub fn find_text_segment(segs: &Vec<Segment>) -> (r: Option<usize>)
    ensures
        r matches Some(i) ==> first_text_index(segs@) == Some(i as int),
        r is None ==> first_text_index(segs@) is None,
        r matches Some(i) ==> i < segs@.len() && segs@[i as int].name@ == text_name(),
{
    let t = owned("__TEXT");
    proof {
        reveal_strlit("__TEXT");
        assert(t@ =~= text_name());
    }
    let mut i: usize = 0;
    proof {
        assert(segs@.skip(0) =~= segs@);
    }
    while i < segs.len()
        invariant
            i <= segs@.len(),
            t@ == text_name(),
            forall|j: int| 0 <= j < i ==> segs@[j].name@ != text_name(),
            first_text_index(segs@) == (match first_text_index(segs@.skip(i as int)) {
                Some(k) => Some(k + i),
                None => None,
            }),
        decreases segs.len() - i,
    {
        if segs[i].name == t {
            proof {
                assert(segs@.skip(i as int)[0] == segs@[i as int]);
            }
            return Some(i);
        }
        proof {
            assert(segs@.skip(i as int).drop_first() =~= segs@.skip(i + 1));
        }
        i = i + 1;
    }
    proof {
        assert(segs@.skip(i as int).len() == 0);
    }
    None
}

/// The vmaddr of the first "__TEXT" segment, 0 when there is none.
pub open spec fn text_vmaddr(segs: Seq<Segment>) -> u64 {
    match first_text_index(segs) {
        Some(i) => segs[i].vmaddr,
        None => 0,
    }
}

/// The vmaddr of the first "__TEXT" segment, 0 when there is none.
pub fn text_segment_vmaddr(segs: &Vec<Segment>) -> (r: u64)
    ensures
        r == text_vmaddr(segs@),
{
    match find_text_segment(segs) {
        Some(i) => segs[i].vmaddr,
        None => 0,
    }
}

} // verus!
