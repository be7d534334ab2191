use grafted::macho::{MachOBinary, Segment, LoaderError};
use grafted::mapping::{check_segments_fit, entry_address, macho_prot_to_linux, needs_slide, segment_map, slide_region_size};

fn seg(name: &str, vmaddr: u64, vmsize: u64, fileoff: u64, filesize: u64, prot: u32) -> Segment {
    Segment { name: name.to_string(), vmaddr, vmsize, fileoff, filesize, initprot: prot, maxprot: 7 }
}

fn binary(segments: Vec<Segment>, entry_point: u64, entry_is_offset: bool) -> MachOBinary {
    MachOBinary {
        path: "/x".to_string(), file_type: 2, cpu_type: 0x0100_0007, entry_point, entry_is_offset, segments,
        dylib_deps: vec![], rpaths: vec![], chained_fixups: None, exports_trie: None, data: vec![], slide: 0,
    }
}

#[test]
fn protections() {
    assert_eq!(macho_prot_to_linux(1), 1);
    assert_eq!(macho_prot_to_linux(5), 5);
    assert_eq!(macho_prot_to_linux(7), 7);
    assert_eq!(macho_prot_to_linux(0x8 | 3), 3);
}

#[test]
fn slides_and_regions() {
    let exe = binary(vec![seg("__PAGEZERO", 0, 0x1_0000_0000, 0, 0, 0), seg("__TEXT", 0x1_0000_0000, 0x4000, 0, 0x4000, 5)], 0x1000, true);
    assert!(!needs_slide(&exe));
    let lib = binary(vec![seg("__TEXT", 0, 0x4000, 0, 0x4000, 5), seg("__DATA", 0x4000, 0x2000, 0x4000, 0x1000, 3)], 0, true);
    assert!(needs_slide(&lib));
    assert!(check_segments_fit(&lib.segments));
    assert_eq!(slide_region_size(&lib.segments).unwrap(), 0x6000);
    let empty = binary(vec![seg("__PAGEZERO", 0, 0x1000, 0, 0, 0)], 0, true);
    assert!(matches!(slide_region_size(&empty.segments), Err(LoaderError::Mmap(_))));
    assert!(!check_segments_fit(&vec![seg("__X", u64::MAX, 2, 0, 0, 0)]));
}

#[test]
fn segment_maps() {
    let s = seg("__DATA", 0x4000, 0x2000, 0x100, 0x80, 3);
    let m = segment_map(&s, 0x7000_0000, 0x1000).unwrap();
    assert_eq!(m.addr, 0x7000_4000);
    assert_eq!(m.size, 0x2000);
    assert_eq!(m.copy, Some((0x100, 0x80)));
    assert_eq!(m.prot, 3);
    // file bytes past the data are not copied
    assert_eq!(segment_map(&s, 0, 0x120).unwrap().copy, None);
    assert!(segment_map(&seg("__EMPTY", 0, 0, 0, 0, 0), 0, 0).is_none());
}

#[test]
fn entry_points() {
    let exe = binary(vec![seg("__TEXT", 0x1_0000_0000, 0x4000, 0, 0x4000, 5)], 0x1230, true);
    assert_eq!(entry_address(&exe, 0).unwrap(), 0x1_0000_1230);
    let thread = binary(vec![], 0x40_1000, false);
    assert_eq!(entry_address(&thread, 0x1000).unwrap(), 0x40_2000);
    let no_text = binary(vec![], 0x10, true);
    assert!(matches!(entry_address(&no_text, 0), Err(LoaderError::NoTextSegment)));
}
