use grafted::macho::{entry_fits_check, LoaderError, MachOBinary};
use grafted::binding::{import_bindings, initializer_plan, nl_symbol_slots, objc_classlists, go_settls_address, swift_metadata_sections};

#[test]
fn test_not_macho() {
    let result = MachOBinary::parse("test".into(), vec![0x00, 0x01, 0x02, 0x03]);
    assert!(result.is_err());
}

/// A Mach-O 64 header with no load commands.
fn empty_image(cputype: u32) -> Vec<u8> {
    let mut d = Vec::new();
    for w in [0xfeed_facfu32, cputype, 3, 2, 0, 0, 0, 0] {
        d.extend_from_slice(&w.to_le_bytes());
    }
    d
}

#[test]
fn empty_x86_64_image_parses() {
    let b = MachOBinary::parse("/bin/empty".to_string(), empty_image(0x0100_0007)).unwrap();
    assert_eq!(b.file_type, 2);
    assert_eq!(b.cpu_type, 0x0100_0007);
    assert!(b.segments.is_empty());
    assert!(b.dylib_deps.is_empty());
    assert_eq!(b.path, "/bin/empty");
    assert_eq!(b.slide, 0);
}

#[test]
fn other_cpu_is_refused() {
    match MachOBinary::parse("arm".to_string(), empty_image(0x0100_000c)) {
        Err(LoaderError::UnsupportedCpuType(c)) => assert_eq!(c, 0x0100_000c),
        other => panic!("unexpected {other:?}"),
    }
}

#[test]
fn truncated_fat_slice_is_reported() {
    // fat header naming one x86_64 slice at offset 4096, far past the data
    let mut d = Vec::new();
    for w in [0xcafe_babeu32, 1, 0x0100_0007, 3, 4096, 4096, 12] {
        d.extend_from_slice(&w.to_be_bytes());
    }
    assert!(MachOBinary::parse_checked("fat".to_string(), d).is_none());
}

#[test]
fn empty_image_has_nothing_to_bind() {
    let data = empty_image(0x0100_0007);
    assert!(import_bindings(&data).unwrap().is_empty());
    assert!(nl_symbol_slots(&data).unwrap().is_empty());
    assert!(initializer_plan(&data).unwrap().is_empty());
    assert_eq!(go_settls_address(&data), None);
    let b = MachOBinary::parse("/bin/empty".to_string(), data).unwrap();
    assert!(objc_classlists(&b).unwrap().is_empty());
}

#[test]
fn garbage_is_a_parse_error_for_binding() {
    let data = vec![1u8, 2, 3, 4, 5, 6, 7, 8];
    assert!(import_bindings(&data).is_err());
    assert!(nl_symbol_slots(&data).is_err());
    assert!(initializer_plan(&data).is_err());
}

fn name16(s: &str) -> [u8; 16] {
    let mut n = [0u8; 16];
    n[..s.len()].copy_from_slice(s.as_bytes());
    n
}

/// An x86_64 executable with one __DATA segment holding the thread-local
/// initial values (16 bytes) and zero-filled thread-locals (32 bytes).
fn tlv_image() -> Vec<u8> {
    let mut d = Vec::new();
    for w in [0xfeed_facfu32, 0x0100_0007, 3, 2, 1, 72 + 2 * 80, 0, 0] {
        d.extend_from_slice(&w.to_le_bytes());
    }
    d.extend_from_slice(&0x19u32.to_le_bytes());
    d.extend_from_slice(&(72u32 + 2 * 80).to_le_bytes());
    d.extend_from_slice(&name16("__DATA"));
    for q in [0x1000u64, 0x1000, 0, 0] {
        d.extend_from_slice(&q.to_le_bytes());
    }
    for w in [3u32, 3, 2, 0] {
        d.extend_from_slice(&w.to_le_bytes());
    }
    for (sect, addr, size, flags) in [("__thread_data", 0x1000u64, 0x10u64, 0x11u32), ("__thread_bss", 0x1010, 0x20, 0x12)] {
        d.extend_from_slice(&name16(sect));
        d.extend_from_slice(&name16("__DATA"));
        d.extend_from_slice(&addr.to_le_bytes());
        d.extend_from_slice(&size.to_le_bytes());
        for w in [0u32, 3, 0, 0, flags, 0, 0, 0] {
            d.extend_from_slice(&w.to_le_bytes());
        }
    }
    d
}

#[test]
fn thread_local_image_is_found() {
    let b = MachOBinary::parse("/bin/tlv".to_string(), tlv_image()).unwrap();
    assert_eq!(b.tlv_init_image(), Some((0x1000, 0x10, 0x30)));
}

#[test]
fn no_thread_locals_without_sections() {
    let b = MachOBinary::parse("/bin/empty".to_string(), empty_image(0x0100_0007)).unwrap();
    assert_eq!(b.tlv_init_image(), None);
}

/// An executable with one segment `seg` at `vmaddr` holding the given
/// (name, address, size) sections.
fn image_with_sections(seg: &str, vmaddr: u64, sects: &[(&str, u64, u64)]) -> Vec<u8> {
    let n = sects.len() as u32;
    let mut d = Vec::new();
    for w in [0xfeed_facfu32, 0x0100_0007, 3, 2, 1, 72 + n * 80, 0, 0] {
        d.extend_from_slice(&w.to_le_bytes());
    }
    d.extend_from_slice(&0x19u32.to_le_bytes());
    d.extend_from_slice(&(72 + n * 80).to_le_bytes());
    d.extend_from_slice(&name16(seg));
    for q in [vmaddr, 0x1000, 0, 0] {
        d.extend_from_slice(&q.to_le_bytes());
    }
    for w in [5u32, 5, n, 0] {
        d.extend_from_slice(&w.to_le_bytes());
    }
    for (sect, addr, size) in sects {
        d.extend_from_slice(&name16(sect));
        d.extend_from_slice(&name16(seg));
        d.extend_from_slice(&addr.to_le_bytes());
        d.extend_from_slice(&size.to_le_bytes());
        for w in [0u32, 2, 0, 0, 0, 0, 0, 0] {
            d.extend_from_slice(&w.to_le_bytes());
        }
    }
    d
}

#[test]
fn swift_sections_are_found_by_name() {
    let data = image_with_sections(
        "__TEXT",
        0x1_0000_0000,
        &[("__swift5_types", 0x1_0000_0100, 0x20), ("__swift5_proto", 0x1_0000_0200, 0x8)],
    );
    let b = MachOBinary::parse("/bin/swifty".to_string(), data).unwrap();
    let w = swift_metadata_sections(&b).unwrap();
    assert_eq!(w.base_address, 0x1_0000_0000);
    assert!(w.any);
    assert_eq!(w.ranges.len(), 11);
    assert_eq!(w.ranges[0], (0, 0));
    assert_eq!(w.ranges[1], (0x1_0000_0200, 0x8));
    assert_eq!(w.ranges[2], (0x1_0000_0100, 0x20));
    assert!(w.ranges[3..].iter().all(|r| *r == (0, 0)));
}

#[test]
fn no_swift_sections_in_plain_image() {
    let b = MachOBinary::parse("/bin/empty".to_string(), empty_image(0x0100_0007)).unwrap();
    let w = swift_metadata_sections(&b).unwrap();
    assert!(!w.any);
    assert_eq!(w.base_address, 0);
}

/// An x86_64 executable with a __TEXT segment at `vmaddr` (file offset
/// `fileoff`) and an LC_MAIN naming `entryoff`.
fn main_image(vmaddr: u64, fileoff: u64, entryoff: u64) -> Vec<u8> {
    let mut d = Vec::new();
    for w in [0xfeed_facfu32, 0x0100_0007, 3, 2, 2, 72 + 24, 0, 0] {
        d.extend_from_slice(&w.to_le_bytes());
    }
    d.extend_from_slice(&0x19u32.to_le_bytes());
    d.extend_from_slice(&72u32.to_le_bytes());
    d.extend_from_slice(&name16("__TEXT"));
    for q in [vmaddr, 0x1000, fileoff, 0] {
        d.extend_from_slice(&q.to_le_bytes());
    }
    for w in [5u32, 5, 0, 0] {
        d.extend_from_slice(&w.to_le_bytes());
    }
    d.extend_from_slice(&0x8000_0028u32.to_le_bytes());
    d.extend_from_slice(&24u32.to_le_bytes());
    d.extend_from_slice(&entryoff.to_le_bytes());
    d.extend_from_slice(&0u64.to_le_bytes());
    d
}

#[test]
fn entry_inside_address_space_parses() {
    let data = main_image(0x1_0000_0000, 0, 0x1000);
    assert!(entry_fits_check(&data));
    let b = MachOBinary::parse("/bin/main".to_string(), data).unwrap();
    assert_eq!(b.entry_point, 0x1000);
    assert!(b.entry_is_offset);
}

#[test]
fn entry_outside_address_space_is_refused() {
    // __TEXT's vmaddr below its file offset
    let data = main_image(0, 0x1000, 0x100);
    assert!(!entry_fits_check(&data));
    match MachOBinary::parse("/bin/bad".to_string(), data.clone()) {
        Err(LoaderError::Parse(m)) => assert_eq!(m, "image entry point lies outside the address space"),
        other => panic!("unexpected {other:?}"),
    }
    assert!(import_bindings(&data).is_err());
    assert_eq!(go_settls_address(&data), None);
    // base plus entry offset past 2^64
    let data2 = main_image(u64::MAX - 0x10, 0, 0x100);
    assert!(!entry_fits_check(&data2));
    assert!(nl_symbol_slots(&data2).is_err());
}
