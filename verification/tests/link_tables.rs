use grafted::binding::import_bindings;
use grafted::link_tables::{binds_within_tables_check, exports_within_tables_check};
use grafted::linker::find_symbol_in_binary;
use grafted::macho::MachOBinary;

fn name16(s: &str) -> [u8; 16] {
    let mut n = [0u8; 16];
    n[..s.len()].copy_from_slice(s.as_bytes());
    n
}

fn segment(d: &mut Vec<u8>, name: &str, vmaddr: u64, fileoff: u64) {
    d.extend_from_slice(&0x19u32.to_le_bytes());
    d.extend_from_slice(&72u32.to_le_bytes());
    d.extend_from_slice(&name16(name));
    for q in [vmaddr, 0x1000, fileoff, 0] {
        d.extend_from_slice(&q.to_le_bytes());
    }
    for w in [5u32, 5, 0, 0] {
        d.extend_from_slice(&w.to_le_bytes());
    }
}

/// An x86_64 dylib with __TEXT at 0x1_0000_0000, __DATA at 0x1_0000_1000,
/// one dependency "/usr/lib/libz" and an LC_DYLD_INFO_ONLY naming `binds`
/// as its bind stream and `trie` as its export trie.
fn image(binds: &[u8], trie: &[u8]) -> Vec<u8> {
    let dylib_size = 24 + 16;
    let sizeofcmds = 72 * 2 + dylib_size + 48;
    let mut d = Vec::new();
    for w in [0xfeed_facfu32, 0x0100_0007, 3, 6, 4, sizeofcmds, 0, 0] {
        d.extend_from_slice(&w.to_le_bytes());
    }
    segment(&mut d, "__TEXT", 0x1_0000_0000, 0);
    segment(&mut d, "__DATA", 0x1_0000_1000, 0x1000);
    for w in [0xcu32, dylib_size, 24, 0, 0, 0] {
        d.extend_from_slice(&w.to_le_bytes());
    }
    d.extend_from_slice(&name16("/usr/lib/libz"));
    let payload = 32 + sizeofcmds as usize;
    let bind_off = payload as u32;
    let trie_off = (payload + binds.len()) as u32;
    for w in [0x8000_0022u32, 48, 0, 0, bind_off, binds.len() as u32, 0, 0, 0, 0, trie_off, trie.len() as u32] {
        d.extend_from_slice(&w.to_le_bytes());
    }
    d.extend_from_slice(binds);
    d.extend_from_slice(trie);
    d
}

/// Bind "_f" from library 1 at __DATA + 0x10.
const GOOD_BINDS: [u8; 10] = [0x11, 0x40, b'_', b'f', 0, 0x51, 0x71, 0x10, 0x90, 0x00];

/// A root with one branch "_g" to a terminal node exporting offset 0x20.
const GOOD_TRIE: [u8; 10] = [0x00, 0x01, b'_', b'g', 0, 6, 0x02, 0x00, 0x20, 0x00];

#[test]
fn well_formed_tables_are_read_through_goblin() {
    let data = image(&GOOD_BINDS, &GOOD_TRIE);
    assert!(binds_within_tables_check(&data));
    assert!(exports_within_tables_check(&data));
    let imports = import_bindings(&data).unwrap();
    assert_eq!(imports.len(), 1);
    assert_eq!(imports[0].address, 0x1_0000_1010);
    assert_eq!(imports[0].dylib, "/usr/lib/libz");
    assert_eq!(imports[0].symbol, "_f");
    assert!(!imports[0].is_weak);
    let b = MachOBinary::parse("/usr/lib/libg.dylib".to_string(), data).unwrap();
    assert_eq!(find_symbol_in_binary(&b, "_g"), Some(0x1_0000_0020));
}

#[test]
fn bind_past_the_segment_table_is_refused() {
    // segment index 5 of 2
    let binds = [0x11, 0x40, b'_', b'f', 0, 0x75, 0x10, 0x90, 0x00];
    let data = image(&binds, &GOOD_TRIE);
    assert!(!binds_within_tables_check(&data));
    match import_bindings(&data) {
        Err(grafted::linker::LinkError::Parse(m)) => {
            assert_eq!(m, "bind opcodes reach past the image's segment or library tables")
        }
        other => panic!("unexpected {other:?}"),
    }
}

#[test]
fn bind_past_the_library_table_is_refused() {
    // library ordinal 9 of 2 ("self" and /usr/lib/libz)
    let binds = [0x19, 0x40, b'_', b'f', 0, 0x71, 0x10, 0x90, 0x00];
    let data = image(&binds, &GOOD_TRIE);
    assert!(!binds_within_tables_check(&data));
    assert!(import_bindings(&data).is_err());
}

#[test]
fn bind_offset_past_u64_is_refused() {
    // segment offset 2^64 - 8 added to __DATA's address
    let binds = [0x11, 0x71, 0xf8, 0xff, 0xff, 0xff, 0xff, 0xff, 0xff, 0xff, 0xff, 0x01, 0x90];
    let data = image(&binds, &GOOD_TRIE);
    assert!(!binds_within_tables_check(&data));
}

#[test]
fn truncated_bind_stream_stops_with_goblin() {
    // an unfinished LEB128 at the end: goblin stops with its own error
    let binds = [0x71, 0x80];
    let data = image(&binds, &[]);
    assert!(binds_within_tables_check(&data));
    assert!(import_bindings(&data).is_err());
}

#[test]
fn looping_trie_is_refused() {
    // the terminal node's only child points back at the root
    let trie = [0x00, 0x01, b'_', b'g', 0, 6, 0x02, 0x00, 0x20, 0x01, b'x', 0, 0x00];
    let data = image(&GOOD_BINDS, &trie);
    assert!(!exports_within_tables_check(&data));
    let b = MachOBinary::parse("/usr/lib/libg.dylib".to_string(), data).unwrap();
    assert_eq!(find_symbol_in_binary(&b, "_g"), None);
}

#[test]
fn reexport_past_the_library_table_is_refused() {
    // terminal "_g" re-exported (flags 8) from library ordinal 7
    let trie = [0x00, 0x01, b'_', b'g', 0, 6, 0x04, 0x08, 0x07, b'h', 0, 0x00];
    let data = image(&GOOD_BINDS, &trie);
    assert!(!exports_within_tables_check(&data));
    // ordinal 1 is within the list
    let ok = [0x00, 0x01, b'_', b'g', 0, 6, 0x04, 0x08, 0x01, b'h', 0, 0x00];
    assert!(exports_within_tables_check(&image(&GOOD_BINDS, &ok)));
}

#[test]
fn images_without_dyld_info_pass_both_checks() {
    let mut d = Vec::new();
    for w in [0xfeed_facfu32, 0x0100_0007, 3, 2, 0, 0, 0, 0] {
        d.extend_from_slice(&w.to_le_bytes());
    }
    assert!(binds_within_tables_check(&d));
    assert!(exports_within_tables_check(&d));
    assert!(binds_within_tables_check(&[1, 2, 3]));
}
