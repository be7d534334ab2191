use grafted::linker::{Fallback, LinkError, Linker, fallback_request};

fn libsystem_linker() -> Linker {
    let mut linker = Linker::new();
    linker.register_symbol("/usr/lib/libSystem.B.dylib".to_string(), "_write".to_string(), libc::write as usize as u64);
    linker.register_symbol("/usr/lib/libSystem.B.dylib".to_string(), "_exit".to_string(), libc::exit as usize as u64);
    linker
}

#[test]
fn test_resolve_libsystem_write() {
    let linker = libsystem_linker();
    let addr = linker.resolve("/usr/lib/libSystem.B.dylib", "_write", false, None).unwrap();
    assert_ne!(addr, 0);
}

#[test]
fn test_resolve_short_name() {
    let linker = libsystem_linker();
    let addr = linker.resolve("libSystem.B.dylib", "_exit", false, None).unwrap();
    assert_ne!(addr, 0);
}

#[test]
fn test_weak_missing_returns_zero() {
    let linker = libsystem_linker();
    let addr = linker.resolve("/usr/lib/libSystem.B.dylib", "_nonexistent", true, None).unwrap();
    assert_eq!(addr, 0);
}

#[test]
fn test_strong_missing_errors() {
    let linker = libsystem_linker();
    let result = linker.resolve("/usr/lib/libFoo.dylib", "_bar", false, None);
    assert!(result.is_err());
}

#[test]
fn registered_symbol_is_found_again() {
    let mut linker = Linker::new();
    linker.register_symbol("/usr/lib/libz.1.dylib".to_string(), "_crc32".to_string(), 0x1234);
    assert_eq!(linker.lookup("/usr/lib/libz.1.dylib", "_crc32"), Some(0x1234));
    linker.register_symbol("/usr/lib/libz.1.dylib".to_string(), "_crc32".to_string(), 0x5678);
    assert_eq!(linker.lookup("/usr/lib/libz.1.dylib", "_crc32"), Some(0x5678));
    assert_eq!(linker.lookup("/usr/lib/libz.1.dylib", "_adler32"), None);
}

#[test]
fn unresolved_error_names_symbol_and_library() {
    let linker = Linker::new();
    match linker.resolve("/usr/lib/libFoo.dylib", "_bar", false, None) {
        Err(LinkError::Unresolved { symbol, dylib }) => {
            assert_eq!(symbol, "_bar");
            assert_eq!(dylib, "/usr/lib/libFoo.dylib");
        }
        other => panic!("unexpected {other:?}"),
    }
}

#[test]
fn fallback_answer_is_used_when_tables_miss() {
    let linker = Linker::new();
    assert_eq!(linker.resolve("/x.dylib", "_OBJC_CLASS_$_Foo", false, Some(0x4000)).unwrap(), 0x4000);
    // a zero answer from the fallback does not count
    assert!(linker.resolve("/x.dylib", "_foo", false, Some(0)).is_err());
    assert_eq!(linker.resolve("/x.dylib", "_foo", true, Some(0)).unwrap(), 0);
}

#[test]
fn external_resolution_uses_soft_stub() {
    let linker = libsystem_linker();
    assert_eq!(linker.resolve_external("/usr/lib/libFoo.dylib", "_$sSomething", None, 0xdead), 0xdead);
    assert_ne!(linker.resolve_external("/usr/lib/libSystem.B.dylib", "_write", None, 0xdead), 0xdead);
    assert_eq!(linker.bind_value("/usr/lib/libFoo.dylib", "_bar", false, None, 0xbeef), 0xbeef);
}

#[test]
fn fallback_requests() {
    assert_eq!(fallback_request("_OBJC_CLASS_$_NSObject"), Fallback::ObjcClass("NSObject".to_string()));
    assert_eq!(fallback_request("_OBJC_METACLASS_$_NSView"), Fallback::ObjcClass("NSView".to_string()));
    assert_eq!(fallback_request("_$sSS5countSivg"), Fallback::DynamicSymbol("$sSS5countSivg".to_string()));
    assert_eq!(fallback_request("$sSS5countSivg"), Fallback::DynamicSymbol("$sSS5countSivg".to_string()));
    assert_eq!(fallback_request("_swift_retain"), Fallback::DynamicSymbol("swift_retain".to_string()));
    assert_eq!(fallback_request("_malloc"), Fallback::Nothing);
}

#[test]
fn fallback_needed_only_on_a_miss() {
    let mut linker = Linker::new();
    linker.register_symbol("/usr/lib/libz.1.dylib".to_string(), "_crc32".to_string(), 0x1234);
    assert!(!linker.needs_fallback("/usr/lib/libz.1.dylib", "_crc32"));
    assert!(linker.needs_fallback("/usr/lib/libz.1.dylib", "_adler32"));
    // a hit ignores whatever the fallback would give
    assert_eq!(linker.resolve("/usr/lib/libz.1.dylib", "_crc32", false, Some(0x9999)).ok(), Some(0x1234));
}
