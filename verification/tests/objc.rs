use grafted::binding::{class_data_pointer, method_entry_address, method_list_layout, method_list_pointer, relative_target, go_settls_patch};

#[test]
fn tag_bits_are_cleared() {
    assert_eq!(class_data_pointer(0x1000_0007), 0x1000_0000);
    assert_eq!(class_data_pointer(0x1234_5678), 0x1234_5678);
    assert_eq!(method_list_pointer(0x2003), 0x2000);
    assert_eq!(method_list_pointer(0x2004), 0x2004);
}

#[test]
fn method_list_headers() {
    let l = method_list_layout(0x8000_000c, 3, 500).unwrap();
    assert!(l.relative);
    assert_eq!(l.entsize, 12);
    assert_eq!(l.count, 3);
    let a = method_list_layout(24, 10, 200).unwrap();
    assert!(!a.relative);
    assert_eq!(a.entsize, 24);
    assert!(method_list_layout(24, 501, 500).is_none());
    assert!(method_list_layout(0, 1, 500).is_none());
    assert!(method_list_layout(65, 1, 500).is_none());
    assert!(method_list_layout(0x8000_0000, 1, 500).is_none());
}

#[test]
fn entry_and_relative_addresses() {
    assert_eq!(method_entry_address(0x1000, 0, 12), 0x1008);
    assert_eq!(method_entry_address(0x1000, 2, 24), 0x1038);
    assert_eq!(relative_target(0x1000, -16), 0xff0);
    assert_eq!(relative_target(0x1000, 0x20), 0x1020);
    assert_eq!(relative_target(0, -1), u64::MAX);
}

#[test]
fn settls_patch_bytes() {
    let p = go_settls_patch();
    assert_eq!(p.len(), 17);
    assert_eq!(p[0], 0x48);
    assert_eq!(&p[14..], &[0x0f, 0x05, 0xc3]);
}

use grafted::objc::{MethodImp, ObjcRuntime};

fn mock_method(arg1: usize) -> usize {
    arg1 + 42
}

#[test]
fn test_objc_msgsend() {
    let mut rt = ObjcRuntime::new();
    let cls_ptr: u64 = 0x7000_0000;
    let obj_ptr: u64 = 0x7100_0000;
    let sel: u64 = 0xdeadbeef;
    let mock_imp: u64 = 0x4242;
    assert!(rt.add_method(cls_ptr, sel, mock_imp));
    let found = rt.lookup_method(obj_ptr, cls_ptr, sel, b"mock:");
    let result = match found {
        Some(MethodImp::Registered(imp)) if imp == mock_imp => mock_method(100),
        _ => 0,
    };
    assert_eq!(result, 142);
}

#[test]
fn add_method_keeps_the_first() {
    let mut rt = ObjcRuntime::new();
    assert!(rt.add_method(1, 2, 3));
    assert!(!rt.add_method(1, 2, 4));
    assert_eq!(rt.lookup_method(1, 0, 2, b""), Some(MethodImp::Registered(3)));
}

#[test]
fn nil_receiver_gets_nothing() {
    let rt = ObjcRuntime::new();
    assert_eq!(rt.lookup_method(0, 0x7000_0000, 0x5000, b"init"), None);
}

#[test]
fn insane_isa_is_not_searched() {
    let mut rt = ObjcRuntime::new();
    rt.add_method(0x800, 0x5000, 9);
    assert_eq!(rt.lookup_method(0x9000_0000, 0x800, 0x5000, b"frob"), Some(MethodImp::ReturnNull));
}

#[test]
fn selector_found_by_name_through_registered_pointer() {
    let mut rt = ObjcRuntime::new();
    let canonical = rt.register_selector(&"doThing:".to_string(), 0x9000);
    assert_eq!(canonical, 0x9000);
    assert_eq!(rt.register_selector(&"doThing:".to_string(), 0x9999), 0x9000);
    rt.add_method(0x7000_0000, canonical, 77);
    // The binary's own pointer for the same name.
    assert_eq!(rt.lookup_method(0x7100_0000, 0x7000_0000, 0x1_2000, b"doThing:"), Some(MethodImp::Registered(77)));
    assert_eq!(rt.lookup_method(0x7100_0000, 0x7000_0000, 0x1_2000, b"other:"), Some(MethodImp::ReturnNull));
}

#[test]
fn builtin_answers() {
    let rt = ObjcRuntime::new();
    let send = |name: &[u8]| rt.lookup_method(0x7100_0000, 0x7000_0000, 0x1_2000, name);
    assert_eq!(send(b"alloc"), Some(MethodImp::Alloc));
    assert_eq!(send(b"allocWithZone:"), Some(MethodImp::Alloc));
    assert_eq!(send(b"init"), Some(MethodImp::ReturnSelf));
    assert_eq!(send(b"retain"), Some(MethodImp::ReturnSelf));
    assert_eq!(send(b"release"), Some(MethodImp::Noop));
    assert_eq!(send(b"isKindOfClass:"), Some(MethodImp::ReturnFalse));
    assert_eq!(send(b"description"), Some(MethodImp::ReturnNull));
    assert_eq!(send(b"count"), Some(MethodImp::ReturnZero));
    assert_eq!(send(b"somethingElse"), Some(MethodImp::ReturnNull));
    assert_eq!(send(&[0xff, 0xfe]), Some(MethodImp::ReturnNull));
}

#[test]
fn classes_by_name() {
    let mut rt = ObjcRuntime::new();
    assert_eq!(rt.get_class(&"NSObject".to_string()), 0);
    rt.register_class("NSObject".to_string(), 0x100);
    rt.register_class("NSView".to_string(), 0x200);
    assert_eq!(rt.get_class(&"NSObject".to_string()), 0x100);
    rt.register_class("NSObject".to_string(), 0x300);
    assert_eq!(rt.get_class(&"NSObject".to_string()), 0x300);
    assert_eq!(rt.get_class(&"NSView".to_string()), 0x200);
}

#[test]
fn pointer_match_needs_no_selector_name() {
    let mut rt = ObjcRuntime::new();
    assert!(rt.add_method(0x7000_0000, 0xdeadbeef, 0x4242));
    // on the class through the instance's isa, and on the receiver itself
    assert_eq!(rt.direct(0x7100_0000, 0x7000_0000, 0xdeadbeef), Some(0x4242));
    assert_eq!(rt.direct(0x7000_0000, 0, 0xdeadbeef), Some(0x4242));
    assert_eq!(rt.direct(0x7100_0000, 0x7000_0000, 0xbeef), None);
    // an insane isa is not followed
    assert_eq!(rt.direct(0x7100_0000, 0x10, 0xdeadbeef), None);
}
