use grafted::cf::{cf_equal, cf_kind, CFKind, CFRuntimeBase, CF_STRING_TYPE_ID};
use grafted::events::{CGColorSpaceModel, NSEventType};
use grafted::swift_string::DarwinString;

#[test]
fn cf_reference_counting() {
    let mut b = CFRuntimeBase::new(0x1_0007);
    assert_eq!(b.type_id(), 7);
    assert_eq!(b.refcount, 1);
    b.retain();
    assert_eq!(b.refcount, 2);
    assert!(!b.release());
    assert!(b.release());
    assert_eq!(b.refcount, 0);
}

#[test]
fn cf_kinds_and_equality() {
    assert_eq!(cf_kind(7), CFKind::String);
    assert_eq!(cf_kind(18), CFKind::Dictionary);
    assert_eq!(cf_kind(19), CFKind::Array);
    assert_eq!(cf_kind(20), CFKind::Data);
    assert_eq!(cf_kind(22), CFKind::Base);
    assert!(cf_equal(true, true, 1, 2, b"", b"x"));
    assert!(cf_equal(false, true, CF_STRING_TYPE_ID, CF_STRING_TYPE_ID, b"abc", b"abc"));
    assert!(!cf_equal(false, true, CF_STRING_TYPE_ID, CF_STRING_TYPE_ID, b"abc", b"abd"));
    assert!(!cf_equal(false, true, 22, 22, b"", b""));
    assert!(!cf_equal(false, false, CF_STRING_TYPE_ID, CF_STRING_TYPE_ID, b"", b""));
}

#[test]
fn event_and_color_raw_values() {
    assert_eq!(NSEventType::KeyDown.raw_value(), 10);
    assert_eq!(NSEventType::ScrollWheel.raw_value(), 22);
    assert_eq!(NSEventType::from_raw(26), Some(NSEventType::OtherMouseUp));
    assert_eq!(NSEventType::from_raw(16), None);
    assert_eq!(NSEventType::from_raw(NSEventType::MouseMoved.raw_value()), Some(NSEventType::MouseMoved));
    assert_eq!(CGColorSpaceModel::Unknown.raw_value(), u32::MAX);
    assert_eq!(CGColorSpaceModel::from_raw(1), Some(CGColorSpaceModel::RGB));
    assert_eq!(CGColorSpaceModel::from_raw(7), None);
}

#[test]
fn swift_small_strings() {
    // "hi" as a Darwin small string: bytes in word0, count 2 in word1's top byte 0xE2
    let d = DarwinString { word0: 0x6968, word1: 0xE200_0000_0000_0000 };
    assert!(d.is_small());
    assert!(d.is_bridged());
    let l = d.to_linux_string(&[]);
    assert_eq!(l.word0, 0x6968);
    assert_eq!(l.word1, 0xE200_0000_0000_0000);
    // a bridged string takes at most 15 bytes of its NSString
    let b = DarwinString { word0: 0x1000, word1: 0x4000_0000_0000_0000 };
    assert!(b.is_bridged());
    let l2 = b.to_linux_string(b"abcdefghijklmnopq");
    assert_eq!(l2.word0, u64::from_le_bytes(*b"abcdefgh"));
    assert_eq!(l2.word1, u64::from_le_bytes([b'i', b'j', b'k', b'l', b'm', b'n', b'o', 0xEF]));
    // anything else passes through
    let other = DarwinString { word0: 5, word1: 0x1000 };
    let l3 = other.to_linux_string(&[]);
    assert_eq!((l3.word0, l3.word1), (5, 0x1000));
}
