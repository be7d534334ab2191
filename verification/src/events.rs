//! AppKit event types and CoreGraphics color space models, with the raw
//! values they have in Darwin's ABI.

use vstd::prelude::*;

verus! {

/// NSEventType.
#[derive(Clone, Copy, Debug, PartialEq, Eq, Structural)]
pub enum NSEventType {
    LeftMouseDown,
    LeftMouseUp,
    RightMouseDown,
    RightMouseUp,
    MouseMoved,
    LeftMouseDragged,
    RightMouseDragged,
    MouseEntered,
    MouseExited,
    KeyDown,
    KeyUp,
    FlagsChanged,
    AppKitDefined,
    SystemDefined,
    ApplicationDefined,
    ScrollWheel,
    OtherMouseDown,
    OtherMouseUp,
}

/// The raw NSEventType values, in declaration order.
pub open spec fn event_raw(t: NSEventType) -> u64 {
    match t {
        NSEventType::LeftMouseDown => 1,
        NSEventType::LeftMouseUp => 2,
        NSEventType::RightMouseDown => 3,
        NSEventType::RightMouseUp => 4,
        NSEventType::MouseMoved => 5,
        NSEventType::LeftMouseDragged => 6,
        NSEventType::RightMouseDragged => 7,
        NSEventType::MouseEntered => 8,
        NSEventType::MouseExited => 9,
        NSEventType::KeyDown => 10,
        NSEventType::KeyUp => 11,
        NSEventType::FlagsChanged => 12,
        NSEventType::AppKitDefined => 13,
        NSEventType::SystemDefined => 14,
        NSEventType::ApplicationDefined => 15,
        NSEventType::ScrollWheel => 22,
        NSEventType::OtherMouseDown => 25,
        NSEventType::OtherMouseUp => 26,
    }
}

impl NSEventType {
    pub fn raw_value(&self) -> (r: u64)
        ensures
            r == event_raw(*self),
    {
        match self {
            NSEventType::LeftMouseDown => 1,
            NSEventType::LeftMouseUp => 2,
            NSEventType::RightMouseDown => 3,
            NSEventType::RightMouseUp => 4,
            NSEventType::MouseMoved => 5,
            NSEventType::LeftMouseDragged => 6,
            NSEventType::RightMouseDragged => 7,
            NSEventType::MouseEntered => 8,
            NSEventType::MouseExited => 9,
            NSEventType::KeyDown => 10,
            NSEventType::KeyUp => 11,
            NSEventType::FlagsChanged => 12,
            NSEventType::AppKitDefined => 13,
            NSEventType::SystemDefined => 14,
            NSEventType::ApplicationDefined => 15,
            NSEventType::ScrollWheel => 22,
            NSEventType::OtherMouseDown => 25,
            NSEventType::OtherMouseUp => 26,
        }
    }

    /// The event type with a raw value, if any has it.
    pub fn from_raw(raw: u64) -> (r: Option<NSEventType>)
        ensures
            r matches Some(t) ==> event_raw(t) == raw,
            r is None ==> forall|t: NSEventType| event_raw(t) != raw,
    {
        if raw == 1 { Some(NSEventType::LeftMouseDown) }
        else if raw == 2 { Some(NSEventType::LeftMouseUp) }
        else if raw == 3 { Some(NSEventType::RightMouseDown) }
        else if raw == 4 { Some(NSEventType::RightMouseUp) }
        else if raw == 5 { Some(NSEventType::MouseMoved) }
        else if raw == 6 { Some(NSEventType::LeftMouseDragged) }
        else if raw == 7 { Some(NSEventType::RightMouseDragged) }
        else if raw == 8 { Some(NSEventType::MouseEntered) }
        else if raw == 9 { Some(NSEventType::MouseExited) }
        else if raw == 10 { Some(NSEventType::KeyDown) }
        else if raw == 11 { Some(NSEventType::KeyUp) }
        else if raw == 12 { Some(NSEventType::FlagsChanged) }
        else if raw == 13 { Some(NSEventType::AppKitDefined) }
        else if raw == 14 { Some(NSEventType::SystemDefined) }
        else if raw == 15 { Some(NSEventType::ApplicationDefined) }
        else if raw == 22 { Some(NSEventType::ScrollWheel) }
        else if raw == 25 { Some(NSEventType::OtherMouseDown) }
        else if raw == 26 { Some(NSEventType::OtherMouseUp) }
        else { None }
    }
}

/// Distinct event types have distinct raw values, so a raw value names at
/// most one type, and reading back a type's raw value gives that type.
pub proof fn lemma_event_raw_injective(a: NSEventType, b: NSEventType)
    ensures
        event_raw(a) == event_raw(b) ==> a == b,
{
}

/// Modifier flag bits of an event.
pub const NS_EVENT_MODIFIER_FLAG_CAPS_LOCK: u64 = 0x1_0000;
pub const NS_EVENT_MODIFIER_FLAG_SHIFT: u64 = 0x2_0000;
pub const NS_EVENT_MODIFIER_FLAG_CONTROL: u64 = 0x4_0000;
pub const NS_EVENT_MODIFIER_FLAG_OPTION: u64 = 0x8_0000;
pub const NS_EVENT_MODIFIER_FLAG_COMMAND: u64 = 0x10_0000;

/// CGColorSpaceModel.
#[derive(Clone, Copy, Debug, PartialEq, Eq, Structural)]
pub enum CGColorSpaceModel {
    Unknown,
    Monochrome,
    RGB,
    CMYK,
    Lab,
    DeviceN,
    Indexed,
    Pattern,
}

/// The raw CGColorSpaceModel values: Unknown is -1 as a u32.
pub open spec fn color_model_raw(m: CGColorSpaceModel) -> u32 {
    match m {
        CGColorSpaceModel::Unknown => 0xFFFF_FFFF,
        CGColorSpaceModel::Monochrome => 0,
        CGColorSpaceModel::RGB => 1,
        CGColorSpaceModel::CMYK => 2,
        CGColorSpaceModel::Lab => 3,
        CGColorSpaceModel::DeviceN => 4,
        CGColorSpaceModel::Indexed => 5,
        CGColorSpaceModel::Pattern => 6,
    }
}

impl CGColorSpaceModel {
    pub fn raw_value(&self) -> (r: u32)
        ensures
            r == color_model_raw(*self),
    {
        match self {
            CGColorSpaceModel::Unknown => 0xFFFF_FFFF,
            CGColorSpaceModel::Monochrome => 0,
            CGColorSpaceModel::RGB => 1,
            CGColorSpaceModel::CMYK => 2,
            CGColorSpaceModel::Lab => 3,
            CGColorSpaceModel::DeviceN => 4,
            CGColorSpaceModel::Indexed => 5,
            CGColorSpaceModel::Pattern => 6,
        }
    }

    pub fn from_raw(raw: u32) -> (r: Option<CGColorSpaceModel>)
        ensures
            r matches Some(m) ==> color_model_raw(m) == raw,
            r is None ==> forall|m: CGColorSpaceModel| color_model_raw(m) != raw,
    {
        if raw == 0xFFFF_FFFF { Some(CGColorSpaceModel::Unknown) }
        else if raw == 0 { Some(CGColorSpaceModel::Monochrome) }
        else if raw == 1 { Some(CGColorSpaceModel::RGB) }
        else if raw == 2 { Some(CGColorSpaceModel::CMYK) }
        else if raw == 3 { Some(CGColorSpaceModel::Lab) }
        else if raw == 4 { Some(CGColorSpaceModel::DeviceN) }
        else if raw == 5 { Some(CGColorSpaceModel::Indexed) }
        else if raw == 6 { Some(CGColorSpaceModel::Pattern) }
        else { None }
    }
}

/// Distinct color space models have distinct raw values.
pub proof fn lemma_color_model_raw_injective(a: CGColorSpaceModel, b: CGColorSpaceModel)
    ensures
        color_model_raw(a) == color_model_raw(b) ==> a == b,
{
}

/// The event types carry AppKit's NSEventType numbers (NSEventTypeKeyDown
/// is 10, NSEventTypeScrollWheel 22, and so on).
pub proof fn law_event_types_carry_appkit_numbers()
    ensures
        event_raw(NSEventType::LeftMouseDown) == 1,
        event_raw(NSEventType::LeftMouseUp) == 2,
        event_raw(NSEventType::RightMouseDown) == 3,
        event_raw(NSEventType::RightMouseUp) == 4,
        event_raw(NSEventType::MouseMoved) == 5,
        event_raw(NSEventType::LeftMouseDragged) == 6,
        event_raw(NSEventType::RightMouseDragged) == 7,
        event_raw(NSEventType::MouseEntered) == 8,
        event_raw(NSEventType::MouseExited) == 9,
        event_raw(NSEventType::KeyDown) == 10,
        event_raw(NSEventType::KeyUp) == 11,
        event_raw(NSEventType::FlagsChanged) == 12,
        event_raw(NSEventType::AppKitDefined) == 13,
        event_raw(NSEventType::SystemDefined) == 14,
        event_raw(NSEventType::ApplicationDefined) == 15,
        event_raw(NSEventType::ScrollWheel) == 22,
        event_raw(NSEventType::OtherMouseDown) == 25,
        event_raw(NSEventType::OtherMouseUp) == 26,
{
}

/// The color space models carry CoreGraphics' CGColorSpaceModel numbers
/// (kCGColorSpaceModelUnknown is -1).
pub proof fn law_color_models_carry_coregraphics_numbers()
    ensures
        color_model_raw(CGColorSpaceModel::Unknown) == 0xFFFF_FFFF,
        color_model_raw(CGColorSpaceModel::Monochrome) == 0,
        color_model_raw(CGColorSpaceModel::RGB) == 1,
        color_model_raw(CGColorSpaceModel::CMYK) == 2,
        color_model_raw(CGColorSpaceModel::Lab) == 3,
        color_model_raw(CGColorSpaceModel::DeviceN) == 4,
        color_model_raw(CGColorSpaceModel::Indexed) == 5,
        color_model_raw(CGColorSpaceModel::Pattern) == 6,
{
}

} // verus!
