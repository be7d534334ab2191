//! Verified core of a Darwin-on-Linux binary loader: Mach-O parsing,
//! chained fixups, dylib resolution, symbol binding decisions, Mach port
//! bookkeeping and Darwin-to-Linux syscall translation; and of the
//! frameworks it provides: the Objective-C runtime's tables, the run loop,
//! the notification center, the pasteboard, bundles and pixel surfaces.

pub mod assoc;
pub mod binding;
pub mod bundle;
pub mod bytes;
pub mod cf;
pub mod clipboard;
pub mod darwin_abi;
pub mod deps;
pub mod dispatch;
pub mod events;
pub mod fixups;
pub mod link_tables;
pub mod linker;
pub mod mach_ipc;
pub mod macho;
pub mod mapping;
pub mod notification;
pub mod objc;
pub mod pasteboard;
pub mod pixels;
pub mod resolver;
pub mod runloop;
pub mod swift_string;
pub mod syscall;
pub mod text;
