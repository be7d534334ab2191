//! What the executor decides around a trapped Darwin syscall: how each
//! syscall is answered, the Syscall User Dispatch range, the trampoline that
//! re-arms the selector byte, the instruction skipped after a fault, and the
//! layout of the initial process stack.

use vstd::prelude::*;
use crate::bytes::wrap64;
use crate::syscall::{DarwinSyscall, spec_translate, translate, linux_number, lemma_unix_class};
use crate::darwin_abi::{spec_open_flags, spec_mmap_flags};

verus! {

/// Selector byte values of Syscall User Dispatch.
pub const SYSCALL_DISPATCH_FILTER_ALLOW: u8 = 0;
pub const SYSCALL_DISPATCH_FILTER_BLOCK: u8 = 1;

/// Linux's ENOSYS, negated: the answer to a syscall nothing handles.
pub const ENOSYS_RESULT: i64 = -38;

// ---- Syscall User Dispatch range ----

/// The address range (offset, length) exempt from dispatch: none when the
/// Darwin image's text lies below 4 GiB (a Go binary), else the standard one
/// that leaves the loader and libc exempt.
pub open spec fn spec_sud_range(text_base: u64) -> (u64, u64) {
    if 0 < text_base < 0x1_0000_0000 { (0, 0) } else { (0x1000, 0xFFFF_F000) }
}

pub fn sud_range(text_base: u64) -> (r: (u64, u64))
    ensures
        r == spec_sud_range(text_base),
{
    if text_base > 0 && text_base < 0x1_0000_0000 {
        (0, 0)
    } else {
        (0x1000, 0xFFFF_F000)
    }
}

// ---- Answering a trapped syscall ----

/// How a trapped syscall is answered.
#[derive(Debug, Clone, Copy)]
pub enum SyscallAction {
    /// exit_group with this status: the process ends.
    ExitGroup(u64),
    /// Issue Linux syscall `nr` with these arguments; its result is the answer.
    Linux { nr: i64, args: [u64; 6] },
    /// The answer, without a syscall.
    Return(i64),
    /// mprotect(addr, size, prot); the answer is 0 on success, 1 on failure.
    Protect { addr: u64, size: u64, prot: i32 },
    /// Forward the Mach trap to the kernel module; the answer is its result,
    /// or -38 when the ioctl fails.
    MachTrap { trap_nr: u32, args: [u64; 6] },
    /// Report an unknown syscall class on stderr; the answer is -38.
    ReportUnknown,
}

/// The abstract value of a `SyscallAction`, with the arguments as a sequence.
pub enum ActionSpec {
    ExitGroup(u64),
    Linux(i64, Seq<u64>),
    Return(i64),
    Protect(u64, u64, i32),
    MachTrap(u32, Seq<u64>),
    ReportUnknown,
}

impl SyscallAction {
    pub open spec fn view(&self) -> ActionSpec {
        match *self {
            SyscallAction::ExitGroup(c) => ActionSpec::ExitGroup(c),
            SyscallAction::Linux { nr, args } => ActionSpec::Linux(nr, args@),
            SyscallAction::Return(v) => ActionSpec::Return(v),
            SyscallAction::Protect { addr, size, prot } => ActionSpec::Protect(addr, size, prot),
            SyscallAction::MachTrap { trap_nr, args } => ActionSpec::MachTrap(trap_nr, args@),
            SyscallAction::ReportUnknown => ActionSpec::ReportUnknown,
        }
    }
}

/// Darwin mmap flags as the trap path translates them: MAP_SHARED,
/// MAP_PRIVATE and MAP_FIXED kept, MAP_ANON (0x1000) to 0x20, MAP_NORESERVE
/// (0x40) to 0x4000.
pub open spec fn trap_mmap_flags(df: i32) -> i32 {
    (df & 0x1F) | (if df & 0x1000 != 0 { 0x20i32 } else { 0 }) | (if df & 0x40 != 0 { 0x4000i32 } else { 0 })
}

/// Darwin open flags as the trap path translates them: the access mode
/// kept, O_APPEND, O_NONBLOCK, O_CREAT, O_TRUNC and O_EXCL moved to their
/// Linux bits.
pub open spec fn trap_open_flags(df: i32) -> i32 {
    (df & 0x3)
        | (if df & 0x0008 != 0 { 0x0400i32 } else { 0 })
        | (if df & 0x0004 != 0 { 0x0800i32 } else { 0 })
        | (if df & 0x0200 != 0 { 0x0040i32 } else { 0 })
        | (if df & 0x0400 != 0 { 0x0200i32 } else { 0 })
        | (if df & 0x0800 != 0 { 0x0080i32 } else { 0 })
}

/// The page-aligned range covering [addr, addr + size): its start and length.
pub open spec fn spec_page_span(addr: u64, size: u64) -> (u64, u64) {
    let start = addr - addr % 4096;
    let end = wrap64(addr + size + 0xFFF);
    (start as u64, wrap64((end - end % 4096) - start))
}

/// The answer to a BSD syscall with a Linux number.
pub open spec fn unix_action(darwin_nr: u32, linux_nr: i64, args: [u64; 6]) -> ActionSpec {
    if linux_nr == 60 || linux_nr == 231 {
        ActionSpec::ExitGroup(args[0])
    } else if darwin_nr == 197 || darwin_nr == 199 {
        let lf = trap_mmap_flags(args[3] as i32);
        if args[2] == 0 && lf & 0x30 == 0x30 {
            ActionSpec::Return(if args[0] != 0 { args[0] as i64 } else { 0x7fff_0000 })
        } else {
            ActionSpec::Linux(linux_nr, args@.update(3, lf as u64))
        }
    } else if darwin_nr == 74 && args[2] == 0 {
        ActionSpec::Return(0)
    } else if darwin_nr == 5 {
        ActionSpec::Linux(linux_nr, args@.update(1, trap_open_flags(args[1] as i32) as u64))
    } else {
        ActionSpec::Linux(linux_nr, args@)
    }
}

/// The answer to a Mach trap: mach_reply_port, mach_thread_self and
/// mach_task_self give fixed port names; mach_vm_protect becomes mprotect
/// (a PROT_NONE request is answered with success); any other goes to the
/// kernel module, or fails with -38 without it.
pub open spec fn trap_action(trap_nr: u32, args: [u64; 6], has_device: bool) -> ActionSpec {
    if trap_nr == 26 {
        ActionSpec::Return(0x307)
    } else if trap_nr == 27 {
        ActionSpec::Return(0x203)
    } else if trap_nr == 28 {
        ActionSpec::Return(0x103)
    } else if trap_nr == 14 {
        if args[4] as i32 == 0 {
            ActionSpec::Return(0)
        } else {
            let (addr, size) = spec_page_span(args[1], args[2]);
            ActionSpec::Protect(addr, size, args[4] as i32)
        }
    } else if !has_device {
        ActionSpec::Return(ENOSYS_RESULT)
    } else {
        ActionSpec::MachTrap(trap_nr, args@)
    }
}

/// How a trapped syscall (`raw` from rax, arguments from rdi, rsi, rdx, r10,
/// r8, r9) is answered, given whether the kernel module is open.
pub open spec fn spec_plan_syscall(raw: u64, args: [u64; 6], has_device: bool) -> ActionSpec {
    match spec_translate(raw) {
        DarwinSyscall::Unix { darwin_nr, linux_nr } => if linux_nr >= 0 {
            unix_action(darwin_nr, linux_nr, args)
        } else {
            ActionSpec::Return(ENOSYS_RESULT)
        },
        DarwinSyscall::MachTrap { trap_nr } => trap_action(trap_nr, args, has_device),
        DarwinSyscall::Unknown { raw } => if raw < 500 {
            ActionSpec::Linux(raw as i64, args@)
        } else {
            ActionSpec::ReportUnknown
        },
    }
}

/// A BSD syscall with a Linux counterpart and no special handling is
/// issued as that Linux syscall with the caller's arguments unchanged.
pub proof fn law_bsd_syscalls_reach_linux(n: u64, args: [u64; 6], has_device: bool)
    requires
        n < 0x100_0000,
        linux_number(n as u32) >= 0,
        linux_number(n as u32) != 60,
        n != 197 && n != 199 && n != 74 && n != 5,
    ensures
        spec_plan_syscall(0x0200_0000u64 | n, args, has_device)
            == ActionSpec::Linux(linux_number(n as u32) as i64, args@),
{
    lemma_unix_class(n);
}

/// exit ends the process with the status in the first argument, and a BSD
/// syscall without a Linux counterpart is answered -38 (ENOSYS).
pub proof fn law_exit_and_unmapped_syscalls(n: u64, args: [u64; 6], has_device: bool)
    requires
        n < 0x100_0000,
    ensures
        spec_plan_syscall(0x0200_0001u64, args, has_device) == ActionSpec::ExitGroup(args[0]),
        linux_number(n as u32) < 0 ==> spec_plan_syscall(0x0200_0000u64 | n, args, has_device)
            == ActionSpec::Return(ENOSYS_RESULT),
{
    lemma_unix_class(n);
    lemma_unix_class(1);
}

/// The trapped-syscall path translates flags as the libSystem shims do:
/// mmap flags exactly alike, open flags alike except that O_NOCTTY,
/// O_DIRECTORY and O_CLOEXEC are not carried over.
pub proof fn law_trap_flags_agree_with_shims(d: i32)
    by (bit_vector)
    ensures
        trap_mmap_flags(d) == spec_mmap_flags(d),
        trap_open_flags(d) == spec_open_flags(d) & !2162944i32,
{
}

/// mach_reply_port, mach_thread_self and mach_task_self answer the fixed
/// names of the reply, thread and task ports, with or without the kernel
/// module.
pub proof fn law_self_port_traps(args: [u64; 6], has_device: bool)
    ensures
        spec_plan_syscall(0x0100_001au64, args, has_device) == ActionSpec::Return(775),
        spec_plan_syscall(0x0100_001bu64, args, has_device) == ActionSpec::Return(515),
        spec_plan_syscall(0x0100_001cu64, args, has_device) == ActionSpec::Return(259),
{
    assert(0x0100_001au64 & 0xFF00_0000u64 == 0x0100_0000u64 && 0x0100_001au64 & 0x00FF_FFFFu64 == 26
        && 0x0100_001bu64 & 0xFF00_0000u64 == 0x0100_0000u64 && 0x0100_001bu64 & 0x00FF_FFFFu64 == 27
        && 0x0100_001cu64 & 0xFF00_0000u64 == 0x0100_0000u64 && 0x0100_001cu64 & 0x00FF_FFFFu64 == 28) by (bit_vector);
}

/// The page-aligned range covering [addr, addr + size).
pub fn page_span(addr: u64, size: u64) -> (r: (u64, u64))
    ensures
        r == spec_page_span(addr, size),
{
    let start = addr & !0xFFFu64;
    assert(addr & !0xFFFu64 == addr - addr % 4096) by (bit_vector);
    let end = crate::bytes::add_wrapping(crate::bytes::add_wrapping(addr, size), 0xFFF);
    proof {
        assert(wrap64(wrap64(addr + size) + 0xFFF) == wrap64(addr + size + 0xFFF)) by {
            lemma_wrap64_add(addr + size, 0xFFF);
        }
    }
    let end_aligned = end & !0xFFFu64;
    assert(end & !0xFFFu64 == end - end % 4096) by (bit_vector);
    let len = end_aligned.wrapping_sub(start);
    proof {
        let d = end_aligned - start;
        if d < 0 {
            assert((d % 0x1_0000_0000_0000_0000int) == d + 0x1_0000_0000_0000_0000int);
        } else {
            assert((d % 0x1_0000_0000_0000_0000int) == d);
        }
    }
    (start, len)
}

/// Taking a sum modulo 2^64 before adding a small number changes nothing.
proof fn lemma_wrap64_add(x: int, y: int)
    requires
        x >= 0,
        0 <= y < 0x1_0000_0000_0000_0000int,
    ensures
        wrap64(wrap64(x) + y) == wrap64(x + y),
{
    let m = 0x1_0000_0000_0000_0000int;
    assert((x % m + y) % m == (x + y) % m) by {
        vstd::arithmetic::div_mod::lemma_add_mod_noop(x, y, m);
        vstd::arithmetic::div_mod::lemma_mod_twice(y, m);
        vstd::arithmetic::div_mod::lemma_small_mod(y as nat, m as nat);
    }
}

/// How a trapped syscall is answered (see `spec_plan_syscall`).
pub fn plan_syscall(raw: u64, args: [u64; 6], has_device: bool) -> (r: SyscallAction)
    ensures
        r.view() == spec_plan_syscall(raw, args, has_device),
{
    match translate(raw) {
        DarwinSyscall::Unix { darwin_nr, linux_nr } => {
            if linux_nr < 0 {
                return SyscallAction::Return(ENOSYS_RESULT);
            }
            if linux_nr == 60 || linux_nr == 231 {
                return SyscallAction::ExitGroup(args[0]);
            }
            let mut a = args;
            if darwin_nr == 197 || darwin_nr == 199 {
                let df = a[3] as i32;
                let lf = (df & 0x1F) | (if df & 0x1000 != 0 { 0x20i32 } else { 0 })
                    | (if df & 0x40 != 0 { 0x4000i32 } else { 0 });
                a[3] = lf as u64;
                if a[2] == 0 && lf & 0x30 == 0x30 {
                    return SyscallAction::Return(if a[0] != 0 { a[0] as i64 } else { 0x7fff_0000 });
                }
            } else if darwin_nr == 74 {
                if a[2] == 0 {
                    return SyscallAction::Return(0);
                }
            } else if darwin_nr == 5 {
                let df = a[1] as i32;
                let lf = open_flags_for_trap(df);
                a[1] = lf as u64;
            }
            proof {
                if darwin_nr == 197 || darwin_nr == 199 {
                    assert(a@ =~= args@.update(3, trap_mmap_flags(args[3] as i32) as u64));
                } else if darwin_nr == 5 {
                    assert(a@ =~= args@.update(1, trap_open_flags(args[1] as i32) as u64));
                } else {
                    assert(a@ =~= args@);
                }
            }
            SyscallAction::Linux { nr: linux_nr, args: a }
        },
        DarwinSyscall::MachTrap { trap_nr } => {
            if trap_nr == 26 {
                SyscallAction::Return(0x307)
            } else if trap_nr == 27 {
                SyscallAction::Return(0x203)
            } else if trap_nr == 28 {
                SyscallAction::Return(0x103)
            } else if trap_nr == 14 {
                let prot = args[4] as i32;
                if prot == 0 {
                    SyscallAction::Return(0)
                } else {
                    let (addr, size) = page_span(args[1], args[2]);
                    SyscallAction::Protect { addr, size, prot }
                }
            } else if !has_device {
                SyscallAction::Return(ENOSYS_RESULT)
            } else {
                SyscallAction::MachTrap { trap_nr, args }
            }
        },
        DarwinSyscall::Unknown { raw } => {
            if raw < 500 {
                SyscallAction::Linux { nr: raw as i64, args }
            } else {
                SyscallAction::ReportUnknown
            }
        },
    }
}

fn open_flags_for_trap(df: i32) -> (r: i32)
    ensures
        r == trap_open_flags(df),
{
    (df & 0x3)
        | (if df & 0x0008 != 0 { 0x0400i32 } else { 0 })
        | (if df & 0x0004 != 0 { 0x0800i32 } else { 0 })
        | (if df & 0x0200 != 0 { 0x0040i32 } else { 0 })
        | (if df & 0x0400 != 0 { 0x0200i32 } else { 0 })
        | (if df & 0x0800 != 0 { 0x0080i32 } else { 0 })
}

/// A Mach trap as the kernel module's ioctl takes it: the trap number, its
/// six arguments and the result the module fills in.
#[derive(Debug, Clone, Copy)]
pub struct GraftedMachTrap {
    pub trap_number: u32,
    pub args: [u64; 6],
    pub result: i64,
}

impl GraftedMachTrap {
    pub fn new(trap_number: u32, args: [u64; 6]) -> (r: GraftedMachTrap)
        ensures
            r.trap_number == trap_number,
            r.args == args,
            r.result == 0,
    {
        GraftedMachTrap { trap_number, args, result: 0 }
    }
}

/// The answer to a forwarded Mach trap: the module's result when the ioctl
/// succeeded, else -38.
pub fn trap_answer(ioctl_ok: bool, trap: &GraftedMachTrap) -> (r: i64)
    ensures
        r == (if ioctl_ok { trap.result } else { ENOSYS_RESULT }),
{
    if ioctl_ok { trap.result } else { ENOSYS_RESULT }
}

/// The answer to mach_vm_protect after mprotect returned `ret`:
/// KERN_SUCCESS (0) or KERN_FAILURE (1).
pub fn kern_result(ret: i32) -> (r: i64)
    ensures
        r == (if ret == 0 { 0i64 } else { 1i64 }),
{
    if ret == 0 { 0 } else { 1 }
}

// ---- Skipping a faulting instruction ----

/// Whether a byte is a REX prefix (0x40..=0x4F).
pub open spec fn is_rex(b: u8) -> bool {
    0x40 <= b < 0x50
}

/// The immediate size and whether the ModRM reg field names the destination,
/// for the one-byte opcodes the decoder knows.
pub open spec fn one_byte_shape(op: u8) -> Option<(u64, bool)> {
    if op == 0x8B || op == 0x8A || op == 0x63 || op == 0x03 || op == 0x0B || op == 0x23 || op == 0x2B
        || op == 0x33 || op == 0x3B || op == 0x3A {
        Some((0, true))
    } else if op == 0x89 || op == 0x88 || op == 0x39 || op == 0x38 || op == 0x85 || op == 0x84
        || op == 0x01 || op == 0x09 || op == 0x21 || op == 0x29 || op == 0x31 || op == 0xFF {
        Some((0, false))
    } else if op == 0x83 || op == 0x80 || op == 0xC6 || op == 0xC7 || op == 0xF6 {
        Some((1, false))
    } else if op == 0x81 {
        Some((4, false))
    } else {
        None
    }
}

/// Whether a 0x0F-prefixed opcode is MOVZX, MOVSX or IMUL r, r/m.
pub open spec fn two_byte_known(op2: u8) -> bool {
    op2 == 0xB6 || op2 == 0xB7 || op2 == 0xBE || op2 == 0xBF || op2 == 0xAF
}

/// Length and destination register of an instruction whose ModRM byte is
/// at `off + 1`, with the given REX byte, opcode, immediate size and
/// destination flag; (0, -1) for a register-to-register form, except that
/// `call reg` and `jmp reg` (FF /2, FF /4) are skipped whole.
pub open spec fn modrm_decode(b: Seq<u8>, rex: u8, opcode: u8, off: u64, imm: u64, has_dest: bool) -> (u64, i8) {
    let modrm = b[off + 1];
    let md = modrm / 64;
    let ext = (modrm / 8) % 8;
    let reg = ext + (if (rex / 4) % 2 == 1 { 8int } else { 0 });
    let rm = modrm % 8;
    if md == 3 {
        if opcode == 0xFF && (ext == 2 || ext == 4) { ((off + 2) as u64, -1i8) } else { (0u64, -1i8) }
    } else {
        let disp: u64 = if md == 0 { if rm == 5 { 4 } else { 0 } } else if md == 1 { 1 } else { 4 };
        let sib: u64 = if rm == 4 { 1 } else { 0 };
        ((off + 2 + sib + disp + imm) as u64, if has_dest { reg as i8 } else { -1i8 })
    }
}

/// The length and destination register (-1: none or unknown) of the x86-64
/// instruction starting at `b[0]`; length 0 when the decoder does not know it.
pub open spec fn spec_decode_insn(b: Seq<u8>) -> (u64, i8) {
    let rex: u8 = if is_rex(b[0]) { b[0] } else { 0 };
    let off: u64 = if is_rex(b[0]) { 1 } else { 0 };
    let opcode = b[off as int];
    if opcode == 0x0F {
        if two_byte_known(b[off + 1]) {
            modrm_decode(b, rex, opcode, (off + 1) as u64, 0, true)
        } else {
            (0u64, -1i8)
        }
    } else {
        match one_byte_shape(opcode) {
            Some((imm, has_dest)) => modrm_decode(b, rex, opcode, off, imm, has_dest),
            None => (0u64, -1i8),
        }
    }
}

/// Decode the instruction that faulted, from its first four bytes, so that
/// it can be skipped: its length and destination register (see
/// `spec_decode_insn`).
pub fn decode_insn(b: &[u8]) -> (r: (u64, i8))
    requires
        b@.len() >= 4,
    ensures
        r == spec_decode_insn(b@),
{
    let b0 = b[0];
    let is_rex_prefix = (b0 & 0xF0) == 0x40;
    assert(((b0 & 0xF0) == 0x40) == (0x40 <= b0 && b0 < 0x50)) by (bit_vector);
    let rex: u8 = if is_rex_prefix { b0 } else { 0 };
    let off0: u64 = if is_rex_prefix { 1 } else { 0 };
    let opcode = b[off0 as usize];
    let (off, imm, has_dest): (u64, u64, bool) = if opcode == 0x0F {
        let op2 = b[(off0 + 1) as usize];
        if op2 == 0xB6 || op2 == 0xB7 || op2 == 0xBE || op2 == 0xBF || op2 == 0xAF {
            (off0 + 1, 0, true)
        } else {
            return (0, -1);
        }
    } else if opcode == 0x8B || opcode == 0x8A || opcode == 0x63 || opcode == 0x03 || opcode == 0x0B
        || opcode == 0x23 || opcode == 0x2B || opcode == 0x33 || opcode == 0x3B || opcode == 0x3A {
        (off0, 0, true)
    } else if opcode == 0x89 || opcode == 0x88 || opcode == 0x39 || opcode == 0x38 || opcode == 0x85
        || opcode == 0x84 || opcode == 0x01 || opcode == 0x09 || opcode == 0x21 || opcode == 0x29
        || opcode == 0x31 || opcode == 0xFF {
        (off0, 0, false)
    } else if opcode == 0x83 || opcode == 0x80 || opcode == 0xC6 || opcode == 0xC7 || opcode == 0xF6 {
        (off0, 1, false)
    } else if opcode == 0x81 {
        (off0, 4, false)
    } else {
        return (0, -1);
    };
    let modrm = b[(off + 1) as usize];
    let md = (modrm >> 6) & 3;
    let ext = (modrm >> 3) & 7;
    let reg = ext | if rex & 4 != 0 { 8u8 } else { 0u8 };
    let rm = modrm & 7;
    proof {
        assert((modrm >> 6) & 3 == modrm / 64) by (bit_vector);
        assert((modrm >> 3) & 7 == (modrm / 8) % 8) by (bit_vector);
        assert(modrm & 7 == modrm % 8) by (bit_vector);
        assert((rex & 4 != 0) == ((rex / 4) % 2 == 1)) by (bit_vector);
        assert(ext < 8 ==> (ext | 8u8) == ext + 8) by (bit_vector);
        assert(ext | 0u8 == ext) by (bit_vector);
    }
    if md == 3 {
        if opcode == 0xFF && (ext == 2 || ext == 4) {
            return (off + 2, -1);
        }
        return (0, -1);
    }
    let disp: u64 = if md == 0 { if rm == 5 { 4 } else { 0 } } else if md == 1 { 1 } else { 4 };
    let sib: u64 = if rm == 4 { 1 } else { 0 };
    let dest: i8 = if has_dest { reg as i8 } else { -1 };
    (off + 2 + sib + disp + imm, dest)
}

// ---- Recovering from a fault ----

/// Linux's SIGABRT: an abort is never skipped, only recovered from.
pub const SIGABRT_SIGNAL: i32 = 6;
/// How many faults one lifecycle call may skip before recovery takes over.
pub const FAULT_SKIP_LIMIT: u32 = 500;
/// The address range of the Darwin binary's own code.
pub const BINARY_TEXT_START: u64 = 0x1_0000_0000;
pub const BINARY_TEXT_END: u64 = 0x1_0020_0000;
/// The bounds a stack pointer must lie strictly within for a null call to be returned from.
pub const NULL_CALL_RSP_LOW: u64 = 0x1000;
pub const NULL_CALL_RSP_HIGH: u64 = 0x8000_0000_0000;
/// The value left in rdx after returning from a null call.
pub const NULL_CALL_RDX: u64 = 0xE000_0000_0000_0000;

/// What the fault handler does about one fault.
#[derive(Debug, Clone, Copy, PartialEq, Eq, Structural)]
pub enum FaultAction {
    /// Return from a call through a null pointer: continue at the return
    /// address stored at the old stack pointer, with these rsp, rax and rdx.
    ReturnFromNullCall { rsp: u64, rax: u64, rdx: u64 },
    /// Skip the faulting instruction of `len` bytes: continue at `rip`,
    /// zeroing the general register `zero_reg` (x86 encoding number) if any.
    SkipInstruction { rip: u64, len: u64, zero_reg: Option<u8> },
    /// Jump back to the recovery point.
    Recover,
    /// Report the crash and exit with status 139.
    ReportAndExit,
    /// The handler faulted within itself and there is no recovery point: exit with status 139.
    Exit,
}

/// Whether `rip` lies in the Darwin binary's own code.
pub open spec fn spec_in_binary_text(rip: u64) -> bool {
    BINARY_TEXT_START <= rip < BINARY_TEXT_END
}

/// Whether `rip` lies in the Darwin binary's own code, where a faulting
/// instruction can be decoded and skipped.
pub fn in_binary_text(rip: u64) -> (r: bool)
    ensures
        r == spec_in_binary_text(rip),
{
    BINARY_TEXT_START <= rip && rip < BINARY_TEXT_END
}

/// Whether the fault is one that skip mode may skip (and so counts against the limit).
pub open spec fn spec_fault_is_counted(sig: i32, recovery_active: bool, in_handler: bool, skip_mode: bool) -> bool {
    !in_handler && recovery_active && sig != SIGABRT_SIGNAL && skip_mode
}

/// Whether the fault counts against the skip limit: one that skip mode
/// may skip, raised while a recovery point is set and not from within the handler.
pub fn fault_is_counted(sig: i32, recovery_active: bool, in_handler: bool, skip_mode: bool) -> (r: bool)
    ensures
        r == spec_fault_is_counted(sig, recovery_active, in_handler, skip_mode),
{
    !in_handler && recovery_active && sig != SIGABRT_SIGNAL && skip_mode
}

/// The fault handler's decision. A fault within the handler recovers, or
/// exits when there is no recovery point; without a recovery point the
/// crash is reported. Otherwise, while skip mode has skipped fewer than the
/// limit: a call through a null pointer (rip 0, sane rsp) returns 0 to its
/// caller, and a decodable instruction of the binary is skipped with its
/// destination register zeroed; anything else jumps back to the recovery point.
pub open spec fn spec_plan_fault(sig: i32, rip: u64, rsp: u64, recovery_active: bool, in_handler: bool,
    skip_mode: bool, skip_count: u32, insn: Seq<u8>) -> FaultAction
{
    let may_skip = sig != SIGABRT_SIGNAL && skip_mode && skip_count < FAULT_SKIP_LIMIT;
    if in_handler {
        if recovery_active { FaultAction::Recover } else { FaultAction::Exit }
    } else if !recovery_active {
        FaultAction::ReportAndExit
    } else if may_skip && rip == 0 && NULL_CALL_RSP_LOW < rsp < NULL_CALL_RSP_HIGH {
        FaultAction::ReturnFromNullCall { rsp: (rsp + 8) as u64, rax: 0, rdx: NULL_CALL_RDX }
    } else if may_skip && spec_in_binary_text(rip) && spec_decode_insn(insn).0 > 0 {
        let (len, dest) = spec_decode_insn(insn);
        FaultAction::SkipInstruction {
            rip: (rip + len) as u64,
            len,
            zero_reg: if dest >= 0 { Some(dest as u8) } else { None },
        }
    } else {
        FaultAction::Recover
    }
}

/// The length the decoder gives is at most 13 bytes, and a destination
/// register is one of the sixteen general registers.
proof fn lemma_decode_bounds(b: Seq<u8>)
    requires
        b.len() >= 4,
    ensures
        spec_decode_insn(b).0 <= 13,
        -1 <= spec_decode_insn(b).1 < 16,
{
}

/// Decide what the fault handler does about a fault with signal `sig` at
/// `rip` with stack pointer `rsp` (see `spec_plan_fault`). `skip_count` is
/// the number of faults skip mode had counted before this one, and `insn`
/// the bytes at `rip` when `rip` lies in the binary's code.
pub fn plan_fault(sig: i32, rip: u64, rsp: u64, recovery_active: bool, in_handler: bool, skip_mode: bool,
    skip_count: u32, insn: &[u8]) -> (r: FaultAction)
    requires
        spec_in_binary_text(rip) ==> insn@.len() >= 4,
    ensures
        r == spec_plan_fault(sig, rip, rsp, recovery_active, in_handler, skip_mode, skip_count, insn@),
{
    let may_skip = sig != SIGABRT_SIGNAL && skip_mode && skip_count < FAULT_SKIP_LIMIT;
    if in_handler {
        return if recovery_active { FaultAction::Recover } else { FaultAction::Exit };
    }
    if !recovery_active {
        return FaultAction::ReportAndExit;
    }
    if may_skip && rip == 0 && NULL_CALL_RSP_LOW < rsp && rsp < NULL_CALL_RSP_HIGH {
        return FaultAction::ReturnFromNullCall { rsp: rsp + 8, rax: 0, rdx: NULL_CALL_RDX };
    }
    if may_skip && in_binary_text(rip) {
        let (len, dest) = decode_insn(insn);
        proof {
            lemma_decode_bounds(insn@);
        }
        if len > 0 {
            let zero_reg: Option<u8> = if dest >= 0 { Some(dest as u8) } else { None };
            return FaultAction::SkipInstruction { rip: rip + len, len, zero_reg };
        }
    }
    FaultAction::Recover
}

// ---- Trampolines ----

/// The little-endian bytes of a 64-bit value.
pub open spec fn le_bytes(v: u64) -> Seq<u8> {
    Seq::new(8, |i: int| ((v >> (8 * i) as u64) & 0xff) as u8)
}

/// The little-endian bytes of `v`.
pub fn u64_le_bytes(v: u64) -> (r: [u8; 8])
    ensures
        r@ == le_bytes(v),
{
    let mut r: [u8; 8] = [0u8; 8];
    let mut i: usize = 0;
    while i < 8
        invariant
            i <= 8,
            forall|k: int| 0 <= k < i ==> #[trigger] r@[k] == ((v >> (8 * k) as u64) & 0xff) as u8,
        decreases 8 - i,
    {
        r[i] = ((v >> (8 * i) as u64) & 0xff) as u8;
        i = i + 1;
    }
    assert(r@ =~= le_bytes(v));
    r
}

/// The per-thread trampoline that re-arms dispatch: `movabs r11, selector;
/// mov byte [r11], BLOCK; ret`.
pub open spec fn spec_selector_trampoline(selector: u64) -> Seq<u8> {
    seq![0x49u8, 0xbb] + le_bytes(selector) + seq![0x41u8, 0xc6, 0x03, SYSCALL_DISPATCH_FILTER_BLOCK, 0xc3]
}

pub fn selector_trampoline(selector: u64) -> (r: Vec<u8>)
    ensures
        r@ == spec_selector_trampoline(selector),
{
    let mut code: Vec<u8> = Vec::new();
    code.push(0x49);
    code.push(0xbb);
    push_all(&mut code, &u64_le_bytes(selector));
    code.push(0x41);
    code.push(0xc6);
    code.push(0x03);
    code.push(SYSCALL_DISPATCH_FILTER_BLOCK);
    code.push(0xc3);
    proof {
        assert(code@ =~= spec_selector_trampoline(selector));
    }
    code
}

fn push_all(v: &mut Vec<u8>, bytes: &[u8; 8])
    ensures
        final(v)@ == old(v)@ + bytes@,
{
    let mut i: usize = 0;
    while i < 8
        invariant
            i <= 8,
            v@ == old(v)@ + bytes@.take(i as int),
        decreases 8 - i,
    {
        v.push(bytes[i]);
        i = i + 1;
        proof {
            assert(v@ =~= old(v)@ + bytes@.take(i as int));
        }
    }
    proof {
        assert(bytes@.take(8) =~= bytes@);
    }
}

/// The trampoline in front of a libc function: save the argument
/// registers (rax, rdi, rsi, rdx, rcx, r8, r9), call `allow_fn` (which
/// lets this thread's syscalls through), restore them in reverse order,
/// and jump to `target` through r11.
pub open spec fn spec_allow_trampoline(allow_fn: u64, target: u64) -> Seq<u8> {
    seq![0x50u8, 0x57, 0x56, 0x52, 0x51, 0x41, 0x50, 0x41, 0x51, 0x48, 0xb8] + le_bytes(allow_fn)
        + seq![0xffu8, 0xd0, 0x41, 0x59, 0x41, 0x58, 0x59, 0x5a, 0x5e, 0x5f, 0x58, 0x49, 0xbb] + le_bytes(target)
        + seq![0x41u8, 0xff, 0xe3]
}

pub fn allow_trampoline(allow_fn: u64, target: u64) -> (r: Vec<u8>)
    ensures
        r@ == spec_allow_trampoline(allow_fn, target),
        r@.len() == 43,
{
    let mut code: Vec<u8> = Vec::new();
    code.push(0x50); code.push(0x57); code.push(0x56); code.push(0x52); code.push(0x51);
    code.push(0x41); code.push(0x50); code.push(0x41); code.push(0x51);
    code.push(0x48); code.push(0xb8);
    push_all(&mut code, &u64_le_bytes(allow_fn));
    code.push(0xff); code.push(0xd0);
    code.push(0x41); code.push(0x59); code.push(0x41); code.push(0x58);
    code.push(0x59); code.push(0x5a); code.push(0x5e); code.push(0x5f); code.push(0x58);
    code.push(0x49); code.push(0xbb);
    push_all(&mut code, &u64_le_bytes(target));
    code.push(0x41); code.push(0xff); code.push(0xe3);
    proof {
        assert(code@ =~= spec_allow_trampoline(allow_fn, target));
    }
    code
}

/// Size of the executable pool that holds libc trampolines, and of one slot.
pub const TRAMPOLINE_POOL_SIZE: usize = 65536;
pub const TRAMPOLINE_SLOT: usize = 48;

/// The slots handed out of the trampoline pool so far.
pub struct TrampolinePool {
    next: usize,
}

impl TrampolinePool {
    pub closed spec fn used(&self) -> nat {
        self.next as nat
    }

    pub fn new() -> (r: TrampolinePool)
        ensures
            r.used() == 0,
    {
        TrampolinePool { next: 0 }
    }

    /// The offset of a fresh slot, or None when the pool is exhausted.
    pub fn reserve(&mut self) -> (r: Option<usize>)
        ensures
            old(self).used() + TRAMPOLINE_SLOT <= TRAMPOLINE_POOL_SIZE ==> r == Some(old(self).used() as usize)
                && final(self).used() == old(self).used() + TRAMPOLINE_SLOT,
            old(self).used() + TRAMPOLINE_SLOT > TRAMPOLINE_POOL_SIZE ==> r is None && final(self).used() == old(self).used(),
    {
        if self.next <= TRAMPOLINE_POOL_SIZE - TRAMPOLINE_SLOT {
            let o = self.next;
            self.next = self.next + TRAMPOLINE_SLOT;
            Some(o)
        } else {
            None
        }
    }
}

/// The per-thread selector bytes handed out of the shared selector page.
pub struct SelectorPage {
    next: usize,
}

pub const SELECTOR_PAGE_SIZE: usize = 4096;

impl SelectorPage {
    pub closed spec fn used(&self) -> nat {
        self.next as nat
    }

    pub fn new() -> (r: SelectorPage)
        ensures
            r.used() == 0,
    {
        SelectorPage { next: 0 }
    }

    /// The offset of the next thread's selector byte; None once the page
    /// is full.
    pub fn take(&mut self) -> (r: Option<usize>)
        ensures
            old(self).used() < SELECTOR_PAGE_SIZE ==> r == Some(old(self).used() as usize)
                && final(self).used() == old(self).used() + 1,
            old(self).used() >= SELECTOR_PAGE_SIZE ==> r is None && final(self).used() == old(self).used(),
    {
        if self.next < SELECTOR_PAGE_SIZE {
            let o = self.next;
            self.next = self.next + 1;
            Some(o)
        } else {
            None
        }
    }
}

/// The executor's process-wide values: where the Darwin image's text lies
/// and where its stack was allocated.
pub struct ExecState {
    pub darwin_text_base: u64,
    pub stack_base: u64,
}

impl ExecState {
    pub fn new() -> (r: ExecState)
        ensures
            r.darwin_text_base == 0,
            r.stack_base == 0,
    {
        ExecState { darwin_text_base: 0, stack_base: 0 }
    }

    pub fn set_darwin_text_base(&mut self, addr: u64)
        ensures
            final(self).darwin_text_base == addr,
            final(self).stack_base == old(self).stack_base,
    {
        self.darwin_text_base = addr;
    }

    pub fn stack_base(&self) -> (r: u64)
        ensures
            r == self.stack_base,
    {
        self.stack_base
    }

    /// The dispatch range for the current image (see `spec_sud_range`).
    pub fn sud_range(&self) -> (r: (u64, u64))
        ensures
            r == spec_sud_range(self.darwin_text_base),
    {
        sud_range(self.darwin_text_base)
    }
}

// ---- The initial process stack ----

/// `x` rounded down to a multiple of `a`.
pub open spec fn align_down(x: int, a: int) -> int {
    x - x % a
}

/// The byte lengths of a list of strings.
pub open spec fn byte_lens(v: Seq<Vec<u8>>) -> Seq<nat> {
    Seq::new(v.len(), |i: int| v[i]@.len())
}

/// The stack pointer after placing the first `n` strings below `top`, each
/// with its NUL and aligned down to 8 bytes.
pub open spec fn sp_after(top: int, lens: Seq<nat>, n: nat) -> int
    decreases n,
{
    if n == 0 {
        top
    } else {
        align_down(sp_after(top, lens, (n - 1) as nat) - lens[n - 1] - 1, 8)
    }
}

/// The most room the first `n` strings can take: their bytes, their NULs
/// and up to 7 bytes of alignment each.
pub open spec fn string_room(lens: Seq<nat>, n: nat) -> int
    decreases n,
{
    if n == 0 { 0 } else { string_room(lens, (n - 1) as nat) + lens[n - 1] + 8 }
}

/// The number of pointer-sized entries above the stack pointer: argc, the
/// argv pointers, the environment pointers and the apple pointers, each
/// list ended by 0.
pub open spec fn stack_entries(n_apple: nat, n_env: nat, n_arg: nat) -> nat {
    1 + (n_arg + 1) + (n_env + 1) + (n_apple + 1)
}

proof fn lemma_sp_after_bound(top: int, lens: Seq<nat>, n: nat)
    requires
        n <= lens.len(),
        top >= string_room(lens, n),
    ensures
        sp_after(top, lens, n) >= top - string_room(lens, n),
        sp_after(top, lens, n) <= top,
    decreases n,
{
    if n > 0 {
        lemma_string_room_mono(lens, (n - 1) as nat, n);
        lemma_sp_after_bound(top, lens, (n - 1) as nat);
        let x = sp_after(top, lens, (n - 1) as nat) - lens[n - 1] - 1;
        assert(x >= 0);
        assert(0 <= x % 8 < 8);
    }
}

proof fn lemma_string_room_mono(lens: Seq<nat>, m: nat, n: nat)
    requires
        m <= n,
    ensures
        string_room(lens, m) <= string_room(lens, n),
    decreases n - m,
{
    if m < n {
        lemma_string_room_mono(lens, m, (n - 1) as nat);
    }
}

/// Place strings below `sp`: each one's address, and the stack pointer after them.
fn place_strings(sp: u64, v: &Vec<Vec<u8>>) -> (r: (Vec<u64>, u64))
    requires
        sp >= string_room(byte_lens(v@), v@.len()),
    ensures
        r.0@.len() == v@.len(),
        forall|i: int| 0 <= i < v@.len() ==> #[trigger] r.0@[i] == sp_after(sp as int, byte_lens(v@), (i + 1) as nat),
        r.1 == sp_after(sp as int, byte_lens(v@), v@.len()),
        r.1 >= sp - string_room(byte_lens(v@), v@.len()),
{
    let ghost lens = byte_lens(v@);
    let mut addrs: Vec<u64> = Vec::new();
    let mut cur = sp;
    let mut i: usize = 0;
    proof {
        lemma_sp_after_bound(sp as int, lens, v@.len());
    }
    while i < v.len()
        invariant
            i <= v@.len(),
            lens == byte_lens(v@),
            sp >= string_room(lens, v@.len()),
            cur == sp_after(sp as int, lens, i as nat),
            addrs@.len() == i,
            forall|k: int| 0 <= k < i ==> #[trigger] addrs@[k] == sp_after(sp as int, lens, (k + 1) as nat),
        decreases v.len() - i,
    {
        proof {
            lemma_string_room_mono(lens, i as nat, v@.len());
            lemma_sp_after_bound(sp as int, lens, i as nat);
            lemma_string_room_mono(lens, (i + 1) as nat, v@.len());
            assert(lens[i as int] == v@[i as int]@.len());
        }
        let len = v[i].len() as u64;
        let x = cur - (len + 1);
        let next = x & !7u64;
        assert(x & !7u64 == x - x % 8) by (bit_vector);
        cur = next;
        addrs.push(cur);
        i = i + 1;
    }
    proof {
        lemma_sp_after_bound(sp as int, lens, v@.len());
    }
    (addrs, cur)
}

/// Where the initial stack's strings and pointer block go.
pub struct StackLayout {
    /// The address of each apple string (NUL-terminated).
    pub apple_addrs: Vec<u64>,
    /// The address of each environment string.
    pub env_addrs: Vec<u64>,
    /// The address of each argument string.
    pub arg_addrs: Vec<u64>,
    /// The stack pointer at entry: the address of argc.
    pub sp: u64,
    /// The words from `sp` upward: argc, the argv pointers, 0, the envp
    /// pointers, 0, the apple pointers, 0.
    pub words: Vec<u64>,
}

/// The room the layout needs below the stack top.
pub open spec fn stack_room(apple: Seq<Vec<u8>>, envp: Seq<Vec<u8>>, argv: Seq<Vec<u8>>) -> int {
    string_room(byte_lens(apple), apple.len()) + string_room(byte_lens(envp), envp.len())
        + string_room(byte_lens(argv), argv.len()) + 16 + 8 * (stack_entries(apple.len(), envp.len(), argv.len()) + 1)
}

/// Lay out a Darwin process stack below `stack_top`: the apple strings, the
/// environment and the arguments, each aligned to 8 bytes going down; then,
/// 16-byte aligned (with 8 bytes of padding when the number of entries is
/// odd), argc, argv, envp and apple, each list ended by 0.
pub fn stack_layout(stack_top: u64, apple: &Vec<Vec<u8>>, envp: &Vec<Vec<u8>>, argv: &Vec<Vec<u8>>) -> (r: StackLayout)
    requires
        stack_top >= stack_room(apple@, envp@, argv@),
    ensures
        ({
            let s1 = sp_after(stack_top as int, byte_lens(apple@), apple@.len());
            let s2 = sp_after(s1, byte_lens(envp@), envp@.len());
            let s3 = sp_after(s2, byte_lens(argv@), argv@.len());
            let total = stack_entries(apple@.len(), envp@.len(), argv@.len());
            &&& r.apple_addrs@.len() == apple@.len()
            &&& forall|i: int| 0 <= i < apple@.len() ==> #[trigger] r.apple_addrs@[i]
                    == sp_after(stack_top as int, byte_lens(apple@), (i + 1) as nat)
            &&& r.env_addrs@.len() == envp@.len()
            &&& forall|i: int| 0 <= i < envp@.len() ==> #[trigger] r.env_addrs@[i] == sp_after(s1, byte_lens(envp@), (i + 1) as nat)
            &&& r.arg_addrs@.len() == argv@.len()
            &&& forall|i: int| 0 <= i < argv@.len() ==> #[trigger] r.arg_addrs@[i] == sp_after(s2, byte_lens(argv@), (i + 1) as nat)
            &&& r.sp == align_down(s3, 16) - (if total % 2 == 1 { 8int } else { 0 }) - 8 * total
            &&& r.sp % 16 == 0
            &&& r.words@ == seq![argv@.len() as u64] + r.arg_addrs@ + seq![0u64] + r.env_addrs@ + seq![0u64]
                    + r.apple_addrs@ + seq![0u64]
        }),
{
    proof {
        lemma_string_room_mono(byte_lens(apple@), 0, apple@.len());
        lemma_string_room_mono(byte_lens(envp@), 0, envp@.len());
        lemma_string_room_mono(byte_lens(argv@), 0, argv@.len());
    }
    let (apple_addrs, s1) = place_strings(stack_top, apple);
    let (env_addrs, s2) = place_strings(s1, envp);
    let (arg_addrs, s3) = place_strings(s2, argv);
    let mut sp = s3 & !0xFu64;
    assert(s3 & !0xFu64 == s3 - s3 % 16) by (bit_vector);
    let total: u64 = 1 + (argv.len() as u64 + 1) + (envp.len() as u64 + 1) + (apple.len() as u64 + 1);
    if total % 2 != 0 {
        sp = sp - 8;
    }
    sp = sp - 8 * total;
    let mut words: Vec<u64> = Vec::new();
    words.push(argv.len() as u64);
    append_words(&mut words, &arg_addrs);
    words.push(0);
    append_words(&mut words, &env_addrs);
    words.push(0);
    append_words(&mut words, &apple_addrs);
    words.push(0);
    proof {
        assert(words@ =~= seq![argv@.len() as u64] + arg_addrs@ + seq![0u64] + env_addrs@ + seq![0u64]
            + apple_addrs@ + seq![0u64]);
        let a = s3 - s3 % 16;
        assert(a % 16 == 0) by {
            vstd::arithmetic::div_mod::lemma_fundamental_div_mod(s3 as int, 16);
            vstd::arithmetic::div_mod::lemma_mod_multiples_basic(s3 as int / 16, 16);
        }
        let t = total as int;
        if t % 2 == 1 {
            assert((a - 8 - 8 * t) % 16 == 0) by {
                assert(a - 8 - 8 * t == a - 16 * ((t + 1) / 2));
                vstd::arithmetic::div_mod::lemma_mod_sub_multiples_vanish(a, 16);
                assert((a - 16 * ((t + 1) / 2)) % 16 == a % 16) by {
                    vstd::arithmetic::div_mod::lemma_mod_multiples_vanish(-((t + 1) / 2), a, 16);
                }
            }
        } else {
            assert((a - 8 * t) % 16 == 0) by {
                assert(a - 8 * t == a - 16 * (t / 2));
                assert((a - 16 * (t / 2)) % 16 == a % 16) by {
                    vstd::arithmetic::div_mod::lemma_mod_multiples_vanish(-(t / 2), a, 16);
                }
            }
        }
    }
    StackLayout { apple_addrs, env_addrs, arg_addrs, sp, words }
}

fn append_words(v: &mut Vec<u64>, w: &Vec<u64>)
    ensures
        final(v)@ == old(v)@ + w@,
{
    let mut i: usize = 0;
    while i < w.len()
        invariant
            i <= w@.len(),
            v@ == old(v)@ + w@.take(i as int),
        decreases w.len() - i,
    {
        v.push(w[i]);
        i = i + 1;
        proof {
            assert(v@ =~= old(v)@ + w@.take(i as int));
        }
    }
    proof {
        assert(w@.take(i as int) =~= w@);
    }
}

/// The page span covers the range it is asked for: it starts on a page
/// boundary at or below `addr`, spans whole pages, and reaches at least
/// `addr + size` (when that, rounded up, stays below 2^64).
pub proof fn lemma_page_span_covers(addr: u64, size: u64)
    requires
        addr + size + 0xFFF < 0x1_0000_0000_0000_0000int,
    ensures
        spec_page_span(addr, size).0 % 4096 == 0,
        spec_page_span(addr, size).0 <= addr,
        spec_page_span(addr, size).1 % 4096 == 0,
        addr + size <= spec_page_span(addr, size).0 + spec_page_span(addr, size).1,
{
    let m = 0x1_0000_0000_0000_0000int;
    let end = addr + size + 0xFFF;
    assert(wrap64(end) == end) by {
        vstd::arithmetic::div_mod::lemma_small_mod(end as nat, m as nat);
    }
    let start = addr - addr % 4096;
    let ea = end - end % 4096;
    assert(start % 4096 == 0) by {
        vstd::arithmetic::div_mod::lemma_fundamental_div_mod(addr as int, 4096);
        vstd::arithmetic::div_mod::lemma_mod_multiples_basic(addr as int / 4096, 4096);
    }
    assert(ea % 4096 == 0) by {
        vstd::arithmetic::div_mod::lemma_fundamental_div_mod(end, 4096);
        vstd::arithmetic::div_mod::lemma_mod_multiples_basic(end / 4096, 4096);
    }
    assert(ea >= start);
    assert(wrap64(ea - start) == ea - start) by {
        vstd::arithmetic::div_mod::lemma_small_mod((ea - start) as nat, m as nat);
    }
    assert((ea - start) % 4096 == 0) by {
        vstd::arithmetic::div_mod::lemma_fundamental_div_mod(end, 4096);
        vstd::arithmetic::div_mod::lemma_fundamental_div_mod(addr as int, 4096);
        assert(ea - start == 4096 * (end / 4096 - addr / 4096));
        vstd::arithmetic::div_mod::lemma_mod_multiples_basic(end / 4096 - addr / 4096, 4096);
    }
}

} // verus!
