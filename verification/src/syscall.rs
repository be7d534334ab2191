//! Classification of raw Darwin syscall numbers (the value found in `rax`)
//! and the BSD-to-Linux syscall number table.

use vstd::prelude::*;

verus! {

/// Darwin syscall class bits (top byte of rax).
pub const DARWIN_SYSCALL_CLASS_MASK: u64 = 0xFF00_0000;
pub const DARWIN_SYSCALL_CLASS_UNIX: u64 = 0x0200_0000;
pub const DARWIN_SYSCALL_CLASS_MACH: u64 = 0x0100_0000;
pub const DARWIN_SYSCALL_NUMBER_MASK: u64 = 0x00FF_FFFF;

/// Result of classifying a Darwin syscall.
#[derive(Debug, Clone, Copy, PartialEq, Eq, Structural)]
pub enum DarwinSyscall {
    /// BSD/UNIX syscall, translated to its Linux number (-1 when unmapped).
    Unix { darwin_nr: u32, linux_nr: i64 },
    /// Mach trap, handled by the kernel module or emulated.
    MachTrap { trap_nr: u32 },
    /// Unknown or unsupported syscall class.
    Unknown { raw: u64 },
}

/// The Darwin BSD -> Linux x86_64 syscall number table (-1: unmapped).
pub open spec fn linux_number(darwin_nr: u32) -> int {
    if darwin_nr == 1 { 60 }
    else if darwin_nr == 2 { 57 }
    else if darwin_nr == 7 { 61 }
    else if darwin_nr == 20 { 39 }
    else if darwin_nr == 3 { 0 }
    else if darwin_nr == 4 { 1 }
    else if darwin_nr == 5 { 2 }
    else if darwin_nr == 6 { 3 }
    else if darwin_nr == 10 { 87 }
    else if darwin_nr == 15 { 90 }
    else if darwin_nr == 16 { 93 }
    else if darwin_nr == 197 { 9 }
    else if darwin_nr == 73 { 11 }
    else if darwin_nr == 74 { 10 }
    else if darwin_nr == 46 { 13 }
    else if darwin_nr == 48 { 62 }
    else if darwin_nr == 13 { 13 }
    else if darwin_nr == 59 { 84 }
    else if darwin_nr == 338 { 59 }
    else if darwin_nr == 116 { 96 }
    else if darwin_nr == 24 { 102 }
    else if darwin_nr == 25 { 107 }
    else if darwin_nr == 43 { 108 }
    else if darwin_nr == 47 { 104 }
    else if darwin_nr == 54 { 16 }
    else { -1 }
}

/// The classification of a raw syscall value.
pub open spec fn spec_translate(raw: u64) -> DarwinSyscall {
    let class = raw & DARWIN_SYSCALL_CLASS_MASK;
    let nr = (raw & DARWIN_SYSCALL_NUMBER_MASK) as u32;
    if class == DARWIN_SYSCALL_CLASS_UNIX {
        DarwinSyscall::Unix { darwin_nr: nr, linux_nr: linux_number(nr) as i64 }
    } else if class == DARWIN_SYSCALL_CLASS_MACH {
        DarwinSyscall::MachTrap { trap_nr: nr }
    } else {
        DarwinSyscall::Unknown { raw }
    }
}

/// Map a Darwin BSD syscall number to a Linux syscall number.
/// Returns -1 for unimplemented syscalls.
fn darwin_unix_to_linux(darwin_nr: u32) -> (r: i64)
    ensures
        r == linux_number(darwin_nr),
{
    match darwin_nr {
        1 => 60,
        2 => 57,
        7 => 61,
        20 => 39,
        3 => 0,
        4 => 1,
        5 => 2,
        6 => 3,
        10 => 87,
        15 => 90,
        16 => 93,
        197 => 9,
        73 => 11,
        74 => 10,
        46 => 13,
        48 => 62,
        13 => 13,
        59 => 84,
        338 => 59,
        116 => 96,
        24 => 102,
        25 => 107,
        43 => 108,
        47 => 104,
        54 => 16,
        _ => -1,
    }
}

/// Classify and translate a raw Darwin syscall number (from rax).
pub fn translate(raw_syscall: u64) -> (r: DarwinSyscall)
    ensures
        r == spec_translate(raw_syscall),
{
    let class = raw_syscall & DARWIN_SYSCALL_CLASS_MASK;
    let nr = (raw_syscall & DARWIN_SYSCALL_NUMBER_MASK) as u32;
    if class == DARWIN_SYSCALL_CLASS_UNIX {
        let linux_nr = darwin_unix_to_linux(nr);
        DarwinSyscall::Unix { darwin_nr: nr, linux_nr }
    } else if class == DARWIN_SYSCALL_CLASS_MACH {
        DarwinSyscall::MachTrap { trap_nr: nr }
    } else {
        DarwinSyscall::Unknown { raw: raw_syscall }
    }
}

/// A raw value in the BSD class carries its syscall number in the low 24 bits.
pub proof fn lemma_unix_class(n: u64)
    requires
        n < 0x100_0000,
    ensures
        (0x0200_0000u64 | n) & DARWIN_SYSCALL_CLASS_MASK == DARWIN_SYSCALL_CLASS_UNIX,
        (0x0200_0000u64 | n) & DARWIN_SYSCALL_NUMBER_MASK == n,
        (0x0200_0000u64 | n) == 0x0200_0000 + n,
{
    assert(n < 0x100_0000 ==> (0x0200_0000u64 | n) & 0xFF00_0000u64 == 0x0200_0000u64
        && (0x0200_0000u64 | n) & 0x00FF_FFFFu64 == n && (0x0200_0000u64 | n) == 0x0200_0000 + n) by (bit_vector);
}

/// Each Darwin BSD syscall the loader forwards reaches the Linux x86_64
/// syscall of the same meaning (named beside each entry).
pub proof fn law_bsd_syscalls_keep_their_meaning()
    ensures
        spec_translate(0x2000001u64) == (DarwinSyscall::Unix { darwin_nr: 1, linux_nr: 60 }), // exit
        spec_translate(0x2000002u64) == (DarwinSyscall::Unix { darwin_nr: 2, linux_nr: 57 }), // fork
        spec_translate(0x2000003u64) == (DarwinSyscall::Unix { darwin_nr: 3, linux_nr: 0 }), // read
        spec_translate(0x2000004u64) == (DarwinSyscall::Unix { darwin_nr: 4, linux_nr: 1 }), // write
        spec_translate(0x2000005u64) == (DarwinSyscall::Unix { darwin_nr: 5, linux_nr: 2 }), // open
        spec_translate(0x2000006u64) == (DarwinSyscall::Unix { darwin_nr: 6, linux_nr: 3 }), // close
        spec_translate(0x2000007u64) == (DarwinSyscall::Unix { darwin_nr: 7, linux_nr: 61 }), // wait4
        spec_translate(0x200000au64) == (DarwinSyscall::Unix { darwin_nr: 10, linux_nr: 87 }), // unlink
        spec_translate(0x200000du64) == (DarwinSyscall::Unix { darwin_nr: 13, linux_nr: 13 }), // fchdir
        spec_translate(0x200000fu64) == (DarwinSyscall::Unix { darwin_nr: 15, linux_nr: 90 }), // chmod
        spec_translate(0x2000010u64) == (DarwinSyscall::Unix { darwin_nr: 16, linux_nr: 93 }), // chown
        spec_translate(0x2000014u64) == (DarwinSyscall::Unix { darwin_nr: 20, linux_nr: 39 }), // getpid
        spec_translate(0x2000018u64) == (DarwinSyscall::Unix { darwin_nr: 24, linux_nr: 102 }), // getuid
        spec_translate(0x2000019u64) == (DarwinSyscall::Unix { darwin_nr: 25, linux_nr: 107 }), // geteuid
        spec_translate(0x200002bu64) == (DarwinSyscall::Unix { darwin_nr: 43, linux_nr: 108 }), // getegid
        spec_translate(0x200002eu64) == (DarwinSyscall::Unix { darwin_nr: 46, linux_nr: 13 }), // sigaction -> rt_sigaction
        spec_translate(0x200002fu64) == (DarwinSyscall::Unix { darwin_nr: 47, linux_nr: 104 }), // getgid
        spec_translate(0x2000030u64) == (DarwinSyscall::Unix { darwin_nr: 48, linux_nr: 62 }), // kill
        spec_translate(0x2000036u64) == (DarwinSyscall::Unix { darwin_nr: 54, linux_nr: 16 }), // ioctl
        spec_translate(0x200003bu64) == (DarwinSyscall::Unix { darwin_nr: 59, linux_nr: 84 }), // execve
        spec_translate(0x2000049u64) == (DarwinSyscall::Unix { darwin_nr: 73, linux_nr: 11 }), // munmap
        spec_translate(0x200004au64) == (DarwinSyscall::Unix { darwin_nr: 74, linux_nr: 10 }), // mprotect
        spec_translate(0x2000074u64) == (DarwinSyscall::Unix { darwin_nr: 116, linux_nr: 96 }), // gettimeofday
        spec_translate(0x20000c5u64) == (DarwinSyscall::Unix { darwin_nr: 197, linux_nr: 9 }), // mmap
        spec_translate(0x2000152u64) == (DarwinSyscall::Unix { darwin_nr: 338, linux_nr: 59 }), // posix_spawn -> execve
{
    lemma_unix_class(1);
    lemma_unix_class(2);
    lemma_unix_class(3);
    lemma_unix_class(4);
    lemma_unix_class(5);
    lemma_unix_class(6);
    lemma_unix_class(7);
    lemma_unix_class(10);
    lemma_unix_class(13);
    lemma_unix_class(15);
    lemma_unix_class(16);
    lemma_unix_class(20);
    lemma_unix_class(24);
    lemma_unix_class(25);
    lemma_unix_class(43);
    lemma_unix_class(46);
    lemma_unix_class(47);
    lemma_unix_class(48);
    lemma_unix_class(54);
    lemma_unix_class(59);
    lemma_unix_class(73);
    lemma_unix_class(74);
    lemma_unix_class(116);
    lemma_unix_class(197);
    lemma_unix_class(338);
}

/// A BSD syscall outside that table is reported unmapped (-1), whatever its number.
pub proof fn law_other_bsd_syscalls_are_unmapped(n: u64)
    requires
        n < 0x100_0000,
        n != 1 && n != 2 && n != 3 && n != 4 && n != 5 && n != 6 && n != 7 && n != 10 && n != 13 && n != 15 && n != 16 && n != 20 && n != 24 && n != 25 && n != 43 && n != 46 && n != 47 && n != 48 && n != 54 && n != 59 && n != 73 && n != 74 && n != 116 && n != 197 && n != 338,
    ensures
        spec_translate(0x0200_0000u64 | n) == (DarwinSyscall::Unix { darwin_nr: n as u32, linux_nr: -1i64 }),
{
    lemma_unix_class(n);
}

/// A Mach trap keeps its trap number; a value of any other class is unknown.
pub proof fn law_mach_traps_and_unknown_classes(n: u64, raw: u64)
    requires
        n < 0x100_0000,
        raw & DARWIN_SYSCALL_CLASS_MASK != DARWIN_SYSCALL_CLASS_UNIX,
        raw & DARWIN_SYSCALL_CLASS_MASK != DARWIN_SYSCALL_CLASS_MACH,
    ensures
        spec_translate(0x0100_0000u64 | n) == (DarwinSyscall::MachTrap { trap_nr: n as u32 }),
        spec_translate(raw) == (DarwinSyscall::Unknown { raw }),
{
    assert(n < 0x100_0000 ==> (0x0100_0000u64 | n) & 0xFF00_0000u64 == 0x0100_0000u64
        && (0x0100_0000u64 | n) & 0x00FF_FFFFu64 == n) by (bit_vector);
}

} // verus!
