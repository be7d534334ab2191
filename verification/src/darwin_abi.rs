//! The Darwin/Linux differences the libSystem shims bridge: flag encodings,
//! the errno convention, guard-page requests, sysctl answers, struct layouts
//! and the default rune table.

use vstd::prelude::*;
use crate::bytes::wrap64;
use crate::text::{cstr_prefix, c_prefix};

verus! {

broadcast use vstd::string::group_string_axioms;

// ---- Flag translation ----

/// Darwin open(2) flags in Linux terms: the access mode kept; O_APPEND
/// 0x8 -> 0x400, O_NONBLOCK 0x4 -> 0x800, O_CREAT 0x200 -> 0x40, O_TRUNC
/// 0x400 -> 0x200, O_EXCL 0x800 -> 0x80, O_NOCTTY 0x20000 -> 0x100,
/// O_DIRECTORY 0x10000 kept, O_CLOEXEC 0x100000 -> 0x200000.
pub open spec fn spec_open_flags(d: i32) -> i32 {
    (d & 0x3)
        | (if d & 0x0008 != 0 { 0x0400i32 } else { 0 })
        | (if d & 0x0004 != 0 { 0x0800i32 } else { 0 })
        | (if d & 0x0200 != 0 { 0x0040i32 } else { 0 })
        | (if d & 0x0400 != 0 { 0x0200i32 } else { 0 })
        | (if d & 0x0800 != 0 { 0x0080i32 } else { 0 })
        | (if d & 0x20000 != 0 { 0x0100i32 } else { 0 })
        | (if d & 0x10000 != 0 { 0x10000i32 } else { 0 })
        | (if d & 0x100000 != 0 { 0x200000i32 } else { 0 })
}

pub fn translate_open_flags(darwin: i32) -> (r: i32)
    ensures
        r == spec_open_flags(darwin),
{
    (darwin & 0x3)
        | (if darwin & 0x0008 != 0 { 0x0400i32 } else { 0 })
        | (if darwin & 0x0004 != 0 { 0x0800i32 } else { 0 })
        | (if darwin & 0x0200 != 0 { 0x0040i32 } else { 0 })
        | (if darwin & 0x0400 != 0 { 0x0200i32 } else { 0 })
        | (if darwin & 0x0800 != 0 { 0x0080i32 } else { 0 })
        | (if darwin & 0x20000 != 0 { 0x0100i32 } else { 0 })
        | (if darwin & 0x10000 != 0 { 0x10000i32 } else { 0 })
        | (if darwin & 0x100000 != 0 { 0x200000i32 } else { 0 })
}

/// open(2) flags keep their meaning: the access mode is kept, and each
/// Darwin flag is set exactly when its Linux counterpart is set in the
/// result (O_APPEND, O_NONBLOCK, O_CREAT, O_TRUNC, O_EXCL, O_NOCTTY,
/// O_DIRECTORY, O_CLOEXEC); no other Linux bit is set.
pub proof fn law_open_flags_keep_their_meaning(d: i32)
    by (bit_vector)
    ensures
        spec_open_flags(d) & 3 == d & 3,
        (d & 8 != 0) == (spec_open_flags(d) & 1024 != 0),
        (d & 4 != 0) == (spec_open_flags(d) & 2048 != 0),
        (d & 512 != 0) == (spec_open_flags(d) & 64 != 0),
        (d & 1024 != 0) == (spec_open_flags(d) & 512 != 0),
        (d & 2048 != 0) == (spec_open_flags(d) & 128 != 0),
        (d & 131072 != 0) == (spec_open_flags(d) & 256 != 0),
        (d & 65536 != 0) == (spec_open_flags(d) & 65536 != 0),
        (d & 1048576 != 0) == (spec_open_flags(d) & 2097152 != 0),
        spec_open_flags(d) & !2166723i32 == 0,
{
}

/// Darwin mmap(2) flags in Linux terms: MAP_SHARED, MAP_PRIVATE and
/// MAP_FIXED (the low five bits) kept, MAP_ANON 0x1000 -> 0x20,
/// MAP_NORESERVE 0x40 -> 0x4000.
pub open spec fn spec_mmap_flags(d: i32) -> i32 {
    (d & 0x1F) | (if d & 0x1000 != 0 { 0x20i32 } else { 0 }) | (if d & 0x40 != 0 { 0x4000i32 } else { 0 })
}

pub fn translate_mmap_flags(darwin: i32) -> (r: i32)
    ensures
        r == spec_mmap_flags(darwin),
{
    (darwin & 0x1F) | (if darwin & 0x1000 != 0 { 0x20i32 } else { 0 }) | (if darwin & 0x40 != 0 { 0x4000i32 } else { 0 })
}

/// Darwin sigaction flags in Linux terms: SA_SIGINFO 0x40 -> 4, SA_RESTART
/// 0x2 -> 0x10000000, SA_NOCLDSTOP 0x8 -> 1, SA_NODEFER 0x10 -> 0x40000000,
/// SA_ONSTACK 0x1 -> 0x08000000, SA_RESETHAND 0x4 -> 0x80000000; others dropped.
pub open spec fn spec_sa_flags(d: i32) -> u64 {
    (if d & 0x0040 != 0 { 4u64 } else { 0 })
        | (if d & 0x0002 != 0 { 0x1000_0000u64 } else { 0 })
        | (if d & 0x0008 != 0 { 1u64 } else { 0 })
        | (if d & 0x0010 != 0 { 0x4000_0000u64 } else { 0 })
        | (if d & 0x0001 != 0 { 0x0800_0000u64 } else { 0 })
        | (if d & 0x0004 != 0 { 0xFFFF_FFFF_8000_0000u64 } else { 0 })
}

pub fn translate_sa_flags(darwin: i32) -> (r: u64)
    ensures
        r == spec_sa_flags(darwin),
{
    (if darwin & 0x0040 != 0 { 4u64 } else { 0 })
        | (if darwin & 0x0002 != 0 { 0x1000_0000u64 } else { 0 })
        | (if darwin & 0x0008 != 0 { 1u64 } else { 0 })
        | (if darwin & 0x0010 != 0 { 0x4000_0000u64 } else { 0 })
        | (if darwin & 0x0001 != 0 { 0x0800_0000u64 } else { 0 })
        | (if darwin & 0x0004 != 0 { 0xFFFF_FFFF_8000_0000u64 } else { 0 })
}

/// mmap(2) flags keep their meaning: MAP_SHARED, MAP_PRIVATE and MAP_FIXED
/// (the low five bits) are kept, MAP_ANON and MAP_NORESERVE are set exactly
/// when their Linux counterparts are, and no other Linux bit is set.
pub proof fn law_mmap_flags_keep_their_meaning(d: i32)
    by (bit_vector)
    ensures
        spec_mmap_flags(d) & 31 == d & 31,
        (d & 4096 != 0) == (spec_mmap_flags(d) & 32 != 0),
        (d & 64 != 0) == (spec_mmap_flags(d) & 16384 != 0),
        spec_mmap_flags(d) & !16447i32 == 0,
{
}

/// sigaction flags keep their meaning: each Darwin flag is set exactly when
/// its Linux counterpart is set in the result (SA_SIGINFO, SA_RESTART,
/// SA_NOCLDSTOP, SA_NODEFER, SA_ONSTACK, SA_RESETHAND).
pub proof fn law_sa_flags_keep_their_meaning(d: i32)
    by (bit_vector)
    ensures
        (d & 64 != 0) == (spec_sa_flags(d) & 4 != 0),
        (d & 2 != 0) == (spec_sa_flags(d) & 268435456 != 0),
        (d & 8 != 0) == (spec_sa_flags(d) & 1 != 0),
        (d & 16 != 0) == (spec_sa_flags(d) & 1073741824 != 0),
        (d & 1 != 0) == (spec_sa_flags(d) & 134217728 != 0),
        (d & 4 != 0) == (spec_sa_flags(d) & 2147483648 != 0),
{
}

/// The signals a Darwin 32-bit signal mask blocks: bit `b` stands for
/// signal `b + 1`, in increasing order.
pub open spec fn mask_signals_upto(mask: u32, n: nat) -> Seq<i32>
    decreases n,
{
    if n == 0 {
        Seq::empty()
    } else {
        let prev = mask_signals_upto(mask, (n - 1) as nat);
        if (mask >> (n - 1) as u32) & 1 == 1 { prev.push(n as i32) } else { prev }
    }
}

pub fn sa_mask_signals(mask: u32) -> (r: Vec<i32>)
    ensures
        r@ == mask_signals_upto(mask, 32),
{
    let mut out: Vec<i32> = Vec::new();
    let mut bit: u32 = 0;
    while bit < 32
        invariant
            bit <= 32,
            out@ == mask_signals_upto(mask, bit as nat),
        decreases 32 - bit,
    {
        if (mask >> bit) & 1 == 1 {
            out.push((bit + 1) as i32);
        }
        bit = bit + 1;
    }
    out
}

// ---- Syscall results ----

/// A raw syscall result in the libc convention: a negative value -e becomes
/// -1 with errno e.
pub fn syscall_ret(raw: i64) -> (r: (i64, Option<i32>))
    requires
        raw > i64::MIN,
    ensures
        raw < 0 ==> r == (-1i64, Some((-raw) as i32)),
        raw >= 0 ==> r == (raw, None::<i32>),
{
    if raw < 0 {
        (-1, Some((-raw) as i32))
    } else {
        (raw, None)
    }
}

// ---- mmap ----

/// What the mmap shim does.
#[derive(Debug, Clone, Copy)]
pub enum MmapPlan {
    /// A guard-page request (PROT_NONE, MAP_FIXED and MAP_ANON): report
    /// success with this address and map nothing.
    Guard(u64),
    /// Call Linux mmap with these arguments; when `return_requested`, answer
    /// `requested` instead of the aligned address mmap gives.
    Call { addr: u64, len: usize, prot: i32, flags: i32, requested: u64, return_requested: bool },
}

/// The mmap call for a Darwin request: flags translated; a MAP_FIXED address
/// that is not page-aligned is aligned down, the length grown by the
/// difference, and the requested address given back.
pub open spec fn spec_plan_mmap(addr: u64, len: usize, prot: i32, flags: i32) -> MmapPlan {
    let lf = spec_mmap_flags(flags);
    if prot == 0 && lf & 0x30 == 0x30 {
        MmapPlan::Guard(if addr != 0 { addr } else { 0x7fff_dead_0000 })
    } else if lf & 0x10 != 0 && addr % 4096 != 0 {
        MmapPlan::Call { addr: (addr - addr % 4096) as u64, len: (len + addr % 4096) as usize, prot, flags: lf,
            requested: addr, return_requested: true }
    } else {
        MmapPlan::Call { addr, len, prot, flags: lf, requested: addr, return_requested: false }
    }
}

pub fn plan_mmap(addr: u64, len: usize, prot: i32, flags: i32) -> (r: MmapPlan)
    requires
        len + addr % 4096 <= usize::MAX,
    ensures
        r == spec_plan_mmap(addr, len, prot, flags),
{
    let lf = translate_mmap_flags(flags);
    if prot == 0 && lf & 0x30 == 0x30 {
        return MmapPlan::Guard(if addr != 0 { addr } else { 0x7fff_dead_0000 });
    }
    let low = addr & 0xFFF;
    assert(addr & 0xFFF == addr % 4096) by (bit_vector);
    if lf & 0x10 != 0 && low != 0 {
        let aligned = addr - low;
        MmapPlan::Call { addr: aligned, len: len + low as usize, prot, flags: lf, requested: addr, return_requested: true }
    } else {
        MmapPlan::Call { addr, len, prot, flags: lf, requested: addr, return_requested: false }
    }
}

/// The mmap shim's answer once Linux mmap returned `ret` (`failed`: it
/// returned MAP_FAILED).
pub fn mmap_answer(plan: &MmapPlan, ret: u64, failed: bool) -> (r: u64)
    ensures
        r == match *plan {
            MmapPlan::Guard(a) => a,
            MmapPlan::Call { requested, return_requested, .. } => if !failed && return_requested { requested } else { ret },
        },
{
    match *plan {
        MmapPlan::Guard(a) => a,
        MmapPlan::Call { requested, return_requested, .. } => if !failed && return_requested { requested } else { ret },
    }
}

// ---- sysctl ----

/// A sysctl value: a 4-byte or an 8-byte integer.
#[derive(Debug, Clone, Copy, PartialEq, Eq, Structural)]
pub enum SysctlValue {
    Int(i32),
    Long(u64),
}

/// The number of CPUs reported, from sysconf's answer: at least 1.
pub open spec fn cpu_count(ncpu: i64) -> i32 {
    if (ncpu as i32) > 0 { ncpu as i32 } else { 1 }
}

/// The value a sysctl MIB has: CTL_HW (6) HW_NCPU (3), HW_PAGESIZE (7) and
/// HW_MEMSIZE (24), CTL_KERN (1) KERN_MAXPROC (14); None for others.
pub open spec fn spec_sysctl_value(mib0: i32, mib1: i32, ncpu: i64) -> Option<SysctlValue> {
    if mib0 == 6 && mib1 == 3 {
        Some(SysctlValue::Int(cpu_count(ncpu)))
    } else if mib0 == 6 && mib1 == 7 {
        Some(SysctlValue::Int(4096))
    } else if mib0 == 6 && mib1 == 24 {
        Some(SysctlValue::Long(0x2_0000_0000u64))
    } else if mib0 == 1 && mib1 == 14 {
        Some(SysctlValue::Int(2048))
    } else {
        None
    }
}

fn ncpu_value(ncpu: i64) -> (r: i32)
    ensures
        r == cpu_count(ncpu),
{
    let v = ncpu as i32;
    if v > 0 { v } else { 1 }
}

pub fn sysctl_value(mib0: i32, mib1: i32, ncpu: i64) -> (r: Option<SysctlValue>)
    ensures
        r == spec_sysctl_value(mib0, mib1, ncpu),
{
    if mib0 == 6 && mib1 == 3 {
        Some(SysctlValue::Int(ncpu_value(ncpu)))
    } else if mib0 == 6 && mib1 == 7 {
        Some(SysctlValue::Int(4096))
    } else if mib0 == 6 && mib1 == 24 {
        Some(SysctlValue::Long(0x2_0000_0000u64))
    } else if mib0 == 1 && mib1 == 14 {
        Some(SysctlValue::Int(2048))
    } else {
        None
    }
}

/// The value a sysctl name has: hw.ncpu, hw.logicalcpu and hw.physicalcpu
/// (the CPU count), hw.pagesize and hw.memsize; None for others.
pub open spec fn spec_sysctl_by_name(name: Seq<char>, ncpu: i64) -> Option<SysctlValue> {
    if name == "hw.ncpu"@ || name == "hw.logicalcpu"@ || name == "hw.physicalcpu"@ {
        Some(SysctlValue::Int(cpu_count(ncpu)))
    } else if name == "hw.pagesize"@ {
        Some(SysctlValue::Int(4096))
    } else if name == "hw.memsize"@ {
        Some(SysctlValue::Long(0x2_0000_0000u64))
    } else {
        None
    }
}

pub fn sysctl_by_name(name: &str, ncpu: i64) -> (r: Option<SysctlValue>)
    ensures
        r == spec_sysctl_by_name(name@, ncpu),
{
    let n = name.to_string();
    if n == "hw.ncpu".to_string() || n == "hw.logicalcpu".to_string() || n == "hw.physicalcpu".to_string() {
        Some(SysctlValue::Int(ncpu_value(ncpu)))
    } else if n == "hw.pagesize".to_string() {
        Some(SysctlValue::Int(4096))
    } else if n == "hw.memsize".to_string() {
        Some(SysctlValue::Long(0x2_0000_0000u64))
    } else {
        None
    }
}

/// The sysctl answers: the page size is 4096, the memory size 8 GiB and the
/// process limit 2048; the CPU count is sysconf's answer when that is
/// positive (as an i32), else 1; and asking by name gives what asking by
/// MIB gives (hw.ncpu, hw.logicalcpu and hw.physicalcpu as HW_NCPU,
/// hw.pagesize as HW_PAGESIZE, hw.memsize as HW_MEMSIZE).
pub proof fn law_sysctl_answers(ncpu: i64)
    ensures
        spec_sysctl_value(6, 7, ncpu) == Some(SysctlValue::Int(0x1000)),
        spec_sysctl_value(6, 24, ncpu) == Some(SysctlValue::Long(8589934592)),
        spec_sysctl_value(1, 14, ncpu) == Some(SysctlValue::Int(0x800)),
        spec_sysctl_value(6, 3, ncpu) matches Some(SysctlValue::Int(n))
            && n >= 1 && ((ncpu as i32) > 0 ==> n == ncpu as i32),
        spec_sysctl_by_name("hw.ncpu"@, ncpu) == spec_sysctl_value(6, 3, ncpu),
        spec_sysctl_by_name("hw.logicalcpu"@, ncpu) == spec_sysctl_value(6, 3, ncpu),
        spec_sysctl_by_name("hw.physicalcpu"@, ncpu) == spec_sysctl_value(6, 3, ncpu),
        spec_sysctl_by_name("hw.pagesize"@, ncpu) == spec_sysctl_value(6, 7, ncpu),
        spec_sysctl_by_name("hw.memsize"@, ncpu) == spec_sysctl_value(6, 24, ncpu),
{
    reveal_strlit("hw.ncpu");
    reveal_strlit("hw.logicalcpu");
    reveal_strlit("hw.physicalcpu");
    reveal_strlit("hw.pagesize");
    reveal_strlit("hw.memsize");
    assert("hw.ncpu"@.len() == 7);
    assert("hw.logicalcpu"@.len() == 13);
    assert("hw.physicalcpu"@.len() == 14);
    assert("hw.pagesize"@.len() == 11);
    assert("hw.memsize"@.len() == 10);
}

/// An mmap request is mapped where it asked: a fixed request at an
/// unaligned address maps from the page holding that address, over enough
/// bytes to cover the whole request, and answers the address asked for;
/// other requests keep their address and length. A PROT_NONE fixed
/// anonymous request (a guard page) maps nothing and answers success.
pub proof fn law_mmap_covers_the_request(addr: u64, len: usize, prot: i32, flags: i32)
    requires
        len + addr % 4096 <= usize::MAX,
    ensures
        spec_plan_mmap(addr, len, prot, flags) matches MmapPlan::Call { addr: a, len: l, flags: f, requested, return_requested, .. }
            ==> a % 4096 == (if spec_mmap_flags(flags) & 0x10 != 0 { 0 } else { addr % 4096 })
                && a <= addr && addr + len == a + l && requested == addr
                && f == spec_mmap_flags(flags)
                && return_requested == (a != addr),
        (prot == 0 && spec_mmap_flags(flags) & 0x30 == 0x30) ==> spec_plan_mmap(addr, len, prot, flags)
            == MmapPlan::Guard(if addr == 0 { 0x7fffdead0000 } else { addr }),
{
}

/// How many bytes a sysctl answer writes into a buffer of `oldlen` bytes
/// (and stores back as the length): the value's size when it fits, else
/// nothing.
pub fn sysctl_reply_len(value: SysctlValue, oldlen: usize) -> (r: Option<usize>)
    ensures
        r == match value {
            SysctlValue::Int(_) => if oldlen >= 4 { Some(4usize) } else { None },
            SysctlValue::Long(_) => if oldlen >= 8 { Some(8usize) } else { None },
        },
{
    match value {
        SysctlValue::Int(_) => if oldlen >= 4 { Some(4) } else { None },
        SysctlValue::Long(_) => if oldlen >= 8 { Some(8) } else { None },
    }
}

// ---- struct stat and struct dirent ----

/// The fields of a Linux `struct stat` the translation reads.
#[derive(Debug, Clone, Copy)]
pub struct LinuxStat {
    pub st_dev: u64,
    pub st_ino: u64,
    pub st_nlink: u64,
    pub st_mode: u32,
    pub st_uid: u32,
    pub st_gid: u32,
    pub st_rdev: u64,
    pub st_size: i64,
    pub st_blksize: i64,
    pub st_blocks: i64,
    pub st_atime: i64,
    pub st_atime_nsec: i64,
    pub st_mtime: i64,
    pub st_mtime_nsec: i64,
    pub st_ctime: i64,
    pub st_ctime_nsec: i64,
}

/// Darwin's x86_64 `struct stat` (144 bytes), field by field.
#[derive(Debug, Clone, Copy)]
pub struct DarwinStat {
    pub st_dev: i32,
    pub st_mode: u16,
    pub st_nlink: u16,
    pub st_ino: u64,
    pub st_uid: u32,
    pub st_gid: u32,
    pub st_rdev: i32,
    pub pad0: i32,
    pub st_atim: [i64; 2],
    pub st_mtim: [i64; 2],
    pub st_ctim: [i64; 2],
    pub st_birthtim: [i64; 2],
    pub st_size: i64,
    pub st_blocks: i64,
    pub st_blksize: i32,
    pub st_flags: u32,
    pub st_gen: u32,
    pub pad1: i32,
    pub reserved: [i64; 2],
}

/// The Darwin view of a Linux stat: narrower fields truncated, the change
/// time standing in for the birth time Linux does not keep, the rest 0.
pub fn linux_to_darwin_stat(l: &LinuxStat) -> (r: DarwinStat)
    ensures
        r.st_dev == l.st_dev as i32,
        r.st_mode == l.st_mode as u16,
        r.st_nlink == l.st_nlink as u16,
        r.st_ino == l.st_ino,
        r.st_uid == l.st_uid,
        r.st_gid == l.st_gid,
        r.st_rdev == l.st_rdev as i32,
        r.pad0 == 0,
        r.st_atim@ == seq![l.st_atime, l.st_atime_nsec],
        r.st_mtim@ == seq![l.st_mtime, l.st_mtime_nsec],
        r.st_ctim@ == seq![l.st_ctime, l.st_ctime_nsec],
        r.st_birthtim@ == seq![l.st_ctime, l.st_ctime_nsec],
        r.st_size == l.st_size,
        r.st_blocks == l.st_blocks,
        r.st_blksize == l.st_blksize as i32,
        r.st_flags == 0,
        r.st_gen == 0,
        r.pad1 == 0,
        r.reserved@ == seq![0i64, 0i64],
{
    let r = DarwinStat {
        st_dev: l.st_dev as i32,
        st_mode: l.st_mode as u16,
        st_nlink: l.st_nlink as u16,
        st_ino: l.st_ino,
        st_uid: l.st_uid,
        st_gid: l.st_gid,
        st_rdev: l.st_rdev as i32,
        pad0: 0,
        st_atim: [l.st_atime, l.st_atime_nsec],
        st_mtim: [l.st_mtime, l.st_mtime_nsec],
        st_ctim: [l.st_ctime, l.st_ctime_nsec],
        st_birthtim: [l.st_ctime, l.st_ctime_nsec],
        st_size: l.st_size,
        st_blocks: l.st_blocks,
        st_blksize: l.st_blksize as i32,
        st_flags: 0,
        st_gen: 0,
        pad1: 0,
        reserved: [0, 0],
    };
    assert(r.st_atim@ =~= seq![l.st_atime, l.st_atime_nsec]);
    assert(r.st_mtim@ =~= seq![l.st_mtime, l.st_mtime_nsec]);
    assert(r.st_ctim@ =~= seq![l.st_ctime, l.st_ctime_nsec]);
    assert(r.st_birthtim@ =~= seq![l.st_ctime, l.st_ctime_nsec]);
    assert(r.reserved@ =~= seq![0i64, 0i64]);
    r
}

/// A Darwin `struct dirent` (64-bit inode layout), without its name buffer.
#[derive(Debug, Clone, Copy)]
pub struct DarwinDirentHeader {
    pub d_ino: u64,
    pub d_seekoff: u64,
    pub d_reclen: u16,
    pub d_namlen: u16,
    pub d_type: u8,
}

/// The name a dirent carries: the bytes before the first NUL, at most 1023.
pub open spec fn dirent_name(name: Seq<u8>) -> Seq<u8> {
    if cstr_prefix(name).len() <= 1023 { cstr_prefix(name) } else { cstr_prefix(name).take(1023) }
}

/// The Darwin dirent for a Linux entry: the inode and type kept, no seek
/// offset, the name (see `dirent_name`) with its length, and a record length
/// of the 21-byte header plus the name and its NUL.
pub fn darwin_dirent(ino: u64, d_type: u8, name: &[u8]) -> (r: (DarwinDirentHeader, Vec<u8>))
    ensures
        r.1@ == dirent_name(name@),
        r.0.d_ino == ino,
        r.0.d_seekoff == 0,
        r.0.d_type == d_type,
        r.0.d_namlen == r.1@.len(),
        r.0.d_reclen == 21 + r.1@.len() + 1,
{
    let full = c_prefix(name);
    let mut bytes: Vec<u8> = Vec::new();
    let mut i: usize = 0;
    while i < full.len() && i < 1023
        invariant
            i <= full@.len(),
            i <= 1023,
            bytes@ == full@.take(i as int),
        decreases full.len() - i,
    {
        bytes.push(full[i]);
        i = i + 1;
        proof {
            assert(bytes@ =~= full@.take(i as int));
        }
    }
    proof {
        if full@.len() <= 1023 {
            assert(full@.take(i as int) =~= full@);
        }
    }
    let len = bytes.len();
    let header = DarwinDirentHeader {
        d_ino: ino,
        d_seekoff: 0,
        d_reclen: (21 + len + 1) as u16,
        d_namlen: len as u16,
        d_type,
    };
    (header, bytes)
}

// ---- The default rune table ----

/// The _CTYPE class bits of an ASCII character in the default locale.
pub open spec fn spec_rune_type(ch: u8) -> u32 {
    let c: u32 = if ch < 0x20 || ch == 0x7f { 0x200u32 } else { 0u32 };
    let d: u32 = if 0x30 <= ch <= 0x39 { 0x400u32 | 0x100000u32 | 0x40000u32 } else { 0u32 };
    let l: u32 = if 0x61 <= ch <= 0x7a { 0x2000u32 | 0x100u32 | 0x40000u32 } else { 0u32 };
    let u: u32 = if 0x41 <= ch <= 0x5a { 0x8000u32 | 0x100u32 | 0x40000u32 } else { 0u32 };
    let xl: u32 = if 0x61 <= ch <= 0x66 { 0x100000u32 } else { 0u32 };
    let xu: u32 = if 0x41 <= ch <= 0x46 { 0x100000u32 } else { 0u32 };
    let b: u32 = if ch == 0x20 || ch == 0x09 { 0x4000u32 | 0x20000u32 } else { 0u32 };
    let s: u32 = if ch == 0x0a || ch == 0x0d || ch == 0x0b || ch == 0x0c { 0x4000u32 } else { 0u32 };
    let r: u32 = if 0x20 <= ch <= 0x7e { 0x40000u32 } else { 0u32 };
    let before_p = c | d | l | u | xl | xu | b | s | r;
    let p: u32 = if 0x21 <= ch <= 0x7e && before_p & (0x100u32 | 0x400u32) == 0 { 0x10000u32 } else { 0u32 };
    before_p | p
}

pub fn rune_type(ch: u8) -> (r: u32)
    ensures
        r == spec_rune_type(ch),
{
    let c: u32 = if ch < 0x20 || ch == 0x7f { 0x200 } else { 0 };
    let d: u32 = if 0x30 <= ch && ch <= 0x39 { 0x400 | 0x100000 | 0x40000 } else { 0 };
    let l: u32 = if 0x61 <= ch && ch <= 0x7a { 0x2000 | 0x100 | 0x40000 } else { 0 };
    let u: u32 = if 0x41 <= ch && ch <= 0x5a { 0x8000 | 0x100 | 0x40000 } else { 0 };
    let xl: u32 = if 0x61 <= ch && ch <= 0x66 { 0x100000 } else { 0 };
    let xu: u32 = if 0x41 <= ch && ch <= 0x46 { 0x100000 } else { 0 };
    let b: u32 = if ch == 0x20 || ch == 0x09 { 0x4000 | 0x20000 } else { 0 };
    let s: u32 = if ch == 0x0a || ch == 0x0d || ch == 0x0b || ch == 0x0c { 0x4000 } else { 0 };
    let r: u32 = if 0x20 <= ch && ch <= 0x7e { 0x40000 } else { 0 };
    let before_p = c | d | l | u | xl | xu | b | s | r;
    let p: u32 = if 0x21 <= ch && ch <= 0x7e && before_p & (0x100 | 0x400) == 0 { 0x10000 } else { 0 };
    before_p | p
}

/// The default locale's character classes mean what their names say, for
/// every byte: digit (0x400) exactly for '0'..'9', upper (0x8000) for
/// 'A'..'Z', lower (0x2000) for 'a'..'z', alpha (0x100) for letters, hex
/// digit (0x100000) for digits and 'a'..'f', 'A'..'F', blank (0x20000) for
/// space and tab, space (0x4000) for those and '\n', '\v', '\f', '\r',
/// control (0x200) below 0x20 and 0x7f, printable (0x40000) for 0x20..0x7e,
/// and punctuation (0x10000) for the printable characters other than the
/// space and letters and digits.
pub proof fn law_rune_classes_mean_their_names(ch: u8)
    by (bit_vector)
    ensures
        (spec_rune_type(ch) & 1024 != 0) == (48 <= ch <= 57),
        (spec_rune_type(ch) & 32768 != 0) == (65 <= ch <= 90),
        (spec_rune_type(ch) & 8192 != 0) == (97 <= ch <= 122),
        (spec_rune_type(ch) & 256 != 0) == (65 <= ch <= 90 || 97 <= ch <= 122),
        (spec_rune_type(ch) & 1048576 != 0) == (48 <= ch <= 57 || 65 <= ch <= 70 || 97 <= ch <= 102),
        (spec_rune_type(ch) & 131072 != 0) == (ch == 32 || ch == 9),
        (spec_rune_type(ch) & 16384 != 0) == (ch == 32 || 9 <= ch <= 13),
        (spec_rune_type(ch) & 512 != 0) == (ch < 32 || ch == 127),
        (spec_rune_type(ch) & 262144 != 0) == (32 <= ch <= 126),
        (spec_rune_type(ch) & 65536 != 0) == (33 <= ch <= 126 && !(48 <= ch <= 57)
            && !(65 <= ch <= 90) && !(97 <= ch <= 122)),
{
}

/// Size of the default _RuneLocale buffer, and where its __runetype table starts.
pub const RUNE_LOCALE_SIZE: usize = 2048;
pub const RUNETYPE_OFFSET: usize = 0x3c;

/// Byte `i` of the little-endian encoding of `v`.
pub open spec fn le_byte(v: u32, i: int) -> u8 {
    ((v >> (8 * i) as u32) & 0xff) as u8
}

/// The default _RuneLocale: zeros, except __runetype[c] for c < 128 as a
/// little-endian u32 at 0x3c + 4c.
pub open spec fn rune_locale_byte(off: int) -> u8 {
    if RUNETYPE_OFFSET <= off < RUNETYPE_OFFSET + 512 {
        le_byte(spec_rune_type(((off - RUNETYPE_OFFSET) / 4) as u8), (off - RUNETYPE_OFFSET) % 4)
    } else {
        0
    }
}

pub fn default_rune_locale() -> (r: Vec<u8>)
    ensures
        r@.len() == RUNE_LOCALE_SIZE,
        forall|i: int| 0 <= i < RUNE_LOCALE_SIZE ==> #[trigger] r@[i] == rune_locale_byte(i),
{
    let mut buf: Vec<u8> = Vec::new();
    let mut i: usize = 0;
    while i < RUNE_LOCALE_SIZE
        invariant
            i <= RUNE_LOCALE_SIZE,
            buf@.len() == i,
            forall|k: int| 0 <= k < i ==> #[trigger] buf@[k] == rune_locale_byte(k),
        decreases RUNE_LOCALE_SIZE - i,
    {
        let b: u8 = if RUNETYPE_OFFSET <= i && i < RUNETYPE_OFFSET + 512 {
            let k = i - RUNETYPE_OFFSET;
            let t = rune_type((k / 4) as u8);
            ((t >> (8 * (k % 4)) as u32) & 0xff) as u8
        } else {
            0
        };
        buf.push(b);
        i = i + 1;
    }
    buf
}

// ---- Small conversions ----

/// What `_NSGetExecutablePath` answers for a path of `len` bytes and a
/// buffer of `avail`: 0 with the length stored (the path and its NUL
/// copied), or -1 with the size needed stored.
pub fn executable_path_reply(len: u32, avail: u32) -> (r: (i32, u32))
    requires
        len < u32::MAX,
    ensures
        len + 1 > avail ==> r == (-1i32, (len + 1) as u32),
        len + 1 <= avail ==> r == (0i32, len),
{
    if len + 1 > avail { (-1, len + 1) } else { (0, len) }
}

/// The executable path as stored for `_NSGetExecutablePath`: at most 1023
/// bytes, then NUL, in a 1024-byte buffer.
pub fn executable_path_buffer(path: &[u8]) -> (r: Vec<u8>)
    ensures
        r@.len() == 1024,
        forall|i: int| 0 <= i < 1024 ==> #[trigger] r@[i] == (if i < path@.len() && i < 1023 { path@[i] } else { 0u8 }),
{
    let mut buf: Vec<u8> = Vec::new();
    let mut i: usize = 0;
    while i < 1024
        invariant
            i <= 1024,
            buf@.len() == i,
            forall|k: int| 0 <= k < i ==> #[trigger] buf@[k] == (if k < path@.len() && k < 1023 { path@[k] } else { 0u8 }),
        decreases 1024 - i,
    {
        let b = if i < path.len() && i < 1023 { path[i] } else { 0 };
        buf.push(b);
        i = i + 1;
    }
    buf
}

/// An absolute deadline from the current time and a relative timeout,
/// carrying one second out of the nanoseconds.
pub fn add_timeout(now_sec: i64, now_nsec: i64, rel_sec: i64, rel_nsec: i64) -> (r: (i64, i64))
    requires
        now_sec + rel_sec + 1 <= i64::MAX,
        now_sec + rel_sec >= i64::MIN,
        now_nsec + rel_nsec <= i64::MAX,
        now_nsec + rel_nsec >= i64::MIN + 1_000_000_000,
    ensures
        now_nsec + rel_nsec >= 1_000_000_000 ==> r == ((now_sec + rel_sec + 1) as i64, (now_nsec + rel_nsec - 1_000_000_000) as i64),
        now_nsec + rel_nsec < 1_000_000_000 ==> r == ((now_sec + rel_sec) as i64, (now_nsec + rel_nsec) as i64),
{
    let mut sec = now_sec + rel_sec;
    let mut nsec = now_nsec + rel_nsec;
    if nsec >= 1_000_000_000 {
        sec = sec + 1;
        nsec = nsec - 1_000_000_000;
    }
    (sec, nsec)
}

/// Integer division rounding toward zero, as Rust's `/` does.
pub open spec fn div_toward_zero(a: int, b: int) -> int {
    if a >= 0 { a / b } else { -((-a) / b) }
}

/// A timespec as milliseconds for epoll_wait (truncated to 32 bits).
pub fn timeout_millis(sec: i64, nsec: i64) -> (r: i32)
    requires
        i64::MIN <= sec * 1000 + div_toward_zero(nsec as int, 1_000_000) <= i64::MAX,
        i64::MIN <= sec * 1000 <= i64::MAX,
    ensures
        r == (sec * 1000 + div_toward_zero(nsec as int, 1_000_000)) as i32,
{
    (sec * 1000 + nsec / 1_000_000) as i32
}

/// `dispatch_time(when, delta)`: `when` moved by `delta` nanoseconds, modulo 2^64.
pub fn dispatch_time(when: u64, delta: i64) -> (r: u64)
    ensures
        r == wrap64(when + delta),
{
    crate::bytes::add_signed_wrapping(when, delta)
}

/// The classes libc reports for a character, as `___maskrune` asks them.
#[derive(Clone, Copy, Debug)]
pub struct CharClasses {
    pub alpha: bool,
    pub cntrl: bool,
    pub digit: bool,
    pub lower: bool,
    pub upper: bool,
    pub space: bool,
    pub punct: bool,
    pub xdigit: bool,
    pub blank: bool,
    pub print: bool,
}

/// The Darwin `_CTYPE_*` bits of a character's classes.
pub open spec fn class_bits(k: CharClasses) -> u64 {
    (if k.alpha { 0x100u64 } else { 0u64 }) | (if k.cntrl { 0x200u64 } else { 0u64 })
        | (if k.digit { 0x400u64 } else { 0u64 }) | (if k.lower { 0x2000u64 } else { 0u64 })
        | (if k.upper { 0x8000u64 } else { 0u64 }) | (if k.space { 0x4000u64 } else { 0u64 })
        | (if k.punct { 0x10000u64 } else { 0u64 }) | (if k.xdigit { 0x100000u64 } else { 0u64 })
        | (if k.blank { 0x20000u64 } else { 0u64 }) | (if k.print { 0x40000u64 } else { 0u64 })
}

/// `___maskrune(c, mask)`: the bits of `mask` among the classes of `c`
/// (given by the caller, who asks libc); none for a `c` outside ASCII.
pub fn maskrune(c: i32, mask: u64, classes: CharClasses) -> (r: i32)
    ensures
        r == (if 0 <= c < 128 { (class_bits(classes) & mask) as i32 } else { 0i32 }),
{
    if c < 0 || c >= 128 {
        return 0;
    }
    let k = classes;
    let bits: u64 = (if k.alpha { 0x100u64 } else { 0u64 }) | (if k.cntrl { 0x200u64 } else { 0u64 })
        | (if k.digit { 0x400u64 } else { 0u64 }) | (if k.lower { 0x2000u64 } else { 0u64 })
        | (if k.upper { 0x8000u64 } else { 0u64 }) | (if k.space { 0x4000u64 } else { 0u64 })
        | (if k.punct { 0x10000u64 } else { 0u64 }) | (if k.xdigit { 0x100000u64 } else { 0u64 })
        | (if k.blank { 0x20000u64 } else { 0u64 }) | (if k.print { 0x40000u64 } else { 0u64 });
    (bits & mask) as i32
}

/// The TLV block size: the image's thread-local total, or 1 MiB when it states none.
pub fn tlv_block_size(total: usize) -> (r: usize)
    ensures
        r == (if total > 0 { total } else { 0x10_0000usize }),
{
    if total > 0 { total } else { 1024 * 1024 }
}

/// Darwin's PTHREAD_ONCE_INIT signature: a `pthread_once_t` still holding it
/// is reset to Linux's 0 before the call.
pub const DARWIN_PTHREAD_ONCE_INIT: u32 = 0x30B1BCBA;

/// The stack bounds `pthread_get_stack{addr,size}_np` report.
pub struct StackBounds {
    base: u64,
    size: u64,
}

impl StackBounds {
    pub closed spec fn base(&self) -> u64 { self.base }
    pub closed spec fn size(&self) -> u64 { self.size }

    /// No stack recorded yet, and the default size of 8 MiB.
    pub fn new() -> (r: StackBounds)
        ensures
            r.base() == 0,
            r.size() == 8 * 1024 * 1024,
    {
        StackBounds { base: 0, size: 8 * 1024 * 1024 }
    }

    pub fn set_stack_bounds(&mut self, base: u64, size: u64)
        ensures
            final(self).base() == base,
            final(self).size() == size,
    {
        self.base = base;
        self.size = size;
    }

    /// Darwin's stack address is its top: base + size; with no stack
    /// recorded, 8 MiB above `rsp`, page-aligned down.
    pub fn stack_addr(&self, rsp: u64) -> (r: u64)
        ensures
            self.base() != 0 ==> r == wrap64(self.base() + self.size()),
            self.base() == 0 ==> r == wrap64(rsp + 0x800000) - wrap64(rsp + 0x800000) % 4096,
    {
        if self.base != 0 {
            crate::bytes::add_wrapping(self.base, self.size)
        } else {
            let t = crate::bytes::add_wrapping(rsp, 0x800000);
            let r = t & !0xFFFu64;
            assert(t & !0xFFFu64 == t - t % 4096) by (bit_vector);
            r
        }
    }

    pub fn stack_size(&self) -> (r: u64)
        ensures
            r == self.size(),
    {
        self.size
    }
}

} // verus!
