use grafted::darwin_abi::{
    add_timeout, darwin_dirent, default_rune_locale, dispatch_time, executable_path_buffer, executable_path_reply,
    linux_to_darwin_stat, mmap_answer, plan_mmap, rune_type, sa_mask_signals, syscall_ret, sysctl_by_name,
    sysctl_reply_len, sysctl_value, timeout_millis, tlv_block_size, translate_mmap_flags, translate_open_flags,
    translate_sa_flags, maskrune, CharClasses, LinuxStat, MmapPlan, StackBounds, SysctlValue,
};

#[test]
fn open_flags() {
    assert_eq!(translate_open_flags(0x0), 0x0);
    assert_eq!(translate_open_flags(0x2), 0x2);
    // O_WRONLY | O_APPEND | O_CREAT
    assert_eq!(translate_open_flags(0x209), 0x441);
    // O_NONBLOCK | O_EXCL | O_CLOEXEC | O_DIRECTORY
    assert_eq!(translate_open_flags(0x0011_0804), 0x0021_0880);
}

#[test]
fn mmap_flags() {
    assert_eq!(translate_mmap_flags(0x1002), 0x22);
    assert_eq!(translate_mmap_flags(0x1012), 0x32);
    assert_eq!(translate_mmap_flags(0x42), 0x4002);
}

#[test]
fn sigaction_flags_and_mask() {
    assert_eq!(translate_sa_flags(0x40), 4);
    assert_eq!(translate_sa_flags(0x42), 0x1000_0004);
    assert_eq!(translate_sa_flags(0x4), 0xFFFF_FFFF_8000_0000);
    assert_eq!(translate_sa_flags(0x1f), 0xFFFF_FFFF_8000_0000 | 0x4000_0000 | 0x1000_0000 | 0x0800_0000 | 1);
    assert_eq!(sa_mask_signals(0b1010), vec![2, 4]);
    assert_eq!(sa_mask_signals(0x8000_0000), vec![32]);
    assert!(sa_mask_signals(0).is_empty());
}

#[test]
fn errno_convention() {
    assert_eq!(syscall_ret(-2), (-1, Some(2)));
    assert_eq!(syscall_ret(5), (5, None));
    assert_eq!(syscall_ret(0), (0, None));
}

#[test]
fn mmap_plans() {
    match plan_mmap(0, 4096, 0, 0x1012) {
        MmapPlan::Guard(a) => assert_eq!(a, 0x7fff_dead_0000),
        other => panic!("unexpected {other:?}"),
    }
    let p = plan_mmap(0x10_0010, 100, 3, 0x1012);
    match p {
        MmapPlan::Call { addr, len, flags, requested, return_requested, .. } => {
            assert_eq!(addr, 0x10_0000);
            assert_eq!(len, 116);
            assert_eq!(flags, 0x32);
            assert_eq!(requested, 0x10_0010);
            assert!(return_requested);
        }
        other => panic!("unexpected {other:?}"),
    }
    assert_eq!(mmap_answer(&p, 0x10_0000, false), 0x10_0010);
    assert_eq!(mmap_answer(&p, u64::MAX, true), u64::MAX);
    let q = plan_mmap(0, 8192, 3, 0x1002);
    assert_eq!(mmap_answer(&q, 0x7000_0000, false), 0x7000_0000);
}

#[test]
fn sysctl_answers() {
    assert_eq!(sysctl_value(6, 3, 8), Some(SysctlValue::Int(8)));
    assert_eq!(sysctl_value(6, 3, -1), Some(SysctlValue::Int(1)));
    assert_eq!(sysctl_value(6, 7, 8), Some(SysctlValue::Int(4096)));
    assert_eq!(sysctl_value(6, 24, 8), Some(SysctlValue::Long(8 * 1024 * 1024 * 1024)));
    assert_eq!(sysctl_value(1, 14, 8), Some(SysctlValue::Int(2048)));
    assert_eq!(sysctl_value(1, 1, 8), None);
    assert_eq!(sysctl_by_name("hw.logicalcpu", 4), Some(SysctlValue::Int(4)));
    assert_eq!(sysctl_by_name("hw.memsize", 4), Some(SysctlValue::Long(8 * 1024 * 1024 * 1024)));
    assert_eq!(sysctl_by_name("kern.osrelease", 4), None);
    assert_eq!(sysctl_reply_len(SysctlValue::Int(1), 4), Some(4));
    assert_eq!(sysctl_reply_len(SysctlValue::Long(1), 4), None);
    assert_eq!(sysctl_reply_len(SysctlValue::Long(1), 16), Some(8));
}

#[test]
fn stat_translation() {
    let l = LinuxStat {
        st_dev: 0x1_0000_0005, st_ino: 42, st_nlink: 3, st_mode: 0o100644, st_uid: 1000, st_gid: 100,
        st_rdev: 7, st_size: 1234, st_blksize: 4096, st_blocks: 8, st_atime: 1, st_atime_nsec: 2,
        st_mtime: 3, st_mtime_nsec: 4, st_ctime: 5, st_ctime_nsec: 6,
    };
    let d = linux_to_darwin_stat(&l);
    assert_eq!(d.st_dev, 5);
    assert_eq!(d.st_mode, 0o100644);
    assert_eq!(d.st_nlink, 3);
    assert_eq!(d.st_ino, 42);
    assert_eq!(d.st_atim, [1, 2]);
    assert_eq!(d.st_mtim, [3, 4]);
    assert_eq!(d.st_birthtim, [5, 6]);
    assert_eq!(d.st_size, 1234);
    assert_eq!(d.st_blksize, 4096);
    assert_eq!(d.st_flags, 0);
}

#[test]
fn dirent_translation() {
    let (h, name) = darwin_dirent(9, 4, b"hello\0junk");
    assert_eq!(name, b"hello".to_vec());
    assert_eq!(h.d_ino, 9);
    assert_eq!(h.d_type, 4);
    assert_eq!(h.d_namlen, 5);
    assert_eq!(h.d_reclen, 27);
    assert_eq!(h.d_seekoff, 0);
}

#[test]
fn rune_table() {
    assert_eq!(rune_type(b'a'), 0x2000 | 0x100 | 0x40000 | 0x100000);
    assert_eq!(rune_type(b'Z'), 0x8000 | 0x100 | 0x40000);
    assert_eq!(rune_type(b'5'), 0x400 | 0x100000 | 0x40000);
    assert_eq!(rune_type(b' '), 0x4000 | 0x20000 | 0x40000);
    assert_eq!(rune_type(b'\n'), 0x200 | 0x4000);
    assert_eq!(rune_type(b'!'), 0x40000 | 0x10000);
    let t = default_rune_locale();
    assert_eq!(t.len(), 2048);
    let off = 0x3c + 4 * (b'a' as usize);
    assert_eq!(u32::from_le_bytes([t[off], t[off + 1], t[off + 2], t[off + 3]]), rune_type(b'a'));
    assert_eq!(t[0], 0);
    assert_eq!(t[0x3c + 512], 0);
}

#[test]
fn small_conversions() {
    assert_eq!(executable_path_reply(10, 5), (-1, 11));
    assert_eq!(executable_path_reply(10, 11), (0, 10));
    let b = executable_path_buffer(b"/bin/x");
    assert_eq!(b.len(), 1024);
    assert_eq!(&b[..7], b"/bin/x\0");
    assert_eq!(add_timeout(10, 900_000_000, 1, 200_000_000), (12, 100_000_000));
    assert_eq!(add_timeout(10, 100, 0, 100), (10, 200));
    assert_eq!(timeout_millis(2, 5_000_000), 2005);
    assert_eq!(dispatch_time(100, -40), 60);
    assert_eq!(dispatch_time(u64::MAX, 2), 1);
    assert_eq!(tlv_block_size(0), 1024 * 1024);
    assert_eq!(tlv_block_size(64), 64);
}

#[test]
fn stack_bounds() {
    let mut s = StackBounds::new();
    assert_eq!(s.stack_size(), 8 * 1024 * 1024);
    assert_eq!(s.stack_addr(0x7000_1234), 0x7080_1000);
    s.set_stack_bounds(0x1000_0000, 0x10_0000);
    assert_eq!(s.stack_addr(0), 0x1010_0000);
    assert_eq!(s.stack_size(), 0x10_0000);
}

#[test]
fn maskrune_picks_the_asked_bits() {
    let none = CharClasses {
        alpha: false, cntrl: false, digit: false, lower: false, upper: false,
        space: false, punct: false, xdigit: false, blank: false, print: false,
    };
    let a = CharClasses { alpha: true, lower: true, xdigit: true, print: true, ..none };
    assert_eq!(maskrune(b'a' as i32, 0x100, a), 0x100);
    assert_eq!(maskrune(b'a' as i32, 0x8000, a), 0);
    assert_eq!(maskrune(b'a' as i32, u64::MAX, a), 0x100 | 0x2000 | 0x100000 | 0x40000);
    assert_eq!(maskrune(200, u64::MAX, a), 0);
    assert_eq!(maskrune(-1, u64::MAX, a), 0);
    let sp = CharClasses { space: true, blank: true, print: true, ..none };
    assert_eq!(maskrune(b' ' as i32, 0x4000 | 0x20000, sp), 0x4000 | 0x20000);
}

#[test]
fn open_flags_noctty_maps_from_darwin_bit() {
    assert_eq!(translate_open_flags(0x20000), 0x100);
    assert_eq!(translate_open_flags(0x10), 0x0);
    assert_eq!(translate_open_flags(0x20001), 0x101);
}
