use grafted::syscall::{DarwinSyscall, translate};

#[test]
fn test_translate_write() {
    match translate(0x2000004) {
        DarwinSyscall::Unix { darwin_nr: 4, linux_nr: 1 } => {}
        other => panic!("expected Unix write, got {other:?}"),
    }
}

#[test]
fn test_translate_exit() {
    match translate(0x2000001) {
        DarwinSyscall::Unix { darwin_nr: 1, linux_nr: 60 } => {}
        other => panic!("expected Unix exit, got {other:?}"),
    }
}

#[test]
fn test_translate_mach_trap() {
    match translate(0x100001a) {
        DarwinSyscall::MachTrap { trap_nr: 26 } => {}
        other => panic!("expected MachTrap 26, got {other:?}"),
    }
}

#[test]
fn test_translate_unknown() {
    match translate(0x0500_0001) {
        DarwinSyscall::Unknown { .. } => {}
        other => panic!("expected Unknown, got {other:?}"),
    }
}

#[test]
fn unmapped_bsd_syscall_has_negative_linux_number() {
    assert_eq!(translate(0x2000000 + 999), DarwinSyscall::Unix { darwin_nr: 999, linux_nr: -1 });
    assert_eq!(translate(0x2000014), DarwinSyscall::Unix { darwin_nr: 20, linux_nr: 39 });
    assert_eq!(translate(0x20000c5), DarwinSyscall::Unix { darwin_nr: 197, linux_nr: 9 });
}

#[test]
fn identity_syscalls_map_to_their_linux_numbers() {
    assert_eq!(translate(0x2000000 + 25), DarwinSyscall::Unix { darwin_nr: 25, linux_nr: 107 });
    assert_eq!(translate(0x2000000 + 43), DarwinSyscall::Unix { darwin_nr: 43, linux_nr: 108 });
    assert_eq!(translate(0x2000000 + 47), DarwinSyscall::Unix { darwin_nr: 47, linux_nr: 104 });
    assert_eq!(translate(0x2000000 + 24), DarwinSyscall::Unix { darwin_nr: 24, linux_nr: 102 });
}
