use grafted::dispatch::{
    allow_trampoline, decode_insn, fault_is_counted, in_binary_text, page_span, plan_fault, FaultAction, plan_syscall, selector_trampoline, stack_layout, sud_range,
    trap_answer, ExecState, GraftedMachTrap, SelectorPage, SyscallAction, TrampolinePool,
};

#[test]
fn test_process_syscall_unix_getpid() {
    // Darwin getpid is 20, Linux is 39: the call goes through unchanged.
    match plan_syscall(0x2000014, [0; 6], false) {
        SyscallAction::Linux { nr, args } => {
            assert_eq!(nr, 39);
            assert_eq!(args, [0; 6]);
        }
        other => panic!("unexpected {other:?}"),
    }
}

#[test]
fn test_process_syscall_mach_reply_port() {
    match plan_syscall(0x100001a, [0; 6], false) {
        SyscallAction::Return(v) => assert_eq!(v, 0x307),
        other => panic!("unexpected {other:?}"),
    }
}

#[test]
fn test_process_syscall_mach_trap_unsupported_fd() {
    match plan_syscall(0x1000063, [0; 6], false) {
        SyscallAction::Return(v) => assert_eq!(v, -38),
        other => panic!("unexpected {other:?}"),
    }
}

#[test]
fn special_ports_and_forwarded_traps() {
    assert!(matches!(plan_syscall(0x100001b, [0; 6], false), SyscallAction::Return(0x203)));
    assert!(matches!(plan_syscall(0x100001c, [0; 6], false), SyscallAction::Return(0x103)));
    match plan_syscall(0x1000063, [1, 2, 3, 4, 5, 6], true) {
        SyscallAction::MachTrap { trap_nr, args } => {
            assert_eq!(trap_nr, 99);
            assert_eq!(args, [1, 2, 3, 4, 5, 6]);
        }
        other => panic!("unexpected {other:?}"),
    }
    let t = GraftedMachTrap::new(99, [1, 2, 3, 4, 5, 6]);
    assert_eq!(t.result, 0);
    assert_eq!(trap_answer(false, &t), -38);
    let done = GraftedMachTrap { result: 7, ..t };
    assert_eq!(trap_answer(true, &done), 7);
}

#[test]
fn exit_ends_the_process() {
    assert!(matches!(plan_syscall(0x2000001, [3, 0, 0, 0, 0, 0], false), SyscallAction::ExitGroup(3)));
}

#[test]
fn mmap_flags_and_guard_pages() {
    // MAP_PRIVATE | MAP_ANON (Darwin 0x1002) becomes Linux 0x22
    match plan_syscall(0x20000c5, [0, 4096, 3, 0x1002, u64::MAX, 0], false) {
        SyscallAction::Linux { nr, args } => {
            assert_eq!(nr, 9);
            assert_eq!(args[3], 0x22);
        }
        other => panic!("unexpected {other:?}"),
    }
    // PROT_NONE | MAP_FIXED | MAP_ANON: fake success at the requested address
    assert!(matches!(plan_syscall(0x20000c5, [0x5000, 4096, 0, 0x1012, 0, 0], false), SyscallAction::Return(0x5000)));
    assert!(matches!(plan_syscall(0x20000c5, [0, 4096, 0, 0x1012, 0, 0], false), SyscallAction::Return(0x7fff_0000)));
    // mprotect(PROT_NONE) is answered with success
    assert!(matches!(plan_syscall(0x200004a, [0x5000, 4096, 0, 0, 0, 0], false), SyscallAction::Return(0)));
}

#[test]
fn open_flags_on_the_trap_path() {
    // O_WRONLY | O_CREAT | O_TRUNC (Darwin 0x601) becomes Linux 0x241
    match plan_syscall(0x2000005, [0x1000, 0x601, 0o644, 0, 0, 0], false) {
        SyscallAction::Linux { nr, args } => {
            assert_eq!(nr, 2);
            assert_eq!(args[1], 0x241);
        }
        other => panic!("unexpected {other:?}"),
    }
}

#[test]
fn vm_protect_rounds_to_pages() {
    match plan_syscall(0x100000e, [0, 0x1234, 0x10, 0, 3, 0], false) {
        SyscallAction::Protect { addr, size, prot } => {
            assert_eq!(addr, 0x1000);
            assert_eq!(size, 0x1000);
            assert_eq!(prot, 3);
        }
        other => panic!("unexpected {other:?}"),
    }
    assert_eq!(page_span(0x1ff0, 0x20), (0x1000, 0x2000));
}

#[test]
fn unknown_classes() {
    assert!(matches!(plan_syscall(0x27, [0; 6], false), SyscallAction::Linux { nr: 0x27, .. }));
    assert!(matches!(plan_syscall(0x0500_0001, [0; 6], false), SyscallAction::ReportUnknown));
    assert!(matches!(plan_syscall(0x2000000 + 999, [0; 6], false), SyscallAction::Return(-38)));
}

#[test]
fn sud_ranges() {
    assert_eq!(sud_range(0x40_0000), (0, 0));
    assert_eq!(sud_range(0x1_0000_0000), (0x1000, 0xFFFF_F000));
    assert_eq!(sud_range(0), (0x1000, 0xFFFF_F000));
    let mut st = ExecState::new();
    st.set_darwin_text_base(0x1000);
    assert_eq!(st.sud_range(), (0, 0));
    assert_eq!(st.stack_base(), 0);
}

#[test]
fn decode_known_instructions() {
    // mov rax, [rbx]  (48 8b 03): 3 bytes, destination rax
    assert_eq!(decode_insn(&[0x48, 0x8b, 0x03, 0x90]), (3, 0));
    // mov r9, [rbp+8] (4c 8b 4d 08): 4 bytes, destination r9
    assert_eq!(decode_insn(&[0x4c, 0x8b, 0x4d, 0x08]), (4, 9));
    // mov [rax], ecx (89 08): 2 bytes, no destination register
    assert_eq!(decode_insn(&[0x89, 0x08, 0x00, 0x00]), (2, -1));
    // call rax (ff d0): skipped whole
    assert_eq!(decode_insn(&[0xff, 0xd0, 0x00, 0x00]), (2, -1));
    // movzx eax, byte [rdi] (0f b6 07)
    assert_eq!(decode_insn(&[0x0f, 0xb6, 0x07, 0x00]), (3, 0));
    // cmp dword [rip+disp32], imm8 (83 3d ...): 7 bytes
    assert_eq!(decode_insn(&[0x83, 0x3d, 0x00, 0x00]), (7, -1));
    // register-to-register and unknown opcodes are not skipped
    assert_eq!(decode_insn(&[0x48, 0x89, 0xc0, 0x00]), (0, -1));
    assert_eq!(decode_insn(&[0xc3, 0x00, 0x00, 0x00]), (0, -1));
}

#[test]
fn trampolines() {
    let t = selector_trampoline(0x1122_3344_5566_7788);
    assert_eq!(t, vec![0x49, 0xbb, 0x88, 0x77, 0x66, 0x55, 0x44, 0x33, 0x22, 0x11, 0x41, 0xc6, 0x03, 0x01, 0xc3]);
    let a = allow_trampoline(0x10, 0x20);
    assert_eq!(a.len(), 43);
    assert_eq!(&a[..11], &[0x50, 0x57, 0x56, 0x52, 0x51, 0x41, 0x50, 0x41, 0x51, 0x48, 0xb8]);
    assert_eq!(a[11], 0x10);
    assert_eq!(a[32], 0x20);
    assert_eq!(&a[40..], &[0x41, 0xff, 0xe3]);
    let mut pool = TrampolinePool::new();
    assert_eq!(pool.reserve(), Some(0));
    assert_eq!(pool.reserve(), Some(48));
    let mut page = SelectorPage::new();
    assert_eq!(page.take(), Some(0));
    assert_eq!(page.take(), Some(1));
}

#[test]
fn trampoline_pool_runs_out() {
    let mut pool = TrampolinePool::new();
    let mut n = 0;
    while pool.reserve().is_some() {
        n += 1;
    }
    assert_eq!(n, 65536 / 48);
}

#[test]
fn stack_layout_places_strings_and_pointers() {
    let apple = vec![b"executable_path=/bin/x".to_vec()];
    let envp = vec![b"A=1".to_vec(), b"HOME=/root".to_vec()];
    let argv = vec![b"/bin/x".to_vec()];
    let top: u64 = 0x10000;
    let l = stack_layout(top, &apple, &envp, &argv);
    // "executable_path=/bin/x" is 22 bytes + NUL: 0x10000 - 23 = 0xffe9, aligned down to 0xffe8
    assert_eq!(l.apple_addrs, vec![0xffe8]);
    assert_eq!(l.env_addrs, vec![0xffe0, 0xffd0]);
    assert_eq!(l.arg_addrs, vec![0xffc8]);
    assert_eq!(l.sp % 16, 0);
    // 1 + 2 + 3 + 2 = 8 entries (even): no padding below 0xffc0
    assert_eq!(l.sp, 0xffc0 - 8 * 8);
    assert_eq!(l.words, vec![1, 0xffc8, 0, 0xffe0, 0xffd0, 0, 0xffe8, 0]);
}

#[test]
fn plan_fault_reentrant_and_unprotected() {
    assert_eq!(plan_fault(11, 0x1234, 0x7000_0000, true, true, true, 0, &[]), FaultAction::Recover);
    assert_eq!(plan_fault(11, 0x1234, 0x7000_0000, false, true, true, 0, &[]), FaultAction::Exit);
    assert_eq!(plan_fault(11, 0x1234, 0x7000_0000, false, false, true, 0, &[]), FaultAction::ReportAndExit);
}

#[test]
fn plan_fault_returns_from_null_call() {
    assert_eq!(
        plan_fault(11, 0, 0x7fff_0000_1000, true, false, true, 3, &[]),
        FaultAction::ReturnFromNullCall { rsp: 0x7fff_0000_1008, rax: 0, rdx: 0xE000_0000_0000_0000 }
    );
    // stack pointer out of range, skip mode off, limit reached, or an abort: recover instead
    assert_eq!(plan_fault(11, 0, 0x800, true, false, true, 3, &[]), FaultAction::Recover);
    assert_eq!(plan_fault(11, 0, 0x7fff_0000_1000, true, false, false, 3, &[]), FaultAction::Recover);
    assert_eq!(plan_fault(11, 0, 0x7fff_0000_1000, true, false, true, 500, &[]), FaultAction::Recover);
    assert_eq!(plan_fault(6, 0, 0x7fff_0000_1000, true, false, true, 0, &[]), FaultAction::Recover);
}

#[test]
fn plan_fault_skips_binary_instruction() {
    // mov rax, [rbx + 8]: 48 8b 43 08
    assert_eq!(
        plan_fault(11, 0x1_0000_1000, 0x7fff_0000_1000, true, false, true, 0, &[0x48, 0x8b, 0x43, 0x08]),
        FaultAction::SkipInstruction { rip: 0x1_0000_1004, len: 4, zero_reg: Some(0) }
    );
    // mov r9, [rbx] with REX.R: 4c 8b 0b
    assert_eq!(
        plan_fault(11, 0x1_0000_2000, 0, true, false, true, 0, &[0x4c, 0x8b, 0x0b, 0x90]),
        FaultAction::SkipInstruction { rip: 0x1_0000_2003, len: 3, zero_reg: Some(9) }
    );
    // mov [rax], ecx writes memory: no register to zero
    assert_eq!(
        plan_fault(11, 0x1_0000_3000, 0, true, false, true, 0, &[0x89, 0x08, 0x90, 0x90]),
        FaultAction::SkipInstruction { rip: 0x1_0000_3002, len: 2, zero_reg: None }
    );
    // an unknown opcode, or code outside the binary: recover
    assert_eq!(plan_fault(11, 0x1_0000_3000, 0, true, false, true, 0, &[0x0f, 0x05, 0, 0]), FaultAction::Recover);
    assert_eq!(plan_fault(11, 0x7f00_0000_0000, 0, true, false, true, 0, &[]), FaultAction::Recover);
}

#[test]
fn fault_counting() {
    assert!(fault_is_counted(11, true, false, true));
    assert!(!fault_is_counted(6, true, false, true));
    assert!(!fault_is_counted(11, false, false, true));
    assert!(!fault_is_counted(11, true, true, true));
    assert!(in_binary_text(0x1_0000_0000));
    assert!(!in_binary_text(0x1_0020_0000));
}
