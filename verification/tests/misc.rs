use debuggee::memory_map::{get_addr_range, AddrRangeError, MemoryMap};
use debuggee::syscall::{
    mmap, to_register, Injection, SyscallArgs, TraceAction, TraceEvent, UserRegs,
    SYSCALL_INSTRUCTION, SYS_MMAP,
};
use debuggee::target::LinuxTarget;
use debuggee::thread::{LinuxThread, StatFailure};

#[test]
fn memory_map_permissions() {
    let map = MemoryMap::new(
        (0x55d0_a3c4_e000, 0x55d0_a3c5_0000),
        "r-xp",
        0x2000,
        Some(String::from("/usr/bin/cat")),
    );
    assert_eq!(map.address, (0x55d0_a3c4_e000, 0x55d0_a3c5_0000));
    assert_eq!(map.backing_file, Some((String::from("/usr/bin/cat"), 0x2000)));
    assert!(map.is_readable);
    assert!(!map.is_writable);
    assert!(map.is_executable);
    assert!(map.is_private);

    let map = MemoryMap::new((1, 2), "rw-s", 7, None);
    assert_eq!(map.backing_file, None);
    assert!(map.is_readable && map.is_writable);
    assert!(!map.is_executable && !map.is_private);
    let copy = map.clone();
    assert_eq!(copy.address, (1, 2));
    assert!(copy.is_readable && copy.is_writable && !copy.is_private);
}

#[test]
fn memory_map_unexpected_permissions() {
    // Letters count only in their own place.
    let map = MemoryMap::new((0, 1), "pxwr", 0, None);
    assert!(!map.is_readable && !map.is_writable && !map.is_executable && !map.is_private);
    let map = MemoryMap::new((0, 1), "RWXP", 0, None);
    assert!(!map.is_readable && !map.is_writable && !map.is_executable && !map.is_private);
    let map = MemoryMap::new((0, 1), "rw", 0, None);
    assert!(map.is_readable && map.is_writable && !map.is_executable && !map.is_private);
    let map = MemoryMap::new((0, 1), "", 0, None);
    assert!(!map.is_readable && !map.is_writable && !map.is_executable && !map.is_private);
    let map = MemoryMap::new((0, 1), "rwxp+", 0, None);
    assert!(map.is_readable && map.is_writable && map.is_executable && map.is_private);
}

#[test]
fn addr_range_of_first_line() {
    assert_eq!(
        get_addr_range("55d0a3c4e000-55d0a3c50000 r--p 00000000 08:01 1311 /usr/bin/cat\n"),
        Ok(0x55d0_a3c4_e000)
    );
    assert_eq!(get_addr_range("00400000-00452000 r-xp 00000000 08:02 173521\n"), Ok(0x400000));
    assert_eq!(get_addr_range("AbC-def"), Ok(0xabc));
    assert_eq!(get_addr_range("0-1"), Ok(0));
    assert_eq!(get_addr_range("ff 12-34"), Ok(0xff));
    assert_eq!(get_addr_range("+1f-2f"), Ok(0x1f));
    assert_eq!(get_addr_range("ffffffffffffffff-0"), Ok(usize::MAX));
}

#[test]
fn addr_range_parse_failures() {
    assert_eq!(get_addr_range(""), Err(AddrRangeError::ParseFailed));
    assert_eq!(get_addr_range("\n"), Err(AddrRangeError::ParseFailed));
    assert_eq!(get_addr_range("-1000"), Err(AddrRangeError::ParseFailed));
    assert_eq!(get_addr_range(" 1000-2000"), Err(AddrRangeError::ParseFailed));
    assert_eq!(get_addr_range("+-2000"), Err(AddrRangeError::ParseFailed));
    assert_eq!(get_addr_range("+"), Err(AddrRangeError::ParseFailed));
    assert_eq!(get_addr_range("12g4-2000"), Err(AddrRangeError::ParseFailed));
    assert_eq!(get_addr_range("1000\n"), Err(AddrRangeError::ParseFailed));
    assert_eq!(get_addr_range("0x1000-2000"), Err(AddrRangeError::ParseFailed));
    assert_eq!(get_addr_range("10000000000000000-0"), Err(AddrRangeError::ParseFailed));
    assert_eq!(get_addr_range("1+1-2"), Err(AddrRangeError::ParseFailed));
}

#[test]
fn reads_threads() {
    let proc_pid = 4321;
    let target = LinuxTarget::me(proc_pid);
    let threads = target.threads(&vec![4321, 4400]);
    let stats: Vec<Result<String, StatFailure>> =
        vec![Ok(String::from("main")), Ok(String::from("thread_name"))];
    let threads: Vec<(String, i32)> = threads
        .iter()
        .zip(stats)
        .map(|(t, stat)| (t.name(stat).unwrap().unwrap_or_else(String::new), t.thread_id()))
        .collect();
    assert!(threads.len() >= 2);
    assert!(threads.iter().any(|&(_, tid)| tid == proc_pid));
    assert!(threads.iter().any(|(name, _)| name == "thread_name"));
    assert_eq!(target.threads(&Vec::new()), Vec::<LinuxThread>::new());
}

#[test]
fn thread_name_of_a_thread_that_is_gone() {
    let thread = LinuxThread::new(12);
    assert_eq!(thread.thread_id(), 12);
    assert_eq!(thread.name(Ok(String::from("worker"))), Ok(Some(String::from("worker"))));
    assert_eq!(thread.name(Err(StatFailure::NotFound)), Ok(None));
    assert_eq!(thread.name(Err(StatFailure::Incomplete)), Ok(None));
    assert_eq!(thread.name(Err(StatFailure::PermissionDenied)), Err(StatFailure::PermissionDenied));
    assert_eq!(thread.name(Err(StatFailure::Io)), Err(StatFailure::Io));
    assert_eq!(thread.name(Err(StatFailure::Other)), Err(StatFailure::Other));
    assert_eq!(thread.name(Err(StatFailure::InternalError)), Err(StatFailure::InternalError));
}

fn some_registers() -> UserRegs {
    UserRegs {
        r15: 15,
        r14: 14,
        r13: 13,
        r12: 12,
        rbp: 100,
        rbx: 101,
        r11: 11,
        r10: 10,
        r9: 9,
        r8: 8,
        rax: 102,
        rcx: 103,
        rdx: 104,
        rsi: 105,
        rdi: 106,
        orig_rax: 107,
        rip: 0x40_1000,
        cs: 0x33,
        eflags: 0x246,
        rsp: 0x7ffc_0000_1000,
        ss: 0x2b,
        fs_base: 1,
        gs_base: 2,
        ds: 3,
        es: 4,
        fs: 5,
        gs: 6,
    }
}

#[test]
fn register_values() {
    assert_eq!(to_register(0), 0);
    assert_eq!(to_register(5), 5);
    assert_eq!(to_register(-1), u64::MAX);
    assert_eq!(to_register(-2), u64::MAX - 1);
    assert_eq!(to_register(i64::MIN), 1 << 63);
    assert_eq!(to_register(i64::MAX), (1 << 63) - 1);
    assert_eq!(SYSCALL_INSTRUCTION.to_le_bytes(), [0x0f, 0x05, 0, 0, 0, 0, 0, 0]);
    assert_eq!(SYS_MMAP, 9);
}

#[test]
fn remote_mmap() {
    const PAGE_SIZE: u64 = 4096;
    const PROT_READ: i32 = 1;
    const PROT_WRITE: i32 = 2;
    const MAP_PRIVATE: i32 = 0x02;
    const MAP_ANONYMOUS: i32 = 0x20;
    let call = mmap(0, PAGE_SIZE, PROT_READ | PROT_WRITE, MAP_PRIVATE | MAP_ANONYMOUS, -1, 0);
    assert_eq!(
        call,
        SyscallArgs { num: 9, arg1: 0, arg2: 4096, arg3: 3, arg4: 0x22, arg5: u64::MAX, arg6: 0 }
    );

    let saved = some_registers();
    let text = 0x9090_9090_c3c9_5d5bu64;
    let target = LinuxTarget::new(55);
    let state =
        target.mmap(0, PAGE_SIZE, PROT_READ | PROT_WRITE, MAP_PRIVATE | MAP_ANONYMOUS, -1, 0);
    assert_eq!(state, Injection::new(call));
    assert!(!state.is_finished());

    let (state, action) = state.advance(TraceEvent::Begin);
    assert_eq!(action, TraceAction::ReadRegisters);
    let (state, action) = state.advance(TraceEvent::Registers(saved));
    let entry = UserRegs {
        rax: 9,
        rdi: 0,
        rsi: 4096,
        rdx: 3,
        r10: 0x22,
        r8: u64::MAX,
        r9: 0,
        ..saved
    };
    assert_eq!(action, TraceAction::WriteRegisters(entry));
    let (state, action) = state.advance(TraceEvent::Done);
    assert_eq!(action, TraceAction::PeekText(0x40_1000));
    let (state, action) = state.advance(TraceEvent::Word(text));
    assert_eq!(action, TraceAction::PokeText(0x40_1000, 0x050f));
    let (state, action) = state.advance(TraceEvent::Done);
    assert_eq!(action, TraceAction::Step);
    let (state, action) = state.advance(TraceEvent::Done);
    assert_eq!(action, TraceAction::Wait);
    let (state, action) = state.advance(TraceEvent::Done);
    assert_eq!(action, TraceAction::ReadRegisters);
    let mapped = 0x7f12_3456_7000u64;
    let after = UserRegs { rax: mapped, rip: 0x40_1002, rcx: 0x40_1002, ..entry };
    let (state, action) = state.advance(TraceEvent::Registers(after));
    assert_eq!(action, TraceAction::PokeText(0x40_1000, text));
    let (state, action) = state.advance(TraceEvent::Done);
    assert_eq!(action, TraceAction::WriteRegisters(saved));
    assert!(!state.is_finished());
    let (state, action) = state.advance(TraceEvent::Done);
    assert_eq!(action, TraceAction::Finished(mapped));
    assert_eq!(mapped % PAGE_SIZE, 0);
    assert!(state.is_finished());
    assert_eq!(state.advance(TraceEvent::Done), (Injection::End, TraceAction::Failed));
}

#[test]
fn syscall_sets_the_argument_registers() {
    let target = LinuxTarget::new(55);
    let state = target.syscall(1, 2, 3, 4, 5, 6, 7);
    let saved = some_registers();
    let (state, _) = state.advance(TraceEvent::Begin);
    let (_, action) = state.advance(TraceEvent::Registers(saved));
    match action {
        TraceAction::WriteRegisters(regs) => {
            assert_eq!(
                (regs.rax, regs.rdi, regs.rsi, regs.rdx, regs.r10, regs.r8, regs.r9),
                (1, 2, 3, 4, 5, 6, 7)
            );
            assert_eq!(regs.rip, saved.rip);
            assert_eq!(regs.rsp, saved.rsp);
            assert_eq!(regs.rcx, saved.rcx);
            assert_eq!(regs.orig_rax, saved.orig_rax);
        }
        other => panic!("unexpected action {:?}", other),
    }
}

fn run(events: &[TraceEvent]) -> Vec<TraceAction> {
    let call = SyscallArgs { num: 39, arg1: 0, arg2: 0, arg3: 0, arg4: 0, arg5: 0, arg6: 0 };
    let mut state = Injection::new(call);
    let mut actions = Vec::new();
    for event in events {
        let (next, action) = state.advance(*event);
        state = next;
        actions.push(action);
    }
    assert!(state.is_finished());
    actions
}

#[test]
fn failed_injection_puts_everything_back() {
    let saved = some_registers();
    let text = 0x1122_3344_5566_7788u64;
    let call = SyscallArgs { num: 39, arg1: 0, arg2: 0, arg3: 0, arg4: 0, arg5: 0, arg6: 0 };
    let entry = UserRegs { rax: 39, rdi: 0, rsi: 0, rdx: 0, r10: 0, r8: 0, r9: 0, ..saved };
    assert_eq!(Injection::new(call), Injection::Start { call });

    // The registers cannot be read: nothing was changed.
    assert_eq!(
        run(&[TraceEvent::Begin, TraceEvent::Failure]),
        vec![TraceAction::ReadRegisters, TraceAction::Failed]
    );
    // The instruction cannot be read: the registers are put back.
    assert_eq!(
        run(&[
            TraceEvent::Begin,
            TraceEvent::Registers(saved),
            TraceEvent::Done,
            TraceEvent::Failure,
            TraceEvent::Done,
        ]),
        vec![
            TraceAction::ReadRegisters,
            TraceAction::WriteRegisters(entry),
            TraceAction::PeekText(saved.rip),
            TraceAction::WriteRegisters(saved),
            TraceAction::Failed,
        ]
    );
    // The step fails: the instruction and the registers are put back.
    assert_eq!(
        run(&[
            TraceEvent::Begin,
            TraceEvent::Registers(saved),
            TraceEvent::Done,
            TraceEvent::Word(text),
            TraceEvent::Done,
            TraceEvent::Failure,
            TraceEvent::Done,
            TraceEvent::Done,
        ]),
        vec![
            TraceAction::ReadRegisters,
            TraceAction::WriteRegisters(entry),
            TraceAction::PeekText(saved.rip),
            TraceAction::PokeText(saved.rip, SYSCALL_INSTRUCTION),
            TraceAction::Step,
            TraceAction::PokeText(saved.rip, text),
            TraceAction::WriteRegisters(saved),
            TraceAction::Failed,
        ]
    );
    // Writing the instruction back fails: the registers are still put back,
    // and the value that was read is not reported as a success.
    assert_eq!(
        run(&[
            TraceEvent::Begin,
            TraceEvent::Registers(saved),
            TraceEvent::Done,
            TraceEvent::Word(text),
            TraceEvent::Done,
            TraceEvent::Done,
            TraceEvent::Done,
            TraceEvent::Registers(entry),
            TraceEvent::Failure,
            TraceEvent::Done,
        ])[8..],
        [TraceAction::WriteRegisters(saved), TraceAction::Failed]
    );
    // An event that is not waited for counts as a failure.
    assert_eq!(
        run(&[TraceEvent::Begin, TraceEvent::Word(1)]),
        vec![TraceAction::ReadRegisters, TraceAction::Failed]
    );
    assert_eq!(run(&[TraceEvent::Done]), vec![TraceAction::Failed]);
}
