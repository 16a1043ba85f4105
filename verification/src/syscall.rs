//! Running a syscall inside the stopped debuggee.
//!
//! The debuggee's registers are loaded with the syscall number and its
//! arguments, the instruction at its instruction pointer is replaced by a
//! syscall instruction, and one step is taken. Then the old instruction and
//! the old registers are put back. [`Injection`] decides what to do next from
//! what the last action gave; the caller carries the actions out. Whatever
//! fails on the way, the instruction and the registers are put back if they
//! were changed.

use vstd::prelude::*;

verus! {

/// The general registers of a thread on x86-64.
#[derive(Clone, Copy, Debug, PartialEq, Eq, Structural)]
pub struct UserRegs {
    pub r15: u64,
    pub r14: u64,
    pub r13: u64,
    pub r12: u64,
    pub rbp: u64,
    pub rbx: u64,
    pub r11: u64,
    pub r10: u64,
    pub r9: u64,
    pub r8: u64,
    pub rax: u64,
    pub rcx: u64,
    pub rdx: u64,
    pub rsi: u64,
    pub rdi: u64,
    pub orig_rax: u64,
    pub rip: u64,
    pub cs: u64,
    pub eflags: u64,
    pub rsp: u64,
    pub ss: u64,
    pub fs_base: u64,
    pub gs_base: u64,
    pub ds: u64,
    pub es: u64,
    pub fs: u64,
    pub gs: u64,
}

/// A syscall to make: its number and its six arguments.
#[derive(Clone, Copy, Debug, PartialEq, Eq, Structural)]
pub struct SyscallArgs {
    pub num: u64,
    pub arg1: u64,
    pub arg2: u64,
    pub arg3: u64,
    pub arg4: u64,
    pub arg5: u64,
    pub arg6: u64,
}

/// The word written over the instruction: the two bytes `0f 05` of the
/// syscall instruction at its low end, the rest zero.
pub const SYSCALL_INSTRUCTION: u64 = 0x050f;

/// The number of the `mmap` syscall on x86-64.
pub const SYS_MMAP: u64 = 9;

/// The registers at the entry of a syscall: the number in `rax`, the
/// arguments in `rdi`, `rsi`, `rdx`, `r10`, `r8` and `r9`, all others as they
/// were.
pub open spec fn entry_registers(regs: UserRegs, call: SyscallArgs) -> UserRegs {
    UserRegs {
        rax: call.num,
        rdi: call.arg1,
        rsi: call.arg2,
        rdx: call.arg3,
        r10: call.arg4,
        r8: call.arg5,
        r9: call.arg6,
        ..regs
    }
}

/// A signed value as the 64-bit register holds it, in two's complement.
pub open spec fn register_value(value: int) -> int {
    if value >= 0 {
        value
    } else {
        value + 0x1_0000_0000_0000_0000
    }
}

/// Widens a signed value to a register.
pub fn to_register(value: i64) -> (r: u64)
    ensures
        r == register_value(value as int),
{
    if value >= 0 {
        value as u64
    } else {
        u64::MAX - ((-(value + 1)) as u64)
    }
}

/// The syscall that maps memory in the debuggee.
pub fn mmap(addr: u64, length: u64, prot: i32, flags: i32, fd: i32, offset: i64) -> (r: SyscallArgs)
    ensures
        r == (SyscallArgs {
            num: SYS_MMAP,
            arg1: addr,
            arg2: length,
            arg3: register_value(prot as int) as u64,
            arg4: register_value(flags as int) as u64,
            arg5: register_value(fd as int) as u64,
            arg6: register_value(offset as int) as u64,
        }),
{
    SyscallArgs {
        num: SYS_MMAP,
        arg1: addr,
        arg2: length,
        arg3: to_register(prot as i64),
        arg4: to_register(flags as i64),
        arg5: to_register(fd as i64),
        arg6: to_register(offset),
    }
}

/// What the caller is to do next.
#[derive(Clone, Copy, Debug, PartialEq, Eq, Structural)]
pub enum TraceAction {
    /// Read the registers and answer with `Registers`.
    ReadRegisters,
    /// Write these registers.
    WriteRegisters(UserRegs),
    /// Read the word at this address and answer with `Word`.
    PeekText(u64),
    /// Write the word (second) at the address (first).
    PokeText(u64, u64),
    /// Let the debuggee run one instruction.
    Step,
    /// Wait until the debuggee has stopped.
    Wait,
    /// The syscall was made and returned this value. Nothing is left to do.
    Finished(u64),
    /// The syscall could not be made. Nothing is left to do.
    Failed,
}

/// What the last action gave.
#[derive(Clone, Copy, Debug, PartialEq, Eq, Structural)]
pub enum TraceEvent {
    /// Nothing was done yet.
    Begin,
    /// The action was carried out and gives no value.
    Done,
    /// The registers that were read.
    Registers(UserRegs),
    /// The word that was read.
    Word(u64),
    /// The action failed.
    Failure,
}

/// How far the injection of a syscall has come.
#[derive(Clone, Copy, Debug, PartialEq, Eq, Structural)]
pub enum Injection {
    /// Nothing was done.
    Start { call: SyscallArgs },
    /// The registers are being read.
    Saving { call: SyscallArgs },
    /// The entry registers are being written.
    Entering { saved: UserRegs },
    /// The instruction is being read.
    Peeking { saved: UserRegs },
    /// The syscall instruction is being written.
    Planting { saved: UserRegs, text: u64 },
    /// The step is being taken.
    Stepping { saved: UserRegs, text: u64 },
    /// The stop after the step is awaited.
    Waiting { saved: UserRegs, text: u64 },
    /// The registers after the syscall are being read.
    Reading { saved: UserRegs, text: u64 },
    /// The old instruction is being written back.
    RestoringText { saved: UserRegs, result: Option<u64> },
    /// The old registers are being written back.
    RestoringRegisters { result: Option<u64> },
    /// Nothing is left to do.
    End,
}

/// The action that closes an injection: the result, or the failure.
pub open spec fn closing(result: Option<u64>) -> TraceAction {
    match result {
        Some(value) => TraceAction::Finished(value),
        None => TraceAction::Failed,
    }
}

/// The state and the action that follow a state and an event. An event that
/// the state does not wait for counts as a failure.
pub open spec fn step(state: Injection, event: TraceEvent) -> (Injection, TraceAction) {
    match state {
        Injection::Start { call } => match event {
            TraceEvent::Begin => (Injection::Saving { call }, TraceAction::ReadRegisters),
            _ => (Injection::End, TraceAction::Failed),
        },
        Injection::Saving { call } => match event {
            TraceEvent::Registers(saved) => (
                Injection::Entering { saved },
                TraceAction::WriteRegisters(entry_registers(saved, call)),
            ),
            _ => (Injection::End, TraceAction::Failed),
        },
        Injection::Entering { saved } => match event {
            TraceEvent::Done => (Injection::Peeking { saved }, TraceAction::PeekText(saved.rip)),
            _ => (
                Injection::RestoringRegisters { result: None },
                TraceAction::WriteRegisters(saved),
            ),
        },
        Injection::Peeking { saved } => match event {
            TraceEvent::Word(text) => (
                Injection::Planting { saved, text },
                TraceAction::PokeText(saved.rip, SYSCALL_INSTRUCTION),
            ),
            _ => (
                Injection::RestoringRegisters { result: None },
                TraceAction::WriteRegisters(saved),
            ),
        },
        Injection::Planting { saved, text } => match event {
            TraceEvent::Done => (Injection::Stepping { saved, text }, TraceAction::Step),
            _ => (
                Injection::RestoringText { saved, result: None },
                TraceAction::PokeText(saved.rip, text),
            ),
        },
        Injection::Stepping { saved, text } => match event {
            TraceEvent::Done => (Injection::Waiting { saved, text }, TraceAction::Wait),
            _ => (
                Injection::RestoringText { saved, result: None },
                TraceAction::PokeText(saved.rip, text),
            ),
        },
        Injection::Waiting { saved, text } => match event {
            TraceEvent::Done => (Injection::Reading { saved, text }, TraceAction::ReadRegisters),
            _ => (
                Injection::RestoringText { saved, result: None },
                TraceAction::PokeText(saved.rip, text),
            ),
        },
        Injection::Reading { saved, text } => match event {
            TraceEvent::Registers(after) => (
                Injection::RestoringText { saved, result: Some(after.rax) },
                TraceAction::PokeText(saved.rip, text),
            ),
            _ => (
                Injection::RestoringText { saved, result: None },
                TraceAction::PokeText(saved.rip, text),
            ),
        },
        Injection::RestoringText { saved, result } => match event {
            TraceEvent::Done => (
                Injection::RestoringRegisters { result },
                TraceAction::WriteRegisters(saved),
            ),
            _ => (
                Injection::RestoringRegisters { result: None },
                TraceAction::WriteRegisters(saved),
            ),
        },
        Injection::RestoringRegisters { result } => match event {
            TraceEvent::Done => (Injection::End, closing(result)),
            _ => (Injection::End, TraceAction::Failed),
        },
        Injection::End => (Injection::End, TraceAction::Failed),
    }
}

/// The number of actions that a state may still ask for, at most.
pub open spec fn actions_left(state: Injection) -> nat {
    match state {
        Injection::Start { .. } => 10,
        Injection::Saving { .. } => 9,
        Injection::Entering { .. } => 8,
        Injection::Peeking { .. } => 7,
        Injection::Planting { .. } => 6,
        Injection::Stepping { .. } => 5,
        Injection::Waiting { .. } => 4,
        Injection::Reading { .. } => 3,
        Injection::RestoringText { .. } => 2,
        Injection::RestoringRegisters { .. } => 1,
        Injection::End => 0,
    }
}

/// The registers that a state has saved and has yet to write back, if any.
pub open spec fn registers_owed(state: Injection) -> Option<UserRegs> {
    match state {
        Injection::Entering { saved } => Some(saved),
        Injection::Peeking { saved } => Some(saved),
        Injection::Planting { saved, .. } => Some(saved),
        Injection::Stepping { saved, .. } => Some(saved),
        Injection::Waiting { saved, .. } => Some(saved),
        Injection::Reading { saved, .. } => Some(saved),
        Injection::RestoringText { saved, .. } => Some(saved),
        _ => None,
    }
}

/// The instruction word that a state has saved and has yet to write back, if
/// any.
pub open spec fn text_owed(state: Injection) -> Option<u64> {
    match state {
        Injection::Planting { text, .. } => Some(text),
        Injection::Stepping { text, .. } => Some(text),
        Injection::Waiting { text, .. } => Some(text),
        Injection::Reading { text, .. } => Some(text),
        _ => None,
    }
}

impl Injection {
    /// The injection of a syscall, before anything was done. The first event
    /// to hand to [`Self::advance`] is `Begin`.
    pub fn new(call: SyscallArgs) -> (r: Injection)
        ensures
            r == (Injection::Start { call }),
    {
        Injection::Start { call }
    }

    /// Takes what the last action gave, and says what to do next.
    pub fn advance(self, event: TraceEvent) -> (r: (Injection, TraceAction))
        ensures
            r == step(self, event),
    {
        match self {
            Injection::Start { call } => match event {
                TraceEvent::Begin => (Injection::Saving { call }, TraceAction::ReadRegisters),
                _ => (Injection::End, TraceAction::Failed),
            },
            Injection::Saving { call } => match event {
                TraceEvent::Registers(saved) => {
                    let mut entry: UserRegs = saved;
                    entry.rax = call.num;
                    entry.rdi = call.arg1;
                    entry.rsi = call.arg2;
                    entry.rdx = call.arg3;
                    entry.r10 = call.arg4;
                    entry.r8 = call.arg5;
                    entry.r9 = call.arg6;
                    (Injection::Entering { saved }, TraceAction::WriteRegisters(entry))
                },
                _ => (Injection::End, TraceAction::Failed),
            },
            Injection::Entering { saved } | Injection::Peeking { saved } => {
                let peeking: bool = matches!(self, Injection::Peeking { .. });
                match event {
                    TraceEvent::Done if !peeking => (
                        Injection::Peeking { saved },
                        TraceAction::PeekText(saved.rip),
                    ),
                    TraceEvent::Word(text) if peeking => (
                        Injection::Planting { saved, text },
                        TraceAction::PokeText(saved.rip, SYSCALL_INSTRUCTION),
                    ),
                    _ => (
                        Injection::RestoringRegisters { result: None },
                        TraceAction::WriteRegisters(saved),
                    ),
                }
            },
            Injection::Planting { saved, text } => Self::planted(
                saved,
                text,
                event,
                Injection::Stepping { saved, text },
                TraceAction::Step,
            ),
            Injection::Stepping { saved, text } => Self::planted(
                saved,
                text,
                event,
                Injection::Waiting { saved, text },
                TraceAction::Wait,
            ),
            Injection::Waiting { saved, text } => Self::planted(
                saved,
                text,
                event,
                Injection::Reading { saved, text },
                TraceAction::ReadRegisters,
            ),
            Injection::Reading { saved, text } => {
                let result: Option<u64> = match event {
                    TraceEvent::Registers(after) => Some(after.rax),
                    _ => None,
                };
                (Injection::RestoringText { saved, result }, TraceAction::PokeText(saved.rip, text))
            },
            Injection::RestoringText { saved, result } => {
                let kept: Option<u64> = match event {
                    TraceEvent::Done => result,
                    _ => None,
                };
                (Injection::RestoringRegisters { result: kept }, TraceAction::WriteRegisters(saved))
            },
            Injection::RestoringRegisters { result } => match (event, result) {
                (TraceEvent::Done, Some(value)) => (Injection::End, TraceAction::Finished(value)),
                _ => (Injection::End, TraceAction::Failed),
            },
            Injection::End => (Injection::End, TraceAction::Failed),
        }
    }

    /// The step from a state in which the syscall instruction stands in the
    /// debuggee: on, if the last action was carried out, and else back, with
    /// the old instruction.
    fn planted(
        saved: UserRegs,
        text: u64,
        event: TraceEvent,
        on: Injection,
        action: TraceAction,
    ) -> (r: (Injection, TraceAction))
        ensures
            r == match event {
                TraceEvent::Done => (on, action),
                _ => (
                    Injection::RestoringText { saved, result: None },
                    TraceAction::PokeText(saved.rip, text),
                ),
            },
    {
        match event {
            TraceEvent::Done => (on, action),
            _ => (
                Injection::RestoringText { saved, result: None },
                TraceAction::PokeText(saved.rip, text),
            ),
        }
    }

    /// Whether nothing is left to do.
    pub fn is_finished(&self) -> (r: bool)
        ensures
            r == (*self == Injection::End),
    {
        matches!(self, Injection::End)
    }
}

/// An injection comes to its end: every step leaves fewer actions to ask for,
/// so after ten steps at most nothing is left to do.
pub proof fn lemma_injection_ends(state: Injection, event: TraceEvent)
    requires
        state != Injection::End,
    ensures
        actions_left(step(state, event).0) < actions_left(state),
        step(state, event).0 == Injection::End <==> (step(state, event).1 is Finished || step(
            state,
            event,
        ).1 is Failed),
{
}

/// What was changed in the debuggee is put back on every way to the end,
/// whatever the events are. While a state owes the old instruction, each
/// step either keeps the debt or writes that instruction back at the saved
/// instruction pointer. While a state owes the old registers, each step
/// either keeps the debt or writes those registers back.
pub proof fn lemma_injection_restores(state: Injection, event: TraceEvent)
    ensures
        text_owed(state) matches Some(text) ==> text_owed(step(state, event).0) == Some(text) || step(
            state,
            event,
        ).1 == TraceAction::PokeText(registers_owed(state)->Some_0.rip, text),
        registers_owed(state) matches Some(saved) ==> registers_owed(step(state, event).0) == Some(
            saved,
        ) || step(state, event).1 == TraceAction::WriteRegisters(saved),
        registers_owed(step(state, event).0) is None ==> text_owed(step(state, event).0) is None,
{
}

/// The instruction is replaced only after it was saved, and the registers
/// only after they were saved: a step that asks to write either leads to a
/// state that owes the old value, or is itself the writing back.
pub proof fn lemma_injection_saves_first(state: Injection, event: TraceEvent)
    ensures
        step(state, event).1 matches TraceAction::PokeText(at, word) ==> registers_owed(state)
            matches Some(saved) && at == saved.rip && (text_owed(step(state, event).0) is Some
            || text_owed(state) == Some(word)),
        step(state, event).1 matches TraceAction::WriteRegisters(regs) ==> registers_owed(
            step(state, event).0,
        ) is Some || registers_owed(state) == Some(regs),
{
}

/// When every action is carried out, the syscall's value is what the
/// debuggee had in `rax` after the step.
pub proof fn lemma_injection_result(saved: UserRegs, text: u64, after: UserRegs)
    ensures
        ({
            let read = step(Injection::Reading { saved, text }, TraceEvent::Registers(after));
            let text_back = step(read.0, TraceEvent::Done);
            let regs_back = step(text_back.0, TraceEvent::Done);
            &&& read.1 == TraceAction::PokeText(saved.rip, text)
            &&& text_back.1 == TraceAction::WriteRegisters(saved)
            &&& regs_back == (Injection::End, TraceAction::Finished(after.rax))
        }),
{
}

} // verus!
