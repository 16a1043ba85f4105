//! The debuggee: its process id and the table of hardware breakpoint slots.

use vstd::prelude::*;
use crate::batch::{ReadMemory, WriteMemory};
use crate::memory::Span;
use crate::syscall::{mmap, Injection, SyscallArgs};
use crate::thread::LinuxThread;
use crate::hardware_breakpoint::{
    control_after_clear, control_after_set, len_field, rw_field, slot_enabled, spec_bit_mask,
    spec_status_bit, status_after_clear, HardwareBreakpoint, HardwareBreakpointError,
    SUPPORTED_HARDWARE_BREAKPOINTS,
};

verus! {

/// Options for attaching to a process.
#[derive(Clone, Copy, Debug, PartialEq, Eq, Structural)]
pub struct AttachOptions {
    /// Whether the debuggee is killed when the tracer exits or crashes.
    pub kill_on_exit: bool,
}

impl Default for AttachOptions {
    fn default() -> (r: AttachOptions)
        ensures
            !r.kill_on_exit,
    {
        AttachOptions { kill_on_exit: false }
    }
}

/// An image of the debug registers of the debuggee: the four address
/// registers DR0 to DR3, the status register DR6 and the control register DR7.
#[derive(Clone, Copy, Debug)]
pub struct DebugRegisters {
    pub addresses: [u64; 4],
    pub status: u64,
    pub control: u64,
}

/// What a [`DebugRegisters`] image holds.
pub ghost struct DebugRegistersView {
    pub addresses: Seq<u64>,
    pub status: u64,
    pub control: u64,
}

impl View for DebugRegisters {
    type V = DebugRegistersView;

    open spec fn view(&self) -> DebugRegistersView {
        DebugRegistersView {
            addresses: self.addresses@,
            status: self.status,
            control: self.control,
        }
    }
}

/// The slot table: one entry for each of DR0 to DR3.
pub type Slots = Seq<Option<HardwareBreakpoint>>;

/// The lowest slot that holds no breakpoint.
pub open spec fn first_empty(slots: Slots) -> Option<usize> {
    if slots[0] is None {
        Some(0)
    } else if slots[1] is None {
        Some(1)
    } else if slots[2] is None {
        Some(2)
    } else if slots[3] is None {
        Some(3)
    } else {
        None
    }
}

/// Whether a slot holds a breakpoint that the status register reports.
pub open spec fn slot_triggered(slots: Slots, status: u64, index: usize) -> bool {
    status & spec_status_bit(index) != 0 && slots[index as int] is Some
}

/// The lowest slot that holds a breakpoint and is reported by the status
/// register.
pub open spec fn first_triggered(slots: Slots, status: u64) -> Option<usize> {
    if slot_triggered(slots, status, 0) {
        Some(0)
    } else if slot_triggered(slots, status, 1) {
        Some(1)
    } else if slot_triggered(slots, status, 2) {
        Some(2)
    } else if slot_triggered(slots, status, 3) {
        Some(3)
    } else {
        None
    }
}

/// The number of slots that hold a breakpoint.
pub open spec fn active_count(slots: Slots) -> nat {
    slots.filter(|s: Option<HardwareBreakpoint>| s is Some).len()
}

/// Whether every slot holds a breakpoint.
pub open spec fn table_full(slots: Slots) -> bool {
    forall|i: int| 0 <= i < slots.len() ==> slots[i] is Some
}

/// The table, the registers and the answer after a breakpoint is set.
pub open spec fn set_step(slots: Slots, regs: DebugRegistersView, bp: HardwareBreakpoint) -> (
    Slots,
    DebugRegistersView,
    Result<usize, HardwareBreakpointError>,
) {
    match first_empty(slots) {
        None => (slots, regs, Err(HardwareBreakpointError::NoEmptyWatchpoint)),
        Some(i) => (
            slots.update(i as int, Some(bp)),
            DebugRegistersView {
                addresses: regs.addresses.update(i as int, bp.addr),
                status: 0,
                control: control_after_set(regs.control, bp, i),
            },
            Ok(i),
        ),
    }
}

/// The table, the registers and the answer after a slot is cleared.
pub open spec fn clear_step(slots: Slots, regs: DebugRegistersView, index: usize) -> (
    Slots,
    DebugRegistersView,
    Result<HardwareBreakpoint, HardwareBreakpointError>,
) {
    if index < SUPPORTED_HARDWARE_BREAKPOINTS && slots[index as int] is Some {
        (
            slots.update(index as int, None),
            DebugRegistersView {
                addresses: regs.addresses,
                status: status_after_clear(regs.status, index),
                control: control_after_clear(regs.control, index),
            },
            Ok(slots[index as int]->Some_0),
        )
    } else {
        (slots, regs, Err(HardwareBreakpointError::DoesNotExist(index)))
    }
}

/// The table and the registers after the slots below `upto` are cleared in
/// ascending order, the empty ones left as they are.
pub open spec fn clear_all_step(slots: Slots, regs: DebugRegistersView, upto: nat) -> (
    Slots,
    DebugRegistersView,
)
    decreases upto,
{
    if upto == 0 {
        (slots, regs)
    } else {
        let before = clear_all_step(slots, regs, (upto - 1) as nat);
        let after = clear_step(before.0, before.1, (upto - 1) as usize);
        (after.0, after.1)
    }
}

/// The registers and the answer after the status register is asked which
/// breakpoint fired.
pub open spec fn triggered_step(slots: Slots, regs: DebugRegistersView) -> (
    DebugRegistersView,
    Option<usize>,
) {
    match first_triggered(slots, regs.status) {
        None => (regs, None),
        Some(i) => (
            DebugRegistersView {
                addresses: regs.addresses,
                status: status_after_clear(regs.status, i),
                control: regs.control,
            },
            Some(i),
        ),
    }
}

/// The state of a debuggee on Linux.
#[derive(Clone, Debug)]
pub struct LinuxTarget {
    pid: i32,
    hardware_breakpoints: [Option<HardwareBreakpoint>; 4],
}

impl LinuxTarget {
    /// The process id of the debuggee.
    pub closed spec fn spec_pid(&self) -> i32 {
        self.pid
    }

    /// The slot table. It always has four entries.
    pub closed spec fn slots(&self) -> Slots {
        self.hardware_breakpoints@
    }

    /// The slot table has one entry for each address register.
    pub proof fn lemma_slots_len(&self)
        ensures
            self.slots().len() == SUPPORTED_HARDWARE_BREAKPOINTS,
    {
    }

    /// A target for the process `pid`, with every slot empty.
    pub fn new(pid: i32) -> (r: LinuxTarget)
        ensures
            r.spec_pid() == pid,
            r.slots() == Seq::new(4, |i: int| None::<HardwareBreakpoint>),
    {
        let r = LinuxTarget { pid, hardware_breakpoints: [None, None, None, None] };
        assert(r.hardware_breakpoints@ =~= Seq::new(4, |i: int| None::<HardwareBreakpoint>));
        r
    }

    /// The target for a process that was launched under the tracer, after its
    /// first stop, and whether the kernel is to be told to kill it when the
    /// tracer exits: for a launched process, always.
    pub fn launch(pid: i32) -> (r: (LinuxTarget, bool))
        ensures
            r.0.spec_pid() == pid,
            r.0.slots() == Seq::new(4, |i: int| None::<HardwareBreakpoint>),
            r.1,
    {
        (LinuxTarget::new(pid), true)
    }

    /// The target for a process that the tracer has attached to, after its
    /// stop, and whether the kernel is to be told to kill it when the tracer
    /// exits: as the options say.
    pub fn attach(pid: i32, options: AttachOptions) -> (r: (LinuxTarget, bool))
        ensures
            r.0.spec_pid() == pid,
            r.0.slots() == Seq::new(4, |i: int| None::<HardwareBreakpoint>),
            r.1 == options.kill_on_exit,
    {
        (LinuxTarget::new(pid), options.kill_on_exit)
    }

    /// The target for the tracer's own process, whose id is `own_pid`.
    /// Nothing is traced: of such a target only its memory can be read and
    /// its threads listed.
    pub fn me(own_pid: i32) -> (r: LinuxTarget)
        ensures
            r.spec_pid() == own_pid,
            r.slots() == Seq::new(4, |i: int| None::<HardwareBreakpoint>),
    {
        LinuxTarget::new(own_pid)
    }

    /// An empty batch of reads from the debuggee.
    pub fn read(&self) -> (r: ReadMemory)
        ensures
            r.wf(),
            r.requests() == Seq::<Span>::empty(),
            r.spec_local_len() == 0,
    {
        ReadMemory::new()
    }

    /// An empty batch of writes to the debuggee.
    pub fn write(&self) -> (r: WriteMemory)
        ensures
            r.wf(),
            r.requests() == Seq::<Span>::empty(),
            r.spec_local_len() == 0,
    {
        WriteMemory::new()
    }

    /// The injection of a syscall with the given number and arguments into
    /// the stopped debuggee, before anything was done.
    pub fn syscall(
        &self,
        num: u64,
        arg1: u64,
        arg2: u64,
        arg3: u64,
        arg4: u64,
        arg5: u64,
        arg6: u64,
    ) -> (r: Injection)
        ensures
            r == (Injection::Start {
                call: SyscallArgs { num, arg1, arg2, arg3, arg4, arg5, arg6 },
            }),
    {
        Injection::new(SyscallArgs { num, arg1, arg2, arg3, arg4, arg5, arg6 })
    }

    /// The injection of the syscall that maps memory in the debuggee.
    pub fn mmap(&self, addr: u64, length: u64, prot: i32, flags: i32, fd: i32, offset: i64) -> (r:
        Injection)
        ensures
            r == (Injection::Start {
                call: SyscallArgs {
                    num: crate::syscall::SYS_MMAP,
                    arg1: addr,
                    arg2: length,
                    arg3: crate::syscall::register_value(prot as int) as u64,
                    arg4: crate::syscall::register_value(flags as int) as u64,
                    arg5: crate::syscall::register_value(fd as int) as u64,
                    arg6: crate::syscall::register_value(offset as int) as u64,
                },
            }),
    {
        Injection::new(mmap(addr, length, prot, flags, fd, offset))
    }

    /// The threads of a snapshot, one for each task id that was listed under
    /// the debuggee, in the order of the list.
    pub fn threads(&self, task_ids: &Vec<i32>) -> (r: Vec<LinuxThread>)
        ensures
            r@.len() == task_ids@.len(),
            forall|i: int| 0 <= i < r@.len() ==> (#[trigger] r@[i]).spec_thread_id() == task_ids@[i],
    {
        let mut threads: Vec<LinuxThread> = Vec::new();
        let mut i: usize = 0;
        while i < task_ids.len()
            invariant
                i <= task_ids@.len(),
                threads@.len() == i,
                forall|j: int|
                    0 <= j < i ==> (#[trigger] threads@[j]).spec_thread_id() == task_ids@[j],
            decreases task_ids@.len() - i,
        {
            threads.push(LinuxThread::new(task_ids[i]));
            i += 1;
        }
        threads
    }

    /// The process id of the debuggee.
    pub fn pid(&self) -> (r: i32)
        ensures
            r == self.spec_pid(),
    {
        self.pid
    }

    /// The breakpoint in a slot, if the slot exists and holds one.
    pub fn hardware_breakpoint(&self, index: usize) -> (r: Option<HardwareBreakpoint>)
        ensures
            r == if index < SUPPORTED_HARDWARE_BREAKPOINTS {
                self.slots()[index as int]
            } else {
                None
            },
    {
        if index < SUPPORTED_HARDWARE_BREAKPOINTS {
            self.hardware_breakpoints[index]
        } else {
            None
        }
    }

    /// The lowest empty slot.
    pub fn find_empty_watchpoint(&self) -> (r: Option<usize>)
        ensures
            r == first_empty(self.slots()),
    {
        let mut index: usize = 0;
        while index < SUPPORTED_HARDWARE_BREAKPOINTS
            invariant
                index <= SUPPORTED_HARDWARE_BREAKPOINTS,
                forall|j: int| 0 <= j < index ==> self.hardware_breakpoints@[j] is Some,
            decreases SUPPORTED_HARDWARE_BREAKPOINTS - index,
        {
            if self.hardware_breakpoints[index].is_none() {
                return Some(index);
            }
            index += 1;
        }
        None
    }

    /// Whether setting a breakpoint now would find the hardware in step with
    /// the table: the slot that would be taken is not enabled in the control
    /// register. Holds too when no slot is empty.
    pub open spec fn registers_agree(&self, control: u64) -> bool {
        first_empty(self.slots()) matches Some(i) ==> !slot_enabled(control, i)
    }

    /// Tests [`Self::registers_agree`] on a control register value.
    pub fn check_registers(&self, control: u64) -> (r: bool)
        ensures
            r == self.registers_agree(control),
    {
        match self.find_empty_watchpoint() {
            None => true,
            Some(index) => control & HardwareBreakpoint::enable_bit(index) == 0,
        }
    }

    /// Puts a breakpoint into the lowest empty slot and programs the register
    /// image for it: the slot's address register gets the address, the control
    /// register gets the slot's enable bit and its R/W and LEN fields, and the
    /// status register is zeroed. Fails, and changes nothing, when no slot is
    /// empty.
    pub fn set_hardware_breakpoint(
        &mut self,
        regs: &mut DebugRegisters,
        breakpoint: HardwareBreakpoint,
    ) -> (r: Result<usize, HardwareBreakpointError>)
        requires
            old(self).registers_agree(old(regs).control),
        ensures
            final(self).spec_pid() == old(self).spec_pid(),
            (final(self).slots(), final(regs)@, r) == set_step(
                old(self).slots(),
                old(regs)@,
                breakpoint,
            ),
    {
        let index: usize = match self.find_empty_watchpoint() {
            Some(empty) => empty,
            None => {
                return Err(HardwareBreakpointError::NoEmptyWatchpoint);
            },
        };
        let rw_bits: u64 = breakpoint.rw_bits(index);
        let size_bits: u64 = breakpoint.size_bits(index);
        let enable_bit: u64 = HardwareBreakpoint::enable_bit(index);
        let bit_mask: u64 = HardwareBreakpoint::bit_mask(index);

        regs.addresses[index] = breakpoint.addr;
        regs.control = (regs.control & !bit_mask) | (enable_bit | rw_bits | size_bits);
        regs.status = 0;
        self.hardware_breakpoints[index] = Some(breakpoint);
        Ok(index)
    }

    /// Releases a slot: takes its bits out of the control register, its report
    /// out of the status register, and returns the breakpoint it held. Fails,
    /// and changes nothing, when the slot holds no breakpoint.
    pub fn clear_hardware_breakpoint(&mut self, regs: &mut DebugRegisters, index: usize) -> (r:
        Result<HardwareBreakpoint, HardwareBreakpointError>)
        ensures
            final(self).spec_pid() == old(self).spec_pid(),
            (final(self).slots(), final(regs)@, r) == clear_step(
                old(self).slots(),
                old(regs)@,
                index,
            ),
    {
        if index >= SUPPORTED_HARDWARE_BREAKPOINTS {
            return Err(HardwareBreakpointError::DoesNotExist(index));
        }
        let held: HardwareBreakpoint = match self.hardware_breakpoints[index] {
            Some(breakpoint) => breakpoint,
            None => {
                return Err(HardwareBreakpointError::DoesNotExist(index));
            },
        };
        let bit_mask: u64 = HardwareBreakpoint::bit_mask(index);
        regs.control = regs.control & !bit_mask;
        regs.status = regs.status & !(1u64 << (index as u64));
        self.hardware_breakpoints[index] = None;
        Ok(held)
    }

    /// Releases every slot that holds a breakpoint, in ascending order.
    pub fn clear_all_hardware_breakpoints(&mut self, regs: &mut DebugRegisters)
        ensures
            final(self).spec_pid() == old(self).spec_pid(),
            (final(self).slots(), final(regs)@) == clear_all_step(
                old(self).slots(),
                old(regs)@,
                SUPPORTED_HARDWARE_BREAKPOINTS as nat,
            ),
            forall|i: int| 0 <= i < SUPPORTED_HARDWARE_BREAKPOINTS ==> final(self).slots()[i] is None,
    {
        let mut index: usize = 0;
        while index < SUPPORTED_HARDWARE_BREAKPOINTS
            invariant
                index <= SUPPORTED_HARDWARE_BREAKPOINTS,
                self.spec_pid() == old(self).spec_pid(),
                (self.slots(), regs@) == clear_all_step(old(self).slots(), old(regs)@, index as nat),
                forall|i: int| 0 <= i < index ==> self.slots()[i] is None,
            decreases SUPPORTED_HARDWARE_BREAKPOINTS - index,
        {
            let _ = self.clear_hardware_breakpoint(regs, index);
            index += 1;
        }
    }

    /// Asks the status register which breakpoint fired: the lowest slot that
    /// holds a breakpoint and has its status bit set. That bit is cleared in
    /// the image, so that the same event is not reported again.
    pub fn is_hardware_breakpoint_triggered(&self, regs: &mut DebugRegisters) -> (r: Option<usize>)
        ensures
            (final(regs)@, r) == triggered_step(self.slots(), old(regs)@),
    {
        let mut index: usize = 0;
        while index < SUPPORTED_HARDWARE_BREAKPOINTS
            invariant
                index <= SUPPORTED_HARDWARE_BREAKPOINTS,
                *regs == *old(regs),
                forall|j: usize| j < index ==> !slot_triggered(self.slots(), regs.status, j),
            decreases SUPPORTED_HARDWARE_BREAKPOINTS - index,
        {
            let bit: u64 = 1u64 << (index as u64);
            if regs.status & bit != 0 && self.hardware_breakpoints[index].is_some() {
                regs.status = regs.status & !bit;
                return Some(index);
            }
            index += 1;
        }
        None
    }
}

proof fn lemma_mask_bits(control: u64, field: u64, size: u64, i: u64)
    by (bit_vector)
    requires
        i < 4,
        field <= 3,
        size <= 3,
    ensures
        ((control & !((1u64 << (2 * i)) | (0b1111u64 << (16 + 4 * i)))) | ((1u64 << (2 * i)) | (field
            << (16 + 4 * i)) | (size << (18 + 4 * i)))) & !((1u64 << (2 * i)) | (0b1111u64 << (16
            + 4 * i))) == control & !((1u64 << (2 * i)) | (0b1111u64 << (16 + 4 * i))),
        ((control & !((1u64 << (2 * i)) | (0b1111u64 << (16 + 4 * i)))) | ((1u64 << (2 * i)) | (field
            << (16 + 4 * i)) | (size << (18 + 4 * i)))) & (1u64 << (2 * i)) != 0,
        ((control & !((1u64 << (2 * i)) | (0b1111u64 << (16 + 4 * i)))) | ((1u64 << (2 * i)) | (field
            << (16 + 4 * i)) | (size << (18 + 4 * i)))) >> (16 + 4 * i) & 0b1111 == field | (size
            << 2),
{
}

proof fn lemma_other_slot_bits(control: u64, field: u64, size: u64, i: u64, j: u64)
    by (bit_vector)
    requires
        i < 4,
        j < 4,
        i != j,
        field <= 3,
        size <= 3,
    ensures
        ((control & !((1u64 << (2 * i)) | (0b1111u64 << (16 + 4 * i)))) | ((1u64 << (2 * i)) | (field
            << (16 + 4 * i)) | (size << (18 + 4 * i)))) & ((1u64 << (2 * j)) | (0b1111u64 << (16
            + 4 * j))) == control & ((1u64 << (2 * j)) | (0b1111u64 << (16 + 4 * j))),
        (control & !((1u64 << (2 * i)) | (0b1111u64 << (16 + 4 * i)))) & ((1u64 << (2 * j)) | (
        0b1111u64 << (16 + 4 * j))) == control & ((1u64 << (2 * j)) | (0b1111u64 << (16 + 4 * j))),
{
}

proof fn lemma_status_bits(status: u64, i: u64, j: u64)
    by (bit_vector)
    requires
        i < 4,
        j < 4,
    ensures
        (status & !(1u64 << i)) & (1u64 << i) == 0,
        i != j ==> (status & !(1u64 << i)) & (1u64 << j) == status & (1u64 << j),
{
}

/// A breakpoint that was set is enabled in the control register, and its slot
/// carries its R/W field in the low two bits and its LEN field in the high two
/// bits of the slot's nibble.
pub proof fn lemma_set_programs_slot(control: u64, bp: HardwareBreakpoint, index: usize)
    requires
        index < SUPPORTED_HARDWARE_BREAKPOINTS,
    ensures
        slot_enabled(control_after_set(control, bp, index), index),
        (control_after_set(control, bp, index) >> ((16 + 4 * index) as u64)) & 0b1111 == rw_field(
            bp.typ,
        ) | (len_field(bp.size) << 2),
{
    lemma_mask_bits(control, rw_field(bp.typ), len_field(bp.size), index as u64);
}

/// Setting or clearing a slot leaves the bits of every other slot in the
/// control register as they were.
pub proof fn lemma_other_slots_kept(control: u64, bp: HardwareBreakpoint, index: usize, other: usize)
    requires
        index < SUPPORTED_HARDWARE_BREAKPOINTS,
        other < SUPPORTED_HARDWARE_BREAKPOINTS,
        index != other,
    ensures
        control_after_set(control, bp, index) & spec_bit_mask(other) == control & spec_bit_mask(
            other,
        ),
        control_after_clear(control, index) & spec_bit_mask(other) == control & spec_bit_mask(other),
{
    lemma_other_slot_bits(
        control,
        rw_field(bp.typ),
        len_field(bp.size),
        index as u64,
        other as u64,
    );
}

/// A `set` followed by a `clear` of the slot it took returns the same
/// breakpoint, restores the slot table, and leaves the control register with
/// the slot's bits cleared and all others as before the `set`.
pub proof fn lemma_set_then_clear(slots: Slots, regs: DebugRegistersView, bp: HardwareBreakpoint)
    requires
        slots.len() == SUPPORTED_HARDWARE_BREAKPOINTS,
        first_empty(slots) is Some,
    ensures
        ({
            let set = set_step(slots, regs, bp);
            let index = first_empty(slots)->Some_0;
            let cleared = clear_step(set.0, set.1, index);
            &&& set.2 == Ok::<usize, HardwareBreakpointError>(index)
            &&& cleared.2 == Ok::<HardwareBreakpoint, HardwareBreakpointError>(bp)
            &&& cleared.0 == slots
            &&& cleared.1.control == control_after_clear(regs.control, index)
        }),
{
    let index = first_empty(slots)->Some_0;
    let set = set_step(slots, regs, bp);
    let cleared = clear_step(set.0, set.1, index);
    assert(cleared.0 =~= slots);
    lemma_mask_bits(regs.control, rw_field(bp.typ), len_field(bp.size), index as u64);
}

/// At most four breakpoints are active at a time, and `set` fails with
/// `NoEmptyWatchpoint` exactly when four are: then it changes nothing.
pub proof fn lemma_set_fails_when_full(slots: Slots, regs: DebugRegistersView, bp: HardwareBreakpoint)
    requires
        slots.len() == SUPPORTED_HARDWARE_BREAKPOINTS,
    ensures
        active_count(slots) <= SUPPORTED_HARDWARE_BREAKPOINTS,
        table_full(slots) <==> active_count(slots) == SUPPORTED_HARDWARE_BREAKPOINTS,
        table_full(slots) <==> set_step(slots, regs, bp).2 == Err::<
            usize,
            HardwareBreakpointError,
        >(HardwareBreakpointError::NoEmptyWatchpoint),
        table_full(slots) ==> set_step(slots, regs, bp).0 == slots && set_step(slots, regs, bp).1
            == regs,
        !table_full(slots) ==> active_count(set_step(slots, regs, bp).0) == active_count(slots) + 1,
{
    lemma_count_four(slots);
    lemma_count_four(set_step(slots, regs, bp).0);
}

/// The number of active breakpoints, slot by slot.
proof fn lemma_count_four(slots: Slots)
    requires
        slots.len() == 4,
    ensures
        active_count(slots) == (if slots[0] is Some { 1nat } else { 0 }) + (if slots[1] is Some {
            1nat
        } else {
            0
        }) + (if slots[2] is Some { 1nat } else { 0 }) + (if slots[3] is Some { 1nat } else { 0 }),
{
    let pred = |s: Option<HardwareBreakpoint>| s is Some;
    reveal_with_fuel(Seq::filter, 5);
    let s3 = slots.drop_last();
    let s2 = s3.drop_last();
    let s1 = s2.drop_last();
    let s0 = s1.drop_last();
    assert(s0 =~= Seq::<Option<HardwareBreakpoint>>::empty());
    assert(s0.filter(pred).len() == 0);
}

/// Clearing all slots empties the table, whatever it held.
pub proof fn lemma_clear_all_empties(slots: Slots, regs: DebugRegistersView)
    requires
        slots.len() == SUPPORTED_HARDWARE_BREAKPOINTS,
    ensures
        clear_all_step(slots, regs, 4).0 == Seq::new(4, |i: int| None::<HardwareBreakpoint>),
        first_empty(clear_all_step(slots, regs, 4).0) == Some(0usize),
{
    reveal_with_fuel(clear_all_step, 5);
    assert(clear_all_step(slots, regs, 4).0 =~= Seq::new(4, |i: int| None::<HardwareBreakpoint>));
}

/// A slot is reported at most once for one event: once a slot was reported,
/// its status bit is clear, so it is not reported again until the hardware
/// sets the bit anew. The reports of the other slots are kept.
pub proof fn lemma_triggered_once(slots: Slots, regs: DebugRegistersView)
    requires
        slots.len() == SUPPORTED_HARDWARE_BREAKPOINTS,
    ensures
        ({
            let first = triggered_step(slots, regs);
            let second = triggered_step(slots, first.0);
            first.1 matches Some(i) ==> {
                &&& i < SUPPORTED_HARDWARE_BREAKPOINTS
                &&& slot_triggered(slots, regs.status, i)
                &&& !slot_triggered(slots, first.0.status, i)
                &&& second.1 != Some(i)
                &&& forall|j: usize|
                    j < SUPPORTED_HARDWARE_BREAKPOINTS && j != i ==> slot_triggered(
                        slots,
                        first.0.status,
                        j,
                    ) == slot_triggered(slots, regs.status, j)
            }
        }),
{
    let first = triggered_step(slots, regs);
    if let Some(i) = first.1 {
        lemma_status_bits(regs.status, i as u64, 0);
        lemma_status_bits(regs.status, i as u64, 1);
        lemma_status_bits(regs.status, i as u64, 2);
        lemma_status_bits(regs.status, i as u64, 3);
    }
}

} // verus!
