//! The four x86-64 hardware breakpoint slots and the debug registers that
//! mirror them.
//!
//! The caller loads the status register (DR6) and the control register (DR7)
//! of the debuggee into a [`DebugRegisters`] image, runs one operation of
//! [`LinuxTarget`] on it, and writes the image back.

use vstd::prelude::*;

verus! {

/// Number of hardware breakpoint slots (DR0 to DR3).
pub const SUPPORTED_HARDWARE_BREAKPOINTS: usize = 4;

/// The access that makes a breakpoint fire.
#[derive(Clone, Copy, Debug, PartialEq, Eq, Structural)]
pub enum HardwareBreakpointType {
    Execute,
    Write,
    ReadWrite,
}

/// The number of bytes that a breakpoint watches.
#[derive(Clone, Copy, Debug, PartialEq, Eq, Structural)]
pub enum HardwareBreakpointSize {
    B1,
    B2,
    B4,
    B8,
}

/// A hardware breakpoint: a watched address with the kind of access and the
/// width. For a data breakpoint the address is expected to be aligned to the
/// width.
#[derive(Clone, Copy, Debug, PartialEq, Eq, Structural)]
pub struct HardwareBreakpoint {
    pub addr: u64,
    pub typ: HardwareBreakpointType,
    pub size: HardwareBreakpointSize,
}

#[derive(Clone, Copy, Debug, PartialEq, Eq, Structural)]
pub enum HardwareBreakpointError {
    /// Every slot is taken.
    NoEmptyWatchpoint,
    /// The slot with this index holds no breakpoint.
    DoesNotExist(usize),
    /// The platform has no debug registers that this library can program.
    UnsupportedPlatform,
}

/// The two bits of the R/W field of the control register.
pub open spec fn rw_field(typ: HardwareBreakpointType) -> u64 {
    match typ {
        HardwareBreakpointType::Execute => 0b00,
        HardwareBreakpointType::Write => 0b01,
        HardwareBreakpointType::ReadWrite => 0b11,
    }
}

/// The two bits of the LEN field of the control register.
pub open spec fn len_field(size: HardwareBreakpointSize) -> u64 {
    match size {
        HardwareBreakpointSize::B1 => 0b00,
        HardwareBreakpointSize::B2 => 0b01,
        HardwareBreakpointSize::B8 => 0b10,
        HardwareBreakpointSize::B4 => 0b11,
    }
}

/// The local enable bit of a slot: bit `2 * index`.
pub open spec fn spec_enable_bit(index: usize) -> u64 {
    1u64 << ((2 * index) as u64)
}

/// The bits of the control register that belong to a slot: its local enable
/// bit and the four bits of its R/W and LEN fields, from bit `16 + 4 * index`.
pub open spec fn spec_bit_mask(index: usize) -> u64 {
    (1u64 << ((2 * index) as u64)) | (0b1111u64 << ((16 + 4 * index) as u64))
}

/// The bit of the status register that reports a slot.
pub open spec fn spec_status_bit(index: usize) -> u64 {
    1u64 << (index as u64)
}

pub open spec fn spec_rw_bits(typ: HardwareBreakpointType, index: usize) -> u64 {
    rw_field(typ) << ((16 + 4 * index) as u64)
}

pub open spec fn spec_size_bits(size: HardwareBreakpointSize, index: usize) -> u64 {
    len_field(size) << ((18 + 4 * index) as u64)
}

/// Whether the control register has the slot's local enable bit set.
pub open spec fn slot_enabled(control: u64, index: usize) -> bool {
    control & spec_enable_bit(index) != 0
}

/// The control register after a breakpoint is programmed into a slot.
pub open spec fn control_after_set(control: u64, bp: HardwareBreakpoint, index: usize) -> u64 {
    (control & !spec_bit_mask(index)) | (spec_enable_bit(index) | spec_rw_bits(bp.typ, index)
        | spec_size_bits(bp.size, index))
}

/// The control register after a slot is released.
pub open spec fn control_after_clear(control: u64, index: usize) -> u64 {
    control & !spec_bit_mask(index)
}

/// The status register after the report of a slot is taken away.
pub open spec fn status_after_clear(status: u64, index: usize) -> u64 {
    status & !spec_status_bit(index)
}

/// The number of bytes that a breakpoint of this size watches.
pub open spec fn size_in_bytes(size: HardwareBreakpointSize) -> u64 {
    match size {
        HardwareBreakpointSize::B1 => 1,
        HardwareBreakpointSize::B2 => 2,
        HardwareBreakpointSize::B4 => 4,
        HardwareBreakpointSize::B8 => 8,
    }
}

/// Whether the address of a breakpoint suits the hardware: that of a data
/// breakpoint is a multiple of its size.
pub open spec fn aligned(bp: HardwareBreakpoint) -> bool {
    bp.typ == HardwareBreakpointType::Execute || bp.addr % size_in_bytes(bp.size) == 0
}

impl HardwareBreakpoint {
    /// Tests whether the address suits the hardware. The hardware's
    /// behaviour on a data breakpoint that is not aligned is undefined.
    pub fn is_aligned(&self) -> (r: bool)
        ensures
            r == aligned(*self),
    {
        let bytes: u64 = match self.size {
            HardwareBreakpointSize::B1 => 1,
            HardwareBreakpointSize::B2 => 2,
            HardwareBreakpointSize::B4 => 4,
            HardwareBreakpointSize::B8 => 8,
        };
        match self.typ {
            HardwareBreakpointType::Execute => true,
            _ => self.addr % bytes == 0,
        }
    }

    /// The R/W field of this breakpoint, shifted to its place for the slot.
    pub fn rw_bits(&self, index: usize) -> (r: u64)
        requires
            index < SUPPORTED_HARDWARE_BREAKPOINTS,
        ensures
            r == spec_rw_bits(self.typ, index),
    {
        let field: u64 = match self.typ {
            HardwareBreakpointType::Execute => 0b00,
            HardwareBreakpointType::Write => 0b01,
            HardwareBreakpointType::ReadWrite => 0b11,
        };
        field << ((16 + 4 * index) as u64)
    }

    /// The LEN field of this breakpoint, shifted to its place for the slot.
    pub fn size_bits(&self, index: usize) -> (r: u64)
        requires
            index < SUPPORTED_HARDWARE_BREAKPOINTS,
        ensures
            r == spec_size_bits(self.size, index),
    {
        let field: u64 = match self.size {
            HardwareBreakpointSize::B1 => 0b00,
            HardwareBreakpointSize::B2 => 0b01,
            HardwareBreakpointSize::B8 => 0b10,
            HardwareBreakpointSize::B4 => 0b11,
        };
        field << ((18 + 4 * index) as u64)
    }

    /// The bits of the control register that belong to the slot.
    pub fn bit_mask(index: usize) -> (r: u64)
        requires
            index < SUPPORTED_HARDWARE_BREAKPOINTS,
        ensures
            r == spec_bit_mask(index),
    {
        (1u64 << ((2 * index) as u64)) | (0b1111u64 << ((16 + 4 * index) as u64))
    }

    /// The local enable bit of the slot.
    pub fn enable_bit(index: usize) -> (r: u64)
        requires
            index < SUPPORTED_HARDWARE_BREAKPOINTS,
        ensures
            r == spec_enable_bit(index),
    {
        1u64 << ((2 * index) as u64)
    }
}

} // verus!
