use debuggee::hardware_breakpoint::{
    HardwareBreakpoint, HardwareBreakpointError, HardwareBreakpointSize, HardwareBreakpointType,
    SUPPORTED_HARDWARE_BREAKPOINTS,
};
use debuggee::target::{AttachOptions, DebugRegisters, LinuxTarget};

fn write_byte_at(addr: u64) -> HardwareBreakpoint {
    HardwareBreakpoint {
        addr,
        typ: HardwareBreakpointType::Write,
        size: HardwareBreakpointSize::B1,
    }
}

fn clean_registers() -> DebugRegisters {
    DebugRegisters { addresses: [0; 4], status: 0, control: 0 }
}

#[test]
fn hardware_breakpoint_fill() {
    let mut target = LinuxTarget::new(1234);
    let mut regs = clean_registers();
    let addrs: [u64; 4] = [0x1000, 0x2000, 0x3000, 0x4000];
    for (i, addr) in addrs.iter().enumerate() {
        assert!(target.check_registers(regs.control));
        assert_eq!(target.set_hardware_breakpoint(&mut regs, write_byte_at(*addr)), Ok(i));
    }
    assert_eq!(regs.addresses, addrs);
    assert_eq!(target.find_empty_watchpoint(), None);
    let before = regs;
    assert_eq!(
        target.set_hardware_breakpoint(&mut regs, write_byte_at(0x5000)),
        Err(HardwareBreakpointError::NoEmptyWatchpoint)
    );
    assert_eq!(regs.control, before.control);
    assert_eq!(regs.addresses, before.addresses);
    for i in 0..4 {
        assert_eq!(target.hardware_breakpoint(i), Some(write_byte_at(addrs[i])));
    }

    target.clear_all_hardware_breakpoints(&mut regs);
    for i in 0..4 {
        assert_eq!(target.hardware_breakpoint(i), None);
    }
    assert_eq!(regs.control, 0);
    assert_eq!(target.set_hardware_breakpoint(&mut regs, write_byte_at(0x6000)), Ok(0));
    assert_eq!(regs.addresses[0], 0x6000);
}

#[test]
fn four_slots_are_supported() {
    assert_eq!(SUPPORTED_HARDWARE_BREAKPOINTS, 4);
    let target = LinuxTarget::new(1);
    assert_eq!(target.find_empty_watchpoint(), Some(0));
    assert_eq!(target.hardware_breakpoint(4), None);
}

#[test]
fn control_register_encoding() {
    // Slot 0, write, one byte: enable bit 0, R/W 01 at bit 16, LEN 00 at bit 18.
    let mut target = LinuxTarget::new(1);
    let mut regs = clean_registers();
    regs.status = 0xf;
    assert_eq!(target.set_hardware_breakpoint(&mut regs, write_byte_at(0x10)), Ok(0));
    assert_eq!(regs.control, 0x0001_0001);
    assert_eq!(regs.status, 0);

    // Slot 1, read/write, four bytes: enable bit 2, R/W 11 at bit 20, LEN 11 at bit 22.
    let bp = HardwareBreakpoint {
        addr: 0x20,
        typ: HardwareBreakpointType::ReadWrite,
        size: HardwareBreakpointSize::B4,
    };
    assert_eq!(target.set_hardware_breakpoint(&mut regs, bp), Ok(1));
    assert_eq!(regs.control, 0x0001_0001 | 0x4 | (0b11 << 20) | (0b11 << 22));

    // Slot 2, execute, eight bytes: enable bit 4, R/W 00 at bit 24, LEN 10 at bit 26.
    let bp = HardwareBreakpoint {
        addr: 0x30,
        typ: HardwareBreakpointType::Execute,
        size: HardwareBreakpointSize::B8,
    };
    assert_eq!(target.set_hardware_breakpoint(&mut regs, bp), Ok(2));
    assert_eq!(regs.control, 0x00f1_0005 | 0x10 | (0b10 << 26));

    // Slot 3, write, two bytes: enable bit 6, R/W 01 at bit 28, LEN 01 at bit 30.
    let bp = HardwareBreakpoint {
        addr: 0x40,
        typ: HardwareBreakpointType::Write,
        size: HardwareBreakpointSize::B2,
    };
    assert_eq!(target.set_hardware_breakpoint(&mut regs, bp), Ok(3));
    assert_eq!(regs.control, 0x08f1_0015 | 0x40 | (0b01 << 28) | (0b01 << 30));
    assert_eq!(regs.addresses, [0x10, 0x20, 0x30, 0x40]);
}

#[test]
fn field_encodings() {
    let bp = HardwareBreakpoint {
        addr: 0,
        typ: HardwareBreakpointType::ReadWrite,
        size: HardwareBreakpointSize::B8,
    };
    assert_eq!(bp.rw_bits(0), 0b11 << 16);
    assert_eq!(bp.rw_bits(3), 0b11 << 28);
    assert_eq!(bp.size_bits(0), 0b10 << 18);
    assert_eq!(bp.size_bits(2), 0b10 << 26);
    assert_eq!(HardwareBreakpoint::bit_mask(0), 0x000f_0001);
    assert_eq!(HardwareBreakpoint::bit_mask(1), 0x00f0_0004);
    assert_eq!(HardwareBreakpoint::bit_mask(2), 0x0f00_0010);
    assert_eq!(HardwareBreakpoint::bit_mask(3), 0xf000_0040);
    assert_eq!(HardwareBreakpoint::enable_bit(3), 0x40);
    let one = write_byte_at(0);
    assert_eq!(one.rw_bits(1), 0b01 << 20);
    assert_eq!(one.size_bits(1), 0);
    let four = HardwareBreakpoint {
        addr: 0,
        typ: HardwareBreakpointType::Execute,
        size: HardwareBreakpointSize::B4,
    };
    assert_eq!(four.rw_bits(1), 0);
    assert_eq!(four.size_bits(1), 0b11 << 22);
    let two = HardwareBreakpoint {
        addr: 0,
        typ: HardwareBreakpointType::Execute,
        size: HardwareBreakpointSize::B2,
    };
    assert_eq!(two.size_bits(0), 0b01 << 18);
}

#[test]
fn set_then_clear_returns_the_breakpoint() {
    let mut target = LinuxTarget::new(1);
    let mut regs = clean_registers();
    // Bits of other owners in the control register are kept.
    regs.control = 0x0000_0400;
    let first = write_byte_at(0xaaa0);
    let second = HardwareBreakpoint {
        addr: 0xbbb0,
        typ: HardwareBreakpointType::ReadWrite,
        size: HardwareBreakpointSize::B8,
    };
    assert_eq!(target.set_hardware_breakpoint(&mut regs, first), Ok(0));
    assert_eq!(target.set_hardware_breakpoint(&mut regs, second), Ok(1));
    let with_both = regs.control;
    regs.status = 0b11;
    assert_eq!(target.clear_hardware_breakpoint(&mut regs, 1), Ok(second));
    assert_eq!(regs.control, with_both & !0x00f0_0004);
    assert_eq!(regs.control, 0x0001_0401);
    assert_eq!(regs.status, 0b01);
    assert_eq!(target.hardware_breakpoint(1), None);
    assert_eq!(target.hardware_breakpoint(0), Some(first));
    assert_eq!(target.clear_hardware_breakpoint(&mut regs, 0), Ok(first));
    assert_eq!(regs.control, 0x0000_0400);
    assert_eq!(regs.status, 0);
    // The lowest empty slot is taken again.
    assert_eq!(target.find_empty_watchpoint(), Some(0));
}

#[test]
fn clear_of_an_empty_slot_fails() {
    let mut target = LinuxTarget::new(1);
    let mut regs = clean_registers();
    regs.control = 0x55;
    regs.status = 0xf;
    assert_eq!(
        target.clear_hardware_breakpoint(&mut regs, 2),
        Err(HardwareBreakpointError::DoesNotExist(2))
    );
    assert_eq!(
        target.clear_hardware_breakpoint(&mut regs, 7),
        Err(HardwareBreakpointError::DoesNotExist(7))
    );
    assert_eq!(regs.control, 0x55);
    assert_eq!(regs.status, 0xf);
}

#[test]
fn clear_all_keeps_foreign_bits() {
    let mut target = LinuxTarget::new(1);
    let mut regs = clean_registers();
    regs.control = 0x0000_0300;
    assert_eq!(target.set_hardware_breakpoint(&mut regs, write_byte_at(1)), Ok(0));
    assert_eq!(target.set_hardware_breakpoint(&mut regs, write_byte_at(2)), Ok(1));
    assert_eq!(target.clear_hardware_breakpoint(&mut regs, 0), Ok(write_byte_at(1)));
    regs.status = 0b1111;
    target.clear_all_hardware_breakpoints(&mut regs);
    assert_eq!(regs.control, 0x0000_0300);
    // Only the report of the slot that was occupied is taken away.
    assert_eq!(regs.status, 0b1101);
    assert_eq!(target.find_empty_watchpoint(), Some(0));
}

#[test]
fn triggered_slot_is_reported_once() {
    let mut target = LinuxTarget::new(1);
    let mut regs = clean_registers();
    for addr in [0x10u64, 0x20, 0x30] {
        target.set_hardware_breakpoint(&mut regs, write_byte_at(addr)).unwrap();
    }
    target.clear_hardware_breakpoint(&mut regs, 0).unwrap();
    // Slot 0 is empty, so its status bit is passed over; bit 14 is no slot's.
    regs.status = 0b0111 | (1 << 14);
    assert_eq!(target.is_hardware_breakpoint_triggered(&mut regs), Some(1));
    assert_eq!(regs.status, 0b0101 | (1 << 14));
    assert_eq!(target.is_hardware_breakpoint_triggered(&mut regs), Some(2));
    assert_eq!(regs.status, 0b0001 | (1 << 14));
    assert_eq!(target.is_hardware_breakpoint_triggered(&mut regs), None);
    assert_eq!(regs.status, 0b0001 | (1 << 14));
}

#[test]
fn registers_out_of_step_are_detected() {
    let mut target = LinuxTarget::new(1);
    let mut regs = clean_registers();
    assert!(target.check_registers(0));
    // Slot 0 is empty in the table but enabled in the control register.
    assert!(!target.check_registers(0x1));
    // The enable bit of a slot that would not be taken does not matter.
    assert!(target.check_registers(0x4));
    target.set_hardware_breakpoint(&mut regs, write_byte_at(0x10)).unwrap();
    assert!(!target.check_registers(regs.control | 0x4));
    assert!(target.check_registers(regs.control));
}

#[test]
fn target_lifecycle() {
    let (target, arm) = LinuxTarget::launch(77);
    assert_eq!(target.pid(), 77);
    assert!(arm);
    let (target, arm) = LinuxTarget::attach(78, AttachOptions { kill_on_exit: true });
    assert_eq!(target.pid(), 78);
    assert!(arm);
    let (target, arm) = LinuxTarget::attach(79, AttachOptions::default());
    assert_eq!(target.pid(), 79);
    assert!(!arm);
    assert!(!AttachOptions::default().kill_on_exit);
    let target = LinuxTarget::me(80);
    assert_eq!(target.pid(), 80);
    assert_eq!(target.find_empty_watchpoint(), Some(0));
}

#[test]
fn breakpoint_alignment() {
    let bp = |addr, typ, size| HardwareBreakpoint { addr, typ, size };
    assert!(bp(0x1003, HardwareBreakpointType::Write, HardwareBreakpointSize::B1).is_aligned());
    assert!(!bp(0x1003, HardwareBreakpointType::Write, HardwareBreakpointSize::B2).is_aligned());
    assert!(bp(0x1002, HardwareBreakpointType::ReadWrite, HardwareBreakpointSize::B2).is_aligned());
    assert!(!bp(0x1002, HardwareBreakpointType::ReadWrite, HardwareBreakpointSize::B4).is_aligned());
    assert!(bp(0x1004, HardwareBreakpointType::Write, HardwareBreakpointSize::B4).is_aligned());
    assert!(!bp(0x1004, HardwareBreakpointType::Write, HardwareBreakpointSize::B8).is_aligned());
    assert!(bp(0x1008, HardwareBreakpointType::Write, HardwareBreakpointSize::B8).is_aligned());
    assert!(bp(0x1003, HardwareBreakpointType::Execute, HardwareBreakpointSize::B8).is_aligned());
}
