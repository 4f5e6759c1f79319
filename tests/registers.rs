use riscvjit::registers::{Register, Registers};

#[test]
fn registers_start_zeroed() {
    let regs = Registers::new();
    assert_eq!(regs.read(Register::X0), 0);
    assert_eq!(regs.read(Register::X17), 0);
    assert_eq!(regs.read(Register::X31), 0);
    assert_eq!(regs.ip(), 0);
}

#[test]
fn write_to_x0_is_discarded() {
    let mut regs = Registers::new();
    regs.write(Register::X0, 0xdead_beef);
    assert_eq!(regs.read(Register::X0), 0);
    regs.write(Register::X0, u32::MAX);
    assert_eq!(regs.read(Register::X0), 0);
}

#[test]
fn write_then_read_register() {
    let mut regs = Registers::new();
    regs.write(Register::X5, 42);
    regs.write(Register::X31, 7);
    assert_eq!(regs.read(Register::X5), 42);
    assert_eq!(regs.read(Register::X31), 7);
    assert_eq!(regs.read(Register::X6), 0);
    regs.set_ip(0x10000);
    assert_eq!(regs.ip(), 0x10000);
    assert_eq!(regs.read(Register::X5), 42);
}

#[test]
fn register_indices() {
    assert_eq!(Register::X0.index(), 0);
    assert_eq!(Register::X1.index(), 1);
    assert_eq!(Register::X10.index(), 10);
    assert_eq!(Register::X31.index(), 31);
}
