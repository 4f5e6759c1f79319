use vstd::prelude::*;

verus! {

/// One of the 32 general-purpose registers; `X0` always reads as zero.
#[derive(Clone, Copy, Debug, PartialEq, Eq, Structural)]
pub enum Register {
    X0,
    X1,
    X2,
    X3,
    X4,
    X5,
    X6,
    X7,
    X8,
    X9,
    X10,
    X11,
    X12,
    X13,
    X14,
    X15,
    X16,
    X17,
    X18,
    X19,
    X20,
    X21,
    X22,
    X23,
    X24,
    X25,
    X26,
    X27,
    X28,
    X29,
    X30,
    X31,
}

impl Register {
    /// Position of the register in the register file.
    pub open spec fn spec_index(self) -> nat {
        match self {
            Register::X0 => 0,
            Register::X1 => 1,
            Register::X2 => 2,
            Register::X3 => 3,
            Register::X4 => 4,
            Register::X5 => 5,
            Register::X6 => 6,
            Register::X7 => 7,
            Register::X8 => 8,
            Register::X9 => 9,
            Register::X10 => 10,
            Register::X11 => 11,
            Register::X12 => 12,
            Register::X13 => 13,
            Register::X14 => 14,
            Register::X15 => 15,
            Register::X16 => 16,
            Register::X17 => 17,
            Register::X18 => 18,
            Register::X19 => 19,
            Register::X20 => 20,
            Register::X21 => 21,
            Register::X22 => 22,
            Register::X23 => 23,
            Register::X24 => 24,
            Register::X25 => 25,
            Register::X26 => 26,
            Register::X27 => 27,
            Register::X28 => 28,
            Register::X29 => 29,
            Register::X30 => 30,
            Register::X31 => 31,
        }
    }

    /// Position of the register in the register file.
    pub fn index(self) -> (i: usize)
        ensures
            i == self.spec_index(),
            i < 32,
    {
        match self {
            Register::X0 => 0,
            Register::X1 => 1,
            Register::X2 => 2,
            Register::X3 => 3,
            Register::X4 => 4,
            Register::X5 => 5,
            Register::X6 => 6,
            Register::X7 => 7,
            Register::X8 => 8,
            Register::X9 => 9,
            Register::X10 => 10,
            Register::X11 => 11,
            Register::X12 => 12,
            Register::X13 => 13,
            Register::X14 => 14,
            Register::X15 => 15,
            Register::X16 => 16,
            Register::X17 => 17,
            Register::X18 => 18,
            Register::X19 => 19,
            Register::X20 => 20,
            Register::X21 => 21,
            Register::X22 => 22,
            Register::X23 => 23,
            Register::X24 => 24,
            Register::X25 => 25,
            Register::X26 => 26,
            Register::X27 => 27,
            Register::X28 => 28,
            Register::X29 => 29,
            Register::X30 => 30,
            Register::X31 => 31,
        }
    }
}

/// The general-purpose registers and the instruction pointer.
#[derive(Clone, Debug)]
pub struct Registers {
    x: [u32; 32],
    ip: u64,
}

impl View for Registers {
    type V = Seq<u32>;

    closed spec fn view(&self) -> Seq<u32> {
        self.x@
    }
}

/// The value that register `r` reads as in the register file `regs`.
pub open spec fn read_spec(regs: Seq<u32>, r: Register) -> u32 {
    regs[r.spec_index() as int]
}

/// The register file `regs` after `val` was written to `r`.
pub open spec fn write_spec(regs: Seq<u32>, r: Register, val: u32) -> Seq<u32> {
    if r == Register::X0 {
        regs
    } else {
        regs.update(r.spec_index() as int, val)
    }
}

/// Register file invariant: 32 registers, of which `X0` holds zero.
pub open spec fn registers_wf(regs: Seq<u32>) -> bool {
    regs.len() == 32 && regs[0] == 0
}

impl Registers {
    pub open spec fn wf(&self) -> bool {
        registers_wf(self@)
    }

    /// The instruction pointer.
    pub closed spec fn ip_spec(&self) -> u64 {
        self.ip
    }

    /// All registers zero, instruction pointer zero.
    pub fn new() -> (regs: Registers)
        ensures
            regs.wf(),
            regs@ == Seq::new(32, |i: int| 0u32),
            regs.ip_spec() == 0,
    {
        let regs = Registers { x: [0u32; 32], ip: 0 };
        assert(regs@ =~= Seq::new(32, |i: int| 0u32));
        regs
    }

    /// The instruction pointer.
    pub fn ip(&self) -> (ip: u64)
        ensures
            ip == self.ip_spec(),
    {
        self.ip
    }

    /// Moves the instruction pointer to `ip`, leaving the registers alone.
    pub fn set_ip(&mut self, ip: u64)
        ensures
            final(self)@ == old(self)@,
            final(self).ip_spec() == ip,
    {
        self.ip = ip;
    }

    /// The value held by register `r`.
    pub fn read(&self, r: Register) -> (v: u32)
        requires
            self.wf(),
        ensures
            v == read_spec(self@, r),
    {
        let i = r.index();
        self.x[i]
    }

    /// Stores `val` in `r`; a write to `X0` is discarded.
    pub fn write(&mut self, r: Register, val: u32)
        requires
            old(self).wf(),
        ensures
            final(self).wf(),
            final(self)@ == write_spec(old(self)@, r, val),
            final(self).ip_spec() == old(self).ip_spec(),
    {
        if r == Register::X0 {
            return;
        }
        let i = r.index();
        self.x[i] = val;
    }
}

/// Whatever is written to `X0`, it reads back as zero afterwards.
pub proof fn lemma_x0_reads_zero(regs: Seq<u32>, val: u32)
    requires
        registers_wf(regs),
    ensures
        read_spec(write_spec(regs, Register::X0, val), Register::X0) == 0,
{
}

/// A write to any register keeps the register file well formed, so `X0` stays zero.
pub proof fn lemma_write_keeps_x0_zero(regs: Seq<u32>, r: Register, val: u32)
    requires
        registers_wf(regs),
    ensures
        registers_wf(write_spec(regs, r, val)),
        read_spec(write_spec(regs, r, val), Register::X0) == 0,
{
}

} // verus!
