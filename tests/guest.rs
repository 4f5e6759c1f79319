use riscvjit::guest::{
    permissions_for, ElfImage, GuestCPU, GuestError, SectionHeader, EM_RISCV, SHF_ALLOC,
    SHF_EXECINSTR, SHF_WRITE,
};
use riscvjit::memory::MemoryError;
use riscvjit::permissions::MemoryPermissions;
use riscvjit::registers::Register;

const EM_X86_64: u16 = 62;
const SHT_PROGBITS: u32 = 1;
const SHT_NOBITS: u32 = 8;

struct Shdr {
    ty: u32,
    flags: u64,
    addr: u64,
    offset: u64,
    size: u64,
}

/// A little-endian ELF64 executable with the given section headers (after
/// the null header) and `payload` placed right after the file header.
fn elf_bytes(machine: u16, entry: u64, payload: &[u8], shdrs: &[Shdr]) -> Vec<u8> {
    let shoff = 64 + payload.len() as u64;
    let mut b = Vec::new();
    b.extend_from_slice(&[0x7f, b'E', b'L', b'F', 2, 1, 1, 0]);
    b.extend_from_slice(&[0; 8]);
    b.extend_from_slice(&2u16.to_le_bytes());
    b.extend_from_slice(&machine.to_le_bytes());
    b.extend_from_slice(&1u32.to_le_bytes());
    b.extend_from_slice(&entry.to_le_bytes());
    b.extend_from_slice(&0u64.to_le_bytes());
    b.extend_from_slice(&shoff.to_le_bytes());
    b.extend_from_slice(&0u32.to_le_bytes());
    b.extend_from_slice(&64u16.to_le_bytes());
    b.extend_from_slice(&56u16.to_le_bytes());
    b.extend_from_slice(&0u16.to_le_bytes());
    b.extend_from_slice(&64u16.to_le_bytes());
    b.extend_from_slice(&(shdrs.len() as u16 + 1).to_le_bytes());
    b.extend_from_slice(&100u16.to_le_bytes());
    assert_eq!(b.len(), 64);
    b.extend_from_slice(payload);
    b.extend_from_slice(&[0u8; 64]);
    for s in shdrs {
        b.extend_from_slice(&0u32.to_le_bytes());
        b.extend_from_slice(&s.ty.to_le_bytes());
        b.extend_from_slice(&s.flags.to_le_bytes());
        b.extend_from_slice(&s.addr.to_le_bytes());
        b.extend_from_slice(&s.offset.to_le_bytes());
        b.extend_from_slice(&s.size.to_le_bytes());
        b.extend_from_slice(&0u32.to_le_bytes());
        b.extend_from_slice(&0u32.to_le_bytes());
        b.extend_from_slice(&1u64.to_le_bytes());
        b.extend_from_slice(&0u64.to_le_bytes());
    }
    b
}

fn two_section_elf(machine: u16) -> Vec<u8> {
    let mut code = vec![0u8; 0x20];
    code[0] = 0x13;
    elf_bytes(
        machine,
        0x10000,
        &code,
        &[
            Shdr {
                ty: SHT_PROGBITS,
                flags: SHF_ALLOC | SHF_EXECINSTR,
                addr: 0x10000,
                offset: 64,
                size: 0x20,
            },
            Shdr { ty: SHT_NOBITS, flags: SHF_ALLOC | SHF_WRITE, addr: 0x20000, offset: 0, size: 0x1000 },
        ],
    )
}

fn header(flags: u64, addr: u64, size: u64, file_range: Option<(usize, usize)>) -> SectionHeader {
    SectionHeader { flags, addr, size, file_range }
}

#[test]
fn loads_two_sections_from_elf_bytes() {
    let g = GuestCPU::from_elf(&two_section_elf(EM_RISCV)).unwrap();
    let m = g.memory();
    assert!(m.resolve(0x10010).is_some());
    assert!(m.resolve(0x20500).is_some());
    assert_eq!(m.resolve(0x30000), None);
    assert_eq!(g.registers().ip(), 0x10000);
    assert_eq!(g.fetch_instruction(0x10000, 4).unwrap(), vec![0x13, 0, 0, 0]);
    assert_eq!(g.read(0x10000, 4).unwrap_err(), MemoryError::ProtectionFault);
}

#[test]
fn x86_image_is_refused() {
    assert_eq!(
        GuestCPU::from_elf(&two_section_elf(EM_X86_64)).unwrap_err(),
        GuestError::UnsupportedArchitecture
    );
    let img = ElfImage {
        machine: EM_X86_64,
        entry: 0,
        sections: vec![header(SHF_ALLOC, 0x1000, 4, Some((0, 4)))],
    };
    assert_eq!(
        GuestCPU::from_image(&img, &[0; 4]).unwrap_err(),
        GuestError::UnsupportedArchitecture
    );
}

#[test]
fn garbage_is_malformed() {
    assert_eq!(GuestCPU::from_elf(&[1, 2, 3]).unwrap_err(), GuestError::MalformedImage);
    assert_eq!(GuestCPU::from_elf(&[]).unwrap_err(), GuestError::MalformedImage);
}

#[test]
fn section_past_end_of_file() {
    let img = ElfImage {
        machine: EM_RISCV,
        entry: 0,
        sections: vec![header(SHF_ALLOC, 0x1000, 8, Some((4, 12)))],
    };
    assert_eq!(
        GuestCPU::from_image(&img, &[0; 10]).unwrap_err(),
        GuestError::SectionOutOfFileBounds
    );
}

#[test]
fn loads_from_parsed_image() {
    let file: Vec<u8> = (0u8..16).collect();
    let img = ElfImage {
        machine: EM_RISCV,
        entry: 0x4000,
        sections: vec![
            header(SHF_ALLOC | SHF_EXECINSTR | SHF_WRITE, 0x4000, 4, Some((0, 4))),
            header(0, 0x9000, 4, Some((4, 8))),
            header(SHF_ALLOC, 0x5000, 4, Some((8, 12))),
            header(SHF_ALLOC | SHF_WRITE, 0x6000, 8, None),
            header(SHF_ALLOC, 0x7000, 0, Some((0, 0))),
        ],
    };
    let mut g = GuestCPU::from_image(&img, &file).unwrap();
    assert_eq!(g.memory().len(), 3);
    assert_eq!(g.registers().ip(), 0x4000);
    // executable dominates writable
    assert_eq!(g.fetch_instruction(0x4000, 4).unwrap(), vec![0, 1, 2, 3]);
    assert_eq!(g.write(0x4000, &[1]).unwrap_err(), MemoryError::ProtectionFault);
    // not allocated: skipped
    assert_eq!(g.memory().resolve(0x9000), None);
    // read-only data
    assert_eq!(g.read(0x5000, 4).unwrap(), vec![8, 9, 10, 11]);
    assert_eq!(g.write(0x5000, &[1]).unwrap_err(), MemoryError::ProtectionFault);
    // zero-filled, writable
    g.write(0x6004, &[0xaa, 0xbb]).unwrap();
    assert_eq!(g.read(0x6000, 1).unwrap_err(), MemoryError::ProtectionFault);
    // zero-sized: skipped
    assert_eq!(g.memory().resolve(0x7000), None);
}

#[test]
fn overlapping_sections_fail_the_load() {
    let img = ElfImage {
        machine: EM_RISCV,
        entry: 0,
        sections: vec![
            header(SHF_ALLOC, 0x1000, 0x10, None),
            header(SHF_ALLOC, 0x1008, 0x10, None),
        ],
    };
    assert_eq!(
        GuestCPU::from_image(&img, &[]).unwrap_err(),
        GuestError::Memory(MemoryError::Overlap)
    );
}

#[test]
fn address_overflow_is_malformed() {
    let img = ElfImage {
        machine: EM_RISCV,
        entry: 0,
        sections: vec![header(SHF_ALLOC, u64::MAX - 4, 0x10, None)],
    };
    assert_eq!(GuestCPU::from_image(&img, &[]).unwrap_err(), GuestError::MalformedImage);
}

#[test]
fn guest_registers_keep_x0_zero() {
    let img = ElfImage { machine: EM_RISCV, entry: 0x80, sections: vec![] };
    let mut g = GuestCPU::from_image(&img, &[]).unwrap();
    g.write_register(Register::X0, 5);
    g.write_register(Register::X3, 9);
    assert_eq!(g.read_register(Register::X0), 0);
    assert_eq!(g.read_register(Register::X3), 9);
}

#[test]
fn section_permission_derivation() {
    assert_eq!(permissions_for(SHF_ALLOC | SHF_EXECINSTR), MemoryPermissions::execute());
    assert_eq!(permissions_for(SHF_ALLOC | SHF_EXECINSTR | SHF_WRITE), MemoryPermissions::execute());
    assert_eq!(permissions_for(SHF_ALLOC | SHF_WRITE), MemoryPermissions::write());
    assert_eq!(permissions_for(SHF_ALLOC), MemoryPermissions::read());
}

#[test]
fn zero_size_section_past_end_of_file() {
    let img = ElfImage {
        machine: EM_RISCV,
        entry: 0,
        sections: vec![header(SHF_ALLOC, 0x1000, 0, Some((100, 100)))],
    };
    assert_eq!(
        GuestCPU::from_image(&img, &[0; 10]).unwrap_err(),
        GuestError::SectionOutOfFileBounds
    );
    // not allocated: its file range is never looked at
    let img = ElfImage {
        machine: EM_RISCV,
        entry: 0,
        sections: vec![header(0, 0x1000, 0, Some((100, 100)))],
    };
    assert!(GuestCPU::from_image(&img, &[0; 10]).is_ok());
}

#[test]
fn zero_size_section_past_end_of_elf_file() {
    let bytes = elf_bytes(
        EM_RISCV,
        0,
        &[],
        &[Shdr { ty: SHT_PROGBITS, flags: SHF_ALLOC, addr: 0x1000, offset: 0x10000, size: 0 }],
    );
    assert_eq!(GuestCPU::from_elf(&bytes).unwrap_err(), GuestError::SectionOutOfFileBounds);
}
