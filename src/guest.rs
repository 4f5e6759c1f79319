use vstd::prelude::*;

use crate::memory::{
    add_region_spec, add_section_spec, is_mapped, memory_read_spec, memory_write_spec,
    region_contains, resolve_spec, zeroed, Memory, MemoryError, Region, RegionView,
};
use crate::permissions::{spec_execute, spec_read, spec_write, MemoryPermissions};
use crate::registers::{read_spec, write_spec, Register, Registers};

verus! {

/// ELF machine type of RISC-V.
pub const EM_RISCV: u16 = 243;

/// ELF section flag: writable at run time.
pub const SHF_WRITE: u64 = 0x1;

/// ELF section flag: occupies memory when the image is loaded.
pub const SHF_ALLOC: u64 = 0x2;

/// ELF section flag: holds executable instructions.
pub const SHF_EXECINSTR: u64 = 0x4;

/// Why an image could not be loaded.
#[derive(Clone, Copy, Debug, PartialEq, Eq, Structural)]
pub enum GuestError {
    /// The bytes are not a well-formed ELF file.
    MalformedImage,
    /// The image is not built for RISC-V.
    UnsupportedArchitecture,
    /// A loaded section's bytes lie beyond the end of the file.
    SectionOutOfFileBounds,
    /// Placing a section in the address space failed.
    Memory(MemoryError),
}

/// One ELF section header, as far as loading needs it.
#[derive(Clone, Copy, Debug)]
pub struct SectionHeader {
    /// The `sh_flags` word.
    pub flags: u64,
    /// The virtual address of the section's first byte.
    pub addr: u64,
    /// The size of the section in memory.
    pub size: u64,
    /// The byte range `[start, end)` of the section's contents in the file;
    /// `None` for a section that has no bytes in the file (`.bss`).
    pub file_range: Option<(usize, usize)>,
}

/// What loading reads of an ELF image: its machine, entry point and sections.
#[derive(Clone, Debug)]
pub struct ElfImage {
    pub machine: u16,
    pub entry: u64,
    pub sections: Vec<SectionHeader>,
}

pub ghost struct ImageView {
    pub machine: u16,
    pub entry: u64,
    pub sections: Seq<SectionHeader>,
}

impl View for ElfImage {
    type V = ImageView;

    open spec fn view(&self) -> ImageView {
        ImageView { machine: self.machine, entry: self.entry, sections: self.sections@ }
    }
}

/// A section's file range, when it has one, starts no later than it ends,
/// and is exactly as long as the section where that fits in `usize`.
pub open spec fn file_range_law(h: SectionHeader) -> bool {
    h.file_range matches Some((s, e)) ==> s <= e && (s + h.size <= usize::MAX ==> e == s + h.size)
}

/// The machine, entry point and section headers that the ELF parser reads
/// from `bytes`, or `None` where it finds them malformed.
pub uninterp spec fn parsed_elf(bytes: Seq<u8>) -> Option<ImageView>;

/// Relies on goblin::elf::Elf::parse: it reads the header and section headers
/// from `bytes` alone, or reports an error. Relies on
/// goblin's `SectionHeader::file_range`: `None` for a section without file
/// contents, else `sh_offset .. sh_offset + sh_size`, the end saturating at
/// `usize::MAX`.
#[verifier::external_body]
fn parse_elf(bytes: &[u8]) -> (r: Option<ElfImage>)
    ensures
        match r {
            Some(img) => parsed_elf(bytes@) == Some(img@),
            None => parsed_elf(bytes@) == None::<ImageView>,
        },
        r matches Some(img) ==> forall|i: int|
            0 <= i < img.sections@.len() ==> file_range_law(#[trigger] img.sections@[i]),
{
    let elf = goblin::elf::Elf::parse(bytes).ok()?;
    let mut sections = Vec::new();
    for h in &elf.section_headers {
        let file_range = h.file_range().map(|r| (r.start, r.end));
        sections.push(SectionHeader { flags: h.sh_flags, addr: h.sh_addr, size: h.sh_size, file_range });
    }
    Some(ElfImage { machine: elf.header.e_machine, entry: elf.entry, sections })
}

/// The rights a loaded section gets: EXECUTE when executable (whatever its
/// writability), else WRITE when writable, else READ.
pub open spec fn section_permissions(flags: u64) -> MemoryPermissions {
    if flags & SHF_EXECINSTR != 0 {
        spec_execute()
    } else if flags & SHF_WRITE != 0 {
        spec_write()
    } else {
        spec_read()
    }
}

/// The section occupies memory when the image is loaded.
pub open spec fn is_alloc(h: SectionHeader) -> bool {
    h.flags & SHF_ALLOC != 0
}

/// The section occupies memory and has a size: loading gives it a region.
pub open spec fn is_loaded(h: SectionHeader) -> bool {
    is_alloc(h) && h.size != 0
}

/// The bytes that fill a loaded section: its file contents, or zeros when it
/// has none in the file; `None` when its file range leaves the file.
pub open spec fn section_contents(h: SectionHeader, file: Seq<u8>) -> Option<Seq<u8>> {
    match h.file_range {
        None => Some(Seq::new(h.size as nat, |i: int| 0u8)),
        Some((s, e)) => if s <= e <= file.len() {
            Some(file.subrange(s as int, e as int))
        } else {
            None
        },
    }
}

/// Outcome of loading one section header into the regions `m`. A section
/// that is not allocated is skipped; an allocated one must lie in the file,
/// and, unless its size is zero, gets a region exactly spanning it, with one
/// section holding its contents.
pub open spec fn load_step(m: Seq<RegionView>, h: SectionHeader, file: Seq<u8>) -> Result<
    Seq<RegionView>,
    GuestError,
> {
    if !is_alloc(h) {
        Ok(m)
    } else {
        match section_contents(h, file) {
            None => Err(GuestError::SectionOutOfFileBounds),
            Some(bytes) => if h.size == 0 {
                Ok(m)
            } else if h.addr + h.size > u64::MAX || h.size > usize::MAX {
                Err(GuestError::MalformedImage)
            } else {
                let empty = RegionView {
                    base: h.addr as int,
                    data: Seq::new(h.size as nat, |i: int| 0u8),
                    sections: Seq::empty(),
                };
                match add_section_spec(empty, 0, section_permissions(h.flags), bytes) {
                    Err(e) => Err(GuestError::Memory(e)),
                    Ok(region) => match add_region_spec(m, region) {
                        Err(e) => Err(GuestError::Memory(e)),
                        Ok(after) => Ok(after),
                    },
                }
            },
        }
    }
}

/// Outcome of loading the first `n` section headers, in order, into an
/// empty address space; the first failure ends the load.
pub open spec fn load_spec(headers: Seq<SectionHeader>, file: Seq<u8>, n: nat) -> Result<
    Seq<RegionView>,
    GuestError,
>
    decreases n,
{
    if n == 0 {
        Ok(Seq::empty())
    } else {
        match load_spec(headers, file, (n - 1) as nat) {
            Err(e) => Err(e),
            Ok(m) => load_step(m, headers[n - 1], file),
        }
    }
}

/// Outcome of loading an image: the regions and the entry address.
pub open spec fn image_spec(img: ImageView, file: Seq<u8>) -> Result<(Seq<RegionView>, u64), GuestError> {
    if img.machine != EM_RISCV {
        Err(GuestError::UnsupportedArchitecture)
    } else {
        match load_spec(img.sections, file, img.sections.len()) {
            Err(e) => Err(e),
            Ok(m) => Ok((m, img.entry)),
        }
    }
}

/// A copy of `file[start..end]`.
fn copy_range(file: &[u8], start: usize, end: usize) -> (v: Vec<u8>)
    requires
        start <= end <= file@.len(),
    ensures
        v@ == file@.subrange(start as int, end as int),
{
    let mut v: Vec<u8> = Vec::new();
    let mut k: usize = start;
    while k < end
        invariant
            start <= k <= end,
            end <= file@.len(),
            v@ == file@.subrange(start as int, k as int),
        decreases end - k,
    {
        v.push(file[k]);
        k += 1;
        assert(v@ =~= file@.subrange(start as int, k as int));
    }
    v
}

/// The rights that a section with flags `flags` gets when loaded.
pub fn permissions_for(flags: u64) -> (p: MemoryPermissions)
    ensures
        p == section_permissions(flags),
{
    if flags & SHF_EXECINSTR != 0 {
        MemoryPermissions::execute()
    } else if flags & SHF_WRITE != 0 {
        MemoryPermissions::write()
    } else {
        MemoryPermissions::read()
    }
}

/// Loads one section header into `memory`.
fn load_section(memory: &mut Memory, h: SectionHeader, file: &[u8]) -> (r: Result<(), GuestError>)
    requires
        old(memory).wf(),
    ensures
        final(memory).wf(),
        match load_step(old(memory)@, h, file@) {
            Ok(after) => r == Ok::<(), GuestError>(()) && final(memory)@ == after,
            Err(e) => r == Err::<(), GuestError>(e),
        },
{
    if h.flags & SHF_ALLOC == 0 {
        return Ok(());
    }
    match h.file_range {
        Some((s, e)) => {
            if !(s <= e && e <= file.len()) {
                return Err(GuestError::SectionOutOfFileBounds);
            }
        },
        None => {},
    }
    if h.size == 0 {
        return Ok(());
    }
    let bytes = match h.file_range {
        None => None,
        Some((s, e)) => Some(copy_range(file, s, e)),
    };
    if h.size > u64::MAX - h.addr || h.size > usize::MAX as u64 {
        return Err(GuestError::MalformedImage);
    }
    let size = h.size as usize;
    let bytes = match bytes {
        Some(b) => b,
        None => zeroed(size),
    };
    let mut region = match Region::new(h.addr, size) {
        Ok(region) => region,
        Err(e) => return Err(GuestError::Memory(e)),
    };
    match region.add_section(0, permissions_for(h.flags), bytes.as_slice()) {
        Err(e) => return Err(GuestError::Memory(e)),
        Ok(()) => {},
    }
    match memory.add_region(region) {
        Err(e) => Err(GuestError::Memory(e)),
        Ok(()) => Ok(()),
    }
}

/// A guest machine: its address space and its registers.
#[derive(Clone, Debug)]
pub struct GuestCPU {
    memory: Memory,
    registers: Registers,
}

impl GuestCPU {
    pub closed spec fn spec_memory(&self) -> Memory {
        self.memory
    }

    pub closed spec fn spec_registers(&self) -> Registers {
        self.registers
    }

    pub open spec fn wf(&self) -> bool {
        self.spec_memory().wf() && self.spec_registers().wf()
    }

    /// The guest loaded from `img`, whose section contents lie in `file`:
    /// every allocated section of non-zero size becomes a region of its own,
    /// and the instruction pointer starts at the entry address.
    pub fn from_image(img: &ElfImage, file: &[u8]) -> (r: Result<GuestCPU, GuestError>)
        ensures
            match image_spec(img@, file@) {
                Ok((m, entry)) => match r {
                    Ok(g) => g.wf() && g.spec_memory()@ == m && g.spec_registers()@ == Seq::new(
                        32,
                        |i: int| 0u32,
                    ) && g.spec_registers().ip_spec() == entry,
                    Err(_) => false,
                },
                Err(e) => r == Err::<GuestCPU, GuestError>(e),
            },
    {
        if img.machine != EM_RISCV {
            return Err(GuestError::UnsupportedArchitecture);
        }
        let mut memory = Memory::new();
        let mut i: usize = 0;
        while i < img.sections.len()
            invariant
                i <= img.sections@.len(),
                img.machine == EM_RISCV,
                memory.wf(),
                load_spec(img@.sections, file@, i as nat) == Ok::<Seq<RegionView>, GuestError>(memory@),
            decreases img.sections@.len() - i,
        {
            let h = img.sections[i];
            match load_section(&mut memory, h, file) {
                Err(e) => {
                    proof {
                        lemma_load_fails_from(img@.sections, file@, (i + 1) as nat, e);
                    }
                    return Err(e);
                },
                Ok(()) => {},
            }
            i += 1;
        }
        let mut registers = Registers::new();
        registers.set_ip(img.entry);
        Ok(GuestCPU { memory, registers })
    }

    /// The guest loaded from the ELF file `bytes`: `MalformedImage` where the
    /// bytes do not parse, else as `from_image` on what was parsed.
    pub fn from_elf(bytes: &[u8]) -> (r: Result<GuestCPU, GuestError>)
        ensures
            parsed_elf(bytes@) matches Some(img) ==> forall|i: int|
                0 <= i < img.sections.len() ==> file_range_law(#[trigger] img.sections[i]),
            match parsed_elf(bytes@) {
                None => r == Err::<GuestCPU, GuestError>(GuestError::MalformedImage),
                Some(img) => match image_spec(img, bytes@) {
                    Ok((m, entry)) => match r {
                        Ok(g) => g.wf() && g.spec_memory()@ == m && g.spec_registers()@ == Seq::new(
                            32,
                            |i: int| 0u32,
                        ) && g.spec_registers().ip_spec() == entry,
                        Err(_) => false,
                    },
                    Err(e) => r == Err::<GuestCPU, GuestError>(e),
                },
            },
    {
        match parse_elf(bytes) {
            None => Err(GuestError::MalformedImage),
            Some(img) => GuestCPU::from_image(&img, bytes),
        }
    }

    /// The address space.
    pub fn memory(&self) -> (m: &Memory)
        ensures
            *m == self.spec_memory(),
    {
        &self.memory
    }

    /// The register file.
    pub fn registers(&self) -> (regs: &Registers)
        ensures
            *regs == self.spec_registers(),
    {
        &self.registers
    }

    /// Fetches `len` bytes of instructions at `vaddr` (EXECUTE required).
    pub fn fetch_instruction(&self, vaddr: u64, len: usize) -> (r: Result<Vec<u8>, MemoryError>)
        requires
            self.wf(),
        ensures
            match r {
                Ok(v) => memory_read_spec(self.spec_memory()@, vaddr as int, len as int, spec_execute())
                    == Ok::<Seq<u8>, MemoryError>(v@),
                Err(e) => memory_read_spec(self.spec_memory()@, vaddr as int, len as int, spec_execute())
                    == Err::<Seq<u8>, MemoryError>(e),
            },
    {
        self.memory.fetch_instruction(vaddr, len)
    }

    /// Reads `len` bytes of data at `vaddr` (READ required).
    pub fn read(&self, vaddr: u64, len: usize) -> (r: Result<Vec<u8>, MemoryError>)
        requires
            self.wf(),
        ensures
            match r {
                Ok(v) => memory_read_spec(self.spec_memory()@, vaddr as int, len as int, spec_read())
                    == Ok::<Seq<u8>, MemoryError>(v@),
                Err(e) => memory_read_spec(self.spec_memory()@, vaddr as int, len as int, spec_read())
                    == Err::<Seq<u8>, MemoryError>(e),
            },
    {
        self.memory.read(vaddr, len)
    }

    /// Writes `bytes` at `vaddr` (WRITE required); on failure nothing changes.
    pub fn write(&mut self, vaddr: u64, bytes: &[u8]) -> (r: Result<(), MemoryError>)
        requires
            old(self).wf(),
        ensures
            final(self).wf(),
            final(self).spec_registers() == old(self).spec_registers(),
            match memory_write_spec(old(self).spec_memory()@, vaddr as int, bytes@) {
                Ok(after) => r == Ok::<(), MemoryError>(()) && final(self).spec_memory()@ == after,
                Err(e) => r == Err::<(), MemoryError>(e) && final(self).spec_memory()@ == old(
                    self,
                ).spec_memory()@,
            },
    {
        self.memory.write(vaddr, bytes)
    }

    /// The value of register `reg`.
    pub fn read_register(&self, reg: Register) -> (v: u32)
        requires
            self.wf(),
        ensures
            v == read_spec(self.spec_registers()@, reg),
    {
        self.registers.read(reg)
    }

    /// Stores `val` in register `reg`; a write to `X0` is discarded.
    pub fn write_register(&mut self, reg: Register, val: u32)
        requires
            old(self).wf(),
        ensures
            final(self).wf(),
            final(self).spec_memory() == old(self).spec_memory(),
            final(self).spec_registers()@ == write_spec(old(self).spec_registers()@, reg, val),
            final(self).spec_registers().ip_spec() == old(self).spec_registers().ip_spec(),
    {
        self.registers.write(reg, val)
    }
}

/// Loading gives `h` a region, and that region holds `vaddr`.
pub open spec fn section_spans(h: SectionHeader, vaddr: int) -> bool {
    is_loaded(h) && h.addr <= vaddr < h.addr + h.size
}

/// After the first `n` headers loaded without error, an address is mapped
/// exactly when one of those sections that occupy memory spans it.
pub proof fn lemma_load_maps_exactly(headers: Seq<SectionHeader>, file: Seq<u8>, n: nat, vaddr: int)
    requires
        n <= headers.len(),
        load_spec(headers, file, n) is Ok,
    ensures
        is_mapped(load_spec(headers, file, n)->Ok_0, vaddr) <==> exists|k: int|
            0 <= k < n && section_spans(#[trigger] headers[k], vaddr),
    decreases n,
{
    if n > 0 {
        let k0 = n - 1;
        lemma_load_maps_exactly(headers, file, k0 as nat, vaddr);
        let m = load_spec(headers, file, k0 as nat)->Ok_0;
        let after = load_spec(headers, file, n)->Ok_0;
        let h = headers[k0];
        if is_loaded(h) {
            let bytes = section_contents(h, file)->Some_0;
            let empty = RegionView {
                base: h.addr as int,
                data: Seq::new(h.size as nat, |i: int| 0u8),
                sections: Seq::empty(),
            };
            let region = add_section_spec(empty, 0, section_permissions(h.flags), bytes)->Ok_0;
            assert(region.data.len() == h.size);
            assert(after == m.push(region));
            if is_mapped(after, vaddr) {
                let i = choose|i: int| 0 <= i < after.len() && region_contains(#[trigger] after[i], vaddr);
                if i < m.len() {
                    assert(region_contains(m[i], vaddr));
                } else {
                    assert(section_spans(headers[k0], vaddr));
                }
            }
            if exists|k: int| 0 <= k < n && section_spans(#[trigger] headers[k], vaddr) {
                let k = choose|k: int| 0 <= k < n && section_spans(#[trigger] headers[k], vaddr);
                if k < k0 {
                    let i = choose|i: int| 0 <= i < m.len() && region_contains(#[trigger] m[i], vaddr);
                    assert(region_contains(after[i], vaddr));
                } else {
                    assert(region_contains(after[m.len() as int], vaddr));
                }
            }
        } else {
            assert(after == m);
            if exists|k: int| 0 <= k < n && section_spans(#[trigger] headers[k], vaddr) {
                let k = choose|k: int| 0 <= k < n && section_spans(#[trigger] headers[k], vaddr);
                assert(k < k0);
            }
        }
    }
}

/// A loaded image resolves an address exactly when one of its sections that
/// occupy memory spans it.
pub proof fn lemma_image_resolves_exactly(img: ImageView, file: Seq<u8>, vaddr: int)
    requires
        image_spec(img, file) is Ok,
    ensures
        resolve_spec((image_spec(img, file)->Ok_0).0, vaddr) is Some <==> exists|k: int|
            0 <= k < img.sections.len() && section_spans(#[trigger] img.sections[k], vaddr),
{
    lemma_load_maps_exactly(img.sections, file, img.sections.len(), vaddr);
}

/// Once loading the first `n` headers fails, loading more fails the same way.
proof fn lemma_load_fails_from(headers: Seq<SectionHeader>, file: Seq<u8>, n: nat, e: GuestError)
    requires
        load_spec(headers, file, n) == Err::<Seq<RegionView>, GuestError>(e),
    ensures
        forall|k: nat| k >= n ==> #[trigger] load_spec(headers, file, k) == Err::<Seq<RegionView>, GuestError>(e),
{
    assert forall|k: nat| k >= n implies #[trigger] load_spec(headers, file, k) == Err::<Seq<RegionView>, GuestError>(e) by {
        lemma_load_fails_upto(headers, file, n, e, k);
    }
}

proof fn lemma_load_fails_upto(headers: Seq<SectionHeader>, file: Seq<u8>, n: nat, e: GuestError, k: nat)
    requires
        load_spec(headers, file, n) == Err::<Seq<RegionView>, GuestError>(e),
        k >= n,
    ensures
        load_spec(headers, file, k) == Err::<Seq<RegionView>, GuestError>(e),
    decreases k - n,
{
    if k > n {
        lemma_load_fails_upto(headers, file, n, e, (k - 1) as nat);
    }
}

} // verus!
