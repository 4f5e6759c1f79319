use vstd::prelude::*;

use crate::permissions::{spec_execute, spec_read, spec_write, MemoryPermissions};

verus! {

/// Why a memory operation was refused.
#[derive(Clone, Copy, Debug, PartialEq, Eq, Structural)]
pub enum MemoryError {
    /// A region was asked for with zero bytes.
    InvalidSize,
    /// A section or region would overlap one that is already there.
    Overlap,
    /// An access or a section is not covered by one single section or region.
    OutOfBounds,
    /// No region holds the address.
    Unmapped,
    /// The covering section lacks a required right.
    ProtectionFault,
}

/// A permissioned sub-range `[start, end)` of a region, in region-local offsets.
#[derive(Clone, Copy, Debug, PartialEq, Eq, Structural)]
pub struct Section {
    pub start: usize,
    pub end: usize,
    pub permissions: MemoryPermissions,
}

/// The two half-open ranges share at least one offset.
pub open spec fn ranges_overlap(a_start: int, a_end: int, b_start: int, b_end: int) -> bool {
    a_start < a_end && b_start < b_end && a_start < b_end && b_start < a_end
}

pub open spec fn sections_overlap(a: Section, b: Section) -> bool {
    ranges_overlap(a.start as int, a.end as int, b.start as int, b.end as int)
}

/// Section `s` holds the whole access `[off, off + len)`, and holds `off` itself.
pub open spec fn covers(s: Section, off: int, len: int) -> bool {
    s.start <= off < s.end && off + len <= s.end
}

/// What a region is: its guest base address, its bytes, and its sections.
pub ghost struct RegionView {
    pub base: int,
    pub data: Seq<u8>,
    pub sections: Seq<Section>,
}

/// Region invariant: a non-empty buffer whose end fits in a 64-bit address,
/// with pairwise disjoint sections inside it.
pub open spec fn region_wf(r: RegionView) -> bool {
    &&& 0 < r.data.len()
    &&& 0 <= r.base
    &&& r.base + r.data.len() <= u64::MAX
    &&& forall|i: int|
        0 <= i < r.sections.len() ==> (#[trigger] r.sections[i]).start <= r.sections[i].end <= r.data.len()
    &&& forall|i: int, j: int|
        0 <= i < r.sections.len() && 0 <= j < r.sections.len() && i != j ==> !sections_overlap(
            #[trigger] r.sections[i],
            #[trigger] r.sections[j],
        )
}

/// `vaddr` lies in `[base, base + size)`.
pub open spec fn region_contains(r: RegionView, vaddr: int) -> bool {
    r.base <= vaddr < r.base + r.data.len()
}

/// Some section of `r` covers the access.
pub open spec fn access_covered(r: RegionView, off: int, len: int) -> bool {
    exists|k: int| 0 <= k < r.sections.len() && covers(#[trigger] r.sections[k], off, len)
}

/// Outcome of checking an access of `len` bytes at offset `off` needing `required`:
/// it passes when the one section covering it grants every required right.
pub open spec fn check_access_spec(
    r: RegionView,
    off: int,
    len: int,
    required: MemoryPermissions,
) -> Result<(), MemoryError> {
    if exists|k: int|
        0 <= k < r.sections.len() && covers(#[trigger] r.sections[k], off, len)
            && r.sections[k].permissions.spec_contains(required) {
        Ok(())
    } else if access_covered(r, off, len) {
        Err(MemoryError::ProtectionFault)
    } else {
        Err(MemoryError::OutOfBounds)
    }
}

/// Outcome of reading `len` bytes at offset `off` with the rights `required`.
pub open spec fn read_spec(r: RegionView, off: int, len: int, required: MemoryPermissions) -> Result<
    Seq<u8>,
    MemoryError,
> {
    match check_access_spec(r, off, len, required) {
        Ok(()) => Ok(r.data.subrange(off, off + len)),
        Err(e) => Err(e),
    }
}

/// `data` with the bytes from `off` on replaced by `bytes`.
pub open spec fn splice(data: Seq<u8>, off: int, bytes: Seq<u8>) -> Seq<u8> {
    data.subrange(0, off) + bytes + data.subrange(off + bytes.len(), data.len() as int)
}

/// Outcome of writing `bytes` at offset `off`: the region afterwards.
pub open spec fn write_spec(r: RegionView, off: int, bytes: Seq<u8>) -> Result<RegionView, MemoryError> {
    match check_access_spec(r, off, bytes.len() as int, spec_write()) {
        Ok(()) => Ok(RegionView { data: splice(r.data, off, bytes), ..r }),
        Err(e) => Err(e),
    }
}

/// Outcome of adding a section over `[off, off + bytes.len())` holding `bytes`.
pub open spec fn add_section_spec(
    r: RegionView,
    off: usize,
    permissions: MemoryPermissions,
    bytes: Seq<u8>,
) -> Result<RegionView, MemoryError> {
    if exists|k: int|
        0 <= k < r.sections.len() && ranges_overlap(
            (#[trigger] r.sections[k]).start as int,
            r.sections[k].end as int,
            off as int,
            off + bytes.len(),
        ) {
        Err(MemoryError::Overlap)
    } else if off + bytes.len() > r.data.len() {
        Err(MemoryError::OutOfBounds)
    } else {
        Ok(
            RegionView {
                data: splice(r.data, off as int, bytes),
                sections: r.sections.push(
                    Section { start: off, end: (off + bytes.len()) as usize, permissions },
                ),
                ..r
            },
        )
    }
}

/// Two sections of a well-formed region never both cover one access.
proof fn lemma_covering_unique(r: RegionView, off: int, len: int, k: int)
    requires
        region_wf(r),
        0 <= k < r.sections.len(),
        covers(r.sections[k], off, len),
    ensures
        forall|j: int| 0 <= j < r.sections.len() && covers(#[trigger] r.sections[j], off, len) ==> j == k,
{
    assert forall|j: int| 0 <= j < r.sections.len() && covers(#[trigger] r.sections[j], off, len) implies j == k by {
        if j != k {
            assert(sections_overlap(r.sections[j], r.sections[k]));
        }
    }
}

/// A buffer of `n` zero bytes.
pub fn zeroed(n: usize) -> (v: Vec<u8>)
    ensures
        v@ == Seq::new(n as nat, |i: int| 0u8),
{
    let mut v: Vec<u8> = Vec::new();
    let mut k: usize = 0;
    while k < n
        invariant
            k <= n,
            v@ == Seq::new(k as nat, |i: int| 0u8),
        decreases n - k,
    {
        v.push(0u8);
        k += 1;
        assert(v@ =~= Seq::new(k as nat, |i: int| 0u8));
    }
    v
}

/// A contiguous block of guest memory at a base address, split into permissioned sections.
#[derive(Clone, Debug)]
pub struct Region {
    base: u64,
    data: Vec<u8>,
    sections: Vec<Section>,
}

impl View for Region {
    type V = RegionView;

    closed spec fn view(&self) -> RegionView {
        RegionView { base: self.base as int, data: self.data@, sections: self.sections@ }
    }
}

impl Region {
    pub open spec fn wf(&self) -> bool {
        region_wf(self@)
    }

    /// A zero-filled region of `size` bytes at `base`, without sections.
    pub fn new(base: u64, size: usize) -> (r: Result<Region, MemoryError>)
        requires
            base + size <= u64::MAX,
        ensures
            size == 0 <==> r == Err::<Region, MemoryError>(MemoryError::InvalidSize),
            size != 0 <==> r.is_ok(),
            r matches Ok(region) ==> region.wf() && region@ == (RegionView {
                base: base as int,
                data: Seq::new(size as nat, |i: int| 0u8),
                sections: Seq::empty(),
            }),
    {
        if size == 0 {
            return Err(MemoryError::InvalidSize);
        }
        let region = Region { base, data: zeroed(size), sections: Vec::new() };
        assert(region@.sections =~= Seq::empty());
        Ok(region)
    }

    /// A zero-filled region of `size` bytes at `base`, wholly covered by one
    /// section with `perms` (a stack or a heap).
    pub fn new_filled(base: u64, size: usize, perms: MemoryPermissions) -> (r: Result<Region, MemoryError>)
        requires
            base + size <= u64::MAX,
        ensures
            size == 0 <==> r == Err::<Region, MemoryError>(MemoryError::InvalidSize),
            size != 0 <==> r.is_ok(),
            r matches Ok(region) ==> region.wf() && region@ == (RegionView {
                base: base as int,
                data: Seq::new(size as nat, |i: int| 0u8),
                sections: seq![Section { start: 0, end: size, permissions: perms }],
            }),
    {
        match Region::new(base, size) {
            Err(e) => Err(e),
            Ok(mut region) => {
                region.sections.push(Section { start: 0, end: size, permissions: perms });
                assert(region@.sections =~= seq![Section { start: 0, end: size, permissions: perms }]);
                Ok(region)
            },
        }
    }

    /// The guest address of the first byte.
    pub fn base(&self) -> (b: u64)
        ensures
            b == self@.base,
    {
        self.base
    }

    /// The number of bytes in the region.
    pub fn size(&self) -> (n: usize)
        ensures
            n == self@.data.len(),
    {
        self.data.len()
    }

    /// Whether `vaddr` lies in `[base, base + size)`.
    pub fn contains_addr(&self, vaddr: u64) -> (b: bool)
        requires
            self.wf(),
        ensures
            b == region_contains(self@, vaddr as int),
    {
        vaddr >= self.base && vaddr - self.base < self.data.len() as u64
    }

    /// The offset of `vaddr` from the base, if the region holds `vaddr`.
    pub fn offset_of(&self, vaddr: u64) -> (r: Option<usize>)
        requires
            self.wf(),
        ensures
            r.is_some() == region_contains(self@, vaddr as int),
            r matches Some(off) ==> off == vaddr - self@.base,
    {
        if vaddr >= self.base && vaddr - self.base < self.data.len() as u64 {
            Some((vaddr - self.base) as usize)
        } else {
            None
        }
    }
    /// Checks an access of `size` bytes at offset `offset` needing `required`:
    /// one section must cover all of it and grant every required right.
    pub fn ensure_permissions(&self, offset: usize, size: usize, required: MemoryPermissions) -> (r:
        Result<(), MemoryError>)
        requires
            self.wf(),
        ensures
            r == check_access_spec(self@, offset as int, size as int, required),
    {
        let mut i: usize = 0;
        while i < self.sections.len()
            invariant
                i <= self.sections.len(),
                self.wf(),
                forall|j: int| 0 <= j < i ==> !covers(#[trigger] self@.sections[j], offset as int, size as int),
            decreases self.sections.len() - i,
        {
            let s = self.sections[i];
            if s.start <= offset && offset < s.end && size <= s.end - offset {
                proof {
                    lemma_covering_unique(self@, offset as int, size as int, i as int);
                }
                if s.permissions.contains(required) {
                    return Ok(());
                } else {
                    return Err(MemoryError::ProtectionFault);
                }
            }
            i += 1;
        }
        Err(MemoryError::OutOfBounds)
    }

    /// Reads `size` bytes at offset `offset`, needing the rights `required`.
    pub fn read_with(&self, offset: usize, size: usize, required: MemoryPermissions) -> (r: Result<
        Vec<u8>,
        MemoryError,
    >)
        requires
            self.wf(),
        ensures
            match r {
                Ok(v) => read_spec(self@, offset as int, size as int, required) == Ok::<
                    Seq<u8>,
                    MemoryError,
                >(v@),
                Err(e) => read_spec(self@, offset as int, size as int, required) == Err::<
                    Seq<u8>,
                    MemoryError,
                >(e),
            },
    {
        match self.ensure_permissions(offset, size, required) {
            Err(e) => Err(e),
            Ok(()) => {
                proof {
                    let k = choose|k: int|
                        0 <= k < self@.sections.len() && covers(
                            #[trigger] self@.sections[k],
                            offset as int,
                            size as int,
                        ) && self@.sections[k].permissions.spec_contains(required);
                    assert(offset + size <= self.data.len());
                }
                let mut out: Vec<u8> = Vec::new();
                let mut k: usize = 0;
                while k < size
                    invariant
                        k <= size,
                        offset + size <= self.data.len(),
                        out@ == self.data@.subrange(offset as int, offset + k),
                    decreases size - k,
                {
                    out.push(self.data[offset + k]);
                    k += 1;
                    assert(out@ =~= self.data@.subrange(offset as int, offset + k));
                }
                Ok(out)
            },
        }
    }

    /// Reads `size` bytes at offset `offset` as data (READ required).
    pub fn read_bytes(&self, offset: usize, size: usize) -> (r: Result<Vec<u8>, MemoryError>)
        requires
            self.wf(),
        ensures
            match r {
                Ok(v) => read_spec(self@, offset as int, size as int, spec_read()) == Ok::<
                    Seq<u8>,
                    MemoryError,
                >(v@),
                Err(e) => read_spec(self@, offset as int, size as int, spec_read()) == Err::<
                    Seq<u8>,
                    MemoryError,
                >(e),
            },
    {
        self.read_with(offset, size, MemoryPermissions::read())
    }

    /// Reads `size` bytes at offset `offset` as instructions (EXECUTE required).
    pub fn fetch_bytes(&self, offset: usize, size: usize) -> (r: Result<Vec<u8>, MemoryError>)
        requires
            self.wf(),
        ensures
            match r {
                Ok(v) => read_spec(self@, offset as int, size as int, spec_execute()) == Ok::<
                    Seq<u8>,
                    MemoryError,
                >(v@),
                Err(e) => read_spec(self@, offset as int, size as int, spec_execute()) == Err::<
                    Seq<u8>,
                    MemoryError,
                >(e),
            },
    {
        self.read_with(offset, size, MemoryPermissions::execute())
    }

    /// Copies `bytes` into the buffer at `offset`, leaving sections alone.
    fn copy_in(&mut self, offset: usize, bytes: &[u8])
        requires
            offset + bytes@.len() <= old(self).data@.len(),
        ensures
            final(self)@ == (RegionView { data: splice(old(self)@.data, offset as int, bytes@), ..old(self)@ }),
    {
        let ghost old_data = self.data@;
        let dlen = self.data.len();
        let mut k: usize = 0;
        while k < bytes.len()
            invariant
                k <= bytes@.len(),
                offset + bytes@.len() <= old_data.len(),
                self.base == old(self).base,
                self.sections@ == old(self).sections@,
                self.data@.len() == old_data.len(),
                dlen == old_data.len(),
                forall|j: int|
                    0 <= j < old_data.len() ==> #[trigger] self.data@[j] == if offset <= j < offset + k {
                        bytes@[j - offset]
                    } else {
                        old_data[j]
                    },
            decreases bytes@.len() - k,
        {
            self.data.set(offset + k, bytes[k]);
            k += 1;
        }
        assert(self.data@ =~= splice(old_data, offset as int, bytes@));
    }

    /// Writes `bytes` at offset `offset` (WRITE required); on failure nothing changes.
    pub fn write_bytes(&mut self, offset: usize, bytes: &[u8]) -> (r: Result<(), MemoryError>)
        requires
            old(self).wf(),
        ensures
            final(self).wf(),
            match write_spec(old(self)@, offset as int, bytes@) {
                Ok(after) => r == Ok::<(), MemoryError>(()) && final(self)@ == after,
                Err(e) => r == Err::<(), MemoryError>(e) && final(self)@ == old(self)@,
            },
    {
        match self.ensure_permissions(offset, bytes.len(), MemoryPermissions::write()) {
            Err(e) => Err(e),
            Ok(()) => {
                proof {
                    let k = choose|k: int|
                        0 <= k < self@.sections.len() && covers(
                            #[trigger] self@.sections[k],
                            offset as int,
                            bytes@.len() as int,
                        ) && self@.sections[k].permissions.spec_contains(spec_write());
                }
                self.copy_in(offset, bytes);
                Ok(())
            },
        }
    }

    /// Adds a section with `perms` over `[offset, offset + bytes.len())` and
    /// copies `bytes` there. Refused with `Overlap` when the range meets an
    /// existing section, else with `OutOfBounds` when it leaves the buffer;
    /// on failure nothing changes.
    pub fn add_section(&mut self, offset: usize, perms: MemoryPermissions, bytes: &[u8]) -> (r: Result<
        (),
        MemoryError,
    >)
        requires
            old(self).wf(),
        ensures
            final(self).wf(),
            match add_section_spec(old(self)@, offset, perms, bytes@) {
                Ok(after) => r == Ok::<(), MemoryError>(()) && final(self)@ == after,
                Err(e) => r == Err::<(), MemoryError>(e) && final(self)@ == old(self)@,
            },
    {
        let len = bytes.len();
        let mut i: usize = 0;
        while i < self.sections.len()
            invariant
                i <= self.sections.len(),
                len == bytes@.len(),
                self@ == old(self)@,
                self.wf(),
                forall|j: int|
                    0 <= j < i ==> !ranges_overlap(
                        (#[trigger] self@.sections[j]).start as int,
                        self@.sections[j].end as int,
                        offset as int,
                        offset + len,
                    ),
            decreases self.sections.len() - i,
        {
            let s = self.sections[i];
            if s.start < s.end && len > 0 && offset < s.end && (s.start < offset || s.start - offset < len) {
                return Err(MemoryError::Overlap);
            }
            i += 1;
        }
        if len > self.data.len() || offset > self.data.len() - len {
            return Err(MemoryError::OutOfBounds);
        }
        let ghost before = self@;
        self.copy_in(offset, bytes);
        self.sections.push(Section { start: offset, end: offset + len, permissions: perms });
        proof {
            let after = self@;
            assert(after.sections =~= before.sections.push(
                Section { start: offset, end: (offset + len) as usize, permissions: perms },
            ));
            assert forall|i: int, j: int|
                0 <= i < after.sections.len() && 0 <= j < after.sections.len() && i != j implies !sections_overlap(
                #[trigger] after.sections[i],
                #[trigger] after.sections[j],
            ) by {
                if i < before.sections.len() && j < before.sections.len() {
                    assert(before.sections[i] == after.sections[i]);
                    assert(before.sections[j] == after.sections[j]);
                }
            }
        }
        Ok(())
    }
}

/// The two regions share at least one guest address.
pub open spec fn regions_overlap(a: RegionView, b: RegionView) -> bool {
    ranges_overlap(a.base, a.base + a.data.len(), b.base, b.base + b.data.len())
}

/// Address-space invariant: well-formed regions, pairwise disjoint.
pub open spec fn memory_wf(m: Seq<RegionView>) -> bool {
    &&& forall|i: int| 0 <= i < m.len() ==> region_wf(#[trigger] m[i])
    &&& forall|i: int, j: int|
        0 <= i < m.len() && 0 <= j < m.len() && i != j ==> !regions_overlap(
            #[trigger] m[i],
            #[trigger] m[j],
        )
}

/// Some region of `m` holds `vaddr`.
pub open spec fn is_mapped(m: Seq<RegionView>, vaddr: int) -> bool {
    exists|i: int| 0 <= i < m.len() && region_contains(#[trigger] m[i], vaddr)
}

/// The region holding `vaddr` and the offset of `vaddr` in it, if any region does.
pub open spec fn resolve_spec(m: Seq<RegionView>, vaddr: int) -> Option<(int, int)> {
    if is_mapped(m, vaddr) {
        let i = choose|i: int| 0 <= i < m.len() && region_contains(#[trigger] m[i], vaddr);
        Some((i, vaddr - m[i].base))
    } else {
        None
    }
}

/// Outcome of reading `len` bytes at guest address `vaddr` with the rights `required`.
pub open spec fn memory_read_spec(
    m: Seq<RegionView>,
    vaddr: int,
    len: int,
    required: MemoryPermissions,
) -> Result<Seq<u8>, MemoryError> {
    match resolve_spec(m, vaddr) {
        None => Err(MemoryError::Unmapped),
        Some((i, off)) => read_spec(m[i], off, len, required),
    }
}

/// Outcome of writing `bytes` at guest address `vaddr`: the regions afterwards.
pub open spec fn memory_write_spec(m: Seq<RegionView>, vaddr: int, bytes: Seq<u8>) -> Result<
    Seq<RegionView>,
    MemoryError,
> {
    match resolve_spec(m, vaddr) {
        None => Err(MemoryError::Unmapped),
        Some((i, off)) => match write_spec(m[i], off, bytes) {
            Ok(after) => Ok(m.update(i, after)),
            Err(e) => Err(e),
        },
    }
}

/// Outcome of adding region `r` to the regions `m`.
pub open spec fn add_region_spec(m: Seq<RegionView>, r: RegionView) -> Result<Seq<RegionView>, MemoryError> {
    if exists|i: int| 0 <= i < m.len() && regions_overlap(#[trigger] m[i], r) {
        Err(MemoryError::Overlap)
    } else {
        Ok(m.push(r))
    }
}

/// In a well-formed address space only region `i` holds an address that `i` holds.
proof fn lemma_resolve_unique(m: Seq<RegionView>, vaddr: int, i: int)
    requires
        memory_wf(m),
        0 <= i < m.len(),
        region_contains(m[i], vaddr),
    ensures
        resolve_spec(m, vaddr) == Some((i, vaddr - m[i].base)),
{
    let j = choose|j: int| 0 <= j < m.len() && region_contains(#[trigger] m[j], vaddr);
    if j != i {
        assert(regions_overlap(m[i], m[j]));
    }
}

/// The guest address space: a set of disjoint regions.
#[derive(Clone, Debug)]
pub struct Memory {
    regions: Vec<Region>,
}

impl View for Memory {
    type V = Seq<RegionView>;

    closed spec fn view(&self) -> Seq<RegionView> {
        self.regions@.map_values(|r: Region| r@)
    }
}

impl Memory {
    pub open spec fn wf(&self) -> bool {
        memory_wf(self@)
    }

    /// An address space without regions.
    pub fn new() -> (m: Memory)
        ensures
            m.wf(),
            m@ == Seq::<RegionView>::empty(),
    {
        let m = Memory { regions: Vec::new() };
        assert(m@ =~= Seq::<RegionView>::empty());
        m
    }

    /// The number of regions.
    pub fn len(&self) -> (n: usize)
        ensures
            n == self@.len(),
    {
        self.regions.len()
    }

    /// The region at position `i`.
    pub fn region(&self, i: usize) -> (r: &Region)
        requires
            i < self@.len(),
        ensures
            r@ == self@[i as int],
    {
        &self.regions[i]
    }

    /// Adds `region`; refused with `Overlap`, and nothing changed, when it
    /// shares an address with a region already there.
    pub fn add_region(&mut self, region: Region) -> (r: Result<(), MemoryError>)
        requires
            old(self).wf(),
            region.wf(),
        ensures
            final(self).wf(),
            match add_region_spec(old(self)@, region@) {
                Ok(after) => r == Ok::<(), MemoryError>(()) && final(self)@ == after,
                Err(e) => r == Err::<(), MemoryError>(e) && final(self)@ == old(self)@,
            },
    {
        let mut i: usize = 0;
        while i < self.regions.len()
            invariant
                i <= self.regions.len(),
                self@ == old(self)@,
                self.wf(),
                region.wf(),
                forall|j: int| 0 <= j < i ==> !regions_overlap(#[trigger] self@[j], region@),
            decreases self.regions.len() - i,
        {
            let other = &self.regions[i];
            assert(other@ == self@[i as int]);
            if other.base < region.base + region.data.len() as u64 && region.base < other.base
                + other.data.len() as u64 {
                return Err(MemoryError::Overlap);
            }
            i += 1;
        }
        let ghost before = self@;
        self.regions.push(region);
        assert(self@ =~= before.push(region@));
        Ok(())
    }

    /// The position of the region holding `vaddr` and the offset of `vaddr`
    /// in it, or `None` when no region holds it.
    pub fn resolve(&self, vaddr: u64) -> (r: Option<(usize, usize)>)
        requires
            self.wf(),
        ensures
            match r {
                Some((i, off)) => resolve_spec(self@, vaddr as int) == Some((i as int, off as int)),
                None => resolve_spec(self@, vaddr as int) == None::<(int, int)>,
            },
    {
        let mut i: usize = 0;
        while i < self.regions.len()
            invariant
                i <= self.regions.len(),
                self.wf(),
                forall|j: int| 0 <= j < i ==> !region_contains(#[trigger] self@[j], vaddr as int),
            decreases self.regions.len() - i,
        {
            let region = &self.regions[i];
            assert(region@ == self@[i as int]);
            match region.offset_of(vaddr) {
                Some(off) => {
                    proof {
                        lemma_resolve_unique(self@, vaddr as int, i as int);
                    }
                    return Some((i, off));
                },
                None => {},
            }
            i += 1;
        }
        None
    }

    /// Reads `len` bytes at `vaddr` needing the rights `required`.
    fn read_with(&self, vaddr: u64, len: usize, required: MemoryPermissions) -> (r: Result<
        Vec<u8>,
        MemoryError,
    >)
        requires
            self.wf(),
        ensures
            match r {
                Ok(v) => memory_read_spec(self@, vaddr as int, len as int, required) == Ok::<
                    Seq<u8>,
                    MemoryError,
                >(v@),
                Err(e) => memory_read_spec(self@, vaddr as int, len as int, required) == Err::<
                    Seq<u8>,
                    MemoryError,
                >(e),
            },
    {
        match self.resolve(vaddr) {
            None => Err(MemoryError::Unmapped),
            Some((i, off)) => {
                assert(self.regions[i as int]@ == self@[i as int]);
                self.regions[i].read_with(off, len, required)
            },
        }
    }

    /// Reads `len` bytes of data at `vaddr` (READ required).
    pub fn read(&self, vaddr: u64, len: usize) -> (r: Result<Vec<u8>, MemoryError>)
        requires
            self.wf(),
        ensures
            match r {
                Ok(v) => memory_read_spec(self@, vaddr as int, len as int, spec_read()) == Ok::<
                    Seq<u8>,
                    MemoryError,
                >(v@),
                Err(e) => memory_read_spec(self@, vaddr as int, len as int, spec_read()) == Err::<
                    Seq<u8>,
                    MemoryError,
                >(e),
            },
    {
        self.read_with(vaddr, len, MemoryPermissions::read())
    }

    /// Fetches `len` bytes of instructions at `vaddr` (EXECUTE required).
    pub fn fetch_instruction(&self, vaddr: u64, len: usize) -> (r: Result<Vec<u8>, MemoryError>)
        requires
            self.wf(),
        ensures
            match r {
                Ok(v) => memory_read_spec(self@, vaddr as int, len as int, spec_execute()) == Ok::<
                    Seq<u8>,
                    MemoryError,
                >(v@),
                Err(e) => memory_read_spec(self@, vaddr as int, len as int, spec_execute()) == Err::<
                    Seq<u8>,
                    MemoryError,
                >(e),
            },
    {
        self.read_with(vaddr, len, MemoryPermissions::execute())
    }

    /// Writes `bytes` at `vaddr` (WRITE required); on failure nothing changes.
    pub fn write(&mut self, vaddr: u64, bytes: &[u8]) -> (r: Result<(), MemoryError>)
        requires
            old(self).wf(),
        ensures
            final(self).wf(),
            match memory_write_spec(old(self)@, vaddr as int, bytes@) {
                Ok(after) => r == Ok::<(), MemoryError>(()) && final(self)@ == after,
                Err(e) => r == Err::<(), MemoryError>(e) && final(self)@ == old(self)@,
            },
    {
        match self.resolve(vaddr) {
            None => Err(MemoryError::Unmapped),
            Some((i, off)) => {
                let ghost before = self@;
                assert(self.regions[i as int]@ == self@[i as int]);
                let r = self.regions[i].write_bytes(off, bytes);
                proof {
                    assert(self@ =~= before.update(i as int, self.regions[i as int]@));
                    if r.is_err() {
                        assert(self@ =~= before);
                    }
                    lemma_update_keeps_wf(before, i as int, self.regions[i as int]@);
                }
                r
            },
        }
    }
}

/// Replacing a region by one with the same base, size and sections keeps the
/// address space well formed.
proof fn lemma_update_keeps_wf(m: Seq<RegionView>, i: int, r: RegionView)
    requires
        memory_wf(m),
        0 <= i < m.len(),
        region_wf(r),
        r.base == m[i].base,
        r.data.len() == m[i].data.len(),
    ensures
        memory_wf(m.update(i, r)),
{
    let m2 = m.update(i, r);
    assert forall|a: int, b: int|
        0 <= a < m2.len() && 0 <= b < m2.len() && a != b implies !regions_overlap(
        #[trigger] m2[a],
        #[trigger] m2[b],
    ) by {
        assert(!regions_overlap(m[a], m[b]));
    }
}

/// Writing within one section leaves a well-formed region of the same
/// shape, whose bytes at the written range are the ones written.
proof fn lemma_write_shape(r: RegionView, off: int, bytes: Seq<u8>, k: int)
    requires
        region_wf(r),
        0 <= k < r.sections.len(),
        covers(r.sections[k], off, bytes.len() as int),
        r.sections[k].permissions.w,
    ensures
        write_spec(r, off, bytes) == Ok::<RegionView, MemoryError>(
            RegionView { data: splice(r.data, off, bytes), ..r },
        ),
        region_wf(RegionView { data: splice(r.data, off, bytes), ..r }),
        splice(r.data, off, bytes).len() == r.data.len(),
        splice(r.data, off, bytes).subrange(off, off + bytes.len()) == bytes,
{
    assert(covers(r.sections[k], off, bytes.len() as int) && r.sections[k].permissions.spec_contains(
        spec_write(),
    ));
    let d = splice(r.data, off, bytes);
    assert(d.subrange(off, off + bytes.len()) =~= bytes);
}

/// Bytes written where a section grants READ and WRITE read back unchanged.
pub proof fn lemma_write_then_read(m: Seq<RegionView>, vaddr: int, bytes: Seq<u8>, i: int, k: int)
    requires
        memory_wf(m),
        0 <= i < m.len(),
        region_contains(m[i], vaddr),
        0 <= k < m[i].sections.len(),
        covers(m[i].sections[k], vaddr - m[i].base, bytes.len() as int),
        m[i].sections[k].permissions.r,
        m[i].sections[k].permissions.w,
    ensures
        match memory_write_spec(m, vaddr, bytes) {
            Ok(after) => memory_read_spec(after, vaddr, bytes.len() as int, spec_read()) == Ok::<
                Seq<u8>,
                MemoryError,
            >(bytes),
            Err(_) => false,
        },
{
    let off = vaddr - m[i].base;
    lemma_resolve_unique(m, vaddr, i);
    lemma_write_shape(m[i], off, bytes, k);
    let r2 = RegionView { data: splice(m[i].data, off, bytes), ..m[i] };
    let m2 = m.update(i, r2);
    lemma_update_keeps_wf(m, i, r2);
    lemma_resolve_unique(m2, vaddr, i);
    assert(covers(r2.sections[k], off, bytes.len() as int) && r2.sections[k].permissions.spec_contains(
        spec_read(),
    ));
}

/// An access that the covering section does not fully permit fails with
/// `ProtectionFault`, whichever rights it needs.
pub proof fn lemma_access_denied(
    m: Seq<RegionView>,
    vaddr: int,
    len: int,
    required: MemoryPermissions,
    i: int,
    k: int,
)
    requires
        memory_wf(m),
        0 <= i < m.len(),
        region_contains(m[i], vaddr),
        0 <= k < m[i].sections.len(),
        covers(m[i].sections[k], vaddr - m[i].base, len),
        !m[i].sections[k].permissions.spec_contains(required),
    ensures
        memory_read_spec(m, vaddr, len, required) == Err::<Seq<u8>, MemoryError>(
            MemoryError::ProtectionFault,
        ),
{
    lemma_resolve_unique(m, vaddr, i);
    lemma_covering_unique(m[i], vaddr - m[i].base, len, k);
}

/// A write where the covering section lacks WRITE fails with
/// `ProtectionFault` (and the write leaves the memory unchanged).
pub proof fn lemma_write_denied(m: Seq<RegionView>, vaddr: int, bytes: Seq<u8>, i: int, k: int)
    requires
        memory_wf(m),
        0 <= i < m.len(),
        region_contains(m[i], vaddr),
        0 <= k < m[i].sections.len(),
        covers(m[i].sections[k], vaddr - m[i].base, bytes.len() as int),
        !m[i].sections[k].permissions.w,
    ensures
        memory_write_spec(m, vaddr, bytes) == Err::<Seq<RegionView>, MemoryError>(
            MemoryError::ProtectionFault,
        ),
{
    lemma_resolve_unique(m, vaddr, i);
    lemma_covering_unique(m[i], vaddr - m[i].base, bytes.len() as int, k);
}

/// An access that starts in one section and runs into the adjacent one fails
/// with `OutOfBounds`, whatever rights the two sections grant.
pub proof fn lemma_no_straddle(
    m: Seq<RegionView>,
    vaddr: int,
    len: int,
    required: MemoryPermissions,
    i: int,
    k1: int,
    k2: int,
)
    requires
        memory_wf(m),
        0 <= i < m.len(),
        region_contains(m[i], vaddr),
        0 <= k1 < m[i].sections.len(),
        0 <= k2 < m[i].sections.len(),
        m[i].sections[k1].start <= vaddr - m[i].base < m[i].sections[k1].end,
        m[i].sections[k1].end == m[i].sections[k2].start,
        m[i].sections[k2].start < vaddr - m[i].base + len <= m[i].sections[k2].end,
    ensures
        memory_read_spec(m, vaddr, len, required) == Err::<Seq<u8>, MemoryError>(
            MemoryError::OutOfBounds,
        ),
        len >= 0 ==> forall|bytes: Seq<u8>|
            bytes.len() == len ==> #[trigger] memory_write_spec(m, vaddr, bytes) == Err::<
                Seq<RegionView>,
                MemoryError,
            >(MemoryError::OutOfBounds),
{
    let r = m[i];
    let off = vaddr - r.base;
    lemma_resolve_unique(m, vaddr, i);
    assert forall|j: int| 0 <= j < r.sections.len() implies !covers(#[trigger] r.sections[j], off, len) by {
        if covers(r.sections[j], off, len) && j != k1 {
            assert(sections_overlap(r.sections[j], r.sections[k1]));
        }
    }
}

/// Adding a section that meets an existing one fails with `Overlap`.
pub proof fn lemma_add_section_overlap(
    r: RegionView,
    off: usize,
    permissions: MemoryPermissions,
    bytes: Seq<u8>,
    k: int,
)
    requires
        region_wf(r),
        0 <= k < r.sections.len(),
        ranges_overlap(r.sections[k].start as int, r.sections[k].end as int, off as int, off + bytes.len()),
    ensures
        add_section_spec(r, off, permissions, bytes) == Err::<RegionView, MemoryError>(MemoryError::Overlap),
{
}

/// Adding a region that meets an existing one fails with `Overlap`.
pub proof fn lemma_add_region_overlap(m: Seq<RegionView>, r: RegionView, i: int)
    requires
        memory_wf(m),
        region_wf(r),
        0 <= i < m.len(),
        regions_overlap(m[i], r),
    ensures
        add_region_spec(m, r) == Err::<Seq<RegionView>, MemoryError>(MemoryError::Overlap),
{
}

/// Any access to an address that no region holds fails with `Unmapped`.
pub proof fn lemma_unmapped(m: Seq<RegionView>, vaddr: int, len: int, required: MemoryPermissions, bytes: Seq<u8>)
    requires
        memory_wf(m),
        !is_mapped(m, vaddr),
    ensures
        memory_read_spec(m, vaddr, len, required) == Err::<Seq<u8>, MemoryError>(MemoryError::Unmapped),
        memory_write_spec(m, vaddr, bytes) == Err::<Seq<RegionView>, MemoryError>(MemoryError::Unmapped),
{
}

} // verus!
