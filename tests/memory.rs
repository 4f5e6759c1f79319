use riscvjit::memory::{Memory, MemoryError, Region};
use riscvjit::permissions::MemoryPermissions;

fn rw() -> MemoryPermissions {
    MemoryPermissions::read().union(MemoryPermissions::write())
}

#[test]
fn region_zero_size_is_invalid() {
    assert_eq!(Region::new(0x1000, 0).unwrap_err(), MemoryError::InvalidSize);
    assert_eq!(
        Region::new_filled(0x1000, 0, MemoryPermissions::all()).unwrap_err(),
        MemoryError::InvalidSize
    );
}

#[test]
fn region_new_is_zeroed_and_unsectioned() {
    let r = Region::new(0x1000, 16).unwrap();
    assert_eq!(r.base(), 0x1000);
    assert_eq!(r.size(), 16);
    // no section covers anything yet
    assert_eq!(r.read_bytes(0, 4).unwrap_err(), MemoryError::OutOfBounds);
}

#[test]
fn region_new_filled_is_accessible() {
    let r = Region::new_filled(0x2000, 8, MemoryPermissions::read()).unwrap();
    assert_eq!(r.read_bytes(0, 8).unwrap(), vec![0u8; 8]);
    assert_eq!(r.read_bytes(4, 5).unwrap_err(), MemoryError::OutOfBounds);
}

#[test]
fn contains_addr_and_offset_of() {
    let r = Region::new(0x1000, 0x100).unwrap();
    assert!(r.contains_addr(0x1000));
    assert!(r.contains_addr(0x10ff));
    assert!(!r.contains_addr(0x1100));
    assert!(!r.contains_addr(0xfff));
    assert_eq!(r.offset_of(0x1010), Some(0x10));
    assert_eq!(r.offset_of(0x1100), None);
    assert_eq!(r.offset_of(0x0), None);
}

#[test]
fn add_section_copies_bytes() {
    let mut r = Region::new(0x1000, 0x20).unwrap();
    r.add_section(4, MemoryPermissions::read(), &[1, 2, 3, 4]).unwrap();
    assert_eq!(r.read_bytes(4, 4).unwrap(), vec![1, 2, 3, 4]);
    assert_eq!(r.read_bytes(5, 2).unwrap(), vec![2, 3]);
}

#[test]
fn add_section_out_of_bounds() {
    let mut r = Region::new(0x1000, 8).unwrap();
    assert_eq!(
        r.add_section(6, MemoryPermissions::read(), &[1, 2, 3]).unwrap_err(),
        MemoryError::OutOfBounds
    );
    // nothing was added
    assert_eq!(r.read_bytes(6, 1).unwrap_err(), MemoryError::OutOfBounds);
}

#[test]
fn add_section_overlap_leaves_region_unchanged() {
    let mut r = Region::new(0x1000, 0x10).unwrap();
    r.add_section(0, MemoryPermissions::read(), &[9; 8]).unwrap();
    assert_eq!(
        r.add_section(4, MemoryPermissions::all(), &[7; 8]).unwrap_err(),
        MemoryError::Overlap
    );
    assert_eq!(r.read_bytes(0, 8).unwrap(), vec![9u8; 8]);
    assert_eq!(r.read_bytes(8, 1).unwrap_err(), MemoryError::OutOfBounds);
    // adjacent is fine
    r.add_section(8, MemoryPermissions::read(), &[7; 8]).unwrap();
    assert_eq!(r.read_bytes(8, 8).unwrap(), vec![7u8; 8]);
}

#[test]
fn fetch_instruction_scenario() {
    let mut region = Region::new(0x1000, 0x1000).unwrap();
    let mut code = vec![0u8; 0x10];
    code[0] = 0x13;
    region.add_section(0, MemoryPermissions::execute(), &code).unwrap();
    let mut mem = Memory::new();
    mem.add_region(region).unwrap();
    assert_eq!(mem.fetch_instruction(0x1000, 4).unwrap(), vec![0x13, 0x00, 0x00, 0x00]);
    assert_eq!(mem.read(0x1000, 4).unwrap_err(), MemoryError::ProtectionFault);
}

#[test]
fn write_then_read_round_trip() {
    let mut mem = Memory::new();
    mem.add_region(Region::new_filled(0x8000, 0x100, rw()).unwrap()).unwrap();
    mem.write(0x8010, &[0xde, 0xad, 0xbe, 0xef]).unwrap();
    assert_eq!(mem.read(0x8010, 4).unwrap(), vec![0xde, 0xad, 0xbe, 0xef]);
    assert_eq!(mem.read(0x800f, 6).unwrap(), vec![0, 0xde, 0xad, 0xbe, 0xef, 0]);
}

#[test]
fn write_without_write_right_faults_and_changes_nothing() {
    let mut mem = Memory::new();
    mem.add_region(Region::new_filled(0x8000, 0x10, MemoryPermissions::read()).unwrap())
        .unwrap();
    assert_eq!(mem.write(0x8000, &[1, 2]).unwrap_err(), MemoryError::ProtectionFault);
    assert_eq!(mem.read(0x8000, 2).unwrap(), vec![0, 0]);
}

#[test]
fn read_without_read_right_faults() {
    let mut mem = Memory::new();
    mem.add_region(Region::new_filled(0x8000, 0x10, MemoryPermissions::write()).unwrap())
        .unwrap();
    mem.write(0x8000, &[5]).unwrap();
    assert_eq!(mem.read(0x8000, 1).unwrap_err(), MemoryError::ProtectionFault);
    assert_eq!(mem.fetch_instruction(0x8000, 1).unwrap_err(), MemoryError::ProtectionFault);
}

#[test]
fn straddling_two_sections_is_out_of_bounds() {
    let mut region = Region::new(0x1000, 0x10).unwrap();
    region.add_section(0, MemoryPermissions::all(), &[1; 8]).unwrap();
    region.add_section(8, MemoryPermissions::all(), &[2; 8]).unwrap();
    let mut mem = Memory::new();
    mem.add_region(region).unwrap();
    assert_eq!(mem.read(0x1006, 4).unwrap_err(), MemoryError::OutOfBounds);
    assert_eq!(mem.write(0x1006, &[0; 4]).unwrap_err(), MemoryError::OutOfBounds);
    assert_eq!(mem.read(0x1004, 4).unwrap(), vec![1; 4]);
    assert_eq!(mem.read(0x1008, 4).unwrap(), vec![2; 4]);
}

#[test]
fn crossing_regions_is_out_of_bounds() {
    let mut mem = Memory::new();
    mem.add_region(Region::new_filled(0x1000, 0x10, rw()).unwrap()).unwrap();
    mem.add_region(Region::new_filled(0x1010, 0x10, rw()).unwrap()).unwrap();
    assert_eq!(mem.read(0x100c, 8).unwrap_err(), MemoryError::OutOfBounds);
}

#[test]
fn region_overlap_is_refused() {
    let mut mem = Memory::new();
    mem.add_region(Region::new_filled(0x1000, 0x100, rw()).unwrap()).unwrap();
    let err = mem
        .add_region(Region::new_filled(0x10ff, 0x10, rw()).unwrap())
        .unwrap_err();
    assert_eq!(err, MemoryError::Overlap);
    assert_eq!(mem.len(), 1);
    assert_eq!(mem.resolve(0x10ff), Some((0, 0xff)));
    assert_eq!(mem.resolve(0x1100), None);
}

#[test]
fn unmapped_access() {
    let mut mem = Memory::new();
    assert_eq!(mem.read(0x0, 1).unwrap_err(), MemoryError::Unmapped);
    mem.add_region(Region::new_filled(0x1000, 0x10, rw()).unwrap()).unwrap();
    assert_eq!(mem.read(0x2000, 1).unwrap_err(), MemoryError::Unmapped);
    assert_eq!(mem.write(0xfff, &[1]).unwrap_err(), MemoryError::Unmapped);
    assert_eq!(mem.fetch_instruction(0x1010, 4).unwrap_err(), MemoryError::Unmapped);
}

#[test]
fn resolve_finds_region_and_offset() {
    let mut mem = Memory::new();
    mem.add_region(Region::new_filled(0x1000, 0x10, rw()).unwrap()).unwrap();
    mem.add_region(Region::new_filled(0x3000, 0x10, rw()).unwrap()).unwrap();
    assert_eq!(mem.resolve(0x3004), Some((1, 4)));
    assert_eq!(mem.region(1).base(), 0x3000);
    assert_eq!(mem.resolve(0x2000), None);
}

#[test]
fn permission_set_operations() {
    let r = MemoryPermissions::read();
    let w = MemoryPermissions::write();
    let x = MemoryPermissions::execute();
    let rw = r.union(w);
    assert!(rw.contains(r));
    assert!(rw.contains(w));
    assert!(!rw.contains(x));
    assert!(MemoryPermissions::all().contains(rw));
    assert!(rw.contains(MemoryPermissions::none()));
    assert!(rw.intersects(w));
    assert!(!rw.intersects(x));
    assert_eq!(rw.intersection(w.union(x)), w);
}
