use lilith_kernel::error::MemoryError;
use lilith_kernel::frame::PhysicalMemoryManager;
use lilith_kernel::memory::{MemoryRegion, MemoryType};
use lilith_kernel::paging::{AddressSpace, PageFlags, PageTableEntry, UPPER_HALF_START};

fn allocator(frames: u64) -> PhysicalMemoryManager {
    PhysicalMemoryManager::init(&vec![MemoryRegion::new(0x100_0000, frames * 4096, MemoryType::Available)])
        .unwrap()
}

fn rw_user() -> PageFlags {
    PageFlags { writable: true, user_accessible: true, executable: false }
}

fn kernel_and_user(alloc: &mut PhysicalMemoryManager) -> AddressSpace {
    let kernel = AddressSpace::new_kernel_space(alloc, &Vec::new()).unwrap();
    AddressSpace::new_user_space(alloc, &kernel).unwrap()
}

#[test]
fn map_then_translate_then_unmap() {
    let mut alloc = allocator(16);
    let mut space = kernel_and_user(&mut alloc);
    let free_before = alloc.free_count();
    assert_eq!(space.translate(0x40_0123), None);
    assert_eq!(space.map(0x40_0000, 0x5000, rw_user(), &mut alloc), Ok(()));
    assert_eq!(free_before - alloc.free_count(), 3);
    let e = space.translate(0x40_0123).unwrap();
    assert_eq!(e, PageTableEntry { frame: 0x5000, flags: rw_user() });
    assert_eq!(space.translate(0x40_0000), Some(e));
    assert_eq!(space.translate(0x40_1000), None);
    assert_eq!(space.unmap(0x40_0000), Ok(0x5000));
    assert_eq!(space.translate(0x40_0123), None);
    assert_eq!(space.unmap(0x40_0000), Err(MemoryError::InvalidAddress));
}

#[test]
fn second_page_reuses_tables() {
    let mut alloc = allocator(16);
    let mut space = kernel_and_user(&mut alloc);
    space.map(0x40_0000, 0x5000, rw_user(), &mut alloc).unwrap();
    let free = alloc.free_count();
    space.map(0x40_1000, 0x6000, rw_user(), &mut alloc).unwrap();
    assert_eq!(alloc.free_count(), free);
}

#[test]
fn map_over_present_page_fails_and_keeps_entry() {
    let mut alloc = allocator(16);
    let mut space = kernel_and_user(&mut alloc);
    space.map(0x40_0000, 0x5000, rw_user(), &mut alloc).unwrap();
    let other = PageFlags { writable: false, user_accessible: false, executable: true };
    assert_eq!(space.map(0x40_0000, 0x9000, other, &mut alloc), Err(MemoryError::AlreadyMapped));
    assert_eq!(space.translate(0x40_0000), Some(PageTableEntry { frame: 0x5000, flags: rw_user() }));
}

#[test]
fn map_rejects_bad_addresses() {
    let mut alloc = allocator(16);
    let mut space = kernel_and_user(&mut alloc);
    assert_eq!(space.map(0x40_0001, 0x5000, rw_user(), &mut alloc), Err(MemoryError::AlignmentError));
    assert_eq!(space.map(0x40_0000, 0x5010, rw_user(), &mut alloc), Err(MemoryError::AlignmentError));
    assert_eq!(
        space.map(0x0000_8000_0000_0000, 0x5000, rw_user(), &mut alloc),
        Err(MemoryError::InvalidAddress)
    );
    assert_eq!(space.map(UPPER_HALF_START, 0x5000, rw_user(), &mut alloc), Err(MemoryError::InvalidAddress));
    assert_eq!(space.unmap(0x40_0010), Err(MemoryError::AlignmentError));
}

#[test]
fn map_without_table_frames_is_out_of_memory() {
    let mut alloc = allocator(3);
    let mut space = kernel_and_user(&mut alloc);
    assert_eq!(alloc.free_count(), 1);
    assert_eq!(space.map(0x40_0000, 0x5000, rw_user(), &mut alloc), Err(MemoryError::OutOfMemory));
    assert_eq!(alloc.free_count(), 0);
    assert_eq!(space.translate(0x40_0000), None);
}

#[test]
fn user_space_without_frames_fails() {
    let mut alloc = allocator(1);
    let kernel = AddressSpace::new_kernel_space(&mut alloc, &Vec::new()).unwrap();
    assert_eq!(AddressSpace::new_user_space(&mut alloc, &kernel).err(), Some(MemoryError::OutOfMemory));
}

#[test]
fn kernel_space_maps_image_with_permissions() {
    let regions = vec![
        MemoryRegion::new(0x100_0000, 64 * 4096, MemoryType::Available),
        MemoryRegion::new(0x20_0000, 0x1800, MemoryType::KernelCode),
        MemoryRegion::new(0x20_2000, 0x1000, MemoryType::KernelData),
    ];
    let mut alloc = PhysicalMemoryManager::init(&regions).unwrap();
    let space = AddressSpace::new_kernel_space(&mut alloc, &regions).unwrap();
    let code = PageFlags { writable: false, user_accessible: false, executable: true };
    let data = PageFlags { writable: true, user_accessible: false, executable: false };
    assert_eq!(space.translate(UPPER_HALF_START + 0x20_0000), Some(PageTableEntry { frame: 0x20_0000, flags: code }));
    assert_eq!(space.translate(UPPER_HALF_START + 0x20_1fff), Some(PageTableEntry { frame: 0x20_1000, flags: code }));
    assert_eq!(space.translate(UPPER_HALF_START + 0x20_2000), Some(PageTableEntry { frame: 0x20_2000, flags: data }));
    assert_eq!(space.translate(UPPER_HALF_START + 0x20_3000), None);
    assert_eq!(space.translate(0x20_0000), None);
}

#[test]
fn kernel_image_too_high_is_invalid() {
    let regions = vec![
        MemoryRegion::new(0x100_0000, 64 * 4096, MemoryType::Available),
        MemoryRegion::new(0x0000_8000_0000_0000, 0x1000, MemoryType::KernelCode),
    ];
    let mut alloc = PhysicalMemoryManager::init(&regions).unwrap();
    assert_eq!(AddressSpace::new_kernel_space(&mut alloc, &regions).err(), Some(MemoryError::InvalidAddress));
}

#[test]
fn frame_backs_one_page_only() {
    let mut alloc = allocator(16);
    let mut space = kernel_and_user(&mut alloc);
    space.map(0x40_0000, 0x5000, rw_user(), &mut alloc).unwrap();
    assert_eq!(space.map(0x40_1000, 0x5000, rw_user(), &mut alloc), Err(MemoryError::AlreadyMapped));
    assert_eq!(space.translate(0x40_1000), None);
    assert_eq!(space.unmap(0x40_0000), Ok(0x5000));
    assert_eq!(space.map(0x40_1000, 0x5000, rw_user(), &mut alloc), Ok(()));
}

#[test]
fn present_page_is_refused_before_other_checks() {
    let mut alloc = allocator(16);
    let mut space = kernel_and_user(&mut alloc);
    space.map(0x40_0000, 0x5000, rw_user(), &mut alloc).unwrap();
    assert_eq!(space.map(0x40_0000, 0x5001, rw_user(), &mut alloc), Err(MemoryError::AlreadyMapped));
}

#[test]
fn teardown_returns_every_frame() {
    let mut alloc = allocator(16);
    let kernel = AddressSpace::new_kernel_space(&mut alloc, &Vec::new()).unwrap();
    let start = alloc.free_count();
    let mut space = AddressSpace::new_user_space(&mut alloc, &kernel).unwrap();
    let a = alloc.allocate_frame().unwrap();
    let b = alloc.allocate_frame().unwrap();
    space.map(0x40_0000, a, rw_user(), &mut alloc).unwrap();
    space.map(0x8000_0000, b, rw_user(), &mut alloc).unwrap();
    assert_eq!(alloc.free_count(), start - 1 - 2 - 3 - 2);
    space.teardown(&mut alloc);
    assert_eq!(alloc.free_count(), start);
    assert!(alloc.is_free(a) && alloc.is_free(b));
}
