use lilith_kernel::error::MemoryError;
use lilith_kernel::frame::PhysicalMemoryManager;
use lilith_kernel::memory::{MemoryRegion, MemoryType};

fn usable(start: u64, size: u64) -> MemoryRegion {
    MemoryRegion::new(start, size, MemoryType::Available)
}

#[test]
fn sixty_four_kib_region_yields_sixteen_frames() {
    let regions = vec![usable(0x10_0000, 64 * 1024)];
    let mut alloc = PhysicalMemoryManager::init(&regions).unwrap();
    assert_eq!(alloc.free_count(), 16);
    let mut got = Vec::new();
    for _ in 0..16 {
        let f = alloc.allocate_frame().expect("frame");
        assert_eq!(f % 4096, 0);
        assert!(f >= 0x10_0000 && f + 4096 <= 0x10_0000 + 64 * 1024);
        got.push(f);
    }
    assert_eq!(alloc.allocate_frame(), None);
    got.sort();
    got.dedup();
    assert_eq!(got.len(), 16);
}

#[test]
fn freed_frame_is_handed_out_again_and_never_twice() {
    let regions = vec![usable(0, 3 * 4096)];
    let mut alloc = PhysicalMemoryManager::init(&regions).unwrap();
    let a = alloc.allocate_frame().unwrap();
    let b = alloc.allocate_frame().unwrap();
    assert_ne!(a, b);
    assert!(!alloc.is_free(a));
    alloc.free_frame(a);
    assert!(alloc.is_free(a));
    let c = alloc.allocate_frame().unwrap();
    let d = alloc.allocate_frame().unwrap();
    assert_ne!(c, d);
    assert_ne!(c, b);
    assert_ne!(d, b);
    assert!(c == a || d == a);
    assert_eq!(alloc.allocate_frame(), None);
}

#[test]
fn no_usable_memory_is_out_of_memory() {
    let regions = vec![MemoryRegion::new(0, 1 << 20, MemoryType::Reserved), usable(0x1000, 100)];
    assert_eq!(PhysicalMemoryManager::init(&regions).err(), Some(MemoryError::OutOfMemory));
    assert_eq!(PhysicalMemoryManager::init(&Vec::new()).err(), Some(MemoryError::OutOfMemory));
}

#[test]
fn kernel_regions_are_left_out() {
    let regions = vec![
        usable(0, 8 * 4096),
        MemoryRegion::new(2 * 4096 + 100, 4096, MemoryType::KernelCode),
        MemoryRegion::new(6 * 4096, 10, MemoryType::KernelData),
    ];
    let alloc = PhysicalMemoryManager::init(&regions).unwrap();
    assert_eq!(alloc.free_count(), 5);
    assert!(alloc.is_free(0));
    assert!(alloc.is_free(4096));
    assert!(!alloc.is_free(2 * 4096));
    assert!(!alloc.is_free(3 * 4096));
    assert!(alloc.is_free(4 * 4096));
    assert!(alloc.is_free(5 * 4096));
    assert!(!alloc.is_free(6 * 4096));
    assert!(alloc.is_free(7 * 4096));
}

#[test]
fn unaligned_region_keeps_whole_frames_only() {
    let regions = vec![usable(100, 3 * 4096)];
    let alloc = PhysicalMemoryManager::init(&regions).unwrap();
    assert_eq!(alloc.free_count(), 2);
    assert!(alloc.is_free(4096));
    assert!(alloc.is_free(2 * 4096));
    assert!(!alloc.is_free(0));
}

#[test]
fn overlapping_usable_regions_give_each_frame_once() {
    let regions = vec![usable(0, 4 * 4096), usable(2 * 4096, 4 * 4096)];
    let alloc = PhysicalMemoryManager::init(&regions).unwrap();
    assert_eq!(alloc.free_count(), 6);
}

#[test]
fn region_at_top_of_address_space() {
    let regions = vec![usable(u64::MAX - 2 * 4096 + 1, 2 * 4096)];
    let alloc = PhysicalMemoryManager::init(&regions).unwrap();
    assert_eq!(alloc.free_count(), 2);
    assert!(alloc.is_free(u64::MAX - 4095));
}
