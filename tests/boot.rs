use lilith_kernel::boot::{
    detect_memory, KernelLayout, Multiboot2Header, Parity, Uart, UartConfig, DEVICE_MEMORY_START,
    MAIN_MEMORY_START,
};
use lilith_kernel::error::BootError;
use lilith_kernel::memory::{MemoryAttributes, MemoryMap, MemoryRegion, MemoryType};

#[test]
fn uart_expands_line_feeds() {
    let u = Uart::new(UartConfig::default());
    assert_eq!(u.write_str("ab\ncd\n"), b"ab\r\ncd\r\n".to_vec());
    assert_eq!(u.write_str(""), Vec::<u8>::new());
    assert_eq!(u.write_str("\u{e9}"), "\u{e9}".as_bytes().to_vec());
}

#[test]
fn uart_divisor() {
    let c = UartConfig::default();
    assert_eq!(c.baud_rate, 115200);
    assert_eq!(c.parity, Parity::NoParity);
    let u = Uart::new(c);
    assert_eq!(u.base_addr, 0x1000_0000);
    assert_eq!(u.divisor(), Ok(27));
    let zero = Uart::new(UartConfig { baud_rate: 0, ..c });
    assert_eq!(zero.divisor(), Err(BootError::ConfigurationError));
    let slow = Uart::new(UartConfig { baud_rate: 1, ..c });
    assert_eq!(slow.divisor(), Err(BootError::ConfigurationError));
    let fast = Uart::new(UartConfig { baud_rate: 50_000_000, ..c });
    assert_eq!(fast.divisor(), Err(BootError::ConfigurationError));
}

#[test]
fn multiboot_header_checksum_balances() {
    let h = Multiboot2Header::new();
    assert_eq!(h.magic, 0xE852_50D6);
    assert_eq!(h.header_length, 24);
    assert_eq!(h.magic.wrapping_add(h.architecture).wrapping_add(h.header_length).wrapping_add(h.checksum), 0);
    assert!(h.is_valid());
    let bad = Multiboot2Header { checksum: h.checksum + 1, ..h };
    assert!(!bad.is_valid());
}

#[test]
fn detected_map_lists_platform_and_kernel() {
    let layout = KernelLayout {
        text_start: 0x8020_0000,
        text_end: 0x8021_0000,
        data_start: 0x8021_0000,
        data_end: 0x8021_0000,
        bss_start: 0x8022_0000,
        bss_end: 0x8023_0000,
    };
    let (m, overlap) = detect_memory(layout).unwrap();
    assert!(overlap);
    assert_eq!(m.region_count(), 4);
    assert_eq!(m.region(0).start_addr, DEVICE_MEMORY_START);
    assert!(!m.region(0).attributes.cacheable);
    assert_eq!(m.region(1).start_addr, MAIN_MEMORY_START);
    assert_eq!(m.region(1).memory_type, MemoryType::Available);
    assert_eq!(m.region(2).memory_type, MemoryType::KernelCode);
    assert_eq!(m.region(2).size, 0x1_0000);
    assert!(m.region(2).attributes.executable);
    assert_eq!(m.region(3).memory_type, MemoryType::KernelData);
    assert_eq!(m.region(3).start_addr, 0x8022_0000);
    assert!(m.is_address_available(0x8000_1000));
    assert!(!m.is_address_available(0x1000_1000));
    assert!(!m.is_address_available(0x10));
}

#[test]
fn memory_map_reports_overlap_and_fills_up() {
    let mut m = MemoryMap::new();
    assert_eq!(m.add_region(MemoryRegion::new(0, 0x1000, MemoryType::Available)), Ok(false));
    assert_eq!(m.add_region(MemoryRegion::new(0x800, 0x1000, MemoryType::Reserved)), Ok(true));
    assert_eq!(m.add_region(MemoryRegion::new(0x1800, 0x10, MemoryType::Reserved)), Ok(false));
    assert_eq!(m.find_region(0x900).unwrap().memory_type, MemoryType::Available);
    assert_eq!(m.find_region(0x1200).unwrap().memory_type, MemoryType::Reserved);
    assert_eq!(m.find_region(0x5000), None);
    for i in 3..64u64 {
        assert!(m.add_region(MemoryRegion::new(0x10_0000 * i, 1, MemoryType::Reserved)).is_ok());
    }
    assert_eq!(
        m.add_region(MemoryRegion::new(0xffff_0000, 1, MemoryType::Reserved)),
        Err(BootError::MemoryDetectionFailed)
    );
    assert_eq!(m.regions().len(), 64);
}

#[test]
fn region_geometry() {
    let r = MemoryRegion::new(0x1000, 0x1000, MemoryType::Available);
    assert_eq!(r.end_addr(), 0x2000);
    assert!(r.contains(0x1fff));
    assert!(!r.contains(0x2000));
    assert!(r.overlaps(&MemoryRegion::new(0x1fff, 1, MemoryType::Reserved)));
    assert!(!r.overlaps(&MemoryRegion::new(0x2000, 1, MemoryType::Reserved)));
    assert!(!r.overlaps(&MemoryRegion::new(0x1800, 0, MemoryType::Reserved)));
    let d = MemoryAttributes::default();
    assert!(d.readable && d.writable && !d.executable && d.cacheable && !d.write_through);
}

#[test]
fn uart_register_programming() {
    let u = Uart::new(UartConfig::default());
    assert_eq!(
        u.init_writes(),
        Ok(vec![(1, 0), (3, 0x80), (0, 27), (1, 0), (3, 0x03), (2, 0xC7), (4, 0x0B)])
    );
    let slow = Uart::new(UartConfig { baud_rate: 1200, clock_freq: 1_843_200 * 4, ..UartConfig::default() });
    assert_eq!(slow.divisor(), Ok(384));
    assert_eq!(slow.init_writes().unwrap()[2..4].to_vec(), vec![(0, 128), (1, 1)]);
    let bad = Uart::new(UartConfig { baud_rate: 0, ..UartConfig::default() });
    assert_eq!(bad.init_writes(), Err(BootError::ConfigurationError));
}

#[test]
fn memory_totals_and_first_available() {
    let mut m = MemoryMap::new();
    assert_eq!(m.first_available(), None);
    m.add_region(MemoryRegion::new(0, 0x1000, MemoryType::Reserved)).unwrap();
    m.add_region(MemoryRegion::new(0x1000, u64::MAX, MemoryType::Available)).unwrap();
    m.add_region(MemoryRegion::new(0x9000, 0x2000, MemoryType::Available)).unwrap();
    assert_eq!(m.total_memory(), 0x1000 + u64::MAX as u128 + 0x2000);
    assert_eq!(m.available_memory(), u64::MAX as u128 + 0x2000);
    assert_eq!(m.first_available(), Some((0x1000, u64::MAX)));
}

#[test]
fn sort_orders_by_start() {
    let mut m = MemoryMap::new();
    for start in [0x5000u64, 0x1000, 0x9000, 0x3000, 0x1000] {
        m.add_region(MemoryRegion::new(start, 0x10, MemoryType::Reserved)).unwrap();
    }
    m.sort_regions();
    let starts: Vec<u64> = m.regions().iter().map(|r| r.start_addr).collect();
    assert_eq!(starts, vec![0x1000, 0x1000, 0x3000, 0x5000, 0x9000]);
}

#[test]
fn detected_map_without_kernel_sections_has_no_overlap() {
    let layout = KernelLayout { text_start: 0, text_end: 0, data_start: 0, data_end: 0, bss_start: 0, bss_end: 0 };
    let (m, overlap) = detect_memory(layout).unwrap();
    assert!(!overlap);
    assert_eq!(m.region_count(), 2);
}
