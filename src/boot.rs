use vstd::prelude::*;
use vstd::string::StringSliceAdditionalSpecFns;
use crate::error::BootError;
use crate::memory::{
    has_overlap, sorted_between, MemoryAttributes, MemoryMap, MemoryRegion, MemoryType, MAX_MEMORY_REGIONS,
};

verus! {

/// Base address of the early serial port.
pub const UART_BASE: u64 = 0x1000_0000;

/// Register offsets of a 16550-style port.
pub const UART_THR: u64 = 0x00;
pub const UART_DLL: u64 = 0x00;
pub const UART_IER: u64 = 0x01;
pub const UART_DLH: u64 = 0x01;
pub const UART_FCR: u64 = 0x02;
pub const UART_LCR: u64 = 0x03;
pub const UART_MCR: u64 = 0x04;
pub const UART_LSR: u64 = 0x05;

/// Line control: divisor-latch access.
pub const LCR_DLAB: u8 = 0x80;

/// Line control: eight data bits, no parity, one stop bit.
pub const LCR_8N1: u8 = 0x03;

/// FIFO control: enable and clear both FIFOs, 14-byte trigger.
pub const FCR_ENABLE_CLEAR: u8 = 0xC7;

/// Modem control: DTR, RTS and OUT2.
pub const MCR_DTR_RTS_OUT2: u8 = 0x0B;

/// Line status: transmit holding register empty.
pub const LSR_THRE: u8 = 0x20;

/// Register writes that bring the port up with divisor `d`, in order:
/// interrupts off, divisor latch opened and loaded low byte first, 8N1 set
/// (closing the latch), FIFOs enabled and cleared, modem lines raised.
pub open spec fn uart_init_writes(d: u16) -> Seq<(u64, u8)> {
    seq![
        (UART_IER, 0u8),
        (UART_LCR, LCR_DLAB),
        (UART_DLL, (d % 256) as u8),
        (UART_DLH, (d / 256) as u8),
        (UART_LCR, LCR_8N1),
        (UART_FCR, FCR_ENABLE_CLEAR),
        (UART_MCR, MCR_DTR_RTS_OUT2),
    ]
}

/// Parity of a serial line.
#[derive(Debug, Clone, Copy, PartialEq, Eq, Structural)]
pub enum Parity {
    NoParity,
    Odd,
    Even,
}

/// Settings of a 16550-style serial port.
#[derive(Debug, Clone, Copy, PartialEq, Eq, Structural)]
pub struct UartConfig {
    pub base_addr: u64,
    pub baud_rate: u32,
    pub clock_freq: u32,
    pub data_bits: u8,
    pub stop_bits: u8,
    pub parity: Parity,
}

impl Default for UartConfig {
    /// 115200 baud 8N1 on a 50 MHz clock, at `UART_BASE`.
    fn default() -> (r: Self)
        ensures
            r == (UartConfig {
                base_addr: UART_BASE,
                baud_rate: 115200,
                clock_freq: 50_000_000,
                data_bits: 8,
                stop_bits: 1,
                parity: Parity::NoParity,
            }),
    {
        UartConfig {
            base_addr: UART_BASE,
            baud_rate: 115200,
            clock_freq: 50_000_000,
            data_bits: 8,
            stop_bits: 1,
            parity: Parity::NoParity,
        }
    }
}

/// The bytes sent for `b`: each line feed goes out as carriage return and
/// line feed.
pub open spec fn crlf(b: Seq<u8>) -> Seq<u8>
    decreases b.len(),
{
    if b.len() == 0 {
        Seq::empty()
    } else {
        let last = b.last();
        crlf(b.drop_last()) + if last == 10 {
            seq![13u8, 10u8]
        } else {
            seq![last]
        }
    }
}

/// Baud-rate divisor of a configuration; see `Uart::divisor`.
pub open spec fn uart_divisor(c: UartConfig) -> Result<u16, BootError> {
    let d = c.clock_freq as int / (16 * c.baud_rate as int);
    if c.baud_rate == 0 || 16 * c.baud_rate as int > u32::MAX || d == 0 || d > u16::MAX {
        Err(BootError::ConfigurationError)
    } else {
        Ok(d as u16)
    }
}

/// The early serial port.
#[derive(Debug, Clone, Copy, PartialEq, Eq, Structural)]
pub struct Uart {
    pub base_addr: u64,
    pub config: UartConfig,
}

impl Uart {
    /// A port at the configured base address.
    pub fn new(config: UartConfig) -> (r: Self)
        ensures
            r.base_addr == config.base_addr,
            r.config == config,
    {
        Uart { base_addr: config.base_addr, config }
    }

    /// Baud-rate divisor for the divisor latch: the clock over sixteen times
    /// the baud rate. Fails with `ConfigurationError` for a zero baud rate,
    /// a product that overflows, or a divisor that is zero or does not fit
    /// the 16-bit latch.
    pub fn divisor(&self) -> (r: Result<u16, BootError>)
        ensures
            r == uart_divisor(self.config),
    {
        let baud = self.config.baud_rate;
        if baud == 0 || baud > u32::MAX / 16 {
            return Err(BootError::ConfigurationError);
        }
        let d = self.config.clock_freq / (16 * baud);
        if d == 0 || d > u16::MAX as u32 {
            return Err(BootError::ConfigurationError);
        }
        Ok(d as u16)
    }

    /// Register writes, as offsets from the base address, that bring the
    /// port up. Fails as `divisor` does.
    pub fn init_writes(&self) -> (r: Result<Vec<(u64, u8)>, BootError>)
        ensures
            match r {
                Ok(w) => uart_divisor(self.config) matches Ok(d) && w@ == uart_init_writes(d),
                Err(e) => uart_divisor(self.config) == Err::<u16, BootError>(e),
            },
    {
        let d = match self.divisor() {
            Ok(d) => d,
            Err(e) => {
                return Err(e);
            },
        };
        let mut w: Vec<(u64, u8)> = Vec::new();
        w.push((UART_IER, 0u8));
        w.push((UART_LCR, LCR_DLAB));
        w.push((UART_DLL, (d % 256) as u8));
        w.push((UART_DLH, (d / 256) as u8));
        w.push((UART_LCR, LCR_8N1));
        w.push((UART_FCR, FCR_ENABLE_CLEAR));
        w.push((UART_MCR, MCR_DTR_RTS_OUT2));
        proof {
            assert(w@ =~= uart_init_writes(d));
        }
        Ok(w)
    }

    /// The bytes to send for `s`, line feeds expanded to CR LF.
    pub fn write_str(&self, s: &str) -> (r: Vec<u8>)
        ensures
            r@ == crlf(s.spec_bytes()),
    {
        let bytes = s.as_bytes();
        let mut out: Vec<u8> = Vec::new();
        let mut i: usize = 0;
        while i < bytes.len()
            invariant
                i <= bytes@.len(),
                bytes@ == s.spec_bytes(),
                out@ == crlf(bytes@.take(i as int)),
            decreases bytes@.len() - i,
        {
            let b = bytes[i];
            proof {
                assert(bytes@.take(i + 1).drop_last() =~= bytes@.take(i as int));
                assert(bytes@.take(i + 1).last() == b);
            }
            if b == 10 {
                out.push(13);
                out.push(10);
                proof {
                    assert(out@ =~= crlf(bytes@.take(i + 1)));
                }
            } else {
                out.push(b);
                proof {
                    assert(out@ =~= crlf(bytes@.take(i + 1)));
                }
            }
            i += 1;
        }
        proof {
            assert(bytes@.take(bytes@.len() as int) =~= bytes@);
        }
        out
    }
}

/// Magic number of a Multiboot2 header.
pub const MULTIBOOT2_MAGIC: u32 = 0xE852_50D6;

/// Length of the header: four 32-bit fields and the end tag.
pub const MULTIBOOT2_HEADER_LENGTH: u32 = 24;

/// The end tag: type 0, flags 0, size 8.
pub const MULTIBOOT2_END_TAG: u64 = 0x0000_0008_0000_0000;

/// Boot header that a Multiboot2 loader looks for.
#[derive(Debug, Clone, Copy, PartialEq, Eq, Structural)]
pub struct Multiboot2Header {
    pub magic: u32,
    pub architecture: u32,
    pub header_length: u32,
    pub checksum: u32,
    pub tags: u64,
}

/// Whether the four header fields sum to zero modulo 2^32.
pub open spec fn checksum_ok(h: Multiboot2Header) -> bool {
    (h.magic as int + h.architecture as int + h.header_length as int + h.checksum as int)
        % 0x1_0000_0000 == 0
}

impl Multiboot2Header {
    /// A header for 32-bit protected mode with no tag but the end tag.
    pub fn new() -> (r: Self)
        ensures
            r.magic == MULTIBOOT2_MAGIC,
            r.architecture == 0,
            r.header_length == MULTIBOOT2_HEADER_LENGTH,
            r.tags == MULTIBOOT2_END_TAG,
            checksum_ok(r),
    {
        let magic = MULTIBOOT2_MAGIC;
        let architecture: u32 = 0;
        let header_length = MULTIBOOT2_HEADER_LENGTH;
        let sum: u64 = (magic as u64 + architecture as u64 + header_length as u64) % 0x1_0000_0000;
        let checksum: u32 = ((0x1_0000_0000 - sum) % 0x1_0000_0000) as u32;
        Multiboot2Header { magic, architecture, header_length, checksum, tags: MULTIBOOT2_END_TAG }
    }

    /// Whether the header carries the magic and a checksum that balances.
    pub fn is_valid(&self) -> (r: bool)
        ensures
            r == (self.magic == MULTIBOOT2_MAGIC && checksum_ok(*self)),
    {
        let sum: u64 = self.magic as u64 + self.architecture as u64 + self.header_length as u64
            + self.checksum as u64;
        self.magic == MULTIBOOT2_MAGIC && sum % 0x1_0000_0000 == 0
    }
}

/// Where the linker placed the kernel image's sections; each is
/// `[start, end)`, and an empty or inverted range means absent.
#[derive(Debug, Clone, Copy, PartialEq, Eq, Structural)]
pub struct KernelLayout {
    pub text_start: u64,
    pub text_end: u64,
    pub data_start: u64,
    pub data_end: u64,
    pub bss_start: u64,
    pub bss_end: u64,
}

/// Start of main memory on the default platform.
pub const MAIN_MEMORY_START: u64 = 0x8000_0000;

/// Size of main memory on the default platform.
pub const MAIN_MEMORY_SIZE: u64 = 0x800_0000;

/// Start of the device window on the default platform.
pub const DEVICE_MEMORY_START: u64 = 0x1000_0000;

/// Size of the device window on the default platform.
pub const DEVICE_MEMORY_SIZE: u64 = 0x1000_0000;

pub open spec fn default_attributes() -> MemoryAttributes {
    MemoryAttributes { readable: true, writable: true, executable: false, cacheable: true, write_through: false }
}

pub open spec fn code_attributes() -> MemoryAttributes {
    MemoryAttributes { readable: true, writable: false, executable: true, cacheable: true, write_through: false }
}

pub open spec fn device_attributes() -> MemoryAttributes {
    MemoryAttributes { readable: true, writable: true, executable: false, cacheable: false, write_through: true }
}

/// The region for one kernel section, if it is not empty.
pub open spec fn section(start: u64, end: u64, t: MemoryType, a: MemoryAttributes) -> Seq<MemoryRegion> {
    if end > start {
        seq![MemoryRegion { start_addr: start, size: (end - start) as u64, memory_type: t, attributes: a }]
    } else {
        Seq::empty()
    }
}

/// The memory map of the default platform: main memory, the device
/// window, then the kernel's code, data and bss sections.
pub open spec fn detected_regions(k: KernelLayout) -> Seq<MemoryRegion> {
    seq![
        MemoryRegion {
            start_addr: MAIN_MEMORY_START,
            size: MAIN_MEMORY_SIZE,
            memory_type: MemoryType::Available,
            attributes: default_attributes(),
        },
        MemoryRegion {
            start_addr: DEVICE_MEMORY_START,
            size: DEVICE_MEMORY_SIZE,
            memory_type: MemoryType::DeviceMemory,
            attributes: device_attributes(),
        },
    ] + section(k.text_start, k.text_end, MemoryType::KernelCode, code_attributes())
        + section(k.data_start, k.data_end, MemoryType::KernelData, default_attributes())
        + section(k.bss_start, k.bss_end, MemoryType::KernelData, default_attributes())
}

fn add_section(map: &mut MemoryMap, start: u64, end: u64, t: MemoryType, a: MemoryAttributes) -> (r: bool)
    requires
        old(map).wf(),
        old(map)@.len() + 1 <= MAX_MEMORY_REGIONS,
    ensures
        final(map).wf(),
        final(map)@ == old(map)@ + section(start, end, t, a),
        has_overlap(final(map)@) == (has_overlap(old(map)@) || r),
{
    if end > start {
        let region = MemoryRegion { start_addr: start, size: end - start, memory_type: t, attributes: a };
        match map.add_region(region) {
            Ok(ov) => {
                proof {
                    assert(old(map)@ + section(start, end, t, a) =~= old(map)@.push(region));
                }
                ov
            },
            Err(_) => false,
        }
    } else {
        proof {
            assert(old(map)@ + section(start, end, t, a) =~= old(map)@);
        }
        false
    }
}

/// Builds the memory map of the default platform around the kernel
/// image that `layout` describes, ordered by start address, and reports
/// whether two of its regions overlap, a boot anomaly for the caller to
/// show.
pub fn detect_memory(layout: KernelLayout) -> (r: Result<(MemoryMap, bool), BootError>)
    ensures
        r matches Ok((m, ov)) && m.wf() && m@.to_multiset() == detected_regions(layout).to_multiset()
            && sorted_between(m@, 0, m@.len() as int) && ov == has_overlap(detected_regions(layout)),
{
    let mut map = MemoryMap::new();
    proof {
        assert(!has_overlap(map@));
    }
    let o1 = map.add_region(MemoryRegion {
        start_addr: MAIN_MEMORY_START,
        size: MAIN_MEMORY_SIZE,
        memory_type: MemoryType::Available,
        attributes: MemoryAttributes::default(),
    });
    let o2 = map.add_region(MemoryRegion {
        start_addr: DEVICE_MEMORY_START,
        size: DEVICE_MEMORY_SIZE,
        memory_type: MemoryType::DeviceMemory,
        attributes: MemoryAttributes {
            readable: true,
            writable: true,
            executable: false,
            cacheable: false,
            write_through: true,
        },
    });
    let code = MemoryAttributes {
        readable: true,
        writable: false,
        executable: true,
        cacheable: true,
        write_through: false,
    };
    let mut overlap = match (o1, o2) {
        (Ok(a), Ok(b)) => a || b,
        _ => false,
    };
    if add_section(&mut map, layout.text_start, layout.text_end, MemoryType::KernelCode, code) {
        overlap = true;
    }
    if add_section(&mut map, layout.data_start, layout.data_end, MemoryType::KernelData, MemoryAttributes::default()) {
        overlap = true;
    }
    if add_section(&mut map, layout.bss_start, layout.bss_end, MemoryType::KernelData, MemoryAttributes::default()) {
        overlap = true;
    }
    proof {
        assert(map@ =~= detected_regions(layout));
    }
    map.sort_regions();
    Ok((map, overlap))
}

} // verus!
