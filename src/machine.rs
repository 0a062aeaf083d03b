use vstd::prelude::*;
use crate::error::BootError;

verus! {

/// Bits of the machine ISA register that name extensions.
pub const EXT_ATOMIC: u64 = 1 << 0;
pub const EXT_COMPRESSED: u64 = 1 << 2;
pub const EXT_FLOAT_DOUBLE: u64 = 1 << 3;
pub const EXT_FLOAT_SINGLE: u64 = 1 << 5;
pub const EXT_INTEGER: u64 = 1 << 8;
pub const EXT_MULTIPLY: u64 = 1 << 12;
pub const EXT_SUPERVISOR: u64 = 1 << 18;
pub const EXT_USER: u64 = 1 << 20;
pub const EXT_VECTOR: u64 = 1 << 21;

/// Every extension the kernel knows of.
pub const KNOWN_EXTENSIONS: u64 = EXT_ATOMIC | EXT_COMPRESSED | EXT_FLOAT_DOUBLE | EXT_FLOAT_SINGLE
    | EXT_INTEGER | EXT_MULTIPLY | EXT_SUPERVISOR | EXT_USER | EXT_VECTOR;

/// The extensions the kernel cannot run without.
pub const REQUIRED_EXTENSIONS: u64 = EXT_INTEGER | EXT_MULTIPLY | EXT_ATOMIC | EXT_SUPERVISOR;

/// Value of the two top ISA bits on a 64-bit hart.
pub const XLEN_64: u64 = 2;

/// What start-up learned of the machine.
#[derive(Debug, Clone, Copy, PartialEq, Eq, Structural)]
pub struct MachineConfig {
    pub core_count: usize,
    /// Known extensions present, as ISA bits.
    pub extensions: u64,
    pub memory_size: usize,
    pub clock_frequency: u64,
    pub vector_support: bool,
}

/// Whether a hart with ISA register `misa` can run the kernel: all the
/// required extensions, and 64-bit.
pub open spec fn isa_compatible(misa: u64) -> bool {
    (misa & REQUIRED_EXTENSIONS) == REQUIRED_EXTENSIONS && (misa >> 62u64) == XLEN_64
}

/// Checks the ISA register read at start-up and describes the machine:
/// one core, the known extensions present, vector support when the vector
/// extension is there. Fails with `HardwareIncompatible` on a hart that
/// lacks a required extension or is not 64-bit.
pub fn verify_hardware_compatibility(misa: u64) -> (r: Result<MachineConfig, BootError>)
    ensures
        !isa_compatible(misa) ==> r == Err::<MachineConfig, BootError>(
            BootError::HardwareIncompatible,
        ),
        isa_compatible(misa) ==> r == Ok::<MachineConfig, BootError>(
            MachineConfig {
                core_count: 1,
                extensions: misa & KNOWN_EXTENSIONS,
                memory_size: 0,
                clock_frequency: 0,
                vector_support: (misa & EXT_VECTOR) != 0,
            },
        ),
{
    let extensions = misa & KNOWN_EXTENSIONS;
    if (misa & REQUIRED_EXTENSIONS) != REQUIRED_EXTENSIONS || (misa >> 62u64) != XLEN_64 {
        return Err(BootError::HardwareIncompatible);
    }
    Ok(MachineConfig {
        core_count: 1,
        extensions,
        memory_size: 0,
        clock_frequency: 0,
        vector_support: (misa & EXT_VECTOR) != 0,
    })
}

} // verus!
