use vstd::prelude::*;

verus! {

/// Kernel-wide error kinds.
#[derive(Debug, Clone, Copy, PartialEq, Eq, Structural)]
pub enum KernelError {
    OutOfMemory,
    InvalidArgument,
    PermissionDenied,
    ResourceBusy,
    NotFound,
    NotSupported,
    DeviceError,
    NetworkError,
    FilesystemError,
}

/// Errors raised while bringing the machine up.
#[derive(Debug, Clone, Copy, PartialEq, Eq, Structural)]
pub enum BootError {
    HardwareIncompatible,
    ConfigurationError,
    MemoryDetectionFailed,
    DeviceInitializationFailed,
    RegisterConfigurationFailed,
}

/// Errors of the frame allocator and of paging.
#[derive(Debug, Clone, Copy, PartialEq, Eq, Structural)]
pub enum MemoryError {
    OutOfMemory,
    InvalidAddress,
    PermissionDenied,
    PageFault,
    AlignmentError,
    AlreadyMapped,
}

/// Errors of the process table and the scheduler.
#[derive(Debug, Clone, Copy, PartialEq, Eq, Structural)]
pub enum SchedulerError {
    ProcessNotFound,
    InvalidProcessState,
    ScheduleQueueFull,
    InvalidPriority,
    OutOfMemory,
}

/// The kernel error that a boot error is reported as.
pub open spec fn boot_error_kind(e: BootError) -> KernelError {
    match e {
        BootError::HardwareIncompatible => KernelError::NotSupported,
        BootError::ConfigurationError => KernelError::InvalidArgument,
        BootError::MemoryDetectionFailed => KernelError::OutOfMemory,
        BootError::DeviceInitializationFailed => KernelError::DeviceError,
        BootError::RegisterConfigurationFailed => KernelError::DeviceError,
    }
}

/// The kernel error that a memory error is reported as.
pub open spec fn memory_error_kind(e: MemoryError) -> KernelError {
    match e {
        MemoryError::OutOfMemory => KernelError::OutOfMemory,
        MemoryError::InvalidAddress => KernelError::InvalidArgument,
        MemoryError::PermissionDenied => KernelError::PermissionDenied,
        MemoryError::PageFault => KernelError::DeviceError,
        MemoryError::AlignmentError => KernelError::InvalidArgument,
        MemoryError::AlreadyMapped => KernelError::ResourceBusy,
    }
}

/// The kernel error that a scheduler error is reported as.
pub open spec fn scheduler_error_kind(e: SchedulerError) -> KernelError {
    match e {
        SchedulerError::ProcessNotFound => KernelError::NotFound,
        SchedulerError::InvalidProcessState => KernelError::InvalidArgument,
        SchedulerError::ScheduleQueueFull => KernelError::ResourceBusy,
        SchedulerError::InvalidPriority => KernelError::InvalidArgument,
        SchedulerError::OutOfMemory => KernelError::OutOfMemory,
    }
}

impl From<BootError> for KernelError {
    fn from(e: BootError) -> (r: KernelError) {
        match e {
            BootError::HardwareIncompatible => KernelError::NotSupported,
            BootError::ConfigurationError => KernelError::InvalidArgument,
            BootError::MemoryDetectionFailed => KernelError::OutOfMemory,
            BootError::DeviceInitializationFailed => KernelError::DeviceError,
            BootError::RegisterConfigurationFailed => KernelError::DeviceError,
        }
    }
}

impl vstd::std_specs::convert::FromSpecImpl<BootError> for KernelError {
    open spec fn obeys_from_spec() -> bool {
        true
    }

    open spec fn from_spec(e: BootError) -> KernelError {
        boot_error_kind(e)
    }
}

impl From<MemoryError> for KernelError {
    fn from(e: MemoryError) -> (r: KernelError) {
        match e {
            MemoryError::OutOfMemory => KernelError::OutOfMemory,
            MemoryError::InvalidAddress => KernelError::InvalidArgument,
            MemoryError::PermissionDenied => KernelError::PermissionDenied,
            MemoryError::PageFault => KernelError::DeviceError,
            MemoryError::AlignmentError => KernelError::InvalidArgument,
            MemoryError::AlreadyMapped => KernelError::ResourceBusy,
        }
    }
}

impl vstd::std_specs::convert::FromSpecImpl<MemoryError> for KernelError {
    open spec fn obeys_from_spec() -> bool {
        true
    }

    open spec fn from_spec(e: MemoryError) -> KernelError {
        memory_error_kind(e)
    }
}

impl From<SchedulerError> for KernelError {
    fn from(e: SchedulerError) -> (r: KernelError) {
        match e {
            SchedulerError::ProcessNotFound => KernelError::NotFound,
            SchedulerError::InvalidProcessState => KernelError::InvalidArgument,
            SchedulerError::ScheduleQueueFull => KernelError::ResourceBusy,
            SchedulerError::InvalidPriority => KernelError::InvalidArgument,
            SchedulerError::OutOfMemory => KernelError::OutOfMemory,
        }
    }
}

impl vstd::std_specs::convert::FromSpecImpl<SchedulerError> for KernelError {
    open spec fn obeys_from_spec() -> bool {
        true
    }

    open spec fn from_spec(e: SchedulerError) -> KernelError {
        scheduler_error_kind(e)
    }
}

} // verus!
