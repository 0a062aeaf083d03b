use lilith_kernel::driver::{Color, ColorCode, DriverScheduler};
use lilith_kernel::error::{BootError, KernelError, MemoryError, SchedulerError};
use lilith_kernel::interrupt::{DispatchAction, SYSCALL_VECTOR, TIMER_VECTOR};
use lilith_kernel::kernel::{
    failure_result, kernel_init, memory_init, InitStep, KernelInitResult, SYSCALL_HANDLER, TIMER_HANDLER,
};
use lilith_kernel::memory::{MemoryRegion, MemoryType};
use lilith_kernel::paging::{AddressSpace, PageFlags, UPPER_HALF_START};
use lilith_kernel::process::{ProcessContext, ProcessState};

#[test]
fn kernel_comes_up_with_idle_process() {
    let regions = vec![
        MemoryRegion::new(0x100_0000, 64 * 4096, MemoryType::Available),
        MemoryRegion::new(0x20_0000, 0x2000, MemoryType::KernelCode),
    ];
    let mut k = kernel_init(&regions, 0xffff_8000_0020_0000).ok().unwrap();
    assert!(k.kernel_space.translate(UPPER_HALF_START + 0x20_1000).is_some());
    assert_eq!(k.scheduler.ready_queue(), vec![1]);
    let idle = k.scheduler.get(1).unwrap();
    assert_eq!(idle.state, ProcessState::Ready);
    assert_eq!(idle.address_space, k.kernel_space.root());
    assert_eq!(k.interrupts.dispatch(TIMER_VECTOR), DispatchAction::Handle(TIMER_HANDLER));
    k.interrupts.end_dispatch();
    assert_eq!(k.interrupts.dispatch(SYSCALL_VECTOR), DispatchAction::Handle(SYSCALL_HANDLER));
    let mut cpu = ProcessContext::new(0, 0);
    k.scheduler.tick(&mut cpu);
    assert_eq!(cpu.instruction_ptr, 0xffff_8000_0020_0000);
}

#[test]
fn kernel_without_memory_fails() {
    let regions = vec![MemoryRegion::new(0, 0x1000, MemoryType::Reserved)];
    assert_eq!(kernel_init(&regions, 0).err(), Some(KernelInitResult::InsufficientMemory));
    assert_eq!(memory_init(&regions).err(), Some(KernelError::OutOfMemory));
}

#[test]
fn kernel_image_out_of_reach_is_configuration_error() {
    let regions = vec![
        MemoryRegion::new(0x100_0000, 64 * 4096, MemoryType::Available),
        MemoryRegion::new(0x0000_9000_0000_0000, 0x1000, MemoryType::KernelData),
    ];
    assert_eq!(kernel_init(&regions, 0).err(), Some(KernelInitResult::InsufficientMemory));
}

#[test]
fn failing_steps_map_to_results() {
    assert_eq!(failure_result(InitStep::MachineMode(BootError::HardwareIncompatible)), KernelInitResult::HardwareIncompatible);
    assert_eq!(failure_result(InitStep::MachineMode(BootError::ConfigurationError)), KernelInitResult::ConfigurationError);
    assert_eq!(failure_result(InitStep::MachineMode(BootError::MemoryDetectionFailed)), KernelInitResult::DeviceInitFailed);
    assert_eq!(failure_result(InitStep::EarlyUart), KernelInitResult::DeviceInitFailed);
    assert_eq!(failure_result(InitStep::Memory), KernelInitResult::InsufficientMemory);
    assert_eq!(failure_result(InitStep::Interrupts), KernelInitResult::DeviceInitFailed);
    assert_eq!(failure_result(InitStep::Scheduler), KernelInitResult::ConfigurationError);
}

#[test]
fn no_frame_left_for_idle_stack_is_configuration_error() {
    // One usable frame: it becomes the root table, and the idle stack finds none.
    let regions = vec![MemoryRegion::new(0x100_0000, 4096, MemoryType::Available)];
    assert_eq!(kernel_init(&regions, 0).err(), Some(KernelInitResult::ConfigurationError));
}

#[test]
fn errors_convert_to_kernel_errors() {
    assert_eq!(KernelError::from(BootError::HardwareIncompatible), KernelError::NotSupported);
    assert_eq!(KernelError::from(BootError::MemoryDetectionFailed), KernelError::OutOfMemory);
    assert_eq!(KernelError::from(MemoryError::AlignmentError), KernelError::InvalidArgument);
    assert_eq!(KernelError::from(MemoryError::PageFault), KernelError::DeviceError);
    assert_eq!(KernelError::from(SchedulerError::ProcessNotFound), KernelError::NotFound);
}

#[test]
fn color_codes_and_driver_registry() {
    assert_eq!(ColorCode::new(Color::Yellow, Color::Black).0, 0x0e);
    assert_eq!(ColorCode::new(Color::White, Color::Blue).0, 0x1f);
    let mut d = DriverScheduler::new();
    for h in 0..8 {
        assert_eq!(d.add_driver(h), Ok(()));
    }
    assert_eq!(d.add_driver(8), Err(KernelError::ResourceBusy));
    assert_eq!(d.drivers(), (0..8).collect::<Vec<u32>>());
}

#[test]
fn kernel_spawns_runs_and_reaps() {
    let regions = vec![MemoryRegion::new(0x100_0000, 64 * 4096, MemoryType::Available)];
    let mut k = kernel_init(&regions, 0x1000).ok().unwrap();
    let mut user = AddressSpace::new_user_space(&mut k.frames, &k.kernel_space).unwrap();
    let pid = k.spawn(0x2000, user.root()).unwrap();
    assert_eq!(pid, 2);
    let backing = k.frames.allocate_frame().unwrap();
    let flags = PageFlags { writable: true, user_accessible: true, executable: false };
    user.map(0x40_0000, backing, flags, &mut k.frames).unwrap();
    let mut cpu = ProcessContext::new(0, 0);
    assert_eq!(k.tick(&mut cpu), Some(k.kernel_space.root()));
    assert_eq!(k.scheduler.current(), Some(1));
    for _ in 0..10 {
        k.tick(&mut cpu);
    }
    assert_eq!(k.scheduler.current(), Some(pid));
    assert_eq!(cpu.instruction_ptr, 0x2000);
    let user = match k.reap(pid, user) {
        Err((e, s)) => {
            assert_eq!(e, SchedulerError::ProcessNotFound);
            s
        }
        Ok(()) => panic!("a running process was reaped"),
    };
    assert_eq!(k.exit(pid), Ok(()));
    let free = k.frames.free_count();
    assert!(k.reap(pid, user).is_ok());
    // kernel stack, root table, three intermediate tables, the mapped page
    assert_eq!(k.frames.free_count(), free + 6);
    assert!(k.frames.is_free(backing));
    assert_eq!(k.scheduler.process_count(), 1);
}
