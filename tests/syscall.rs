use lilith_kernel::error::SchedulerError;
use lilith_kernel::frame::PhysicalMemoryManager;
use lilith_kernel::memory::{MemoryRegion, MemoryType};
use lilith_kernel::process::{ProcessContext, ProcessState};
use lilith_kernel::sched::Scheduler;
use lilith_kernel::syscall::{
    complete_syscall, syscall_handler, syscall_would_block, SyscallContext, SyscallNumber,
    SyscallOutcome, SyscallRequest, SYSCALL_ERROR,
};

fn ctx(rax: u64) -> SyscallContext {
    SyscallContext { rax, rdi: 3, rsi: 0x5000, rdx: 64, r10: 10, r8: 8, r9: 9 }
}

#[test]
fn unknown_syscall_returns_sentinel() {
    let mut alloc = PhysicalMemoryManager::init(&vec![MemoryRegion::new(0, 8 * 4096, MemoryType::Available)]).unwrap();
    let mut s = Scheduler::new(1);
    let a = s.create(0x1000, 1, &mut alloc).unwrap();
    let before = s.get(a).unwrap();
    let mut c = ctx(99);
    assert_eq!(syscall_handler(&mut c), None);
    assert_eq!(c.rax, SYSCALL_ERROR);
    assert_eq!(c, SyscallContext { rax: SYSCALL_ERROR, ..ctx(99) });
    assert_eq!(s.get(a).unwrap(), before);
    assert_eq!(s.ready_queue(), vec![a]);
}

#[test]
fn known_syscalls_are_decoded() {
    let mut c = ctx(0);
    assert_eq!(syscall_handler(&mut c), Some(SyscallRequest::Read { fd: 3, buf: 0x5000, count: 64 }));
    assert_eq!(c, ctx(0));
    assert_eq!(syscall_handler(&mut ctx(1)), Some(SyscallRequest::Write { fd: 3, buf: 0x5000, count: 64 }));
    assert_eq!(syscall_handler(&mut ctx(2)), Some(SyscallRequest::Open { path: 3, flags: 0x5000 }));
    assert_eq!(syscall_handler(&mut ctx(3)), Some(SyscallRequest::Close { fd: 3 }));
    assert_eq!(syscall_handler(&mut ctx(0x1_0000_0003)), Some(SyscallRequest::Close { fd: 3 }));
    assert_eq!(syscall_handler(&mut ctx(0x1_0000_0000)), Some(SyscallRequest::Read { fd: 3, buf: 0x5000, count: 64 }));
    assert_eq!(SyscallNumber::from_raw(4), None);
    assert_eq!(SyscallNumber::Close.number(), 3);
}

#[test]
fn results_go_back_in_rax() {
    let mut c = ctx(1);
    complete_syscall(&mut c, SyscallOutcome::Completed(64));
    assert_eq!(c, SyscallContext { rax: 64, ..ctx(1) });
    complete_syscall(&mut c, SyscallOutcome::Failed);
    assert_eq!(c.rax, SYSCALL_ERROR);
    assert_eq!(c.rdi, 3);
}

#[test]
fn blocking_call_switches_process() {
    let mut alloc = PhysicalMemoryManager::init(&vec![MemoryRegion::new(0, 8 * 4096, MemoryType::Available)]).unwrap();
    let mut s = Scheduler::new(1);
    let a = s.create(0x1000, 11, &mut alloc).unwrap();
    let b = s.create(0x2000, 22, &mut alloc).unwrap();
    let mut cpu = ProcessContext::new(0, 0);
    assert_eq!(syscall_would_block(&mut s, a, &mut cpu), Err(SchedulerError::InvalidProcessState));
    s.tick(&mut cpu);
    cpu.rax = 5;
    let saved = cpu;
    assert_eq!(syscall_would_block(&mut s, a, &mut cpu), Ok(Some(22)));
    assert_eq!(s.current(), Some(b));
    assert_eq!(cpu.instruction_ptr, 0x2000);
    let pa = s.get(a).unwrap();
    assert_eq!(pa.state, ProcessState::Blocked);
    assert_eq!(pa.context, saved);
}
