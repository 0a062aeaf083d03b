use lilith_kernel::error::SchedulerError;
use lilith_kernel::frame::PhysicalMemoryManager;
use lilith_kernel::memory::{MemoryRegion, MemoryType};
use lilith_kernel::process::{ProcessContext, ProcessState};
use lilith_kernel::sched::Scheduler;

fn allocator(frames: u64) -> PhysicalMemoryManager {
    PhysicalMemoryManager::init(&vec![MemoryRegion::new(0x100_0000, frames * 4096, MemoryType::Available)])
        .unwrap()
}

fn spawn(s: &mut Scheduler, alloc: &mut PhysicalMemoryManager, n: u64) -> Vec<u64> {
    (0..n).map(|i| s.create(0x1000 * (i + 1), 0xa000 + i, alloc).unwrap()).collect()
}

#[test]
fn three_processes_run_in_order_then_wrap() {
    let mut alloc = allocator(8);
    let mut s = Scheduler::new(1);
    let pids = spawn(&mut s, &mut alloc, 3);
    let (a, b, c) = (pids[0], pids[1], pids[2]);
    for p in [a, b, c] {
        assert_eq!(s.get(p).unwrap().state, ProcessState::Ready);
    }
    let mut cpu = ProcessContext::new(0, 0);
    assert_eq!(s.tick(&mut cpu), Some(0xa000));
    assert_eq!(s.current(), Some(a));
    assert_eq!(cpu.instruction_ptr, 0x1000);
    s.tick(&mut cpu);
    assert_eq!(s.current(), Some(b));
    assert_eq!(s.get(a).unwrap().state, ProcessState::Ready);
    s.tick(&mut cpu);
    assert_eq!(s.current(), Some(c));
    s.tick(&mut cpu);
    assert_eq!(s.current(), Some(a));
    assert_eq!(s.ready_queue(), vec![b, c]);
}

#[test]
fn each_ready_process_runs_once_in_insertion_order() {
    let mut alloc = allocator(16);
    let mut s = Scheduler::new(1);
    let pids = spawn(&mut s, &mut alloc, 5);
    let mut cpu = ProcessContext::new(0, 0);
    let mut ran = Vec::new();
    for _ in 0..5 {
        s.tick(&mut cpu);
        ran.push(s.current().unwrap());
    }
    assert_eq!(ran, pids);
}

#[test]
fn slice_is_used_up_before_preemption() {
    let mut alloc = allocator(8);
    let mut s = Scheduler::new(3);
    let pids = spawn(&mut s, &mut alloc, 2);
    let mut cpu = ProcessContext::new(0, 0);
    s.tick(&mut cpu);
    assert_eq!(s.current(), Some(pids[0]));
    assert_eq!(s.tick(&mut cpu), None);
    assert_eq!(s.tick(&mut cpu), None);
    assert_eq!(s.current(), Some(pids[0]));
    s.tick(&mut cpu);
    assert_eq!(s.current(), Some(pids[1]));
}

#[test]
fn switch_saves_and_restores_registers() {
    let mut alloc = allocator(8);
    let mut s = Scheduler::new(1);
    let pids = spawn(&mut s, &mut alloc, 2);
    let mut cpu = ProcessContext::new(0, 0);
    s.tick(&mut cpu);
    cpu.rax = 42;
    cpu.instruction_ptr = 0x1234;
    let saved = cpu;
    s.yield_now(&mut cpu);
    assert_eq!(s.current(), Some(pids[1]));
    assert_eq!(s.get(pids[0]).unwrap().context, saved);
    assert_eq!(cpu.instruction_ptr, 0x2000);
    s.yield_now(&mut cpu);
    assert_eq!(cpu, saved);
}

#[test]
fn lone_process_keeps_running() {
    let mut alloc = allocator(8);
    let mut s = Scheduler::new(1);
    let pids = spawn(&mut s, &mut alloc, 1);
    let mut cpu = ProcessContext::new(0, 0);
    s.tick(&mut cpu);
    assert_eq!(s.tick(&mut cpu), None);
    assert_eq!(s.current(), Some(pids[0]));
}

#[test]
fn block_unblock_terminate_reap() {
    let mut alloc = allocator(8);
    let mut s = Scheduler::new(1);
    let pids = spawn(&mut s, &mut alloc, 2);
    let (a, b) = (pids[0], pids[1]);
    let mut cpu = ProcessContext::new(0, 0);
    assert_eq!(s.block(a, &cpu), Err(SchedulerError::InvalidProcessState));
    assert_eq!(s.block(99, &cpu), Err(SchedulerError::ProcessNotFound));
    s.tick(&mut cpu);
    assert_eq!(s.block(a, &cpu), Ok(()));
    assert_eq!(s.get(a).unwrap().state, ProcessState::Blocked);
    assert_eq!(s.current(), None);
    s.tick(&mut cpu);
    assert_eq!(s.current(), Some(b));
    assert_eq!(s.unblock(b), Err(SchedulerError::InvalidProcessState));
    assert_eq!(s.unblock(a), Ok(()));
    assert_eq!(s.ready_queue(), vec![a]);
    assert_eq!(s.terminate(a), Err(SchedulerError::InvalidProcessState));
    let free = alloc.free_count();
    assert_eq!(s.reap(b, &mut alloc), Err(SchedulerError::ProcessNotFound));
    assert_eq!(s.terminate(b), Ok(()));
    assert_eq!(s.get(b).unwrap().state, ProcessState::Zombie);
    assert_eq!(s.current(), None);
    assert_eq!(s.reap(b, &mut alloc), Ok(0xa001));
    assert_eq!(s.get(b), None);
    assert_eq!(alloc.free_count(), free + 1);
    assert_eq!(s.process_count(), 1);
}

#[test]
fn create_fails_without_stack_frame() {
    let mut alloc = allocator(1);
    let mut s = Scheduler::new(1);
    assert!(s.create(0x1000, 0xa000, &mut alloc).is_ok());
    assert_eq!(s.create(0x2000, 0xa000, &mut alloc), Err(SchedulerError::OutOfMemory));
    assert_eq!(s.process_count(), 1);
}

#[test]
fn pids_are_assigned_in_order() {
    let mut alloc = allocator(8);
    let mut s = Scheduler::new(0);
    assert_eq!(spawn(&mut s, &mut alloc, 3), vec![1, 2, 3]);
}
