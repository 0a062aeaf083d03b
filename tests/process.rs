use lilith_kernel::error::SchedulerError;
use lilith_kernel::process::{ProcessContext, ProcessControlBlock, ProcessState};

fn pcb(state: ProcessState) -> ProcessControlBlock {
    ProcessControlBlock {
        pid: 7,
        state,
        context: ProcessContext::new(0x1000, 0x8000),
        address_space: 0x2000,
        kernel_stack: 0x3000,
        priority: 0,
    }
}

const ALL: [ProcessState; 5] = [
    ProcessState::Created,
    ProcessState::Ready,
    ProcessState::Running,
    ProcessState::Blocked,
    ProcessState::Zombie,
];

fn legal(from: ProcessState, to: ProcessState) -> bool {
    matches!(
        (from, to),
        (ProcessState::Created, ProcessState::Ready)
            | (ProcessState::Ready, ProcessState::Running)
            | (ProcessState::Running, ProcessState::Ready)
            | (ProcessState::Running, ProcessState::Blocked)
            | (ProcessState::Blocked, ProcessState::Ready)
            | (ProcessState::Running, ProcessState::Zombie)
    )
}

#[test]
fn set_state_follows_lifecycle_table() {
    for from in ALL {
        for to in ALL {
            let mut p = pcb(from);
            let r = p.set_state(to);
            if legal(from, to) {
                assert_eq!(r, Ok(()));
                assert_eq!(p.state, to);
            } else {
                assert_eq!(r, Err(SchedulerError::InvalidProcessState));
                assert_eq!(p, pcb(from));
            }
            assert_eq!(from.transition(to).is_ok(), legal(from, to));
        }
    }
}

#[test]
fn blocked_cannot_run_directly() {
    let mut p = pcb(ProcessState::Blocked);
    assert_eq!(p.set_state(ProcessState::Running), Err(SchedulerError::InvalidProcessState));
    assert_eq!(p.state, ProcessState::Blocked);
}

#[test]
fn fork_and_exit_transitions() {
    assert_eq!(ProcessState::Running.fork_transition(), Ok(ProcessState::Ready));
    assert_eq!(ProcessState::Ready.fork_transition(), Err(SchedulerError::InvalidProcessState));
    assert_eq!(ProcessState::Blocked.exit_transition(), ProcessState::Zombie);
}

#[test]
fn context_save_restore_round_trip() {
    let mut p = pcb(ProcessState::Running);
    let mut cpu = ProcessContext::new(0xdead_0000, 0x7fff_f000);
    cpu.rax = 1;
    cpu.rbx = 2;
    cpu.r15 = 15;
    cpu.flags = 0x246;
    p.save_context(&cpu);
    assert_eq!(p.restore_context(), cpu);
    assert_eq!(p.pid, 7);
    assert_eq!(p.address_space, 0x2000);
}

#[test]
fn new_context_starts_at_entry() {
    let c = ProcessContext::new(0x40_0000, 0x80_0000);
    assert_eq!(c.instruction_ptr, 0x40_0000);
    assert_eq!(c.stack_ptr, 0x80_0000);
    assert_eq!(c.flags, 0x200);
    assert_eq!(c.rax, 0);
}
