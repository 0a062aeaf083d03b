use vstd::prelude::*;
use crate::error::SchedulerError;

verus! {

/// Lifecycle state of a process.
#[derive(Debug, Clone, Copy, PartialEq, Eq, Structural)]
pub enum ProcessState {
    /// Being constructed.
    Created,
    /// Waiting in the ready queue.
    Ready,
    /// Holding the processor.
    Running,
    /// Waiting for an event.
    Blocked,
    /// Exited, not yet reaped.
    Zombie,
}

/// The lifecycle table: the only state changes a process may make.
pub open spec fn is_legal_transition(from: ProcessState, to: ProcessState) -> bool {
    match (from, to) {
        (ProcessState::Created, ProcessState::Ready) => true,
        (ProcessState::Ready, ProcessState::Running) => true,
        (ProcessState::Running, ProcessState::Ready) => true,
        (ProcessState::Running, ProcessState::Blocked) => true,
        (ProcessState::Blocked, ProcessState::Ready) => true,
        (ProcessState::Running, ProcessState::Zombie) => true,
        _ => false,
    }
}

impl ProcessState {
    /// Checks a state change against the lifecycle table.
    pub fn transition(&self, new_state: ProcessState) -> (r: Result<(), SchedulerError>)
        ensures
            r is Ok <==> is_legal_transition(*self, new_state),
            r is Err ==> r == Err::<(), SchedulerError>(SchedulerError::InvalidProcessState),
    {
        match (self, new_state) {
            (ProcessState::Created, ProcessState::Ready) => Ok(()),
            (ProcessState::Ready, ProcessState::Running) => Ok(()),
            (ProcessState::Running, ProcessState::Ready) => Ok(()),
            (ProcessState::Running, ProcessState::Blocked) => Ok(()),
            (ProcessState::Blocked, ProcessState::Ready) => Ok(()),
            (ProcessState::Running, ProcessState::Zombie) => Ok(()),
            _ => Err(SchedulerError::InvalidProcessState),
        }
    }

    /// State of a child created by a running process: it starts out ready.
    /// Only a running process can fork.
    pub fn fork_transition(&self) -> (r: Result<ProcessState, SchedulerError>)
        ensures
            *self == ProcessState::Running ==> r == Ok::<ProcessState, SchedulerError>(
                ProcessState::Ready,
            ),
            *self != ProcessState::Running ==> r == Err::<ProcessState, SchedulerError>(
                SchedulerError::InvalidProcessState,
            ),
    {
        if *self == ProcessState::Running {
            Ok(ProcessState::Ready)
        } else {
            Err(SchedulerError::InvalidProcessState)
        }
    }

    /// State that the exit system call leads to.
    pub fn exit_transition(&self) -> (r: ProcessState)
        ensures
            r == ProcessState::Zombie,
    {
        ProcessState::Zombie
    }
}

/// The register file of a process, as saved at a trap or a switch.
#[derive(Debug, Clone, Copy, PartialEq, Eq, Structural)]
pub struct ProcessContext {
    pub instruction_ptr: u64,
    pub stack_ptr: u64,
    pub flags: u64,
    pub rax: u64,
    pub rbx: u64,
    pub rcx: u64,
    pub rdx: u64,
    pub rsi: u64,
    pub rdi: u64,
    pub rbp: u64,
    pub r8: u64,
    pub r9: u64,
    pub r10: u64,
    pub r11: u64,
    pub r12: u64,
    pub r13: u64,
    pub r14: u64,
    pub r15: u64,
}

/// Interrupt-enable bit of the flags register.
pub const FLAGS_INTERRUPT_ENABLE: u64 = 0x200;

/// Register file in which a new process starts: at `entry_point`, with its
/// stack at `stack_ptr`, interrupts enabled, every other register zero.
pub open spec fn initial_context(entry_point: u64, stack_ptr: u64) -> ProcessContext {
    ProcessContext {
        instruction_ptr: entry_point,
        stack_ptr,
        flags: FLAGS_INTERRUPT_ENABLE,
        rax: 0,
        rbx: 0,
        rcx: 0,
        rdx: 0,
        rsi: 0,
        rdi: 0,
        rbp: 0,
        r8: 0,
        r9: 0,
        r10: 0,
        r11: 0,
        r12: 0,
        r13: 0,
        r14: 0,
        r15: 0,
    }
}

impl ProcessContext {
    /// The register file in which a new process starts.
    pub fn new(entry_point: u64, stack_ptr: u64) -> (r: Self)
        ensures
            r == initial_context(entry_point, stack_ptr),
    {
        ProcessContext {
            instruction_ptr: entry_point,
            stack_ptr,
            flags: FLAGS_INTERRUPT_ENABLE,
            rax: 0,
            rbx: 0,
            rcx: 0,
            rdx: 0,
            rsi: 0,
            rdi: 0,
            rbp: 0,
            r8: 0,
            r9: 0,
            r10: 0,
            r11: 0,
            r12: 0,
            r13: 0,
            r14: 0,
            r15: 0,
        }
    }
}

/// The kernel's record of one process.
#[derive(Debug, Clone, Copy, PartialEq, Eq, Structural)]
pub struct ProcessControlBlock {
    pub pid: u64,
    pub state: ProcessState,
    pub context: ProcessContext,
    /// Root table frame of the process's address space.
    pub address_space: u64,
    /// Frame that holds the process's kernel stack.
    pub kernel_stack: u64,
    pub priority: u8,
}

/// `pcb` in state `s`, all else kept.
pub open spec fn with_state(pcb: ProcessControlBlock, s: ProcessState) -> ProcessControlBlock {
    ProcessControlBlock { state: s, ..pcb }
}

/// `pcb` after the live registers `cpu` were saved into it.
pub open spec fn saved_into(pcb: ProcessControlBlock, cpu: ProcessContext) -> ProcessControlBlock {
    ProcessControlBlock { context: cpu, ..pcb }
}

/// Saving a register file into a process and restoring it at once, with
/// nothing run between, gives back exactly the registers that were saved,
/// and leaves every other field of the record as it was.
pub proof fn lemma_context_round_trip(pcb: ProcessControlBlock, cpu: ProcessContext)
    ensures
        saved_into(pcb, cpu).context == cpu,
        saved_into(saved_into(pcb, cpu), pcb.context) == pcb,
{
}

impl ProcessControlBlock {
    /// Moves the process to `new_state` when the lifecycle table allows it;
    /// otherwise the record is left as it was.
    pub fn set_state(&mut self, new_state: ProcessState) -> (r: Result<(), SchedulerError>)
        ensures
            r is Ok <==> is_legal_transition(old(self).state, new_state),
            r is Ok ==> *final(self) == with_state(*old(self), new_state),
            r is Err ==> r == Err::<(), SchedulerError>(SchedulerError::InvalidProcessState)
                && *final(self) == *old(self),
    {
        match self.state.transition(new_state) {
            Ok(()) => {
                self.state = new_state;
                Ok(())
            },
            Err(e) => Err(e),
        }
    }

    /// Saves the live register file into the record.
    pub fn save_context(&mut self, cpu: &ProcessContext)
        ensures
            *final(self) == saved_into(*old(self), *cpu),
    {
        self.context = *cpu;
    }

    /// The register file to load when the process resumes.
    pub fn restore_context(&self) -> (r: ProcessContext)
        ensures
            r == self.context,
    {
        self.context
    }
}

} // verus!
