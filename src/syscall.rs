use vstd::prelude::*;
use crate::error::SchedulerError;
use crate::process::{is_legal_transition, saved_into, with_state, ProcessContext, ProcessState};
use crate::sched::{rotate, SchedView, Scheduler};

verus! {

/// Value written into the return register of a call that failed or that
/// names no known system call.
pub const SYSCALL_ERROR: u64 = 0xffff_ffff_ffff_ffff;

/// The system calls this kernel serves.
#[derive(Debug, Clone, Copy, PartialEq, Eq, Structural)]
pub enum SyscallNumber {
    Read,
    Write,
    Open,
    Close,
}

/// The call that number `n` names, if any: read 0, write 1, open 2,
/// close 3.
pub open spec fn syscall_of(n: u64) -> Option<SyscallNumber> {
    if n == 0 {
        Some(SyscallNumber::Read)
    } else if n == 1 {
        Some(SyscallNumber::Write)
    } else if n == 2 {
        Some(SyscallNumber::Open)
    } else if n == 3 {
        Some(SyscallNumber::Close)
    } else {
        None
    }
}

impl SyscallNumber {
    /// The call that number `n` names, if any.
    pub fn from_raw(n: u64) -> (r: Option<SyscallNumber>)
        ensures
            r == syscall_of(n),
    {
        if n == 0 {
            Some(SyscallNumber::Read)
        } else if n == 1 {
            Some(SyscallNumber::Write)
        } else if n == 2 {
            Some(SyscallNumber::Open)
        } else if n == 3 {
            Some(SyscallNumber::Close)
        } else {
            None
        }
    }

    /// The number of the call.
    pub fn number(&self) -> (r: u64)
        ensures
            syscall_of(r) == Some(*self),
    {
        match self {
            SyscallNumber::Read => 0,
            SyscallNumber::Write => 1,
            SyscallNumber::Open => 2,
            SyscallNumber::Close => 3,
        }
    }
}

/// Registers captured at the system-call trap: the number in the low 32
/// bits of `rax`, the arguments in `rdi`, `rsi`, `rdx`, `r10`, `r8`, `r9`;
/// the result goes back in `rax`.
#[derive(Debug, Clone, Copy, PartialEq, Eq, Structural)]
pub struct SyscallContext {
    pub rax: u64,
    pub rdi: u64,
    pub rsi: u64,
    pub rdx: u64,
    pub r10: u64,
    pub r8: u64,
    pub r9: u64,
}

/// A decoded call, to be carried out by the file-system collaborator.
#[derive(Debug, Clone, Copy, PartialEq, Eq, Structural)]
pub enum SyscallRequest {
    Read { fd: u64, buf: u64, count: u64 },
    Write { fd: u64, buf: u64, count: u64 },
    Open { path: u64, flags: u32 },
    Close { fd: u64 },
}

/// The request that a trapped register set makes, if its number is known.
pub open spec fn request_of(ctx: SyscallContext) -> Option<SyscallRequest> {
    match syscall_of((ctx.rax as u32) as u64) {
        Some(SyscallNumber::Read) => Some(
            SyscallRequest::Read { fd: ctx.rdi, buf: ctx.rsi, count: ctx.rdx },
        ),
        Some(SyscallNumber::Write) => Some(
            SyscallRequest::Write { fd: ctx.rdi, buf: ctx.rsi, count: ctx.rdx },
        ),
        Some(SyscallNumber::Open) => Some(
            SyscallRequest::Open { path: ctx.rdi, flags: ctx.rsi as u32 },
        ),
        Some(SyscallNumber::Close) => Some(SyscallRequest::Close { fd: ctx.rdi }),
        None => None,
    }
}

/// How the collaborator answered a request.
#[derive(Debug, Clone, Copy, PartialEq, Eq, Structural)]
pub enum SyscallOutcome {
    /// Done, with this result.
    Completed(u64),
    /// Refused or failed.
    Failed,
}

/// Decodes the trapped registers. A known call is returned for the
/// collaborator to carry out, the registers untouched; an unknown number
/// gets `SYSCALL_ERROR` in `rax` at once, every other register kept, and
/// nothing else in the kernel changes.
pub fn syscall_handler(ctx: &mut SyscallContext) -> (r: Option<SyscallRequest>)
    ensures
        r == request_of(*old(ctx)),
        r is Some ==> *final(ctx) == *old(ctx),
        r is None ==> *final(ctx) == (SyscallContext { rax: SYSCALL_ERROR, ..*old(ctx) }),
{
    match SyscallNumber::from_raw((ctx.rax as u32) as u64) {
        Some(SyscallNumber::Read) => Some(
            SyscallRequest::Read { fd: ctx.rdi, buf: ctx.rsi, count: ctx.rdx },
        ),
        Some(SyscallNumber::Write) => Some(
            SyscallRequest::Write { fd: ctx.rdi, buf: ctx.rsi, count: ctx.rdx },
        ),
        Some(SyscallNumber::Open) => Some(
            SyscallRequest::Open { path: ctx.rdi, flags: ctx.rsi as u32 },
        ),
        Some(SyscallNumber::Close) => Some(SyscallRequest::Close { fd: ctx.rdi }),
        None => {
            ctx.rax = SYSCALL_ERROR;
            None
        },
    }
}

/// Writes the collaborator's answer into `rax` before the caller resumes:
/// the result, or `SYSCALL_ERROR` on failure; the other registers are kept.
/// A completed call never reports `SYSCALL_ERROR`, so the value tells
/// success from failure.
pub fn complete_syscall(ctx: &mut SyscallContext, outcome: SyscallOutcome)
    requires
        outcome != SyscallOutcome::Completed(SYSCALL_ERROR),
    ensures
        (final(ctx).rax == SYSCALL_ERROR) == (outcome == SyscallOutcome::Failed),
        *final(ctx) == (SyscallContext {
            rax: match outcome {
                SyscallOutcome::Completed(v) => v,
                SyscallOutcome::Failed => SYSCALL_ERROR,
            },
            ..*old(ctx)
        }),
{
    ctx.rax = match outcome {
        SyscallOutcome::Completed(v) => v,
        SyscallOutcome::Failed => SYSCALL_ERROR,
    };
}

/// The call of running process `pid` would block: the caller is saved from
/// `cpu` and marked blocked, and the head of the ready queue takes the
/// processor with its registers loaded into `cpu`. The result names the
/// address space to activate, if a process was picked. Fails as
/// `Scheduler::block` does, with nothing changed.
pub fn syscall_would_block(sched: &mut Scheduler, pid: u64, cpu: &mut ProcessContext) -> (r: Result<
    Option<u64>,
    SchedulerError,
>)
    requires
        old(sched).wf(),
    ensures
        final(sched).wf(),
        final(sched).slice() == old(sched).slice(),
        final(sched).next_pid_spec() == old(sched).next_pid_spec(),
        !old(sched).procs().contains_key(pid) ==> r == Err::<Option<u64>, SchedulerError>(
            SchedulerError::ProcessNotFound,
        ),
        old(sched).procs().contains_key(pid) && !is_legal_transition(
            old(sched).procs()[pid].state,
            ProcessState::Blocked,
        ) ==> r == Err::<Option<u64>, SchedulerError>(SchedulerError::InvalidProcessState),
        r is Err ==> final(sched).procs() == old(sched).procs() && final(sched).sched_view()
            == old(sched).sched_view() && *final(cpu) == *old(cpu),
        old(sched).procs().contains_key(pid) && is_legal_transition(
            old(sched).procs()[pid].state,
            ProcessState::Blocked,
        ) ==> r is Ok && final(sched).procs().contains_key(pid) && final(sched).procs()[pid]
            == with_state(saved_into(old(sched).procs()[pid], *old(cpu)), ProcessState::Blocked)
            && final(sched).sched_view() == rotate(
            SchedView { queue: old(sched).sched_view().queue, running: None },
        ),
{
    match sched.block(pid, cpu) {
        Ok(()) => {},
        Err(e) => {
            return Err(e);
        },
    }
    proof {
        if sched.sched_view().queue.len() > 0 {
            sched.lemma_queue_ready(0);
        }
    }
    let res = sched.yield_now(cpu);
    Ok(res)
}

} // verus!
