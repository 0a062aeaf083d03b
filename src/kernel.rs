use vstd::prelude::*;
use crate::error::{BootError, KernelError, MemoryError, SchedulerError};
use crate::frame::{is_usable_frame, usable_frames, PhysicalMemoryManager};
use crate::interrupt::{
    interrupt_init, InterruptDispatcher, IRQ_LINES, SYSCALL_VECTOR, TIMER_VECTOR, VECTOR_COUNT,
};
use crate::memory::MemoryRegion;
use crate::paging::{
    kernel_entry_ok, kernel_frames_bound, kernel_image_too_high, kernel_page,
    lemma_frames_bound_mono, AddressSpace,
};
use crate::process::{with_state, ProcessContext, ProcessState};
use crate::sched::{new_pcb, switched, SchedView, Scheduler};

verus! {

/// Ticks a process may run before it is preempted.
pub const DEFAULT_TIME_SLICE: u64 = 10;

/// Handle under which the timer handler is registered.
pub const TIMER_HANDLER: u32 = 0;

/// Handle under which the system-call handler is registered.
pub const SYSCALL_HANDLER: u32 = 1;

/// How kernel start-up ended.
#[derive(Debug, Clone, Copy, PartialEq, Eq, Structural)]
pub enum KernelInitResult {
    Success,
    HardwareIncompatible,
    InsufficientMemory,
    DeviceInitFailed,
    ConfigurationError,
}

/// The kernel-wide state, built once at start-up and handed by reference
/// to every entry point.
pub struct Kernel {
    pub frames: PhysicalMemoryManager,
    pub kernel_space: AddressSpace,
    pub interrupts: InterruptDispatcher,
    pub scheduler: Scheduler,
}

impl Kernel {
    /// The parts are well formed, and every process's kernel stack is a
    /// frame that the allocator has handed out and that no other process
    /// holds.
    pub open spec fn wf(&self) -> bool {
        let procs = self.scheduler.procs();
        &&& self.frames.wf()
        &&& self.scheduler.wf()
        &&& self.interrupts.wf()
        &&& self.kernel_space.wf()
        &&& forall|p: u64| #[trigger]
            procs.contains_key(p) ==> self.frames@.allocated.contains(procs[p].kernel_stack)
        &&& forall|p: u64, q: u64|
            #[trigger] procs.contains_key(p) && #[trigger] procs.contains_key(q) && p != q
                ==> procs[p].kernel_stack != procs[q].kernel_stack
    }

    /// Creates a process, its kernel stack taken from the kernel's frames;
    /// see `Scheduler::create`.
    pub fn spawn(&mut self, entry_point: u64, address_space: u64) -> (r: Result<u64, SchedulerError>)
        requires
            old(self).wf(),
        ensures
            final(self).wf(),
            r matches Ok(pid) ==> final(self).scheduler.procs() == old(self).scheduler.procs().insert(
                pid,
                new_pcb(pid, entry_point, address_space, final(self).scheduler.procs()[pid].kernel_stack),
            ) && final(self).scheduler.sched_view() == (SchedView {
                queue: old(self).scheduler.sched_view().queue.push(pid),
                running: old(self).scheduler.sched_view().running,
            }),
            r is Err ==> final(self).scheduler.procs() == old(self).scheduler.procs()
                && final(self).scheduler.sched_view() == old(self).scheduler.sched_view(),
            old(self).scheduler.procs().len() < crate::sched::MAX_PROCESSES
                && old(self).scheduler.next_pid_spec() < u64::MAX && old(self).frames@.free != Set::<
                u64,
            >::empty() ==> r is Ok,
    {
        proof {
            self.frames.lemma_view_wf();
        }
        let r = self.scheduler.create(entry_point, address_space, &mut self.frames);
        proof {
            let procs = self.scheduler.procs();
            let old_procs = old(self).scheduler.procs();
            if let Ok(pid) = r {
                let f = procs[pid].kernel_stack;
                assert(!old(self).frames@.allocated.contains(f));
                assert forall|p: u64| #[trigger] procs.contains_key(p) implies self.frames@.allocated.contains(
                    procs[p].kernel_stack,
                ) by {
                    if p != pid {
                        assert(old_procs.contains_key(p));
                    }
                }
                assert forall|p: u64, q: u64|
                    #[trigger] procs.contains_key(p) && #[trigger] procs.contains_key(q) && p != q
                    implies procs[p].kernel_stack != procs[q].kernel_stack by {
                    if p != pid && q != pid {
                        assert(old_procs.contains_key(p) && old_procs.contains_key(q));
                    } else if p == pid {
                        assert(old_procs.contains_key(q));
                    } else {
                        assert(old_procs.contains_key(p));
                    }
                }
            }
        }
        r
    }

    /// Removes the zombie `pid` and gives back to the kernel's frames its
    /// kernel stack and every frame of `space`, its address space: root,
    /// tables and the frames behind its pages. Fails with `ProcessNotFound`
    /// unless `pid` is a zombie, handing `space` back untouched.
    pub fn reap(&mut self, pid: u64, space: AddressSpace) -> (r: Result<(), (SchedulerError, AddressSpace)>)
        requires
            old(self).wf(),
            space.wf(),
            old(self).scheduler.procs().contains_key(pid) && old(self).scheduler.procs()[pid].state
                == ProcessState::Zombie ==> old(self).scheduler.procs()[pid].address_space
                == space.root_spec(),
            space.owned_frames().subset_of(old(self).frames@.allocated),
            !space.table_frames().contains(space.root_spec()),
            !space.leaf_frames().contains(space.root_spec()),
            space.table_frames().disjoint(space.leaf_frames()),
            forall|p: u64| #[trigger]
                old(self).scheduler.procs().contains_key(p) ==> !space.owned_frames().contains(
                    old(self).scheduler.procs()[p].kernel_stack,
                ),
        ensures
            final(self).wf(),
            final(self).scheduler.sched_view() == old(self).scheduler.sched_view(),
            old(self).scheduler.procs().contains_key(pid) && old(self).scheduler.procs()[pid].state
                == ProcessState::Zombie ==> r is Ok && final(self).scheduler.procs() == old(
                self,
            ).scheduler.procs().remove(pid) && final(self).frames@.free == old(
                self,
            ).frames@.free.union(space.owned_frames()).insert(
                old(self).scheduler.procs()[pid].kernel_stack,
            ),
            !(old(self).scheduler.procs().contains_key(pid) && old(self).scheduler.procs()[pid].state
                == ProcessState::Zombie) ==> r == Err::<(), (SchedulerError, AddressSpace)>(
                (SchedulerError::ProcessNotFound, space),
            ) && final(self).scheduler.procs() == old(self).scheduler.procs() && final(self).frames@
                == old(self).frames@,
    {
        let zombie = match self.scheduler.get(pid) {
            Some(p) => p.state == ProcessState::Zombie,
            None => false,
        };
        if !zombie {
            return Err((SchedulerError::ProcessNotFound, space));
        }
        let ghost stack = self.scheduler.procs()[pid].kernel_stack;
        let r = self.scheduler.reap(pid, &mut self.frames);
        let ghost mid = self.frames@;
        proof {
            assert(space.owned_frames().subset_of(self.frames@.allocated));
        }
        space.teardown(&mut self.frames);
        proof {
            let procs = self.scheduler.procs();
            let old_procs = old(self).scheduler.procs();
            assert forall|p: u64| #[trigger] procs.contains_key(p) implies self.frames@.allocated.contains(
                procs[p].kernel_stack,
            ) by {
                assert(old_procs.contains_key(p));
                assert(p != pid);
                assert(old_procs[p].kernel_stack != old_procs[pid].kernel_stack);
                assert(!space.owned_frames().contains(old_procs[p].kernel_stack));
            }
            assert forall|p: u64, q: u64|
                #[trigger] procs.contains_key(p) && #[trigger] procs.contains_key(q) && p != q
                implies procs[p].kernel_stack != procs[q].kernel_stack by {
                assert(old_procs.contains_key(p) && old_procs.contains_key(q));
            }
            assert(self.frames@.free =~= old(self).frames@.free.union(space.owned_frames()).insert(
                stack,
            ));
        }
        Ok(())
    }
}

proof fn lemma_stacks_kept(pre: &Kernel, post: &Kernel)
    requires
        pre.wf(),
        post.frames.wf(),
        post.scheduler.wf(),
        post.interrupts.wf(),
        post.kernel_space.wf(),
        post.frames@ == pre.frames@,
        post.scheduler.procs().dom() =~= pre.scheduler.procs().dom(),
        forall|p: u64| #[trigger]
            pre.scheduler.procs().contains_key(p) ==> post.scheduler.procs()[p].kernel_stack
                == pre.scheduler.procs()[p].kernel_stack,
    ensures
        post.wf(),
{
    let procs = post.scheduler.procs();
    assert forall|p: u64| #[trigger] procs.contains_key(p) implies post.frames@.allocated.contains(
        procs[p].kernel_stack,
    ) by {
        assert(pre.scheduler.procs().dom().contains(p));
    }
    assert forall|p: u64, q: u64|
        #[trigger] procs.contains_key(p) && #[trigger] procs.contains_key(q) && p != q
        implies procs[p].kernel_stack != procs[q].kernel_stack by {
        assert(pre.scheduler.procs().dom().contains(p));
        assert(pre.scheduler.procs().dom().contains(q));
    }
}

impl Kernel {
    /// Timer interrupt on the kernel's scheduler; see `Scheduler::tick`.
    pub fn tick(&mut self, cpu: &mut ProcessContext) -> (r: Option<u64>)
        requires
            old(self).wf(),
        ensures
            final(self).wf(),
            final(self).frames@ == old(self).frames@,
            (old(self).scheduler.sched_view().running is None || old(self).scheduler.ticks_used() + 1
                >= old(self).scheduler.slice()) ==> switched(
                old(self).scheduler,
                final(self).scheduler,
                *old(cpu),
                *final(cpu),
                r,
            ),
            !(old(self).scheduler.sched_view().running is None || old(self).scheduler.ticks_used()
                + 1 >= old(self).scheduler.slice()) ==> final(self).scheduler.procs() == old(
                self,
            ).scheduler.procs() && final(self).scheduler.sched_view() == old(
                self,
            ).scheduler.sched_view() && *final(cpu) == *old(cpu) && r is None,
    {
        let ghost pre = *old(self);
        proof {
            let v = self.scheduler.sched_view();
            if v.queue.len() > 0 {
                self.scheduler.lemma_queue_ready(0);
            }
        }
        let r = self.scheduler.tick(cpu);
        proof {
            let v = pre.scheduler.sched_view();
            if v.queue.len() > 0 && (v.running is None || pre.scheduler.ticks_used() + 1
                >= pre.scheduler.slice()) {
                let next = v.queue[0];
                assert(pre.scheduler.procs().contains_key(next));
                if let Some(p) = v.running {
                    assert(pre.scheduler.procs().contains_key(p)) by {
                        pre.scheduler.lemma_running_known();
                    }
                }
            }
            lemma_stacks_kept(&pre, self);
        }
        r
    }

    /// The running process `pid` exits; see `Scheduler::terminate`.
    pub fn exit(&mut self, pid: u64) -> (r: Result<(), SchedulerError>)
        requires
            old(self).wf(),
        ensures
            final(self).wf(),
            final(self).frames@ == old(self).frames@,
            old(self).scheduler.procs().contains_key(pid) && old(self).scheduler.procs()[pid].state
                == ProcessState::Running ==> r is Ok && final(self).scheduler.procs() == old(
                self,
            ).scheduler.procs().insert(
                pid,
                with_state(old(self).scheduler.procs()[pid], ProcessState::Zombie),
            ),
            !(old(self).scheduler.procs().contains_key(pid) && old(self).scheduler.procs()[pid].state
                == ProcessState::Running) ==> r is Err && final(self).scheduler.procs() == old(
                self,
            ).scheduler.procs(),
    {
        let ghost pre = *old(self);
        let r = self.scheduler.terminate(pid);
        proof {
            lemma_stacks_kept(&pre, self);
        }
        r
    }
}

/// A start-up step, with how it failed where that matters.
#[derive(Debug, Clone, Copy, PartialEq, Eq, Structural)]
pub enum InitStep {
    MachineMode(BootError),
    EarlyUart,
    Memory,
    Interrupts,
    Scheduler,
}

/// How start-up ends when `step` fails: the machine-mode step reports an
/// incompatible or misconfigured machine as such and any other error as a
/// device failure; the serial port and interrupts are devices; memory set-up
/// means too little memory; the scheduler means a configuration error.
pub open spec fn init_failure(step: InitStep) -> KernelInitResult {
    match step {
        InitStep::MachineMode(BootError::HardwareIncompatible) => KernelInitResult::HardwareIncompatible,
        InitStep::MachineMode(BootError::ConfigurationError) => KernelInitResult::ConfigurationError,
        InitStep::MachineMode(_) => KernelInitResult::DeviceInitFailed,
        InitStep::EarlyUart => KernelInitResult::DeviceInitFailed,
        InitStep::Memory => KernelInitResult::InsufficientMemory,
        InitStep::Interrupts => KernelInitResult::DeviceInitFailed,
        InitStep::Scheduler => KernelInitResult::ConfigurationError,
    }
}

/// The start-up result for a failure of `step`.
pub fn failure_result(step: InitStep) -> (r: KernelInitResult)
    ensures
        r == init_failure(step),
{
    match step {
        InitStep::MachineMode(BootError::HardwareIncompatible) => KernelInitResult::HardwareIncompatible,
        InitStep::MachineMode(BootError::ConfigurationError) => KernelInitResult::ConfigurationError,
        InitStep::MachineMode(_) => KernelInitResult::DeviceInitFailed,
        InitStep::EarlyUart => KernelInitResult::DeviceInitFailed,
        InitStep::Memory => KernelInitResult::InsufficientMemory,
        InitStep::Interrupts => KernelInitResult::DeviceInitFailed,
        InitStep::Scheduler => KernelInitResult::ConfigurationError,
    }
}

/// Whether `s` is the kernel space for `regions`.
pub open spec fn is_kernel_space_for(s: AddressSpace, regions: Seq<MemoryRegion>) -> bool {
    &&& s.wf()
    &&& s.is_kernel()
    &&& forall|page: u64| #[trigger] s.mappings().contains_key(page) <==> kernel_page(regions, page)
    &&& forall|page: u64| #[trigger]
        s.mappings().contains_key(page) ==> kernel_entry_ok(regions, page, s.mappings()[page])
}

/// Seeds the frame allocator from the memory map and builds the kernel's
/// address space. Fails with `OutOfMemory` when the map offers no usable
/// frame or the frames run out, and with `InvalidArgument` when the kernel
/// image lies too high to be mapped.
pub fn memory_init(regions: &Vec<MemoryRegion>) -> (r: Result<(PhysicalMemoryManager, AddressSpace), KernelError>)
    ensures
        (forall|f: u64| !#[trigger] is_usable_frame(regions@, f as int)) ==> r == Err::<
            (PhysicalMemoryManager, AddressSpace),
            KernelError,
        >(KernelError::OutOfMemory),
        r is Err ==> r == Err::<(PhysicalMemoryManager, AddressSpace), KernelError>(
            KernelError::OutOfMemory,
        ) || r == Err::<(PhysicalMemoryManager, AddressSpace), KernelError>(
            KernelError::InvalidArgument,
        ),
        r == Err::<(PhysicalMemoryManager, AddressSpace), KernelError>(KernelError::InvalidArgument)
            ==> kernel_image_too_high(regions@),
        !kernel_image_too_high(regions@) && usable_frames(regions@).len() >= 1 + 3
            * kernel_frames_bound(regions@, regions@.len() as int) ==> r is Ok,
        r matches Ok((a, s)) ==> a.wf() && is_kernel_space_for(s, regions@) && a@.allocated.contains(
            s.root_spec(),
        ) && a@.free.len() + 1 + 3 * kernel_frames_bound(regions@, regions@.len() as int)
            >= usable_frames(regions@).len(),
{
    let mut frames = match PhysicalMemoryManager::init(regions) {
        Ok(a) => {
            proof {
                if forall|f: u64| !#[trigger] is_usable_frame(regions@, f as int) {
                    assert(a@.free =~= Set::<u64>::empty());
                }
                assert(a@.free =~= usable_frames(regions@));
            }
            a
        },
        Err(_) => {
            proof {
                assert(usable_frames(regions@) =~= Set::<u64>::empty());
                lemma_frames_bound_mono(regions@, 0, regions@.len() as int);
            }
            return Err(KernelError::OutOfMemory);
        },
    };
    match AddressSpace::new_kernel_space(&mut frames, regions) {
        Ok(s) => Ok((frames, s)),
        Err(MemoryError::InvalidAddress) => Err(KernelError::InvalidArgument),
        Err(_) => Err(KernelError::OutOfMemory),
    }
}

/// Builds the scheduler and its idle process, which starts at `idle_entry`
/// in the kernel's address space. Fails with `OutOfMemory` when no frame is
/// left for the idle process's stack.
pub fn scheduler_init(frames: &mut PhysicalMemoryManager, kernel_space: &AddressSpace, idle_entry: u64) -> (r:
    Result<Scheduler, KernelError>)
    requires
        old(frames).wf(),
    ensures
        final(frames).wf(),
        old(frames)@.free == Set::<u64>::empty() <==> r is Err,
        r is Err ==> r == Err::<Scheduler, KernelError>(KernelError::OutOfMemory) && final(frames)@
            == old(frames)@,
        r matches Ok(s) ==> {
            &&& s.wf()
            &&& s.sched_view() == (SchedView { queue: seq![1u64], running: None })
            &&& s.procs().dom() == set![1u64]
            &&& s.procs()[1] == new_pcb(1, idle_entry, kernel_space.root_spec(), s.procs()[1].kernel_stack)
            &&& old(frames)@.free.contains(s.procs()[1].kernel_stack)
            &&& final(frames)@.allocated == old(frames)@.allocated.insert(s.procs()[1].kernel_stack)
            &&& s.slice() == DEFAULT_TIME_SLICE
        },
{
    let mut sched = Scheduler::new(DEFAULT_TIME_SLICE);
    match sched.create(idle_entry, kernel_space.root(), frames) {
        Ok(pid) => {
            proof {
                assert(pid == 1);
                assert(sched.sched_view().queue =~= seq![1u64]);
                assert(sched.procs().dom() =~= set![1u64]);
            }
            Ok(sched)
        },
        Err(_) => Err(KernelError::OutOfMemory),
    }
}

/// Brings up the kernel's state, in order: frames and the kernel space from
/// the memory map (`memory_init`), the vector table with the timer and
/// system-call handlers installed and the timer line unmasked
/// (`interrupt_init`), and the scheduler with its idle process
/// (`scheduler_init`). The first step that fails ends start-up with
/// `failure_result` of that step.
pub fn kernel_init(regions: &Vec<MemoryRegion>, idle_entry: u64) -> (r: Result<Kernel, KernelInitResult>)
    ensures
        (forall|f: u64| !#[trigger] is_usable_frame(regions@, f as int)) ==> r == Err::<
            Kernel,
            KernelInitResult,
        >(KernelInitResult::InsufficientMemory),
        r is Err ==> r == Err::<Kernel, KernelInitResult>(init_failure(InitStep::Memory)) || r
            == Err::<Kernel, KernelInitResult>(init_failure(InitStep::Scheduler)),
        r == Err::<Kernel, KernelInitResult>(init_failure(InitStep::Memory)) ==> kernel_image_too_high(
            regions@,
        ) || usable_frames(regions@).len() < 1 + 3 * kernel_frames_bound(
            regions@,
            regions@.len() as int,
        ),
        r == Err::<Kernel, KernelInitResult>(init_failure(InitStep::Scheduler)) ==> usable_frames(
            regions@,
        ).len() <= 1 + 3 * kernel_frames_bound(regions@, regions@.len() as int),
        !kernel_image_too_high(regions@) && usable_frames(regions@).len() >= 2 + 3
            * kernel_frames_bound(regions@, regions@.len() as int) ==> r is Ok,
        r matches Ok(k) ==> {
            &&& k.wf()
            &&& k.frames.wf()
            &&& is_kernel_space_for(k.kernel_space, regions@)
            &&& k.interrupts.wf()
            &&& k.interrupts.handlers() == Seq::new(VECTOR_COUNT as nat, |i: int| None::<u32>).update(
                TIMER_VECTOR as int,
                Some(TIMER_HANDLER),
            ).update(SYSCALL_VECTOR as int, Some(SYSCALL_HANDLER))
            &&& k.interrupts.masked() == Seq::new(IRQ_LINES as nat, |i: int| true).update(0, false)
            &&& !k.interrupts.in_dispatch()
            &&& k.scheduler.wf()
            &&& k.scheduler.sched_view() == (SchedView { queue: seq![1u64], running: None })
            &&& k.scheduler.procs().dom() == set![1u64]
            &&& k.scheduler.procs()[1].state == ProcessState::Ready
            &&& k.scheduler.procs()[1].address_space == k.kernel_space.root_spec()
        },
{
    let (mut frames, kernel_space) = match memory_init(regions) {
        Ok(p) => p,
        Err(_) => {
            return Err(failure_result(InitStep::Memory));
        },
    };
    let mut interrupts = match interrupt_init() {
        Ok(d) => d,
        Err(_) => {
            return Err(failure_result(InitStep::Interrupts));
        },
    };
    interrupts.install(TIMER_VECTOR, TIMER_HANDLER);
    interrupts.install(SYSCALL_VECTOR, SYSCALL_HANDLER);
    let _ = interrupts.enable_line(0);
    proof {
        frames.lemma_view_wf();
        if frames@.free == Set::<u64>::empty() {
            assert(frames@.free.len() == 0);
        }
    }
    let scheduler = match scheduler_init(&mut frames, &kernel_space, idle_entry) {
        Ok(s) => s,
        Err(_) => {
            return Err(failure_result(InitStep::Scheduler));
        },
    };
    let k = Kernel { frames, kernel_space, interrupts, scheduler };
    proof {
        assert forall|p: u64| #[trigger] k.scheduler.procs().contains_key(p) implies p == 1 by {
            assert(k.scheduler.procs().dom().contains(p));
        }
    }
    Ok(k)
}

} // verus!
