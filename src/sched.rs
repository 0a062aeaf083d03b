use vstd::prelude::*;
use std::collections::BTreeMap;
use crate::error::SchedulerError;
use crate::frame::{allocate_post, free_post, PhysicalMemoryManager};
use crate::process::{
    initial_context, is_legal_transition, saved_into, with_state, ProcessContext,
    ProcessControlBlock, ProcessState,
};

verus! {

broadcast use vstd::laws_cmp::group_laws_cmp;

/// Largest number of processes that the table holds.
pub const MAX_PROCESSES: usize = 128;

/// Which process holds the processor and which wait for it, in order.
pub ghost struct SchedView {
    pub queue: Seq<u64>,
    pub running: Option<u64>,
}

/// One round-robin switch: the head of the queue takes the processor and
/// the process that held it, if any, goes to the tail. With an empty queue
/// nothing changes.
pub open spec fn rotate(v: SchedView) -> SchedView {
    if v.queue.len() == 0 {
        v
    } else {
        SchedView {
            queue: match v.running {
                Some(p) => v.queue.drop_first().push(p),
                None => v.queue.drop_first(),
            },
            running: Some(v.queue[0]),
        }
    }
}

/// `k` switches in a row.
pub open spec fn rotate_n(v: SchedView, k: nat) -> SchedView
    decreases k,
{
    if k == 0 {
        v
    } else {
        rotate(rotate_n(v, (k - 1) as nat))
    }
}

/// Round-robin order: starting idle with the processes of `q` ready, the
/// `k`-th switch hands the processor to `q[k - 1]`, so over `q.len()`
/// switches each process runs once, in insertion order, and the next switch
/// comes back to the first.
pub proof fn lemma_round_robin(q: Seq<u64>, k: nat)
    requires
        1 <= k <= q.len(),
    ensures
        rotate_n(SchedView { queue: q, running: None }, k) == (SchedView {
            queue: q.subrange(k as int, q.len() as int) + q.subrange(0, k - 1),
            running: Some(q[k - 1]),
        }),
        k == q.len() ==> rotate_n(SchedView { queue: q, running: None }, k + 1).running == Some(
            q[0],
        ),
    decreases k,
{
    let v0 = SchedView { queue: q, running: None };
    if k == 1 {
        assert(rotate_n(v0, 0) == v0);
        assert(q.drop_first() =~= q.subrange(1, q.len() as int) + q.subrange(0, 0));
    } else {
        lemma_round_robin(q, (k - 1) as nat);
        let prev = rotate_n(v0, (k - 1) as nat);
        assert(prev.queue =~= q.subrange(k - 1, q.len() as int) + q.subrange(0, k - 2));
        assert(prev.queue[0] == q[k - 1]);
        assert(prev.queue.drop_first().push(q[k - 2]) =~= q.subrange(k as int, q.len() as int)
            + q.subrange(0, k - 1));
    }
    if k == q.len() {
        let last = rotate_n(v0, k);
        assert(last.queue =~= q.subrange(0, k - 1));
        if k == 1 {
            assert(last.queue.len() == 0);
            assert(rotate_n(v0, k + 1) == last);
        } else {
            assert(last.queue[0] == q[0]);
        }
    }
}

/// What one switch does: the running process, if any, is saved from the
/// live registers `cpu0`, marked ready and sent to the tail of the queue;
/// the head of the queue is marked running and its registers are loaded
/// (`cpu1`); the result names the address space to activate. With an empty
/// queue the running process keeps the processor.
pub open spec fn switched(
    pre: Scheduler,
    post: Scheduler,
    cpu0: ProcessContext,
    cpu1: ProcessContext,
    r: Option<u64>,
) -> bool {
    let v = pre.sched_view();
    &&& post.slice() == pre.slice()
    &&& post.next_pid_spec() == pre.next_pid_spec()
    &&& post.ticks_used() == 0
    &&& post.sched_view() == rotate(v)
    &&& if v.queue.len() == 0 {
        post.procs() == pre.procs() && cpu1 == cpu0 && r is None
    } else {
        let next = v.queue[0];
        let m1 = match v.running {
            Some(p) => pre.procs().insert(
                p,
                with_state(saved_into(pre.procs()[p], cpu0), ProcessState::Ready),
            ),
            None => pre.procs(),
        };
        &&& post.procs() == m1.insert(next, with_state(m1[next], ProcessState::Running))
        &&& cpu1 == pre.procs()[next].context
        &&& r == Some(pre.procs()[next].address_space)
    }
}

/// Offset of the initial stack pointer inside a kernel stack frame.
pub const STACK_TOP_OFFSET: u64 = 4080;

/// The record of a process just created.
pub open spec fn new_pcb(pid: u64, entry_point: u64, address_space: u64, stack: u64) -> ProcessControlBlock {
    ProcessControlBlock {
        pid,
        state: ProcessState::Ready,
        context: initial_context(entry_point, (stack + STACK_TOP_OFFSET) as u64),
        address_space,
        kernel_stack: stack,
        priority: 0,
    }
}

/// The process table together with the round-robin ready queue.
pub struct Scheduler {
    table: BTreeMap<u64, ProcessControlBlock>,
    ready_queue: Vec<u64>,
    current: Option<u64>,
    next_pid: u64,
    time_slice: u64,
    ticks: u64,
}

impl Scheduler {
    /// Every process, by pid.
    pub closed spec fn procs(&self) -> Map<u64, ProcessControlBlock> {
        self.table@
    }

    /// The ready queue and the running process.
    pub closed spec fn sched_view(&self) -> SchedView {
        SchedView { queue: self.ready_queue@, running: self.current }
    }

    /// Ticks that the running process may hold the processor.
    pub closed spec fn slice(&self) -> nat {
        self.time_slice as nat
    }

    /// Ticks that the running process has held the processor so far.
    pub closed spec fn ticks_used(&self) -> nat {
        self.ticks as nat
    }

    /// The pid that the next process will get.
    pub closed spec fn next_pid_spec(&self) -> u64 {
        self.next_pid
    }

    pub closed spec fn wf(&self) -> bool {
        let q = self.ready_queue@;
        let m = self.table@;
        &&& q.no_duplicates()
        &&& forall|i: int|
            0 <= i < q.len() ==> m.contains_key(#[trigger] q[i]) && m[q[i]].state
                == ProcessState::Ready
        &&& forall|p: u64|
            #[trigger] m.contains_key(p) ==> m[p].pid == p && p < self.next_pid && (m[p].state
                == ProcessState::Ready ==> q.contains(p)) && (m[p].state == ProcessState::Running
                <==> self.current == Some(p))
        &&& match self.current {
            Some(p) => m.contains_key(p) && m[p].state == ProcessState::Running,
            None => true,
        }
        &&& m.dom().finite()
        &&& m.len() <= MAX_PROCESSES
        &&& self.time_slice >= 1
        &&& self.ticks < self.time_slice
    }

    /// Every process in the ready queue is in the table, marked ready.
    pub proof fn lemma_queue_ready(&self, i: int)
        requires
            self.wf(),
            0 <= i < self.sched_view().queue.len(),
        ensures
            self.procs().contains_key(self.sched_view().queue[i]),
            self.procs()[self.sched_view().queue[i]].state == ProcessState::Ready,
    {
    }

    /// The running process, if any, is in the table.
    pub proof fn lemma_running_known(&self)
        requires
            self.wf(),
        ensures
            self.sched_view().running matches Some(p) ==> self.procs().contains_key(p)
                && self.procs()[p].state == ProcessState::Running,
    {
    }

    /// An empty table; a running process is preempted after `time_slice`
    /// ticks (at least one).
    pub fn new(time_slice: u64) -> (r: Self)
        ensures
            r.wf(),
            r.procs() == Map::<u64, ProcessControlBlock>::empty(),
            r.sched_view() == (SchedView { queue: Seq::empty(), running: None }),
            r.slice() == if time_slice == 0 {
                1
            } else {
                time_slice
            },
            r.ticks_used() == 0,
            r.next_pid_spec() == 1,
    {
        let r = Scheduler {
            table: BTreeMap::new(),
            ready_queue: Vec::new(),
            current: None,
            next_pid: 1,
            time_slice: if time_slice == 0 {
                1
            } else {
                time_slice
            },
            ticks: 0,
        };
        proof {
            assert(r.table@ =~= Map::<u64, ProcessControlBlock>::empty());
        }
        r
    }

    /// Number of processes in the table.
    pub fn process_count(&self) -> (r: usize)
        requires
            self.wf(),
        ensures
            r == self.procs().len(),
    {
        self.table.len()
    }

    /// The record of `pid`, if the table holds one.
    pub fn get(&self, pid: u64) -> (r: Option<ProcessControlBlock>)
        ensures
            match r {
                Some(pcb) => self.procs().contains_key(pid) && pcb == self.procs()[pid],
                None => !self.procs().contains_key(pid),
            },
    {
        match self.table.get(&pid) {
            Some(p) => Some(*p),
            None => None,
        }
    }

    /// The pid of the running process, if any.
    pub fn current(&self) -> (r: Option<u64>)
        ensures
            r == self.sched_view().running,
    {
        self.current
    }

    /// The ready queue, head first.
    pub fn ready_queue(&self) -> (r: Vec<u64>)
        ensures
            r@ == self.sched_view().queue,
    {
        self.ready_queue.clone()
    }

    fn pcb_of(&self, pid: u64) -> (r: ProcessControlBlock)
        requires
            self.procs().contains_key(pid),
        ensures
            r == self.procs()[pid],
    {
        match self.table.get(&pid) {
            Some(p) => *p,
            None => {
                proof {
                    assert(false);
                }
                *self.table.get(&pid).unwrap()
            },
        }
    }

    /// Creates a ready process that starts at `entry_point` in the address
    /// space rooted at `address_space`, with a kernel stack frame taken from
    /// `alloc`, and appends it to the ready queue. Fails with
    /// `ScheduleQueueFull` when the table is full or the pids are spent, and
    /// with `OutOfMemory` when no frame is left for the stack.
    pub fn create(
        &mut self,
        entry_point: u64,
        address_space: u64,
        alloc: &mut PhysicalMemoryManager,
    ) -> (r: Result<u64, SchedulerError>)
        requires
            old(self).wf(),
            old(alloc).wf(),
        ensures
            final(self).wf(),
            final(alloc).wf(),
            final(alloc)@.wf(),
            final(self).slice() == old(self).slice(),
            final(self).ticks_used() == old(self).ticks_used(),
            (old(self).procs().len() >= MAX_PROCESSES || old(self).next_pid_spec() == u64::MAX)
                ==> r == Err::<u64, SchedulerError>(SchedulerError::ScheduleQueueFull),
            (old(self).procs().len() < MAX_PROCESSES && old(self).next_pid_spec() < u64::MAX
                && old(alloc)@.free == Set::<u64>::empty()) ==> r == Err::<u64, SchedulerError>(
                SchedulerError::OutOfMemory,
            ),
            r is Err ==> final(self).procs() == old(self).procs() && final(self).sched_view()
                == old(self).sched_view() && final(self).next_pid_spec() == old(self).next_pid_spec()
                && final(alloc)@ == old(alloc)@,
            (old(self).procs().len() < MAX_PROCESSES && old(self).next_pid_spec() < u64::MAX
                && old(alloc)@.free != Set::<u64>::empty()) ==> r == Ok::<u64, SchedulerError>(
                old(self).next_pid_spec(),
            ),
            r matches Ok(pid) ==> {
                let stack = final(self).procs()[pid].kernel_stack;
                &&& allocate_post(old(alloc)@, final(alloc)@, Some(stack))
                &&& final(self).procs() == old(self).procs().insert(
                    pid,
                    new_pcb(pid, entry_point, address_space, stack),
                )
                &&& final(self).sched_view() == (SchedView {
                    queue: old(self).sched_view().queue.push(pid),
                    running: old(self).sched_view().running,
                })
                &&& final(self).next_pid_spec() == pid + 1
            },
    {
        proof {
            alloc.lemma_view_wf();
        }
        if self.table.len() >= MAX_PROCESSES || self.next_pid == u64::MAX {
            return Err(SchedulerError::ScheduleQueueFull);
        }
        let stack = match alloc.allocate_frame() {
            Some(f) => f,
            None => {
                return Err(SchedulerError::OutOfMemory);
            },
        };
        proof {
            assert(final(alloc)@.wf());
            assert(stack % 4096 == 0);
        }
        let pid = self.next_pid;
        let mut pcb = ProcessControlBlock {
            pid,
            state: ProcessState::Created,
            context: ProcessContext::new(entry_point, stack + STACK_TOP_OFFSET),
            address_space,
            kernel_stack: stack,
            priority: 0,
        };
        let res = pcb.set_state(ProcessState::Ready);
        assert(res is Ok);
        proof {
            assert(!self.table@.contains_key(pid));
            if self.ready_queue@.contains(pid) {
                let i = choose|i: int| 0 <= i < self.ready_queue@.len() && self.ready_queue@[i] == pid;
                assert(self.table@.contains_key(self.ready_queue@[i]));
            }
        }
        let ghost q0 = self.ready_queue@;
        self.table.insert(pid, pcb);
        self.ready_queue.push(pid);
        self.next_pid = pid + 1;
        proof {
            assert(self.ready_queue@ == q0.push(pid));
            assert forall|a: int, b: int|
                0 <= a < self.ready_queue@.len() && 0 <= b < self.ready_queue@.len() && a != b
                implies self.ready_queue@[a] != self.ready_queue@[b] by {
                if a < q0.len() && b < q0.len() {
                    assert(q0[a] != q0[b]);
                }
            }
            assert forall|i: int| 0 <= i < self.ready_queue@.len() implies self.table@.contains_key(
                #[trigger] self.ready_queue@[i],
            ) && self.table@[self.ready_queue@[i]].state == ProcessState::Ready by {
                if i < q0.len() {
                    assert(q0[i] == self.ready_queue@[i]);
                }
            }
            assert forall|p: u64| #[trigger] self.table@.contains_key(p) implies self.ready_queue@.contains(p)
                || self.table@[p].state != ProcessState::Ready by {
                if p != pid && self.table@[p].state == ProcessState::Ready {
                    let i = choose|i: int| 0 <= i < q0.len() && q0[i] == p;
                    assert(self.ready_queue@[i] == p);
                }
                if p == pid {
                    assert(self.ready_queue@[q0.len() as int] == p);
                }
            }
            assert(self.table@.dom() == old(self).table@.dom().insert(pid));
        }
        Ok(pid)
    }

    fn switch_to_next(&mut self, cpu: &mut ProcessContext) -> (r: Option<u64>)
        requires
            old(self).wf(),
        ensures
            final(self).wf(),
            switched(*old(self), *final(self), *old(cpu), *final(cpu), r),
    {
        if self.ready_queue.len() == 0 {
            self.ticks = 0;
            return None;
        }
        let ghost q0 = self.ready_queue@;
        let ghost m0 = self.table@;
        let next = self.ready_queue.remove(0);
        assert(self.ready_queue@ == q0.drop_first());
        assert(m0.contains_key(next) && m0[next].state == ProcessState::Ready);
        match self.current {
            Some(p) => {
                let mut pcb = self.pcb_of(p);
                pcb.context = *cpu;
                pcb.state = ProcessState::Ready;
                self.table.insert(p, pcb);
                proof {
                    if q0.contains(p) {
                        let i = choose|i: int| 0 <= i < q0.len() && q0[i] == p;
                        assert(m0.contains_key(q0[i]));
                    }
                }
                self.ready_queue.push(p);
            },
            None => {},
        }
        let ghost m1 = self.table@;
        let ghost q1 = self.ready_queue@;
        let mut npcb = self.pcb_of(next);
        npcb.state = ProcessState::Running;
        self.table.insert(next, npcb);
        *cpu = npcb.context;
        self.current = Some(next);
        self.ticks = 0;
        proof {
            assert(self.ready_queue@ == rotate(SchedView { queue: q0, running: old(self).current }).queue);
            assert forall|a: int, b: int|
                0 <= a < q1.len() && 0 <= b < q1.len() && a != b implies q1[a] != q1[b] by {
                if a < q0.len() - 1 && b < q0.len() - 1 {
                    assert(q0[a + 1] != q0[b + 1]);
                } else if a < q0.len() - 1 {
                    assert(q1[a] == q0[a + 1]);
                    assert(m0[q0[a + 1]].state == ProcessState::Ready);
                } else if b < q0.len() - 1 {
                    assert(q1[b] == q0[b + 1]);
                    assert(m0[q0[b + 1]].state == ProcessState::Ready);
                }
            }
            assert forall|i: int| 0 <= i < q1.len() implies self.table@.contains_key(#[trigger] q1[i])
                && self.table@[q1[i]].state == ProcessState::Ready by {
                if i < q0.len() - 1 {
                    assert(q1[i] == q0[i + 1]);
                    assert(q0[i + 1] != q0[0]);
                }
            }
            assert forall|p: u64| #[trigger] self.table@.contains_key(p) implies self.table@[p].pid == p
                && p < self.next_pid && (self.table@[p].state == ProcessState::Ready ==> q1.contains(p))
                && (self.table@[p].state == ProcessState::Running <==> self.current == Some(p)) by {
                assert(m0.contains_key(p));
                if p != next && self.table@[p].state == ProcessState::Ready {
                    if Some(p) == old(self).current {
                        assert(q1[q1.len() - 1] == p);
                    } else {
                        assert(m0[p].state == ProcessState::Ready);
                        let i = choose|i: int| 0 <= i < q0.len() && q0[i] == p;
                        assert(i != 0);
                        assert(q1[i - 1] == p);
                    }
                }
            }
            assert(self.table@.dom() =~= m0.dom());
        }
        Some(npcb.address_space)
    }

    /// Timer tick. The running process uses up one tick of its slice; when
    /// the slice is spent, or nothing runs, the scheduler switches to the
    /// head of the ready queue (see `switched`).
    pub fn tick(&mut self, cpu: &mut ProcessContext) -> (r: Option<u64>)
        requires
            old(self).wf(),
        ensures
            final(self).wf(),
            (old(self).sched_view().running is None || old(self).ticks_used() + 1 >= old(
                self,
            ).slice()) ==> switched(*old(self), *final(self), *old(cpu), *final(cpu), r),
            !(old(self).sched_view().running is None || old(self).ticks_used() + 1 >= old(
                self,
            ).slice()) ==> final(self).procs() == old(self).procs() && final(self).sched_view()
                == old(self).sched_view() && *final(cpu) == *old(cpu) && r is None
                && final(self).ticks_used() == old(self).ticks_used() + 1 && final(self).slice()
                == old(self).slice() && final(self).next_pid_spec() == old(self).next_pid_spec(),
    {
        if self.current.is_none() || self.ticks + 1 >= self.time_slice {
            self.switch_to_next(cpu)
        } else {
            self.ticks = self.ticks + 1;
            None
        }
    }

    /// Gives up the processor at once, as an expired slice would.
    pub fn yield_now(&mut self, cpu: &mut ProcessContext) -> (r: Option<u64>)
        requires
            old(self).wf(),
        ensures
            final(self).wf(),
            switched(*old(self), *final(self), *old(cpu), *final(cpu), r),
    {
        self.switch_to_next(cpu)
    }


    /// The running process `pid` waits for an event: its registers are
    /// saved from `cpu`, it is marked blocked and gives up the processor.
    /// Fails with `ProcessNotFound` for an unknown pid and with
    /// `InvalidProcessState` unless `pid` is running.
    pub fn block(&mut self, pid: u64, cpu: &ProcessContext) -> (r: Result<(), SchedulerError>)
        requires
            old(self).wf(),
        ensures
            final(self).wf(),
            final(self).slice() == old(self).slice(),
            final(self).next_pid_spec() == old(self).next_pid_spec(),
            !old(self).procs().contains_key(pid) ==> r == Err::<(), SchedulerError>(
                SchedulerError::ProcessNotFound,
            ),
            old(self).procs().contains_key(pid) && !is_legal_transition(
                old(self).procs()[pid].state,
                ProcessState::Blocked,
            ) ==> r == Err::<(), SchedulerError>(SchedulerError::InvalidProcessState),
            r is Err ==> final(self).procs() == old(self).procs() && final(self).sched_view()
                == old(self).sched_view() && final(self).ticks_used() == old(self).ticks_used(),
            old(self).procs().contains_key(pid) && is_legal_transition(
                old(self).procs()[pid].state,
                ProcessState::Blocked,
            ) ==> r is Ok && final(self).procs() == old(self).procs().insert(
                pid,
                with_state(saved_into(old(self).procs()[pid], *cpu), ProcessState::Blocked),
            ) && final(self).sched_view() == (SchedView {
                queue: old(self).sched_view().queue,
                running: None,
            }) && final(self).ticks_used() == 0,
    {
        if !self.table.contains_key(&pid) {
            return Err(SchedulerError::ProcessNotFound);
        }
        let mut pcb = self.pcb_of(pid);
        pcb.save_context(cpu);
        match pcb.set_state(ProcessState::Blocked) {
            Ok(()) => {},
            Err(e) => {
                return Err(e);
            },
        }
        let ghost m0 = self.table@;
        self.table.insert(pid, pcb);
        self.current = None;
        self.ticks = 0;
        proof {
            assert forall|i: int| 0 <= i < self.ready_queue@.len() implies self.table@.contains_key(
                #[trigger] self.ready_queue@[i],
            ) && self.table@[self.ready_queue@[i]].state == ProcessState::Ready by {
                assert(m0.contains_key(self.ready_queue@[i]));
            }
            assert forall|p: u64| #[trigger] self.table@.contains_key(p) implies self.table@[p].pid == p
                && p < self.next_pid && (self.table@[p].state == ProcessState::Ready
                ==> self.ready_queue@.contains(p)) && (self.table@[p].state == ProcessState::Running
                <==> self.current == Some(p)) by {
                assert(m0.contains_key(p));
            }
            assert(self.table@.dom() =~= m0.dom());
        }
        Ok(())
    }

    /// The event that blocked process `pid` waited for has come: it is
    /// marked ready and appended to the ready queue. Fails with
    /// `ProcessNotFound` for an unknown pid and with `InvalidProcessState`
    /// unless `pid` is blocked.
    pub fn unblock(&mut self, pid: u64) -> (r: Result<(), SchedulerError>)
        requires
            old(self).wf(),
        ensures
            final(self).wf(),
            final(self).slice() == old(self).slice(),
            final(self).next_pid_spec() == old(self).next_pid_spec(),
            final(self).ticks_used() == old(self).ticks_used(),
            !old(self).procs().contains_key(pid) ==> r == Err::<(), SchedulerError>(
                SchedulerError::ProcessNotFound,
            ),
            old(self).procs().contains_key(pid) && old(self).procs()[pid].state
                != ProcessState::Blocked ==> r == Err::<(), SchedulerError>(
                SchedulerError::InvalidProcessState,
            ),
            r is Err ==> final(self).procs() == old(self).procs() && final(self).sched_view()
                == old(self).sched_view(),
            old(self).procs().contains_key(pid) && old(self).procs()[pid].state
                == ProcessState::Blocked ==> r is Ok && final(self).procs() == old(
                self,
            ).procs().insert(pid, with_state(old(self).procs()[pid], ProcessState::Ready))
                && final(self).sched_view() == (SchedView {
                queue: old(self).sched_view().queue.push(pid),
                running: old(self).sched_view().running,
            }),
    {
        if !self.table.contains_key(&pid) {
            return Err(SchedulerError::ProcessNotFound);
        }
        let mut pcb = self.pcb_of(pid);
        if pcb.state != ProcessState::Blocked {
            return Err(SchedulerError::InvalidProcessState);
        }
        let res = pcb.set_state(ProcessState::Ready);
        assert(res is Ok);
        let ghost m0 = self.table@;
        let ghost q0 = self.ready_queue@;
        proof {
            if q0.contains(pid) {
                let i = choose|i: int| 0 <= i < q0.len() && q0[i] == pid;
                assert(m0.contains_key(q0[i]));
            }
        }
        self.table.insert(pid, pcb);
        self.ready_queue.push(pid);
        proof {
            assert(self.ready_queue@ == q0.push(pid));
            assert forall|a: int, b: int|
                0 <= a < self.ready_queue@.len() && 0 <= b < self.ready_queue@.len() && a != b
                implies self.ready_queue@[a] != self.ready_queue@[b] by {
                if a < q0.len() && b < q0.len() {
                    assert(q0[a] != q0[b]);
                }
            }
            assert forall|i: int| 0 <= i < self.ready_queue@.len() implies self.table@.contains_key(
                #[trigger] self.ready_queue@[i],
            ) && self.table@[self.ready_queue@[i]].state == ProcessState::Ready by {
                if i < q0.len() {
                    assert(q0[i] == self.ready_queue@[i]);
                    assert(m0.contains_key(q0[i]));
                }
            }
            assert forall|p: u64| #[trigger] self.table@.contains_key(p) implies self.table@[p].pid == p
                && p < self.next_pid && (self.table@[p].state == ProcessState::Ready
                ==> self.ready_queue@.contains(p)) && (self.table@[p].state == ProcessState::Running
                <==> self.current == Some(p)) by {
                assert(m0.contains_key(p));
                if p != pid && self.table@[p].state == ProcessState::Ready {
                    let i = choose|i: int| 0 <= i < q0.len() && q0[i] == p;
                    assert(self.ready_queue@[i] == p);
                }
                if p == pid {
                    assert(self.ready_queue@[q0.len() as int] == p);
                }
            }
            assert(self.table@.dom() =~= m0.dom());
        }
        Ok(())
    }

    /// The running process `pid` exits: it becomes a zombie, kept in the
    /// table until it is reaped, and gives up the processor. Fails with
    /// `ProcessNotFound` for an unknown pid and with `InvalidProcessState`
    /// unless `pid` is running.
    pub fn terminate(&mut self, pid: u64) -> (r: Result<(), SchedulerError>)
        requires
            old(self).wf(),
        ensures
            final(self).wf(),
            final(self).slice() == old(self).slice(),
            final(self).next_pid_spec() == old(self).next_pid_spec(),
            !old(self).procs().contains_key(pid) ==> r == Err::<(), SchedulerError>(
                SchedulerError::ProcessNotFound,
            ),
            old(self).procs().contains_key(pid) && !is_legal_transition(
                old(self).procs()[pid].state,
                ProcessState::Zombie,
            ) ==> r == Err::<(), SchedulerError>(SchedulerError::InvalidProcessState),
            r is Err ==> final(self).procs() == old(self).procs() && final(self).sched_view()
                == old(self).sched_view() && final(self).ticks_used() == old(self).ticks_used(),
            old(self).procs().contains_key(pid) && is_legal_transition(
                old(self).procs()[pid].state,
                ProcessState::Zombie,
            ) ==> r is Ok && final(self).procs() == old(self).procs().insert(
                pid,
                with_state(old(self).procs()[pid], ProcessState::Zombie),
            ) && final(self).sched_view() == (SchedView {
                queue: old(self).sched_view().queue,
                running: None,
            }) && final(self).ticks_used() == 0,
    {
        if !self.table.contains_key(&pid) {
            return Err(SchedulerError::ProcessNotFound);
        }
        let mut pcb = self.pcb_of(pid);
        match pcb.set_state(ProcessState::Zombie) {
            Ok(()) => {},
            Err(e) => {
                return Err(e);
            },
        }
        let ghost m0 = self.table@;
        self.table.insert(pid, pcb);
        self.current = None;
        self.ticks = 0;
        proof {
            assert forall|i: int| 0 <= i < self.ready_queue@.len() implies self.table@.contains_key(
                #[trigger] self.ready_queue@[i],
            ) && self.table@[self.ready_queue@[i]].state == ProcessState::Ready by {
                assert(m0.contains_key(self.ready_queue@[i]));
            }
            assert forall|p: u64| #[trigger] self.table@.contains_key(p) implies self.table@[p].pid == p
                && p < self.next_pid && (self.table@[p].state == ProcessState::Ready
                ==> self.ready_queue@.contains(p)) && (self.table@[p].state == ProcessState::Running
                <==> self.current == Some(p)) by {
                assert(m0.contains_key(p));
            }
            assert(self.table@.dom() =~= m0.dom());
        }
        Ok(())
    }

    /// Removes the zombie `pid` from the table and gives its kernel stack
    /// frame back to `alloc`; returns the root of its address space, which
    /// `Kernel::reap` tears down. Fails with `ProcessNotFound` unless `pid` is a
    /// zombie.
    pub fn reap(&mut self, pid: u64, alloc: &mut PhysicalMemoryManager) -> (r: Result<
        u64,
        SchedulerError,
    >)
        requires
            old(self).wf(),
            old(alloc).wf(),
            old(self).procs().contains_key(pid) && old(self).procs()[pid].state
                == ProcessState::Zombie ==> old(alloc)@.allocated.contains(
                old(self).procs()[pid].kernel_stack,
            ),
        ensures
            final(self).wf(),
            final(alloc).wf(),
            final(self).slice() == old(self).slice(),
            final(self).next_pid_spec() == old(self).next_pid_spec(),
            final(self).ticks_used() == old(self).ticks_used(),
            final(self).sched_view() == old(self).sched_view(),
            !(old(self).procs().contains_key(pid) && old(self).procs()[pid].state
                == ProcessState::Zombie) ==> r == Err::<u64, SchedulerError>(
                SchedulerError::ProcessNotFound,
            ) && final(self).procs() == old(self).procs() && final(alloc)@ == old(alloc)@,
            old(self).procs().contains_key(pid) && old(self).procs()[pid].state
                == ProcessState::Zombie ==> r == Ok::<u64, SchedulerError>(
                old(self).procs()[pid].address_space,
            ) && final(self).procs() == old(self).procs().remove(pid) && free_post(
                old(alloc)@,
                final(alloc)@,
                old(self).procs()[pid].kernel_stack,
            ),
    {
        if !self.table.contains_key(&pid) {
            return Err(SchedulerError::ProcessNotFound);
        }
        let pcb = self.pcb_of(pid);
        if pcb.state != ProcessState::Zombie {
            return Err(SchedulerError::ProcessNotFound);
        }
        let ghost m0 = self.table@;
        self.table.remove(&pid);
        alloc.free_frame(pcb.kernel_stack);
        proof {
            assert forall|i: int| 0 <= i < self.ready_queue@.len() implies self.table@.contains_key(
                #[trigger] self.ready_queue@[i],
            ) && self.table@[self.ready_queue@[i]].state == ProcessState::Ready by {
                assert(m0.contains_key(self.ready_queue@[i]));
            }
            assert forall|p: u64| #[trigger] self.table@.contains_key(p) implies self.table@[p].pid == p
                && p < self.next_pid && (self.table@[p].state == ProcessState::Ready
                ==> self.ready_queue@.contains(p)) && (self.table@[p].state == ProcessState::Running
                <==> self.current == Some(p)) by {
                assert(m0.contains_key(p));
            }
            assert(self.table@.dom() =~= m0.dom().remove(pid));
        }
        Ok(pcb.address_space)
    }

}

} // verus!
