use vstd::prelude::*;
use crate::error::MemoryError;
use crate::memory::{MemoryRegion, MemoryType, FRAME_SIZE, is_kernel_type, region_end};

verus! {

/// Whether `f` is the address of a whole, aligned frame inside `r`.
pub open spec fn frame_in_region(r: MemoryRegion, f: int) -> bool {
    f % 4096 == 0 && r.start_addr <= f && f + 4096 <= region_end(r)
}

/// Whether `f` is a whole frame of an available region `r`.
pub open spec fn frame_in_usable_region(r: MemoryRegion, f: int) -> bool {
    r.memory_type == MemoryType::Available && frame_in_region(r, f)
}

/// Whether the frame at `f` shares a byte with `r`.
pub open spec fn frame_touches(r: MemoryRegion, f: int) -> bool {
    r.size > 0 && r.start_addr < f + 4096 && f < region_end(r)
}

/// Whether one of the first `k` regions offers frame `f` as usable memory.
pub open spec fn usable_before(regions: Seq<MemoryRegion>, k: int, f: int) -> bool {
    exists|i: int| 0 <= i < k && #[trigger] frame_in_usable_region(regions[i], f)
}

/// Whether a kernel code or data region claims part of frame `f`.
pub open spec fn claimed_by_kernel(regions: Seq<MemoryRegion>, f: int) -> bool {
    exists|j: int|
        0 <= j < regions.len() && is_kernel_type(regions[j].memory_type) && #[trigger] frame_touches(
            regions[j],
            f,
        )
}

/// The frames that a memory map hands to the allocator: whole frames of
/// available regions that no kernel region claims.
pub open spec fn is_usable_frame(regions: Seq<MemoryRegion>, f: int) -> bool {
    usable_before(regions, regions.len() as int, f) && !claimed_by_kernel(regions, f)
}

/// The set of frames that a memory map hands to the allocator.
pub open spec fn usable_frames(regions: Seq<MemoryRegion>) -> Set<u64> {
    Set::new(|f: u64| is_usable_frame(regions, f as int))
}

/// What the allocator knows of frames: those it may hand out and those it
/// has handed out and not yet taken back.
pub ghost struct FrameState {
    pub free: Set<u64>,
    pub allocated: Set<u64>,
}

impl FrameState {
    /// No frame is both free and allocated, and every frame is aligned.
    pub open spec fn wf(self) -> bool {
        self.free.disjoint(self.allocated) && self.free.finite() && (forall|f: u64|
            #[trigger] self.free.contains(f) ==> f % 4096 == 0) && (forall|f: u64|
            #[trigger] self.allocated.contains(f) ==> f % 4096 == 0)
    }
}

/// How `allocate_frame` relates the state before to the state after.
pub open spec fn allocate_post(pre: FrameState, post: FrameState, r: Option<u64>) -> bool {
    match r {
        Some(f) => pre.free.contains(f) && post.free == pre.free.remove(f) && post.allocated
            == pre.allocated.insert(f),
        None => pre.free == Set::<u64>::empty() && post == pre,
    }
}

/// How `free_frame(f)` relates the state before to the state after.
pub open spec fn free_post(pre: FrameState, post: FrameState, f: u64) -> bool {
    pre.allocated.contains(f) && post.free == pre.free.insert(f) && post.allocated
        == pre.allocated.remove(f)
}

/// One call on the allocator, with what it returned or was given.
pub ghost enum FrameOp {
    Allocate(Option<u64>),
    Free(u64),
}

/// Whether `op` takes the allocator from `pre` to `post`.
pub open spec fn frame_step(pre: FrameState, op: FrameOp, post: FrameState) -> bool {
    match op {
        FrameOp::Allocate(r) => allocate_post(pre, post, r),
        FrameOp::Free(f) => free_post(pre, post, f),
    }
}

/// Over any run of allocate and free calls, a frame that `allocate_frame`
/// returned is not returned again before a `free_frame` of that frame.
pub proof fn lemma_no_double_allocation(
    states: Seq<FrameState>,
    ops: Seq<FrameOp>,
    i: int,
    j: int,
    f: u64,
)
    requires
        states.len() == ops.len() + 1,
        forall|k: int| 0 <= k < ops.len() ==> #[trigger] frame_step(states[k], ops[k], states[k + 1]),
        0 <= i < j < ops.len(),
        ops[i] == FrameOp::Allocate(Some(f)),
        ops[j] == FrameOp::Allocate(Some(f)),
    ensures
        exists|k: int| i < k < j && ops[k] == FrameOp::Free(f),
{
    if !exists|k: int| i < k < j && ops[k] == FrameOp::Free(f) {
        assert(frame_step(states[i], ops[i], states[i + 1]));
        lemma_stays_taken(states, ops, i, j, f, i + 1);
        assert(frame_step(states[j], ops[j], states[j + 1]));
    }
}

proof fn lemma_stays_taken(states: Seq<FrameState>, ops: Seq<FrameOp>, i: int, j: int, f: u64, k: int)
    requires
        states.len() == ops.len() + 1,
        forall|m: int| 0 <= m < ops.len() ==> #[trigger] frame_step(states[m], ops[m], states[m + 1]),
        0 <= i,
        i + 1 <= k,
        k <= j,
        j < ops.len(),
        !states[k].free.contains(f),
        forall|m: int| i < m < j ==> ops[m] != FrameOp::Free(f),
    ensures
        !states[j].free.contains(f),
    decreases j - k,
{
    if k < j {
        assert(frame_step(states[k], ops[k], states[k + 1]));
        assert(ops[k] != FrameOp::Free(f));
        lemma_stays_taken(states, ops, i, j, f, k + 1);
    }
}

proof fn lemma_align_up(start: int, rem: int, cur: int, x: int)
    requires
        start >= 0,
        rem == start % 4096,
        rem == 0 ==> cur == start,
        rem != 0 ==> cur == start + 4096 - rem,
        x % 4096 == 0,
        x >= start,
    ensures
        x >= cur,
{
    assert(x >= cur) by (nonlinear_arith)
        requires
            start >= 0,
            rem == start % 4096,
            rem == 0 ==> cur == start,
            rem != 0 ==> cur == start + 4096 - rem,
            x % 4096 == 0,
            x >= start,
    {};
}

proof fn lemma_aligned_step(x: int, f: int)
    requires
        x % 4096 == 0,
        f % 4096 == 0,
        x != f,
    ensures
        x < f + 4096 <==> x < f,
{
    assert(x < f + 4096 <==> x < f) by (nonlinear_arith)
        requires
            x % 4096 == 0,
            f % 4096 == 0,
            x != f,
    {};
}

proof fn lemma_pop_set(s: Seq<u64>)
    requires
        s.len() > 0,
        s.no_duplicates(),
    ensures
        s.drop_last().no_duplicates(),
        s.drop_last().to_set() == s.to_set().remove(s.last()),
{
    let t = s.drop_last();
    assert forall|x: u64| #[trigger] t.to_set().contains(x) <==> s.to_set().remove(s.last()).contains(x) by {
        if t.contains(x) {
            let a = choose|a: int| 0 <= a < t.len() && t[a] == x;
            assert(s[a] == x);
            assert(x != s.last());
        }
        if s.contains(x) && x != s.last() {
            let a = choose|a: int| 0 <= a < s.len() && s[a] == x;
            assert(a < s.len() - 1);
            assert(t[a] == x);
        }
    }
    assert(t.to_set() =~= s.to_set().remove(s.last()));
}

pub(crate) proof fn lemma_push_set(s: Seq<u64>, x: u64)
    requires
        s.no_duplicates(),
        !s.contains(x),
    ensures
        s.push(x).no_duplicates(),
        s.push(x).to_set() == s.to_set().insert(x),
{
    let t = s.push(x);
    assert forall|y: u64| #[trigger] t.to_set().contains(y) <==> s.to_set().insert(x).contains(y) by {
        if t.contains(y) {
            let a = choose|a: int| 0 <= a < t.len() && t[a] == y;
            if a < s.len() {
                assert(s[a] == y);
            }
        }
        if s.contains(y) {
            let a = choose|a: int| 0 <= a < s.len() && s[a] == y;
            assert(t[a] == y);
        }
        if y == x {
            assert(t[s.len() as int] == y);
        }
    }
    assert(t.to_set() =~= s.to_set().insert(x));
    assert forall|a: int, b: int| 0 <= a < t.len() && 0 <= b < t.len() && a != b implies t[a] != t[b] by {
        if a == s.len() {
            assert(t[b] == s[b]);
        } else if b == s.len() {
            assert(t[a] == s[a]);
        }
    }
}

/// Physical frame allocator over a free list: frames handed out are
/// recorded as allocated until they come back through `free_frame`.
pub struct PhysicalMemoryManager {
    free_list: Vec<u64>,
    allocated: Ghost<Set<u64>>,
}

/// The name that the rest of the kernel uses for the frame allocator.
pub type FrameAllocator = PhysicalMemoryManager;

impl View for PhysicalMemoryManager {
    type V = FrameState;

    closed spec fn view(&self) -> FrameState {
        FrameState { free: self.free_list@.to_set(), allocated: self.allocated@ }
    }
}

fn frame_fits(r: &MemoryRegion, f: u64) -> (b: bool)
    ensures
        b == frame_in_region(*r, f as int),
{
    f % FRAME_SIZE == 0 && f >= r.start_addr && r.size >= FRAME_SIZE && f - r.start_addr <= r.size
        - FRAME_SIZE
}

fn frame_touches_region(r: &MemoryRegion, f: u64) -> (b: bool)
    ensures
        b == frame_touches(*r, f as int),
{
    r.size > 0 && (r.start_addr <= f || r.start_addr - f < FRAME_SIZE) && (f < r.start_addr
        || f - r.start_addr < r.size)
}

fn in_earlier_usable(regions: &Vec<MemoryRegion>, k: usize, f: u64) -> (b: bool)
    requires
        k <= regions@.len(),
    ensures
        b == usable_before(regions@, k as int, f as int),
{
    let mut i: usize = 0;
    while i < k
        invariant
            k <= regions@.len(),
            i <= k,
            forall|m: int| 0 <= m < i ==> !#[trigger] frame_in_usable_region(regions@[m], f as int),
        decreases k - i,
    {
        if regions[i].memory_type == MemoryType::Available && frame_fits(&regions[i], f) {
            assert(frame_in_usable_region(regions@[i as int], f as int));
            return true;
        }
        i += 1;
    }
    false
}

fn kernel_claims(regions: &Vec<MemoryRegion>, f: u64) -> (b: bool)
    ensures
        b == claimed_by_kernel(regions@, f as int),
{
    let mut j: usize = 0;
    while j < regions.len()
        invariant
            j <= regions@.len(),
            forall|m: int|
                0 <= m < j ==> !(is_kernel_type(regions@[m].memory_type) && #[trigger] frame_touches(
                    regions@[m],
                    f as int,
                )),
        decreases regions@.len() - j,
    {
        let t = regions[j].memory_type;
        if (t == MemoryType::KernelCode || t == MemoryType::KernelData) && frame_touches_region(
            &regions[j],
            f,
        ) {
            assert(frame_touches(regions@[j as int], f as int));
            return true;
        }
        j += 1;
    }
    false
}

impl PhysicalMemoryManager {
    pub closed spec fn wf(&self) -> bool {
        &&& self.free_list@.no_duplicates()
        &&& self@.wf()
    }

    /// A well-formed allocator has a well-formed view.
    pub proof fn lemma_view_wf(&self)
        requires
            self.wf(),
        ensures
            self@.wf(),
    {
    }

    /// Builds the free set from the whole frames of every available region,
    /// leaving out any frame that a kernel code or data region touches.
    /// Fails with `OutOfMemory` when that leaves no frame at all.
    pub fn init(regions: &Vec<MemoryRegion>) -> (r: Result<Self, MemoryError>)
        ensures
            match r {
                Ok(a) => a.wf() && a@.wf() && a@.allocated == Set::<u64>::empty() && (forall|f: u64|
                    #[trigger] a@.free.contains(f) <==> is_usable_frame(regions@, f as int))
                    && a@.free != Set::<u64>::empty(),
                Err(e) => e == MemoryError::OutOfMemory && forall|f: u64|
                    !#[trigger] is_usable_frame(regions@, f as int),
            },
    {
        let mut free_list: Vec<u64> = Vec::new();
        let n = regions.len();
        let mut k: usize = 0;
        while k < n
            invariant
                n == regions@.len(),
                k <= n,
                free_list@.no_duplicates(),
                forall|x: u64|
                    #[trigger] free_list@.contains(x) <==> (usable_before(regions@, k as int, x as int)
                        && !claimed_by_kernel(regions@, x as int)),
                forall|m: int| 0 <= m < free_list@.len() ==> #[trigger] free_list@[m] % 4096 == 0,
            decreases n - k,
        {
            let reg = regions[k];
            let start = reg.start_addr as u128;
            let end = start + reg.size as u128;
            let rem = start % 4096;
            let mut cur: u128 = if rem == 0 {
                start
            } else {
                start + (4096 - rem)
            };
            proof {
                assert forall|x: u64| frame_in_usable_region(reg, x as int) implies x >= cur by {
                    lemma_align_up(start as int, rem as int, cur as int, x as int);
                }
            }
            assert(cur % 4096 == 0) by (nonlinear_arith)
                requires
                    rem == start % 4096,
                    rem == 0 ==> cur == start,
                    rem != 0 ==> cur == start + 4096 - rem,
            {};
            let usable = reg.memory_type == MemoryType::Available;
            while usable && cur <= u64::MAX as u128 && cur + 4096 <= end
                invariant
                    n == regions@.len(),
                    k < n,
                    reg == regions@[k as int],
                    start == reg.start_addr,
                    end == region_end(reg),
                    cur >= start,
                    cur <= u64::MAX as u128 + 4096,
                    cur % 4096 == 0,
                    usable == (reg.memory_type == MemoryType::Available),
                    free_list@.no_duplicates(),
                    forall|x: u64|
                        #[trigger] free_list@.contains(x) <==> ((usable_before(regions@, k as int, x as int)
                            || (frame_in_usable_region(reg, x as int) && x < cur)) && !claimed_by_kernel(
                            regions@,
                            x as int,
                        )),
                    forall|m: int| 0 <= m < free_list@.len() ==> #[trigger] free_list@[m] % 4096 == 0,
                decreases end - cur,
            {
                let f = cur as u64;
                assert(frame_in_usable_region(reg, f as int));
                let ghost before = free_list@;
                let earlier = in_earlier_usable(regions, k, f);
                let claimed = kernel_claims(regions, f);
                if !earlier && !claimed {
                    proof {
                        lemma_push_set(free_list@, f);
                    }
                    free_list.push(f);
                }
                cur = cur + 4096;
                proof {
                    assert forall|x: u64|
                        #[trigger] free_list@.contains(x) <==> ((usable_before(regions@, k as int, x as int)
                            || (frame_in_usable_region(reg, x as int) && x < cur)) && !claimed_by_kernel(
                            regions@,
                            x as int,
                        )) by {
                        if x != f {
                            if frame_in_usable_region(reg, x as int) {
                                lemma_aligned_step(x as int, f as int);
                            }
                            if !earlier && !claimed {
                                assert(free_list@ == before.push(f));
                                assert(free_list@.to_set().contains(x) == before.to_set().contains(x));
                            }
                        } else if !earlier && !claimed {
                            assert(free_list@[before.len() as int] == f);
                        }
                    }
                    if !earlier && !claimed {
                        assert forall|m: int| 0 <= m < free_list@.len() implies #[trigger] free_list@[m] % 4096 == 0 by {
                            if m < before.len() {
                                assert(free_list@[m] == before[m]);
                            }
                        }
                    }
                }
            }
            proof {
                assert forall|x: u64| #[trigger] free_list@.contains(x) <==> (usable_before(
                    regions@,
                    k + 1,
                    x as int,
                ) && !claimed_by_kernel(regions@, x as int)) by {
                    if frame_in_usable_region(reg, x as int) {
                        assert(x < cur);
                    }
                    if usable_before(regions@, k + 1, x as int) {
                        let i = choose|i: int| 0 <= i < k + 1 && #[trigger] frame_in_usable_region(regions@[i], x as int);
                        if i < k {
                            assert(usable_before(regions@, k as int, x as int));
                        }
                    }
                    if usable_before(regions@, k as int, x as int) {
                        let i = choose|i: int| 0 <= i < k && #[trigger] frame_in_usable_region(regions@[i], x as int);
                        assert(frame_in_usable_region(regions@[i], x as int));
                    }
                    if frame_in_usable_region(reg, x as int) {
                        assert(frame_in_usable_region(regions@[k as int], x as int));
                    }
                }
            }
            k += 1;
        }
        if free_list.len() == 0 {
            proof {
                assert forall|f: u64| !#[trigger] is_usable_frame(regions@, f as int) by {
                    if is_usable_frame(regions@, f as int) {
                        assert(free_list@.contains(f));
                    }
                }
            }
            return Err(MemoryError::OutOfMemory);
        }
        let a = PhysicalMemoryManager { free_list, allocated: Ghost(Set::empty()) };
        proof {
            assert(a@.free.contains(a.free_list@[0]));
            a.free_list@.unique_seq_to_set();
        }
        Ok(a)
    }

    /// Number of free frames.
    pub fn free_count(&self) -> (r: usize)
        requires
            self.wf(),
        ensures
            r == self@.free.len(),
    {
        proof {
            self.free_list@.unique_seq_to_set();
        }
        self.free_list.len()
    }

    /// Removes one free frame from the pool and hands it out; `None` when
    /// no frame is free.
    pub fn allocate_frame(&mut self) -> (r: Option<u64>)
        requires
            old(self).wf(),
        ensures
            final(self).wf(),
            final(self)@.wf(),
            allocate_post(old(self)@, final(self)@, r),
    {
        match self.free_list.pop() {
            Some(f) => {
                proof {
                    lemma_pop_set(old(self).free_list@);
                    assert(old(self).free_list@.contains(f));
                    self.allocated = Ghost(self.allocated@.insert(f));
                }
                Some(f)
            },
            None => {
                proof {
                    assert(self@.free =~= Set::<u64>::empty());
                }
                None
            },
        }
    }

    /// Takes back a frame that this allocator handed out.
    pub fn free_frame(&mut self, frame: u64)
        requires
            old(self).wf(),
            old(self)@.allocated.contains(frame),
        ensures
            final(self).wf(),
            final(self)@.wf(),
            free_post(old(self)@, final(self)@, frame),
    {
        proof {
            assert(!self.free_list@.contains(frame));
            lemma_push_set(self.free_list@, frame);
        }
        self.free_list.push(frame);
        proof {
            self.allocated = Ghost(self.allocated@.remove(frame));
        }
    }

    /// Whether `frame` is currently free.
    pub fn is_free(&self, frame: u64) -> (r: bool)
        ensures
            r == self@.free.contains(frame),
    {
        let mut i: usize = 0;
        while i < self.free_list.len()
            invariant
                i <= self.free_list@.len(),
                forall|m: int| 0 <= m < i ==> self.free_list@[m] != frame,
            decreases self.free_list@.len() - i,
        {
            if self.free_list[i] == frame {
                assert(self.free_list@.contains(frame));
                return true;
            }
            i += 1;
        }
        false
    }
}

} // verus!
