use vstd::prelude::*;
use std::collections::BTreeMap;
use crate::error::MemoryError;
use crate::frame::{
    allocate_post, frame_touches, free_post, lemma_push_set, FrameState, PhysicalMemoryManager,
};
use crate::memory::{is_kernel_type, region_end, MemoryRegion, MemoryType};

verus! {

broadcast use vstd::laws_cmp::group_laws_cmp;

/// First address of the upper, kernel-owned half of every address space.
pub const UPPER_HALF_START: u64 = 0xffff_8000_0000_0000;

/// One past the last address of the lower, per-process half.
pub const LOWER_HALF_END: u64 = 0x0000_8000_0000_0000;

/// Bytes covered by one entry of the top-level table.
pub const L3_SPAN: u64 = 0x80_0000_0000;

/// Bytes covered by one entry of a second-level table.
pub const L2_SPAN: u64 = 0x4000_0000;

/// Bytes covered by one entry of a third-level table.
pub const L1_SPAN: u64 = 0x20_0000;

/// Permissions of a mapped page; a mapped page is always readable.
#[derive(Debug, Clone, Copy, PartialEq, Eq, Structural)]
pub struct PageFlags {
    pub writable: bool,
    pub user_accessible: bool,
    pub executable: bool,
}

/// A present leaf entry: the frame that backs the page and its permissions.
#[derive(Debug, Clone, Copy, PartialEq, Eq, Structural)]
pub struct PageTableEntry {
    pub frame: u64,
    pub flags: PageFlags,
}

/// Whether `addr` is a canonical 48-bit virtual address.
pub open spec fn is_canonical(addr: u64) -> bool {
    addr < LOWER_HALF_END || addr >= UPPER_HALF_START
}

/// Start of the page that holds `addr`.
pub open spec fn page_of(addr: u64) -> u64 {
    (addr - addr % 4096) as u64
}

/// What a translation of `addr` finds in the leaf entries `m`.
pub open spec fn translate_spec(m: Map<u64, PageTableEntry>, addr: u64) -> Option<PageTableEntry> {
    if m.contains_key(page_of(addr)) {
        Some(m[page_of(addr)])
    } else {
        None
    }
}

/// After a successful `map` of `page` to `frame` with `flags`, every address
/// in that page translates to that frame with those flags; after `unmap` of
/// the page the same lookup finds nothing.
pub proof fn lemma_map_unmap_translate(
    entries: Map<u64, PageTableEntry>,
    page: u64,
    frame: u64,
    flags: PageFlags,
    addr: u64,
)
    requires
        page % 4096 == 0,
        page <= addr < page + 4096,
    ensures
        translate_spec(entries.insert(page, PageTableEntry { frame, flags }), addr) == Some(
            PageTableEntry { frame, flags },
        ),
        translate_spec(entries.insert(page, PageTableEntry { frame, flags }).remove(page), addr)
            is None,
{
    assert(page_of(addr) == page) by (nonlinear_arith)
        requires
            page % 4096 == 0,
            page <= addr < page + 4096,
    {};
}

/// Frames that a call took out of the allocator.
pub open spec fn taken(pre: FrameState, post: FrameState) -> Set<u64> {
    pre.free.difference(post.free)
}

/// The allocator only handed frames out, and recorded each as allocated.
pub open spec fn only_allocated(pre: FrameState, post: FrameState) -> bool {
    &&& post.free.subset_of(pre.free)
    &&& post.allocated == pre.allocated.union(taken(pre, post))
}

/// Permissions of the kernel's own pages: code is executable and read-only,
/// data and stack are writable and never executable.
pub open spec fn kernel_flags(t: MemoryType) -> PageFlags {
    if t == MemoryType::KernelCode {
        PageFlags { writable: false, user_accessible: false, executable: true }
    } else {
        PageFlags { writable: true, user_accessible: false, executable: false }
    }
}

/// Whether `f` is an aligned frame that kernel region `regions[j]` touches.
pub open spec fn kernel_frame(regions: Seq<MemoryRegion>, j: int, f: int) -> bool {
    0 <= j < regions.len() && is_kernel_type(regions[j].memory_type) && f % 4096 == 0
        && frame_touches(regions[j], f)
}

/// Whether one of the first `k` regions is a kernel region touching `f`.
pub open spec fn kernel_frame_before(regions: Seq<MemoryRegion>, k: int, f: int) -> bool {
    exists|j: int| 0 <= j < k && #[trigger] kernel_frame(regions, j, f)
}

/// Where the kernel space maps its image: the frame at `f` appears at
/// `UPPER_HALF_START + f`.
pub open spec fn kernel_page(regions: Seq<MemoryRegion>, page: u64) -> bool {
    page >= UPPER_HALF_START && kernel_frame_before(regions, regions.len() as int, page - UPPER_HALF_START)
}

/// The leaf entry of a kernel page: its frame, with the permissions of a
/// kernel region that touches that frame.
pub open spec fn kernel_entry_ok(regions: Seq<MemoryRegion>, page: u64, e: PageTableEntry) -> bool {
    e.frame == page - UPPER_HALF_START && exists|j: int|
        #[trigger] kernel_frame(regions, j, e.frame as int) && e.flags == kernel_flags(regions[j].memory_type)
}

/// Whether some kernel frame lies beyond the reach of the upper half.
pub open spec fn kernel_image_too_high(regions: Seq<MemoryRegion>) -> bool {
    exists|j: int, f: int| #[trigger] kernel_frame(regions, j, f) && f >= LOWER_HALF_END
}

/// First aligned address at or after `x`.
pub open spec fn align_up(x: int) -> int {
    if x % 4096 == 0 {
        x
    } else {
        x - x % 4096 + 4096
    }
}

/// Number of frames a kernel region touches; zero for other regions.
pub open spec fn region_kernel_frames(r: MemoryRegion) -> int {
    if is_kernel_type(r.memory_type) && r.size > 0 {
        (align_up(region_end(r)) - (r.start_addr - r.start_addr % 4096)) / 4096
    } else {
        0
    }
}

/// Frames touched by the kernel regions among the first `k`, a frame
/// touched by two regions counted twice: a bound on the pages that the
/// kernel space maps.
pub open spec fn kernel_frames_bound(regions: Seq<MemoryRegion>, k: int) -> int
    decreases k,
{
    if k <= 0 {
        0
    } else {
        kernel_frames_bound(regions, k - 1) + region_kernel_frames(regions[k - 1])
    }
}

proof fn lemma_region_frames(r: MemoryRegion)
    ensures
        align_up(region_end(r)) % 4096 == 0,
        region_end(r) <= align_up(region_end(r)),
        is_kernel_type(r.memory_type) && r.size > 0 ==> 4096 * region_kernel_frames(r) == align_up(
            region_end(r),
        ) - (r.start_addr - r.start_addr % 4096),
        region_kernel_frames(r) >= 0,
{
    let e = region_end(r);
    let s = r.start_addr as int;
    assert(align_up(e) % 4096 == 0 && e <= align_up(e)) by (nonlinear_arith)
        requires
            e >= 0,
            align_up(e) == if e % 4096 == 0 {
                e
            } else {
                e - e % 4096 + 4096
            },
    {};
    let d = align_up(e) - (s - s % 4096);
    assert(d % 4096 == 0 && d >= 0) by (nonlinear_arith)
        requires
            align_up(e) % 4096 == 0,
            s >= 0,
            e >= s,
            align_up(e) >= e,
            d == align_up(e) - (s - s % 4096),
    {};
    assert(4096 * (d / 4096) == d) by (nonlinear_arith)
        requires
            d % 4096 == 0,
    {};
}

/// The bound grows with the number of regions counted and is never
/// negative.
pub proof fn lemma_frames_bound_mono(regions: Seq<MemoryRegion>, k: int, n: int)
    requires
        0 <= k <= n,
    ensures
        0 <= kernel_frames_bound(regions, k) <= kernel_frames_bound(regions, n),
    decreases n,
{
    if n > k {
        lemma_frames_bound_mono(regions, k, n - 1);
        lemma_region_frames(regions[n - 1]);
    } else if k > 0 {
        lemma_frames_bound_mono(regions, k - 1, k - 1);
        lemma_region_frames(regions[k - 1]);
    }
}

proof fn lemma_step_below_end(cur: int, e: int)
    requires
        cur % 4096 == 0,
        0 <= cur < e,
    ensures
        cur + 4096 <= align_up(e),
{
    assert(cur + 4096 <= align_up(e)) by (nonlinear_arith)
        requires
            cur % 4096 == 0,
            0 <= cur < e,
            align_up(e) == if e % 4096 == 0 {
                e
            } else {
                e - e % 4096 + 4096
            },
    {};
}

proof fn lemma_taken_len(pre: FrameState, post: FrameState)
    requires
        post.free.subset_of(pre.free),
        pre.free.finite(),
    ensures
        pre.free.len() == post.free.len() + taken(pre, post).len(),
        taken(pre, post).subset_of(pre.free),
{
    let t = taken(pre, post);
    vstd::set_lib::lemma_len_subset(post.free, pre.free);
    assert(pre.free =~= post.free.union(t));
    vstd::set_lib::lemma_set_disjoint_lens(post.free, t);
}

proof fn lemma_only_allocated_trans(a: FrameState, b: FrameState, c: FrameState)
    requires
        only_allocated(a, b),
        only_allocated(b, c),
    ensures
        only_allocated(a, c),
{
    assert(c.allocated =~= a.allocated.union(taken(a, c)));
}

proof fn lemma_align_down(start: int, f: int)
    requires
        start >= 0,
        f % 4096 == 0,
        start < f + 4096,
    ensures
        f >= start - start % 4096,
{
    assert(f >= start - start % 4096) by (nonlinear_arith)
        requires
            start >= 0,
            f % 4096 == 0,
            start < f + 4096,
    {};
}

proof fn lemma_next_aligned(x: int, f: int)
    requires
        x % 4096 == 0,
        f % 4096 == 0,
        x != f,
    ensures
        x < f + 4096 <==> x < f,
{
    assert(x < f + 4096 <==> x < f) by (nonlinear_arith)
        requires
            x % 4096 == 0,
            f % 4096 == 0,
            x != f,
    {};
}

/// Whether some present entry of `m` is backed by `frame`.
pub open spec fn frame_in_use(m: Map<u64, PageTableEntry>, frame: u64) -> bool {
    exists|p: u64| m.contains_key(p) && #[trigger] m[p].frame == frame
}

/// No frame backs two present entries.
pub open spec fn frames_unique(m: Map<u64, PageTableEntry>) -> bool {
    forall|p: u64, q: u64|
        m.contains_key(p) && m.contains_key(q) && p != q ==> #[trigger] m[p].frame != #[trigger] m[q].frame
}

/// A page-table tree: a root table, the intermediate tables below it keyed
/// by the part of the address they translate, and the present leaf entries.
pub struct AddressSpace {
    root: u64,
    kernel: bool,
    kernel_root: Option<u64>,
    l3: BTreeMap<u64, u64>,
    l2: BTreeMap<u64, u64>,
    l1: BTreeMap<u64, u64>,
    leaves: BTreeMap<u64, PageTableEntry>,
    owners: BTreeMap<u64, u64>,
    tables_owned: Vec<u64>,
    leaf_frames: Vec<u64>,
}

/// Appends `f` unless `v` holds it already.
fn push_new(v: &mut Vec<u64>, f: u64)
    requires
        old(v)@.no_duplicates(),
    ensures
        final(v)@.no_duplicates(),
        final(v)@.to_set() == old(v)@.to_set().insert(f),
{
    let mut i: usize = 0;
    while i < v.len()
        invariant
            v@ == old(v)@,
            v@.no_duplicates(),
            i <= v@.len(),
            forall|m: int| 0 <= m < i ==> v@[m] != f,
        decreases v@.len() - i,
    {
        if v[i] == f {
            proof {
                assert(v@[i as int] == f);
                assert(v@.to_set() =~= v@.to_set().insert(f));
            }
            return;
        }
        i += 1;
    }
    proof {
        lemma_push_set(v@, f);
    }
    v.push(f);
}

/// Position of `f` in `v`.
fn index_of(v: &Vec<u64>, f: u64) -> (i: usize)
    requires
        v@.contains(f),
    ensures
        i < v@.len(),
        v@[i as int] == f,
{
    let mut i: usize = 0;
    while i < v.len()
        invariant
            v@.contains(f),
            i <= v@.len(),
            forall|m: int| 0 <= m < i ==> v@[m] != f,
        decreases v@.len() - i,
    {
        if v[i] == f {
            return i;
        }
        i += 1;
    }
    proof {
        let m = choose|m: int| 0 <= m < v@.len() && v@[m] == f;
        assert(v@[m] != f);
    }
    0
}

proof fn lemma_remove_at(s: Seq<u64>, i: int)
    requires
        s.no_duplicates(),
        0 <= i < s.len(),
    ensures
        s.remove(i).no_duplicates(),
        forall|y: u64| #[trigger] s.remove(i).contains(y) <==> s.contains(y) && y != s[i],
{
    let t = s.remove(i);
    assert forall|y: u64| #[trigger] t.contains(y) <==> s.contains(y) && y != s[i] by {
        if t.contains(y) {
            let a = choose|a: int| 0 <= a < t.len() && t[a] == y;
            if a < i {
                assert(s[a] == y);
            } else {
                assert(s[a + 1] == y);
            }
        }
        if s.contains(y) && y != s[i] {
            let a = choose|a: int| 0 <= a < s.len() && s[a] == y;
            if a < i {
                assert(t[a] == y);
            } else {
                assert(t[a - 1] == y);
            }
        }
    }
    assert forall|a: int, b: int| 0 <= a < t.len() && 0 <= b < t.len() && a != b implies t[a] != t[b] by {
        let a1 = if a < i { a } else { a + 1 };
        let b1 = if b < i { b } else { b + 1 };
        assert(t[a] == s[a1] && t[b] == s[b1]);
    }
}

/// Adds the table for `key` to `tables`, taking its frame from `alloc`,
/// unless it is there already. False when a table was needed and no frame
/// was left.
fn ensure_table(
    tables: &mut BTreeMap<u64, u64>,
    key: u64,
    owned: &mut Vec<u64>,
    alloc: &mut PhysicalMemoryManager,
) -> (r: bool)
    requires
        old(alloc).wf(),
        old(owned)@.no_duplicates(),
    ensures
        final(alloc).wf(),
        final(owned)@.no_duplicates(),
        final(owned)@.to_set() == old(owned)@.to_set().union(taken(old(alloc)@, final(alloc)@)),
        old(tables)@.contains_key(key) ==> r && final(tables)@ == old(tables)@ && final(alloc)@
            == old(alloc)@,
        !old(tables)@.contains_key(key) && old(alloc)@.free == Set::<u64>::empty() ==> !r
            && final(tables)@ == old(tables)@ && final(alloc)@ == old(alloc)@,
        !old(tables)@.contains_key(key) && old(alloc)@.free != Set::<u64>::empty() ==> r
            && final(tables)@ == old(tables)@.insert(key, final(tables)@[key]) && allocate_post(
            old(alloc)@,
            final(alloc)@,
            Some(final(tables)@[key]),
        ),
{
    proof {
        assert(taken(alloc@, alloc@) =~= Set::<u64>::empty());
        assert(owned@.to_set().union(Set::<u64>::empty()) =~= owned@.to_set());
    }
    if tables.contains_key(&key) {
        return true;
    }
    match alloc.allocate_frame() {
        Some(f) => {
            tables.insert(key, f);
            push_new(owned, f);
            proof {
                assert(taken(old(alloc)@, alloc@) =~= set![f]);
                assert(owned@.to_set() =~= old(owned)@.to_set().union(taken(old(alloc)@, alloc@)));
            }
            true
        },
        None => false,
    }
}

impl AddressSpace {
    /// Present leaf entries, by page address.
    pub closed spec fn mappings(&self) -> Map<u64, PageTableEntry> {
        self.leaves@
    }

    /// Frame of the top-level table.
    pub closed spec fn root_spec(&self) -> u64 {
        self.root
    }

    /// Whether this is the kernel's own space, which may map the upper half.
    pub closed spec fn is_kernel(&self) -> bool {
        self.kernel
    }

    /// Root of the kernel space whose upper half this space shares.
    pub closed spec fn shared_root(&self) -> Option<u64> {
        self.kernel_root
    }

    /// How many intermediate tables a `map` of `page` still has to create.
    pub closed spec fn missing_tables(&self, page: u64) -> nat {
        (if self.l3@.contains_key(page / L3_SPAN) {
            0nat
        } else {
            1nat
        }) + (if self.l2@.contains_key(page / L2_SPAN) {
            0nat
        } else {
            1nat
        }) + (if self.l1@.contains_key(page / L1_SPAN) {
            0nat
        } else {
            1nat
        })
    }

    /// Every present leaf is an aligned page this space may map and hangs
    /// under the intermediate tables that translate its address; `owners`
    /// records, for each frame in use, the one page it backs.
    pub closed spec fn wf(&self) -> bool {
        &&& forall|page: u64|
            #[trigger] self.leaves@.contains_key(page) ==> page % 4096 == 0 && is_canonical(page)
                && (self.kernel || page < LOWER_HALF_END) && self.l3@.contains_key(page / L3_SPAN)
                && self.l2@.contains_key(page / L2_SPAN) && self.l1@.contains_key(page / L1_SPAN)
                && self.owners@.contains_key(self.leaves@[page].frame)
                && self.owners@[self.leaves@[page].frame] == page
        &&& forall|f: u64|
            #[trigger] self.owners@.contains_key(f) ==> self.leaves@.contains_key(self.owners@[f])
                && self.leaves@[self.owners@[f]].frame == f
        &&& self.tables_owned@.no_duplicates()
        &&& self.leaf_frames@.no_duplicates()
        &&& forall|f: u64| #[trigger] self.leaf_frames@.contains(f) <==> self.owners@.contains_key(f)
    }

    /// Frames of the intermediate tables this space has created.
    pub closed spec fn table_frames(&self) -> Set<u64> {
        self.tables_owned@.to_set()
    }

    /// Frames that back present pages.
    pub open spec fn leaf_frames(&self) -> Set<u64> {
        Set::new(|f: u64| frame_in_use(self.mappings(), f))
    }

    /// Every frame the space holds: its root table, its intermediate tables
    /// and the frames behind its pages.
    pub open spec fn owned_frames(&self) -> Set<u64> {
        set![self.root_spec()].union(self.table_frames()).union(self.leaf_frames())
    }

    /// Every present page is aligned and lies where this space may map,
    /// and no frame backs two present pages.
    pub proof fn lemma_mappings_shape(&self)
        requires
            self.wf(),
        ensures
            forall|page: u64| #[trigger]
                self.mappings().contains_key(page) ==> page % 4096 == 0 && self.may_map(page),
            frames_unique(self.mappings()),
    {
        assert forall|p: u64, q: u64|
            self.mappings().contains_key(p) && self.mappings().contains_key(q) && p != q
            implies #[trigger] self.mappings()[p].frame != #[trigger] self.mappings()[q].frame by {
            assert(self.leaves@.contains_key(p));
            assert(self.leaves@.contains_key(q));
        }
    }

    /// Whether this space may hold a leaf for `page`: the upper half belongs
    /// to the kernel space alone.
    pub open spec fn may_map(&self, page: u64) -> bool {
        is_canonical(page) && (self.is_kernel() || page < LOWER_HALF_END)
    }

    fn empty(root: u64, kernel: bool, kernel_root: Option<u64>) -> (r: Self)
        ensures
            r.wf(),
            r.root_spec() == root,
            r.is_kernel() == kernel,
            r.shared_root() == kernel_root,
            r.mappings() == Map::<u64, PageTableEntry>::empty(),
            r.table_frames() == Set::<u64>::empty(),
    {
        let r = AddressSpace {
            root,
            kernel,
            kernel_root,
            l3: BTreeMap::new(),
            l2: BTreeMap::new(),
            l1: BTreeMap::new(),
            leaves: BTreeMap::new(),
            owners: BTreeMap::new(),
            tables_owned: Vec::new(),
            leaf_frames: Vec::new(),
        };
        proof {
            assert(r.tables_owned@.to_set() =~= Set::<u64>::empty());
            assert(r.leaves@ =~= Map::<u64, PageTableEntry>::empty());
            assert(r.owners@ =~= Map::<u64, u64>::empty());
        }
        r
    }

    /// An empty space for a process: a fresh root table from `alloc`, and
    /// the upper half shared with `kernel`. Fails with `OutOfMemory` when
    /// no frame is free.
    pub fn new_user_space(alloc: &mut PhysicalMemoryManager, kernel: &AddressSpace) -> (r: Result<
        AddressSpace,
        MemoryError,
    >)
        requires
            old(alloc).wf(),
        ensures
            final(alloc).wf(),
            old(alloc)@.free == Set::<u64>::empty() <==> r is Err,
            r is Err ==> r == Err::<AddressSpace, MemoryError>(MemoryError::OutOfMemory)
                && final(alloc)@ == old(alloc)@,
            r matches Ok(s) ==> s.wf() && !s.is_kernel() && s.shared_root() == Some(
                kernel.root_spec(),
            ) && s.mappings() == Map::<u64, PageTableEntry>::empty() && s.table_frames() == Set::<
                u64,
            >::empty() && allocate_post(
                old(alloc)@,
                final(alloc)@,
                Some(s.root_spec()),
            ),
    {
        match alloc.allocate_frame() {
            Some(f) => Ok(AddressSpace::empty(f, false, Some(kernel.root))),
            None => Err(MemoryError::OutOfMemory),
        }
    }

    /// Frame of the top-level table, which `activate` hands to the hardware.
    pub fn root(&self) -> (r: u64)
        ensures
            r == self.root_spec(),
    {
        self.root
    }

    /// Looks up the leaf entry of the page that holds `addr`.
    pub fn translate(&self, addr: u64) -> (r: Option<PageTableEntry>)
        ensures
            r == translate_spec(self.mappings(), addr),
    {
        let page = addr - addr % 4096;
        match self.leaves.get(&page) {
            Some(e) => Some(*e),
            None => None,
        }
    }

    /// Maps `page` to `frame` with `flags`, creating the intermediate tables
    /// on the way with frames from `alloc`. Fails with `AlreadyMapped` when
    /// the page is present (the entry is never overwritten), then with
    /// `AlignmentError` for an unaligned page or frame, with
    /// `InvalidAddress` for a page this space may not map, with
    /// `AlreadyMapped` when another page is backed by `frame`, and with
    /// `OutOfMemory` when a table frame is needed and none is free; tables
    /// made before that stay.
    pub fn map(
        &mut self,
        page: u64,
        frame: u64,
        flags: PageFlags,
        alloc: &mut PhysicalMemoryManager,
    ) -> (r: Result<(), MemoryError>)
        requires
            old(self).wf(),
            old(alloc).wf(),
        ensures
            final(self).wf(),
            final(alloc).wf(),
            final(self).root_spec() == old(self).root_spec(),
            final(self).is_kernel() == old(self).is_kernel(),
            final(self).shared_root() == old(self).shared_root(),
            only_allocated(old(alloc)@, final(alloc)@),
            final(self).table_frames() == old(self).table_frames().union(
                taken(old(alloc)@, final(alloc)@),
            ),
            old(self).mappings().contains_key(page) ==> r == Err::<(), MemoryError>(
                MemoryError::AlreadyMapped,
            ),
            !old(self).mappings().contains_key(page) && (page % 4096 != 0 || frame % 4096 != 0)
                ==> r == Err::<(), MemoryError>(MemoryError::AlignmentError),
            (!old(self).mappings().contains_key(page) && page % 4096 == 0 && frame % 4096 == 0
                && !old(self).may_map(page)) ==> r == Err::<(), MemoryError>(
                MemoryError::InvalidAddress,
            ),
            (!old(self).mappings().contains_key(page) && page % 4096 == 0 && frame % 4096 == 0
                && old(self).may_map(page) && frame_in_use(old(self).mappings(), frame)) ==> r
                == Err::<(), MemoryError>(MemoryError::AlreadyMapped),
            (!old(self).mappings().contains_key(page) && page % 4096 == 0 && frame % 4096 == 0
                && old(self).may_map(page) && !frame_in_use(old(self).mappings(), frame)) ==> (r is Ok
                <==> old(self).missing_tables(page) <= old(alloc)@.free.len()) && (r is Err ==> r
                == Err::<(), MemoryError>(MemoryError::OutOfMemory)),
            r is Err ==> final(self).mappings() == old(self).mappings(),
            r == Err::<(), MemoryError>(MemoryError::OutOfMemory) ==> final(alloc)@.free == Set::<
                u64,
            >::empty(),
            r != Err::<(), MemoryError>(MemoryError::OutOfMemory) && r is Err ==> final(alloc)@
                == old(alloc)@,
            r is Ok ==> final(self).mappings() == old(self).mappings().insert(
                page,
                PageTableEntry { frame, flags },
            ) && taken(old(alloc)@, final(alloc)@).len() == old(self).missing_tables(page),
    {
        proof {
            alloc.lemma_view_wf();
            assert(taken(alloc@, alloc@) =~= Set::<u64>::empty());
            assert(alloc@.allocated.union(taken(alloc@, alloc@)) =~= alloc@.allocated);
            assert(self.table_frames().union(taken(alloc@, alloc@)) =~= self.table_frames());
        }
        if self.leaves.contains_key(&page) {
            return Err(MemoryError::AlreadyMapped);
        }
        if page % 4096 != 0 || frame % 4096 != 0 {
            return Err(MemoryError::AlignmentError);
        }
        if !(page < LOWER_HALF_END || page >= UPPER_HALF_START) || (!self.kernel && page
            >= UPPER_HALF_START) {
            return Err(MemoryError::InvalidAddress);
        }
        if self.owners.contains_key(&frame) {
            proof {
                let p = self.owners@[frame];
                assert(self.mappings().contains_key(p) && self.mappings()[p].frame == frame);
            }
            return Err(MemoryError::AlreadyMapped);
        }
        proof {
            if frame_in_use(self.mappings(), frame) {
                let p = choose|p: u64| self.mappings().contains_key(p) && #[trigger] self.mappings()[p].frame == frame;
                assert(self.leaves@.contains_key(p));
            }
        }
        let ghost a0 = alloc@;
        let ghost t0 = self.table_frames();
        let ghost missing = self.missing_tables(page);
        if !ensure_table(&mut self.l3, page / L3_SPAN, &mut self.tables_owned, alloc) {
            proof {
                assert(taken(a0, alloc@) =~= Set::<u64>::empty());
                assert(self.table_frames() =~= t0.union(taken(a0, alloc@)));
            }
            return Err(MemoryError::OutOfMemory);
        }
        let ghost a1 = alloc@;
        proof {
            alloc.lemma_view_wf();
            assert(self.table_frames() =~= t0.union(taken(a0, a1)));
            if a1 != a0 {
                assert(a1.free.len() == a0.free.len() - 1);
            }
        }
        if !ensure_table(&mut self.l2, page / L2_SPAN, &mut self.tables_owned, alloc) {
            proof {
                assert(taken(a0, alloc@) =~= taken(a0, a1));
                assert(alloc@.allocated =~= a0.allocated.union(taken(a0, alloc@)));
                assert(self.table_frames() =~= t0.union(taken(a0, alloc@)));
            }
            return Err(MemoryError::OutOfMemory);
        }
        let ghost a2 = alloc@;
        proof {
            alloc.lemma_view_wf();
            assert(self.table_frames() =~= t0.union(taken(a0, a2)));
            if a2 != a1 {
                assert(a2.free.len() == a1.free.len() - 1);
            }
        }
        if !ensure_table(&mut self.l1, page / L1_SPAN, &mut self.tables_owned, alloc) {
            proof {
                assert(taken(a0, alloc@) =~= taken(a0, a2));
                assert(alloc@.allocated =~= a0.allocated.union(taken(a0, alloc@)));
                assert(self.table_frames() =~= t0.union(taken(a0, alloc@)));
            }
            return Err(MemoryError::OutOfMemory);
        }
        let ghost a3 = alloc@;
        proof {
            assert(self.table_frames() =~= t0.union(taken(a0, a3)));
            assert(!self.leaf_frames@.contains(frame));
            lemma_push_set(self.leaf_frames@, frame);
        }
        let ghost lf0 = self.leaf_frames@;
        self.leaf_frames.push(frame);
        self.leaves.insert(page, PageTableEntry { frame, flags });
        self.owners.insert(frame, page);
        proof {
            assert forall|f: u64| #[trigger] self.leaf_frames@.contains(f) <==> self.owners@.contains_key(f) by {
                assert(self.leaf_frames@.to_set().contains(f) == lf0.to_set().insert(frame).contains(f));
            }
            alloc.lemma_view_wf();
            assert(alloc@.allocated =~= a0.allocated.union(taken(a0, alloc@)));
            let t = taken(a0, alloc@);
            assert(t.subset_of(a0.free));
            vstd::set_lib::lemma_len_subset(t, a0.free);
            assert(a0.free.len() == alloc@.free.len() + t.len()) by {
                assert(a0.free =~= alloc@.free.union(t));
                vstd::set_lib::lemma_set_disjoint_lens(alloc@.free, t);
            }
            assert forall|p: u64| #[trigger] self.leaves@.contains_key(p) implies p % 4096 == 0
                && is_canonical(p) && (self.kernel || p < LOWER_HALF_END) && self.l3@.contains_key(
                p / L3_SPAN,
            ) && self.l2@.contains_key(p / L2_SPAN) && self.l1@.contains_key(p / L1_SPAN)
                && self.owners@.contains_key(self.leaves@[p].frame)
                && self.owners@[self.leaves@[p].frame] == p by {
                if p != page {
                    assert(old(self).leaves@.contains_key(p));
                }
            }
            assert forall|f: u64| #[trigger] self.owners@.contains_key(f) implies self.leaves@.contains_key(
                self.owners@[f],
            ) && self.leaves@[self.owners@[f]].frame == f by {
                if f != frame {
                    assert(old(self).owners@.contains_key(f));
                }
            }
        }
        Ok(())
    }

    /// Clears the leaf entry of `page` and hands back the frame that backed
    /// it; the caller decides whether to free or reuse it. Fails with
    /// `AlignmentError` for an unaligned page and with `InvalidAddress` when
    /// the page is not present.
    pub fn unmap(&mut self, page: u64) -> (r: Result<u64, MemoryError>)
        requires
            old(self).wf(),
        ensures
            final(self).wf(),
            final(self).table_frames() == old(self).table_frames(),
            final(self).root_spec() == old(self).root_spec(),
            final(self).is_kernel() == old(self).is_kernel(),
            final(self).shared_root() == old(self).shared_root(),
            page % 4096 != 0 ==> r == Err::<u64, MemoryError>(MemoryError::AlignmentError),
            page % 4096 == 0 && !old(self).mappings().contains_key(page) ==> r == Err::<
                u64,
                MemoryError,
            >(MemoryError::InvalidAddress),
            r is Err ==> final(self).mappings() == old(self).mappings(),
            page % 4096 == 0 && old(self).mappings().contains_key(page) ==> r == Ok::<
                u64,
                MemoryError,
            >(old(self).mappings()[page].frame) && final(self).mappings() == old(
                self,
            ).mappings().remove(page),
    {
        if page % 4096 != 0 {
            return Err(MemoryError::AlignmentError);
        }
        match self.leaves.remove(&page) {
            Some(e) => {
                self.owners.remove(&e.frame);
                proof {
                    assert(old(self).owners@.contains_key(e.frame));
                }
                let idx = index_of(&self.leaf_frames, e.frame);
                proof {
                    lemma_remove_at(self.leaf_frames@, idx as int);
                }
                self.leaf_frames.remove(idx);
                proof {
                    assert forall|p: u64| #[trigger] self.leaves@.contains_key(p) implies p % 4096 == 0
                        && is_canonical(p) && (self.kernel || p < LOWER_HALF_END)
                        && self.l3@.contains_key(p / L3_SPAN) && self.l2@.contains_key(p / L2_SPAN)
                        && self.l1@.contains_key(p / L1_SPAN) && self.owners@.contains_key(
                        self.leaves@[p].frame,
                    ) && self.owners@[self.leaves@[p].frame] == p by {
                        assert(old(self).leaves@.contains_key(p));
                    }
                    assert forall|f: u64| #[trigger] self.owners@.contains_key(f) implies self.leaves@.contains_key(
                        self.owners@[f],
                    ) && self.leaves@[self.owners@[f]].frame == f by {
                        assert(old(self).owners@.contains_key(f));
                    }
                }
                Ok(e.frame)
            },
            None => Err(MemoryError::InvalidAddress),
        }
    }

    /// Gives every frame the space holds back to `alloc`: the root table,
    /// the intermediate tables and the frames behind present pages. Each
    /// must be allocated, and no frame may play two of these parts.
    pub fn teardown(self, alloc: &mut PhysicalMemoryManager)
        requires
            old(alloc).wf(),
            self.wf(),
            self.owned_frames().subset_of(old(alloc)@.allocated),
            !self.table_frames().contains(self.root_spec()),
            !self.leaf_frames().contains(self.root_spec()),
            self.table_frames().disjoint(self.leaf_frames()),
        ensures
            final(alloc).wf(),
            final(alloc)@.free == old(alloc)@.free.union(self.owned_frames()),
            final(alloc)@.allocated == old(alloc)@.allocated.difference(self.owned_frames()),
    {
        let ghost a0 = alloc@;
        let ghost owned = self.owned_frames();
        proof {
            assert(owned.contains(self.root));
        }
        alloc.free_frame(self.root);
        let ghost done0 = set![self.root];
        proof {
            assert(alloc@.free =~= a0.free.union(done0));
            assert(alloc@.allocated =~= a0.allocated.difference(done0));
        }
        let mut i: usize = 0;
        while i < self.tables_owned.len()
            invariant
                self.wf(),
                alloc.wf(),
                i <= self.tables_owned@.len(),
                owned == self.owned_frames(),
                owned.subset_of(a0.allocated),
                !self.table_frames().contains(self.root),
                self.table_frames().disjoint(self.leaf_frames()),
                !self.leaf_frames().contains(self.root),
                alloc@.free == a0.free.union(done0.union(self.tables_owned@.take(i as int).to_set())),
                alloc@.allocated == a0.allocated.difference(
                    done0.union(self.tables_owned@.take(i as int).to_set()),
                ),
                done0 == set![self.root],
            decreases self.tables_owned@.len() - i,
        {
            let f = self.tables_owned[i];
            let ghost prev = self.tables_owned@.take(i as int);
            proof {
                assert(self.tables_owned@.to_set().contains(f));
                assert(owned.contains(f));
                assert(!prev.contains(f)) by {
                    if prev.contains(f) {
                        let m = choose|m: int| 0 <= m < prev.len() && prev[m] == f;
                        assert(self.tables_owned@[m] == f);
                    }
                }
                assert(f != self.root);
            }
            alloc.free_frame(f);
            proof {
                assert(self.tables_owned@.take(i + 1) =~= prev.push(f));
                lemma_push_set(prev, f);
                assert(alloc@.free =~= a0.free.union(done0.union(self.tables_owned@.take(i + 1).to_set())));
                assert(alloc@.allocated =~= a0.allocated.difference(
                    done0.union(self.tables_owned@.take(i + 1).to_set()),
                ));
            }
            i += 1;
        }
        proof {
            assert(self.tables_owned@.take(i as int) =~= self.tables_owned@);
        }
        let ghost done1 = done0.union(self.table_frames());
        let mut j: usize = 0;
        while j < self.leaf_frames.len()
            invariant
                self.wf(),
                alloc.wf(),
                j <= self.leaf_frames@.len(),
                owned == self.owned_frames(),
                owned.subset_of(a0.allocated),
                done1 == set![self.root].union(self.table_frames()),
                self.table_frames().disjoint(self.leaf_frames()),
                !self.leaf_frames().contains(self.root),
                alloc@.free == a0.free.union(done1.union(self.leaf_frames@.take(j as int).to_set())),
                alloc@.allocated == a0.allocated.difference(
                    done1.union(self.leaf_frames@.take(j as int).to_set()),
                ),
            decreases self.leaf_frames@.len() - j,
        {
            let f = self.leaf_frames[j];
            let ghost prev = self.leaf_frames@.take(j as int);
            proof {
                assert(self.leaf_frames@.contains(f));
                let p = self.owners@[f];
                assert(self.mappings().contains_key(p) && self.mappings()[p].frame == f);
                assert(self.leaf_frames().contains(f));
                assert(owned.contains(f));
                assert(!prev.contains(f)) by {
                    if prev.contains(f) {
                        let m = choose|m: int| 0 <= m < prev.len() && prev[m] == f;
                        assert(self.leaf_frames@[m] == f);
                    }
                }
                assert(!done1.contains(f));
            }
            alloc.free_frame(f);
            proof {
                assert(self.leaf_frames@.take(j + 1) =~= prev.push(f));
                lemma_push_set(prev, f);
                assert(alloc@.free =~= a0.free.union(done1.union(self.leaf_frames@.take(j + 1).to_set())));
                assert(alloc@.allocated =~= a0.allocated.difference(
                    done1.union(self.leaf_frames@.take(j + 1).to_set()),
                ));
            }
            j += 1;
        }
        proof {
            assert(self.leaf_frames@.take(j as int) =~= self.leaf_frames@);
            assert forall|f: u64| #[trigger] self.leaf_frames@.to_set().contains(f) <==> self.leaf_frames().contains(f) by {
                if self.leaf_frames().contains(f) {
                    let p = choose|p: u64| self.mappings().contains_key(p) && #[trigger] self.mappings()[p].frame == f;
                    assert(self.leaves@.contains_key(p));
                }
                if self.leaf_frames@.contains(f) {
                    let p = self.owners@[f];
                    assert(self.mappings().contains_key(p) && self.mappings()[p].frame == f);
                }
            }
            assert(done1.union(self.leaf_frames@.to_set()) =~= owned);
        }
    }

    /// The kernel's own space: a fresh root table, and every frame that a
    /// kernel code or data region touches mapped at `UPPER_HALF_START` plus
    /// its address, code executable and read-only, data writable and not
    /// executable. Fails with `InvalidAddress` when such a frame lies beyond
    /// the reach of the upper half, and with `OutOfMemory` when `alloc` runs
    /// out of frames for tables.
    pub fn new_kernel_space(alloc: &mut PhysicalMemoryManager, regions: &Vec<MemoryRegion>) -> (r:
        Result<AddressSpace, MemoryError>)
        requires
            old(alloc).wf(),
        ensures
            final(alloc).wf(),
            only_allocated(old(alloc)@, final(alloc)@),
            r matches Ok(s) ==> {
                &&& s.wf()
                &&& s.is_kernel()
                &&& s.shared_root() is None
                &&& old(alloc)@.free.contains(s.root_spec())
                &&& final(alloc)@.allocated.contains(s.root_spec())
                &&& !s.table_frames().contains(s.root_spec())
                &&& s.table_frames().insert(s.root_spec()) == taken(old(alloc)@, final(alloc)@)
                &&& forall|page: u64| #[trigger]
                    s.mappings().contains_key(page) <==> kernel_page(regions@, page)
                &&& forall|page: u64| #[trigger]
                    s.mappings().contains_key(page) ==> kernel_entry_ok(regions@, page, s.mappings()[page])
            },
            r == Err::<AddressSpace, MemoryError>(MemoryError::OutOfMemory) ==> final(alloc)@.free
                == Set::<u64>::empty(),
            r == Err::<AddressSpace, MemoryError>(MemoryError::InvalidAddress) ==> exists|j: int, f: int|
                #[trigger] kernel_frame(regions@, j, f) && f >= LOWER_HALF_END,
            r is Err ==> r == Err::<AddressSpace, MemoryError>(MemoryError::OutOfMemory) || r
                == Err::<AddressSpace, MemoryError>(MemoryError::InvalidAddress),
            !kernel_image_too_high(regions@) && old(alloc)@.free.len() >= 1 + 3
                * kernel_frames_bound(regions@, regions@.len() as int) ==> r is Ok,
            r is Ok ==> final(alloc)@.free.len() + 1 + 3 * kernel_frames_bound(
                regions@,
                regions@.len() as int,
            ) >= old(alloc)@.free.len(),
    {
        let ghost a0 = alloc@;
        let ghost bound = kernel_frames_bound(regions@, regions@.len() as int);
        let ghost hyp = !kernel_image_too_high(regions@) && a0.free.len() >= 1 + 3 * bound;
        proof {
            alloc.lemma_view_wf();
            lemma_frames_bound_mono(regions@, 0, regions@.len() as int);
            assert(taken(alloc@, alloc@) =~= Set::<u64>::empty());
            assert(alloc@.allocated.union(taken(alloc@, alloc@)) =~= alloc@.allocated);
        }
        let root = match alloc.allocate_frame() {
            Some(f) => f,
            None => {
                proof {
                    assert(alloc@.free.len() == 0);
                }
                return Err(MemoryError::OutOfMemory);
            },
        };
        proof {
            assert(alloc@.allocated =~= a0.allocated.union(taken(a0, alloc@)));
            alloc.lemma_view_wf();
            lemma_taken_len(a0, alloc@);
            assert(taken(a0, alloc@) =~= set![root]);
        }
        let mut space = AddressSpace::empty(root, true, None);
        proof {
            assert(space.table_frames().insert(root) =~= taken(a0, alloc@));
        }
        let n = regions.len();
        let mut k: usize = 0;
        while k < n
            invariant
                n == regions@.len(),
                k <= n,
                alloc.wf(),
                only_allocated(a0, alloc@),
                a0 == old(alloc)@,
                a0.free.finite(),
                bound == kernel_frames_bound(regions@, regions@.len() as int),
                hyp == (!kernel_image_too_high(regions@) && a0.free.len() >= 1 + 3 * bound),
                a0.free.len() - alloc@.free.len() <= 1 + 3 * kernel_frames_bound(regions@, k as int),
                a0.free.contains(root),
                alloc@.allocated.contains(root),
                !space.table_frames().contains(root),
                space.table_frames().insert(root) == taken(a0, alloc@),
                space.wf(),
                space.is_kernel(),
                space.shared_root() is None,
                space.root_spec() == root,
                forall|page: u64| #[trigger]
                    space.mappings().contains_key(page) <==> (page >= UPPER_HALF_START
                        && kernel_frame_before(regions@, k as int, page - UPPER_HALF_START)),
                forall|page: u64| #[trigger]
                    space.mappings().contains_key(page) ==> kernel_entry_ok(regions@, page, space.mappings()[page]),
            decreases n - k,
        {
            let reg = regions[k];
            let is_code = reg.memory_type == MemoryType::KernelCode;
            let is_kernel = is_code || reg.memory_type == MemoryType::KernelData;
            let flags = if is_code {
                PageFlags { writable: false, user_accessible: false, executable: true }
            } else {
                PageFlags { writable: true, user_accessible: false, executable: false }
            };
            let start = reg.start_addr as u128;
            let end = start + reg.size as u128;
            let mut cur: u128 = start - start % 4096;
            proof {
                assert forall|f: int| #[trigger] kernel_frame(regions@, k as int, f) implies f >= cur by {
                    lemma_align_down(start as int, f);
                }
            }
            assert(cur % 4096 == 0) by (nonlinear_arith)
                requires
                    cur == start - start % 4096,
            {};
            proof {
                lemma_region_frames(reg);
                let used = a0.free.len() - alloc@.free.len();
                let bk = kernel_frames_bound(regions@, k as int);
                assert(used <= 1 + 3 * bk);
                assert(4096 * used <= 4096 + 3 * 4096 * bk) by (nonlinear_arith)
                    requires
                        used <= 1 + 3 * bk,
                {};
                assert(cur - (start - start % 4096) == 0);
            }
            while is_kernel && reg.size > 0 && cur < end
                invariant
                    n == regions@.len(),
                    k < n,
                    reg == regions@[k as int],
                    is_kernel == is_kernel_type(reg.memory_type),
                    flags == kernel_flags(reg.memory_type),
                    start == reg.start_addr,
                    end == region_end(reg),
                    cur % 4096 == 0,
                    cur <= end + 4096,
                    forall|f: int| #[trigger] kernel_frame(regions@, k as int, f) ==> f >= start - start % 4096,
                    start - start % 4096 <= cur,
                    alloc.wf(),
                    only_allocated(a0, alloc@),
                    a0 == old(alloc)@,
                    a0.free.finite(),
                    bound == kernel_frames_bound(regions@, regions@.len() as int),
                    hyp == (!kernel_image_too_high(regions@) && a0.free.len() >= 1 + 3 * bound),
                    4096 * (a0.free.len() - alloc@.free.len()) <= 4096 + 3 * 4096
                        * kernel_frames_bound(regions@, k as int) + 3 * (cur - (start - start
                        % 4096)),
                    !(is_kernel && reg.size > 0) ==> cur == start - start % 4096,
                    is_kernel && reg.size > 0 ==> cur <= align_up(end as int),
                    a0.free.contains(root),
                    alloc@.allocated.contains(root),
                    !space.table_frames().contains(root),
                    space.table_frames().insert(root) == taken(a0, alloc@),
                    space.wf(),
                    space.is_kernel(),
                    space.shared_root() is None,
                    space.root_spec() == root,
                    forall|page: u64| #[trigger]
                        space.mappings().contains_key(page) <==> (page >= UPPER_HALF_START && (
                            kernel_frame_before(regions@, k as int, page - UPPER_HALF_START) || (
                            kernel_frame(regions@, k as int, page - UPPER_HALF_START) && page
                                - UPPER_HALF_START < cur))),
                    forall|page: u64| #[trigger]
                        space.mappings().contains_key(page) ==> kernel_entry_ok(regions@, page, space.mappings()[page]),
                decreases end + 4096 - cur,
            {
                if cur >= LOWER_HALF_END as u128 {
                    proof {
                        assert(frame_touches(reg, cur as int));
                        assert(kernel_frame(regions@, k as int, cur as int));
                    }
                    return Err(MemoryError::InvalidAddress);
                }
                let f = cur as u64;
                let page = UPPER_HALF_START + f;
                proof {
                    assert(frame_touches(reg, f as int));
                    assert(kernel_frame(regions@, k as int, f as int));
                    assert(page - UPPER_HALF_START == f);
                }
                let ghost m0 = space.mappings();
                let ghost before = alloc@;
                let ghost tb = space.table_frames();
                proof {
                    alloc.lemma_view_wf();
                    lemma_region_frames(reg);
                    lemma_step_below_end(cur as int, end as int);
                    lemma_frames_bound_mono(regions@, k + 1, regions@.len() as int);
                    lemma_taken_len(a0, alloc@);
                    assert(kernel_frames_bound(regions@, k + 1) == kernel_frames_bound(regions@, k as int)
                        + region_kernel_frames(reg));
                    if hyp {
                        let used = a0.free.len() - alloc@.free.len();
                        let bk = kernel_frames_bound(regions@, k as int);
                        let rk = region_kernel_frames(reg);
                        let bn = bound;
                        let ad = start - start % 4096;
                        assert(used <= a0.free.len() - 3) by (nonlinear_arith)
                            requires
                                4096 * used <= 4096 + 3 * 4096 * bk + 3 * (cur - ad),
                                cur + 4096 <= align_up(end as int),
                                4096 * rk == align_up(end as int) - ad,
                                bk + rk <= bn,
                                a0.free.len() >= 1 + 3 * bn,
                        {};
                        assert(alloc@.free.len() >= 3);
                    }
                }
                if !space.leaves.contains_key(&page) {
                    match space.map(page, f, flags, alloc) {
                        Ok(()) => {},
                        Err(e) => {
                            proof {
                                lemma_only_allocated_trans(a0, before, alloc@);
                                assert(!hyp);
                            }
                            return Err(e);
                        },
                    }
                    proof {
                        lemma_only_allocated_trans(a0, before, alloc@);
                        assert(taken(a0, alloc@).subset_of(a0.free));
                        lemma_taken_len(before, alloc@);
                        assert(!before.free.contains(root));
                        assert(space.table_frames() == tb.union(taken(before, alloc@)));
                        assert(taken(a0, alloc@) =~= taken(a0, before).union(taken(before, alloc@)));
                        assert(space.table_frames().insert(root) =~= taken(a0, alloc@));
                    }
                }
                cur = cur + 4096;
                proof {
                    assert forall|p: u64| #[trigger] space.mappings().contains_key(p) <==> (p >= UPPER_HALF_START && (
                        kernel_frame_before(regions@, k as int, p - UPPER_HALF_START) || (
                        kernel_frame(regions@, k as int, p - UPPER_HALF_START) && p
                            - UPPER_HALF_START < cur))) by {
                        if p >= UPPER_HALF_START && p != page {
                            if kernel_frame(regions@, k as int, p - UPPER_HALF_START) {
                                lemma_next_aligned((p - UPPER_HALF_START) as int, f as int);
                            }
                        }
                        if p == page {
                            assert(kernel_frame(regions@, k as int, f as int));
                        }
                    }
                    assert forall|p: u64| #[trigger] space.mappings().contains_key(p) implies kernel_entry_ok(
                        regions@,
                        p,
                        space.mappings()[p],
                    ) by {
                        if p == page && !m0.contains_key(page) {
                            assert(kernel_frame(regions@, k as int, f as int));
                        }
                    }
                }
            }
            proof {
                assert forall|p: u64| #[trigger] space.mappings().contains_key(p) <==> (p >= UPPER_HALF_START
                    && kernel_frame_before(regions@, k + 1, p - UPPER_HALF_START)) by {
                    if p >= UPPER_HALF_START {
                        let g = p - UPPER_HALF_START;
                        if kernel_frame_before(regions@, k + 1, g) {
                            let j = choose|j: int| 0 <= j < k + 1 && #[trigger] kernel_frame(regions@, j, g);
                            if j < k {
                                assert(kernel_frame_before(regions@, k as int, g));
                            } else {
                                assert(g < end);
                            }
                        }
                        if kernel_frame_before(regions@, k as int, g) {
                            let j = choose|j: int| 0 <= j < k && #[trigger] kernel_frame(regions@, j, g);
                            assert(kernel_frame(regions@, j, g));
                        }
                        if kernel_frame(regions@, k as int, g) {
                            assert(kernel_frame(regions@, k as int, g));
                        }
                    }
                }
            }
            proof {
                lemma_region_frames(reg);
                assert(kernel_frames_bound(regions@, k + 1) == kernel_frames_bound(regions@, k as int)
                    + region_kernel_frames(reg));
                let used = a0.free.len() - alloc@.free.len();
                let bk = kernel_frames_bound(regions@, k as int);
                let rk = region_kernel_frames(reg);
                let ad = start - start % 4096;
                assert(cur - ad <= 4096 * rk);
                assert(used <= 1 + 3 * (bk + rk)) by (nonlinear_arith)
                    requires
                        4096 * used <= 4096 + 3 * 4096 * bk + 3 * (cur - ad),
                        cur - ad <= 4096 * rk,
                {};
            }
            k += 1;
        }
        proof {
            alloc.lemma_view_wf();
            lemma_taken_len(a0, alloc@);
        }
        Ok(space)
    }

}

} // verus!
