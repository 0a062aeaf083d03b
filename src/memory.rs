use vstd::prelude::*;
use crate::error::BootError;

verus! {

/// Size in bytes of one physical frame and of one virtual page.
pub const FRAME_SIZE: u64 = 4096;

/// Largest number of regions that a memory map holds.
pub const MAX_MEMORY_REGIONS: usize = 64;

/// Kind of a physical memory region.
#[derive(Debug, Clone, Copy, PartialEq, Eq, Structural)]
pub enum MemoryType {
    Available,
    Reserved,
    AcpiReclaimable,
    AcpiNvs,
    BadMemory,
    KernelCode,
    KernelData,
    DeviceMemory,
}

/// Access attributes of a physical memory region.
#[derive(Debug, Clone, Copy, PartialEq, Eq, Structural)]
pub struct MemoryAttributes {
    pub readable: bool,
    pub writable: bool,
    pub executable: bool,
    pub cacheable: bool,
    pub write_through: bool,
}

impl Default for MemoryAttributes {
    fn default() -> (r: Self)
        ensures
            r == (MemoryAttributes {
                readable: true,
                writable: true,
                executable: false,
                cacheable: true,
                write_through: false,
            }),
    {
        MemoryAttributes {
            readable: true,
            writable: true,
            executable: false,
            cacheable: true,
            write_through: false,
        }
    }
}

/// One entry of the platform memory map: `[start_addr, start_addr + size)`.
#[derive(Debug, Clone, Copy, PartialEq, Eq, Structural)]
pub struct MemoryRegion {
    pub start_addr: u64,
    pub size: u64,
    pub memory_type: MemoryType,
    pub attributes: MemoryAttributes,
}

/// End of a region, one past its last byte.
pub open spec fn region_end(r: MemoryRegion) -> int {
    r.start_addr + r.size
}

/// Whether `addr` lies in the region.
pub open spec fn region_contains(r: MemoryRegion, addr: int) -> bool {
    r.start_addr <= addr < region_end(r)
}

/// Whether two regions share at least one byte.
pub open spec fn regions_overlap(a: MemoryRegion, b: MemoryRegion) -> bool {
    a.size > 0 && b.size > 0 && a.start_addr < region_end(b) && b.start_addr < region_end(a)
}

/// Whether two of the regions overlap.
pub open spec fn has_overlap(rs: Seq<MemoryRegion>) -> bool {
    exists|i: int, j: int| 0 <= i < j < rs.len() && #[trigger] regions_overlap(rs[i], rs[j])
}

proof fn lemma_overlap_push(p: Seq<MemoryRegion>, r: MemoryRegion)
    ensures
        has_overlap(p.push(r)) == (has_overlap(p) || exists|i: int|
            0 <= i < p.len() && #[trigger] regions_overlap(p[i], r)),
{
    let q = p.push(r);
    if has_overlap(q) {
        let (i, j) = choose|i: int, j: int| 0 <= i < j < q.len() && #[trigger] regions_overlap(q[i], q[j]);
        if j < p.len() {
            assert(regions_overlap(p[i], p[j]));
        } else {
            assert(regions_overlap(p[i], r));
        }
    }
    if has_overlap(p) {
        let (i, j) = choose|i: int, j: int| 0 <= i < j < p.len() && #[trigger] regions_overlap(p[i], p[j]);
        assert(regions_overlap(q[i], q[j]));
    }
    if exists|i: int| 0 <= i < p.len() && #[trigger] regions_overlap(p[i], r) {
        let i = choose|i: int| 0 <= i < p.len() && #[trigger] regions_overlap(p[i], r);
        assert(regions_overlap(q[i], q[p.len() as int]));
    }
}

/// Whether a region is claimed by the kernel image.
pub open spec fn is_kernel_type(t: MemoryType) -> bool {
    t == MemoryType::KernelCode || t == MemoryType::KernelData
}

impl MemoryRegion {
    /// A region with the default attributes.
    pub fn new(start_addr: u64, size: u64, memory_type: MemoryType) -> (r: Self)
        ensures
            r.start_addr == start_addr,
            r.size == size,
            r.memory_type == memory_type,
            r.attributes == (MemoryAttributes {
                readable: true,
                writable: true,
                executable: false,
                cacheable: true,
                write_through: false,
            }),
    {
        MemoryRegion { start_addr, size, memory_type, attributes: MemoryAttributes::default() }
    }

    /// One past the last byte of the region.
    pub fn end_addr(&self) -> (r: u64)
        requires
            region_end(*self) <= u64::MAX,
        ensures
            r == region_end(*self),
    {
        self.start_addr + self.size
    }

    /// Whether `addr` lies in the region.
    pub fn contains(&self, addr: u64) -> (r: bool)
        ensures
            r == region_contains(*self, addr as int),
    {
        addr >= self.start_addr && addr - self.start_addr < self.size
    }

    /// Whether the two regions share at least one byte.
    pub fn overlaps(&self, other: &MemoryRegion) -> (r: bool)
        ensures
            r == regions_overlap(*self, *other),
    {
        self.size > 0 && other.size > 0 && (if self.start_addr <= other.start_addr {
            other.start_addr - self.start_addr < self.size
        } else {
            self.start_addr - other.start_addr < other.size
        })
    }
}

/// Total size of the regions.
pub open spec fn total_size(rs: Seq<MemoryRegion>) -> int
    decreases rs.len(),
{
    if rs.len() == 0 {
        0
    } else {
        total_size(rs.drop_last()) + rs.last().size
    }
}

/// Total size of the available regions.
pub open spec fn available_size(rs: Seq<MemoryRegion>) -> int
    decreases rs.len(),
{
    if rs.len() == 0 {
        0
    } else {
        available_size(rs.drop_last()) + if rs.last().memory_type == MemoryType::Available {
            rs.last().size as int
        } else {
            0
        }
    }
}

proof fn lemma_sizes_bounded(rs: Seq<MemoryRegion>)
    ensures
        0 <= available_size(rs) <= total_size(rs) <= rs.len() * u64::MAX,
    decreases rs.len(),
{
    if rs.len() > 0 {
        lemma_sizes_bounded(rs.drop_last());
    }
}

/// Whether the regions are in non-decreasing order of start address
/// between `lo` and `hi`.
pub open spec fn sorted_between(rs: Seq<MemoryRegion>, lo: int, hi: int) -> bool {
    forall|a: int, b: int| lo <= a < b < hi ==> #[trigger] rs[a].start_addr <= #[trigger] rs[b].start_addr
}

/// Whether a region starts at `a`.
pub open spec fn starts_at(a: u64) -> spec_fn(MemoryRegion) -> bool {
    |r: MemoryRegion| r.start_addr == a
}

proof fn lemma_pair_filter(x: MemoryRegion, y: MemoryRegion, a: u64)
    requires
        x.start_addr != y.start_addr,
    ensures
        seq![x, y].filter(starts_at(a)) == seq![y, x].filter(starts_at(a)),
{
    reveal_with_fuel(Seq::filter, 3);
    assert(seq![x, y].drop_last() =~= seq![x]);
    assert(seq![y, x].drop_last() =~= seq![y]);
    assert(seq![x].drop_last() =~= Seq::<MemoryRegion>::empty());
    assert(seq![y].drop_last() =~= Seq::<MemoryRegion>::empty());
    assert(seq![x, y].filter(starts_at(a)) =~= seq![y, x].filter(starts_at(a)));
}

proof fn lemma_swap_filter(s: Seq<MemoryRegion>, j: int, a: u64)
    requires
        0 <= j,
        j + 1 < s.len(),
        s[j].start_addr != s[j + 1].start_addr,
    ensures
        s.update(j, s[j + 1]).update(j + 1, s[j]).filter(starts_at(a)) == s.filter(starts_at(a)),
{
    let p = starts_at(a);
    let pre = s.take(j);
    let post = s.skip(j + 2);
    let xy = seq![s[j], s[j + 1]];
    let yx = seq![s[j + 1], s[j]];
    let t = s.update(j, s[j + 1]).update(j + 1, s[j]);
    assert(s =~= pre + xy + post);
    assert(t =~= pre + yx + post);
    Seq::filter_distributes_over_add(pre + xy, post, p);
    Seq::filter_distributes_over_add(pre, xy, p);
    Seq::filter_distributes_over_add(pre + yx, post, p);
    Seq::filter_distributes_over_add(pre, yx, p);
    lemma_pair_filter(s[j], s[j + 1], a);
}

proof fn lemma_swap_multiset(s: Seq<MemoryRegion>, j: int)
    requires
        0 <= j,
        j + 1 < s.len(),
    ensures
        s.update(j, s[j + 1]).update(j + 1, s[j]).to_multiset() == s.to_multiset(),
{
    broadcast use vstd::seq_lib::to_multiset_update;
    broadcast use vstd::multiset::group_multiset_axioms;
    let s1 = s.update(j, s[j + 1]);
    assert(s1[j + 1] == s[j + 1]);
    assert(s1.to_multiset() == s.to_multiset().insert(s[j + 1]).remove(s[j]));
    assert(s1.update(j + 1, s[j]).to_multiset() == s1.to_multiset().insert(s[j]).remove(s[j + 1]));
    let m = s.to_multiset();
    assert(m.count(s[j]) > 0) by {
        broadcast use vstd::seq_lib::to_multiset_contains;
        assert(s.contains(s[j]));
    }
    assert(m.count(s[j + 1]) > 0) by {
        broadcast use vstd::seq_lib::to_multiset_contains;
        assert(s.contains(s[j + 1]));
    }
    assert(m.insert(s[j + 1]).remove(s[j]).insert(s[j]).remove(s[j + 1]) =~= m);
}

/// The platform memory map, in the order in which regions were reported.
#[derive(Debug)]
pub struct MemoryMap {
    regions: Vec<MemoryRegion>,
}

impl View for MemoryMap {
    type V = Seq<MemoryRegion>;

    closed spec fn view(&self) -> Seq<MemoryRegion> {
        self.regions@
    }
}

impl MemoryMap {
    pub closed spec fn wf(&self) -> bool {
        self.regions@.len() <= MAX_MEMORY_REGIONS
    }

    /// An empty map.
    pub fn new() -> (r: Self)
        ensures
            r.wf(),
            r@ == Seq::<MemoryRegion>::empty(),
    {
        MemoryMap { regions: Vec::new() }
    }

    /// Number of regions.
    pub fn region_count(&self) -> (r: usize)
        requires
            self.wf(),
        ensures
            r == self@.len(),
    {
        self.regions.len()
    }

    /// The region at `index`.
    pub fn region(&self, index: usize) -> (r: MemoryRegion)
        requires
            index < self@.len(),
        ensures
            r == self@[index as int],
    {
        self.regions[index]
    }

    /// The regions, in order.
    pub fn regions(&self) -> (r: Vec<MemoryRegion>)
        ensures
            r@ == self@,
    {
        self.regions.clone()
    }

    /// Appends a region. A full map refuses it. An overlap with a region
    /// already present is a boot anomaly: the region is still recorded and
    /// `Ok(true)` reports the overlap to the caller.
    pub fn add_region(&mut self, region: MemoryRegion) -> (r: Result<bool, BootError>)
        requires
            old(self).wf(),
        ensures
            final(self).wf(),
            old(self)@.len() >= MAX_MEMORY_REGIONS ==> r == Err::<bool, BootError>(
                BootError::MemoryDetectionFailed,
            ) && final(self)@ == old(self)@,
            old(self)@.len() < MAX_MEMORY_REGIONS ==> final(self)@ == old(self)@.push(region)
                && r == Ok::<bool, BootError>(
                exists|i: int| 0 <= i < old(self)@.len() && regions_overlap(old(self)@[i], region),
            ),
            r matches Ok(ov) ==> has_overlap(final(self)@) == (has_overlap(old(self)@) || ov),
    {
        if self.regions.len() >= MAX_MEMORY_REGIONS {
            return Err(BootError::MemoryDetectionFailed);
        }
        let mut overlap = false;
        let mut i: usize = 0;
        while i < self.regions.len()
            invariant
                i <= self.regions@.len(),
                overlap == exists|j: int| 0 <= j < i && regions_overlap(self.regions@[j], region),
            decreases self.regions@.len() - i,
        {
            if self.regions[i].overlaps(&region) {
                overlap = true;
            }
            i += 1;
        }
        proof {
            lemma_overlap_push(self.regions@, region);
        }
        self.regions.push(region);
        Ok(overlap)
    }

    /// The first region that contains `addr`, if any.
    pub fn find_region(&self, addr: u64) -> (r: Option<MemoryRegion>)
        ensures
            match r {
                Some(reg) => exists|i: int|
                    0 <= i < self@.len() && self@[i] == reg && region_contains(reg, addr as int)
                        && forall|j: int| 0 <= j < i ==> !region_contains(#[trigger] self@[j], addr as int),
                None => forall|j: int|
                    0 <= j < self@.len() ==> !region_contains(#[trigger] self@[j], addr as int),
            },
    {
        let mut i: usize = 0;
        while i < self.regions.len()
            invariant
                i <= self.regions@.len(),
                forall|j: int| 0 <= j < i ==> !region_contains(#[trigger] self.regions@[j], addr as int),
            decreases self.regions@.len() - i,
        {
            if self.regions[i].contains(addr) {
                assert(self@[i as int] == self.regions@[i as int]);
                return Some(self.regions[i]);
            }
            i += 1;
        }
        None
    }

    /// Whether `addr` lies in a region of available memory; the first region
    /// that contains it decides.
    pub fn is_address_available(&self, addr: u64) -> (r: bool)
        ensures
            r == exists|i: int|
                0 <= i < self@.len() && region_contains(self@[i], addr as int)
                    && self@[i].memory_type == MemoryType::Available
                    && forall|j: int| 0 <= j < i ==> !region_contains(#[trigger] self@[j], addr as int),
    {
        match self.find_region(addr) {
            Some(reg) => {
                let res = reg.memory_type == MemoryType::Available;
                proof {
                    let i = choose|i: int|
                        0 <= i < self@.len() && self@[i] == reg && region_contains(reg, addr as int)
                            && forall|j: int| 0 <= j < i ==> !region_contains(#[trigger] self@[j], addr as int);
                    if !res {
                        assert forall|k: int| 0 <= k < self@.len() && region_contains(self@[k], addr as int)
                            && forall|j: int| 0 <= j < k ==> !region_contains(#[trigger] self@[j], addr as int)
                            implies self@[k].memory_type != MemoryType::Available by {
                            if k < i {
                                assert(!region_contains(self@[k], addr as int));
                            } else if k > i {
                                assert(!region_contains(self@[i], addr as int));
                            }
                        }
                    }
                }
                res
            },
            None => false,
        }
    }

    /// Sum of the sizes of all regions.
    pub fn total_memory(&self) -> (r: u128)
        requires
            self.wf(),
        ensures
            r == total_size(self@),
    {
        let mut sum: u128 = 0;
        let mut i: usize = 0;
        while i < self.regions.len()
            invariant
                self.wf(),
                i <= self.regions@.len(),
                sum == total_size(self.regions@.take(i as int)),
            decreases self.regions@.len() - i,
        {
            proof {
                assert(self.regions@.take(i + 1).drop_last() =~= self.regions@.take(i as int));
                lemma_sizes_bounded(self.regions@.take(i as int));
            }
            sum = sum + self.regions[i].size as u128;
            i += 1;
        }
        proof {
            assert(self.regions@.take(i as int) =~= self.regions@);
        }
        sum
    }

    /// Sum of the sizes of the available regions.
    pub fn available_memory(&self) -> (r: u128)
        requires
            self.wf(),
        ensures
            r == available_size(self@),
    {
        let mut sum: u128 = 0;
        let mut i: usize = 0;
        while i < self.regions.len()
            invariant
                self.wf(),
                i <= self.regions@.len(),
                sum == available_size(self.regions@.take(i as int)),
            decreases self.regions@.len() - i,
        {
            proof {
                assert(self.regions@.take(i + 1).drop_last() =~= self.regions@.take(i as int));
                lemma_sizes_bounded(self.regions@.take(i as int));
            }
            if self.regions[i].memory_type == MemoryType::Available {
                sum = sum + self.regions[i].size as u128;
            }
            i += 1;
        }
        proof {
            assert(self.regions@.take(i as int) =~= self.regions@);
        }
        sum
    }

    /// Start and size of the first available region, if any.
    pub fn first_available(&self) -> (r: Option<(u64, u64)>)
        ensures
            match r {
                Some((start, size)) => exists|i: int|
                    0 <= i < self@.len() && self@[i].memory_type == MemoryType::Available
                        && self@[i].start_addr == start && self@[i].size == size && forall|j: int|
                        0 <= j < i ==> #[trigger] self@[j].memory_type != MemoryType::Available,
                None => forall|j: int|
                    0 <= j < self@.len() ==> #[trigger] self@[j].memory_type != MemoryType::Available,
            },
    {
        let mut i: usize = 0;
        while i < self.regions.len()
            invariant
                i <= self.regions@.len(),
                forall|j: int| 0 <= j < i ==> #[trigger] self.regions@[j].memory_type != MemoryType::Available,
            decreases self.regions@.len() - i,
        {
            if self.regions[i].memory_type == MemoryType::Available {
                assert(self@[i as int] == self.regions@[i as int]);
                return Some((self.regions[i].start_addr, self.regions[i].size));
            }
            i += 1;
        }
        None
    }


    /// Orders the regions by start address, keeping every region; regions
    /// that start at the same address keep their order.
    pub fn sort_regions(&mut self)
        requires
            old(self).wf(),
        ensures
            final(self).wf(),
            sorted_between(final(self)@, 0, final(self)@.len() as int),
            final(self)@.to_multiset() == old(self)@.to_multiset(),
            forall|a: u64| #[trigger]
                final(self)@.filter(starts_at(a)) == old(self)@.filter(starts_at(a)),
    {
        let n = self.regions.len();
        let mut i: usize = 0;
        while i < n
            invariant
                n == self.regions@.len(),
                n <= MAX_MEMORY_REGIONS,
                i <= n,
                self.regions@.to_multiset() == old(self)@.to_multiset(),
                forall|a: u64| #[trigger]
                    self.regions@.filter(starts_at(a)) == old(self)@.filter(starts_at(a)),
                sorted_between(self.regions@, n - i, n as int),
                forall|a: int, b: int|
                    0 <= a < n - i <= b < n ==> #[trigger] self.regions@[a].start_addr
                        <= #[trigger] self.regions@[b].start_addr,
            decreases n - i,
        {
            let mut j: usize = 0;
            while j + 1 < n - i
                invariant
                    n == self.regions@.len(),
                    n <= MAX_MEMORY_REGIONS,
                    i < n,
                    j < n - i,
                    self.regions@.to_multiset() == old(self)@.to_multiset(),
                    forall|a: u64| #[trigger]
                        self.regions@.filter(starts_at(a)) == old(self)@.filter(starts_at(a)),
                    sorted_between(self.regions@, n - i, n as int),
                    forall|a: int, b: int|
                        0 <= a < n - i <= b < n ==> #[trigger] self.regions@[a].start_addr
                            <= #[trigger] self.regions@[b].start_addr,
                    forall|a: int| 0 <= a <= j ==> #[trigger] self.regions@[a].start_addr
                        <= self.regions@[j as int].start_addr,
                decreases n - i - j,
            {
                let x = self.regions[j];
                let y = self.regions[j + 1];
                if x.start_addr > y.start_addr {
                    proof {
                        lemma_swap_multiset(self.regions@, j as int);
                        assert forall|a: u64| #[trigger]
                            self.regions@.update(j as int, y).update(j + 1, x).filter(starts_at(a))
                                == old(self)@.filter(starts_at(a)) by {
                            lemma_swap_filter(self.regions@, j as int, a);
                        }
                    }
                    self.regions.set(j, y);
                    self.regions.set(j + 1, x);
                }
                j += 1;
            }
            i += 1;
        }
    }

}

} // verus!
