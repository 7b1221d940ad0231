//! File-backed and anonymous memory mappings.
//!
//! The table records the mapped regions of each task. Reading and writing the
//! backing files and touching the mapped memory are left to the caller, who is
//! told what to read, write or drop.
use vstd::prelude::*;

verus! {

/// Page size in bytes.
pub const PAGE_SIZE: usize = 4096;

/// Mask that clears the offset within a page.
pub const PAGE_MASK: u64 = 0xFFFF_FFFF_FFFF_F000;

/// Read permission.
pub const PROT_READ: u32 = 0x1;

/// Write permission.
pub const PROT_WRITE: u32 = 0x2;

/// Execute permission.
pub const PROT_EXEC: u32 = 0x4;

/// No access.
pub const PROT_NONE: u32 = 0x0;

/// File-backed mapping.
pub const MAP_FILE: u32 = 0x0;

/// Anonymous mapping, filled with zeros.
pub const MAP_ANON: u32 = 0x20;

/// Shared mapping: writes reach the file.
pub const MAP_SHARED: u32 = 0x01;

/// Private copy-on-write mapping.
pub const MAP_PRIVATE: u32 = 0x02;

/// Map at the address of the hint.
pub const MAP_FIXED: u32 = 0x10;

/// Touch all pages at map time.
pub const MAP_POPULATE: u32 = 0x8000;

/// Default limit of regions per task.
pub const MAX_MMAP_REGIONS: usize = 1024;

/// Start of the address range for mappings without a usable hint.
pub const USER_START: u64 = 0x0000_7000_0000_0000;

/// Lowest address that a search for free space returns.
pub const LOWEST_START: u64 = 0x0000_1000_0000_0000;

/// Virtual address.
pub type Address = u64;

/// Length in bytes.
pub type Length = usize;

/// Protection flags.
pub type Prot = u32;

/// Mapping flags.
pub type Flags = u32;

/// Task identifier.
pub type TaskId = u64;

/// Configuration of the mapping subsystem.
#[derive(Debug, Clone, Copy, PartialEq, Eq)]
pub struct MmapConfig {
    pub max_regions_per_task: usize,
    pub enable_metrics: bool,
    pub log_operations: bool,
    pub default_prot: u32,
    pub default_flags: u32,
}

impl Default for MmapConfig {
    fn default() -> (r: Self)
        ensures
            r == (MmapConfig {
                max_regions_per_task: MAX_MMAP_REGIONS,
                enable_metrics: true,
                log_operations: false,
                default_prot: PROT_READ | PROT_WRITE,
                default_flags: MAP_SHARED,
            }),
    {
        MmapConfig {
            max_regions_per_task: MAX_MMAP_REGIONS,
            enable_metrics: true,
            log_operations: false,
            default_prot: PROT_READ | PROT_WRITE,
            default_flags: MAP_SHARED,
        }
    }
}

impl MmapConfig {
    /// The first rule that the configuration breaks, if any.
    pub open spec fn broken_rule(&self) -> Option<Seq<char>> {
        if self.max_regions_per_task == 0 {
            Some("max_regions_per_task must be > 0"@)
        } else {
            None
        }
    }

    pub fn validate(&self) -> (r: Result<(), &'static str>)
        ensures
            match r {
                Ok(_) => self.broken_rule() is None,
                Err(e) => self.broken_rule() == Some(e@),
            },
    {
        if self.max_regions_per_task == 0 {
            return Err("max_regions_per_task must be > 0");
        }
        Ok(())
    }

    pub fn with_max_regions(self, n: usize) -> (r: Self)
        ensures
            r == (MmapConfig { max_regions_per_task: n, ..self }),
    {
        MmapConfig { max_regions_per_task: n, ..self }
    }

    pub fn with_metrics(self) -> (r: Self)
        ensures
            r == (MmapConfig { enable_metrics: true, ..self }),
    {
        MmapConfig { enable_metrics: true, ..self }
    }
}

/// Errors of the mapping subsystem.
#[derive(Debug, Clone, PartialEq, Eq)]
pub enum MmapError {
    NoFreeAddressSpace(Length),
    TooManyRegions(TaskId, usize),
    RegionOverlap { addr: Address, len: Length },
    InvalidOffset { offset: u64 },
    FileNotFound { path: String },
    OffsetBeyondFile { offset: u64, size: usize },
    InvalidProtection { prot: u32 },
    InvalidFlags { flags: u32 },
    RegionNotFound { addr: Address },
    PermissionDenied,
    Io(String),
    Config(String),
}

pub type MmapResult<T> = Result<T, MmapError>;

// ---------------------------------------------------------------------------
// Page arithmetic
// ---------------------------------------------------------------------------

/// The start of the page that holds `x`.
pub open spec fn page_down(x: int) -> int {
    x - x % 4096
}

/// `x` rounded up to a page boundary.
pub open spec fn page_up(x: int) -> int {
    page_down(x + 4095)
}

/// The start of the page that holds `addr`.
pub fn page_floor(addr: u64) -> (r: u64)
    ensures
        r == page_down(addr as int),
{
    proof {
        assert(addr & 0xFFFF_FFFF_FFFF_F000 == addr - addr % 4096) by (bit_vector);
    }
    addr & PAGE_MASK
}

/// `len` rounded up to a page boundary.
pub fn page_ceil(len: usize) -> (r: usize)
    requires
        len <= usize::MAX - 4095,
    ensures
        r == page_up(len as int),
{
    let x: usize = len + (PAGE_SIZE - 1);
    x - x % PAGE_SIZE
}

// ---------------------------------------------------------------------------
// Regions
// ---------------------------------------------------------------------------

/// Backing of a region.
#[derive(Debug)]
pub enum MmapBacking {
    Anonymous,
    File { path: String, offset: u64, length: usize, writeable: bool },
}

impl Clone for MmapBacking {
    fn clone(&self) -> (r: Self)
        ensures
            r == *self,
    {
        match self {
            MmapBacking::Anonymous => MmapBacking::Anonymous,
            MmapBacking::File { path, offset, length, writeable } => MmapBacking::File {
                path: path.clone(),
                offset: *offset,
                length: *length,
                writeable: *writeable,
            },
        }
    }
}

/// A mapped region.
#[derive(Debug)]
pub struct MmapRegion {
    pub base: Address,
    pub length: Length,
    pub prot: Prot,
    pub flags: Flags,
    pub backing: MmapBacking,
    /// Bit `i % 64` is set where page `i` was marked dirty.
    pub dirty_mask: u64,
    pub populated: bool,
}

impl Clone for MmapRegion {
    fn clone(&self) -> (r: Self)
        ensures
            r == *self,
    {
        MmapRegion {
            base: self.base,
            length: self.length,
            prot: self.prot,
            flags: self.flags,
            backing: self.backing.clone(),
            dirty_mask: self.dirty_mask,
            populated: self.populated,
        }
    }
}

/// Bit `i` of `mask` is set.
pub open spec fn bit_set(mask: u64, i: int) -> bool {
    (mask >> (i as u64)) & 1 != 0
}

/// Setting bit `i` changes that bit only.
proof fn lemma_set_bit(mask: u64, i: u64, j: u64)
    requires
        i < 64,
        j < 64,
    ensures
        ((mask | (1u64 << i)) >> j) & 1 != 0 <==> i == j || (mask >> j) & 1 != 0,
{
    assert((((mask | (1u64 << i)) >> j) & 1 != 0) == (i == j || (mask >> j) & 1 != 0))
        by (bit_vector)
        requires
            i < 64,
            j < 64,
    ;
}

impl MmapRegion {
    /// First address behind the region.
    pub open spec fn end(&self) -> int {
        self.base + self.length
    }

    /// The region ends within the address space.
    pub open spec fn wf(&self) -> bool {
        self.end() <= u64::MAX
    }

    pub open spec fn holds(&self, addr: u64) -> bool {
        self.base <= addr < self.end()
    }

    pub open spec fn is_shared(&self) -> bool {
        self.flags & MAP_SHARED != 0
    }

    /// The page that holds `addr`, counted from the start of the region.
    pub open spec fn index_of(&self, addr: u64) -> int {
        (page_down(addr as int) - self.base) / 4096
    }

    /// Page `i` is marked dirty; pages 64 apart share a mark.
    pub open spec fn dirty(&self, i: int) -> bool {
        bit_set(self.dirty_mask, i % 64)
    }

    /// The regions share an address.
    pub open spec fn clashes(&self, other: MmapRegion) -> bool {
        !(self.end() <= other.base || self.base >= other.end())
    }

    /// The region lies within `[addr, end)`.
    pub open spec fn within(&self, addr: int, end: int) -> bool {
        addr <= self.base && self.end() <= end
    }

    pub fn contains(&self, addr: Address) -> (r: bool)
        requires
            self.wf(),
        ensures
            r == self.holds(addr),
    {
        addr >= self.base && addr < self.base + self.length as u64
    }

    /// Offset of the page that holds `addr` from the start of the region.
    pub fn page_offset(&self, addr: Address) -> (r: usize)
        requires
            self.base <= page_down(addr as int),
            page_down(addr as int) - self.base <= usize::MAX,
        ensures
            r == page_down(addr as int) - self.base,
    {
        (page_floor(addr) - self.base) as usize
    }

    pub fn page_index(&self, addr: Address) -> (r: usize)
        requires
            self.base <= page_down(addr as int),
            page_down(addr as int) - self.base <= usize::MAX,
        ensures
            r == self.index_of(addr),
    {
        self.page_offset(addr) / PAGE_SIZE
    }

    /// Marks the page that holds `addr` dirty, where the region is shared.
    pub fn mark_dirty(&mut self, addr: Address)
        requires
            old(self).base <= page_down(addr as int),
            page_down(addr as int) - old(self).base <= usize::MAX,
        ensures
            *final(self) == (MmapRegion { dirty_mask: final(self).dirty_mask, ..*old(self) }),
            forall|j: int|
                0 <= j ==> (#[trigger] final(self).dirty(j) <==> old(self).dirty(j) || (old(self).is_shared() && j % 64 == old(self).index_of(addr) % 64)),
    {
        if self.flags & MAP_SHARED != 0 {
            let idx: usize = self.page_index(addr);
            let bit: u64 = (idx % 64) as u64;
            let ghost before = self.dirty_mask;
            self.dirty_mask = self.dirty_mask | (1u64 << bit);
            proof {
                assert forall|j: int| 0 <= j implies (#[trigger] self.dirty(j) <==> old(self).dirty(j) || j % 64 == old(self).index_of(addr) % 64) by {
                    lemma_set_bit(before, bit, (j % 64) as u64);
                }
            }
        }
    }

    pub fn is_dirty(&self, idx: usize) -> (r: bool)
        ensures
            r == self.dirty(idx as int),
    {
        (self.dirty_mask >> ((idx % 64) as u64)) & 1 != 0
    }

    pub fn clear_dirty(&mut self)
        ensures
            *final(self) == (MmapRegion { dirty_mask: 0, ..*old(self) }),
            forall|j: int| 0 <= j ==> !#[trigger] final(self).dirty(j),
    {
        self.dirty_mask = 0;
        proof {
            assert forall|j: int| 0 <= j implies !#[trigger] self.dirty(j) by {
                let k = (j % 64) as u64;
                assert((0u64 >> k) & 1 == 0) by (bit_vector)
                    requires
                        k < 64,
                ;
            }
        }
    }

    /// Number of whole pages.
    pub fn page_count(&self) -> (r: usize)
        ensures
            r == self.length / 4096,
    {
        self.length / PAGE_SIZE
    }
}

/// Counters of the mapping subsystem.
#[derive(Debug, Clone, Copy, PartialEq, Eq)]
pub struct MmapStats {
    pub total_regions: u64,
    pub anonymous_regions: u64,
    pub file_regions: u64,
    pub shared_regions: u64,
    pub private_regions: u64,
    pub total_mapped_pages: u64,
    pub dirty_pages: u64,
    pub page_faults: u64,
    pub msync_calls: u64,
    pub munmap_calls: u64,
}

impl Default for MmapStats {
    fn default() -> (r: Self)
        ensures
            r == (MmapStats {
                total_regions: 0,
                anonymous_regions: 0,
                file_regions: 0,
                shared_regions: 0,
                private_regions: 0,
                total_mapped_pages: 0,
                dirty_pages: 0,
                page_faults: 0,
                msync_calls: 0,
                munmap_calls: 0,
            }),
    {
        MmapStats {
            total_regions: 0,
            anonymous_regions: 0,
            file_regions: 0,
            shared_regions: 0,
            private_regions: 0,
            total_mapped_pages: 0,
            dirty_pages: 0,
            page_faults: 0,
            msync_calls: 0,
            munmap_calls: 0,
        }
    }
}

/// The counters after one region was counted in.
pub open spec fn counted_in(s: MmapStats, region: MmapRegion) -> MmapStats {
    MmapStats {
        total_regions: s.total_regions.wrapping_add(1),
        anonymous_regions: if region.backing is Anonymous {
            s.anonymous_regions.wrapping_add(1)
        } else {
            s.anonymous_regions
        },
        file_regions: if region.backing is File {
            s.file_regions.wrapping_add(1)
        } else {
            s.file_regions
        },
        shared_regions: if region.is_shared() {
            s.shared_regions.wrapping_add(1)
        } else {
            s.shared_regions
        },
        private_regions: if !region.is_shared() {
            s.private_regions.wrapping_add(1)
        } else {
            s.private_regions
        },
        total_mapped_pages: s.total_mapped_pages.wrapping_add((region.length / 4096) as u64),
        ..s
    }
}

/// The counters after one region was counted out.
pub open spec fn counted_out(s: MmapStats, region: MmapRegion) -> MmapStats {
    MmapStats {
        total_regions: s.total_regions.wrapping_sub(1),
        anonymous_regions: if region.backing is Anonymous {
            s.anonymous_regions.wrapping_sub(1)
        } else {
            s.anonymous_regions
        },
        file_regions: if region.backing is File {
            s.file_regions.wrapping_sub(1)
        } else {
            s.file_regions
        },
        shared_regions: if region.is_shared() {
            s.shared_regions.wrapping_sub(1)
        } else {
            s.shared_regions
        },
        private_regions: if !region.is_shared() {
            s.private_regions.wrapping_sub(1)
        } else {
            s.private_regions
        },
        total_mapped_pages: s.total_mapped_pages.wrapping_sub((region.length / 4096) as u64),
        ..s
    }
}

/// The counters after the first `n` regions were counted out.
pub open spec fn counted_out_all(s: MmapStats, regions: Seq<MmapRegion>, n: int) -> MmapStats
    decreases n,
{
    if n <= 0 {
        s
    } else {
        counted_out(counted_out_all(s, regions, n - 1), regions[n - 1])
    }
}

impl MmapStats {
    /// Counts a new region.
    pub fn record_region(&mut self, region: &MmapRegion)
        ensures
            *final(self) == counted_in(*old(self), *region),
    {
        self.total_regions = self.total_regions.wrapping_add(1);
        match region.backing {
            MmapBacking::Anonymous => {
                self.anonymous_regions = self.anonymous_regions.wrapping_add(1);
            },
            MmapBacking::File { .. } => {
                self.file_regions = self.file_regions.wrapping_add(1);
            },
        }
        if region.flags & MAP_SHARED != 0 {
            self.shared_regions = self.shared_regions.wrapping_add(1);
        } else {
            self.private_regions = self.private_regions.wrapping_add(1);
        }
        self.total_mapped_pages = self.total_mapped_pages.wrapping_add(region.page_count() as u64);
    }

    /// Takes a region out of the counts.
    pub fn remove_region(&mut self, region: &MmapRegion)
        ensures
            *final(self) == counted_out(*old(self), *region),
    {
        self.total_regions = self.total_regions.wrapping_sub(1);
        match region.backing {
            MmapBacking::Anonymous => {
                self.anonymous_regions = self.anonymous_regions.wrapping_sub(1);
            },
            MmapBacking::File { .. } => {
                self.file_regions = self.file_regions.wrapping_sub(1);
            },
        }
        if region.flags & MAP_SHARED != 0 {
            self.shared_regions = self.shared_regions.wrapping_sub(1);
        } else {
            self.private_regions = self.private_regions.wrapping_sub(1);
        }
        self.total_mapped_pages = self.total_mapped_pages.wrapping_sub(region.page_count() as u64);
    }

    fn remove_all(&mut self, regions: &Vec<MmapRegion>)
        ensures
            *final(self) == counted_out_all(*old(self), regions@, regions@.len() as int),
    {
        let mut i: usize = 0;
        while i < regions.len()
            invariant
                i <= regions@.len(),
                *self == counted_out_all(*old(self), regions@, i as int),
            decreases regions@.len() - i,
        {
            self.remove_region(&regions[i]);
            i += 1;
        }
    }

    pub fn inc_dirty(&mut self)
        ensures
            *final(self) == (MmapStats {
                dirty_pages: old(self).dirty_pages.wrapping_add(1),
                ..*old(self)
            }),
    {
        self.dirty_pages = self.dirty_pages.wrapping_add(1);
    }

    pub fn inc_page_fault(&mut self)
        ensures
            *final(self) == (MmapStats {
                page_faults: old(self).page_faults.wrapping_add(1),
                ..*old(self)
            }),
    {
        self.page_faults = self.page_faults.wrapping_add(1);
    }

    pub fn inc_msync(&mut self)
        ensures
            *final(self) == (MmapStats {
                msync_calls: old(self).msync_calls.wrapping_add(1),
                ..*old(self)
            }),
    {
        self.msync_calls = self.msync_calls.wrapping_add(1);
    }

    pub fn inc_munmap(&mut self)
        ensures
            *final(self) == (MmapStats {
                munmap_calls: old(self).munmap_calls.wrapping_add(1),
                ..*old(self)
            }),
    {
        self.munmap_calls = self.munmap_calls.wrapping_add(1);
    }

    /// A copy of the counters.
    pub fn snapshot(&self) -> (r: MmapStatsSnapshot)
        ensures
            r == (MmapStatsSnapshot {
                total_regions: self.total_regions,
                anonymous_regions: self.anonymous_regions,
                file_regions: self.file_regions,
                shared_regions: self.shared_regions,
                private_regions: self.private_regions,
                total_mapped_pages: self.total_mapped_pages,
                dirty_pages: self.dirty_pages,
                page_faults: self.page_faults,
                msync_calls: self.msync_calls,
                munmap_calls: self.munmap_calls,
            }),
    {
        MmapStatsSnapshot {
            total_regions: self.total_regions,
            anonymous_regions: self.anonymous_regions,
            file_regions: self.file_regions,
            shared_regions: self.shared_regions,
            private_regions: self.private_regions,
            total_mapped_pages: self.total_mapped_pages,
            dirty_pages: self.dirty_pages,
            page_faults: self.page_faults,
            msync_calls: self.msync_calls,
            munmap_calls: self.munmap_calls,
        }
    }
}

/// A copy of [`MmapStats`] at one moment.
#[derive(Debug, Clone, Copy, PartialEq, Eq)]
pub struct MmapStatsSnapshot {
    pub total_regions: u64,
    pub anonymous_regions: u64,
    pub file_regions: u64,
    pub shared_regions: u64,
    pub private_regions: u64,
    pub total_mapped_pages: u64,
    pub dirty_pages: u64,
    pub page_faults: u64,
    pub msync_calls: u64,
    pub munmap_calls: u64,
}

// ---------------------------------------------------------------------------
// The table
// ---------------------------------------------------------------------------

/// The regions of one task.
#[derive(Debug)]
pub struct TaskRegions {
    pub tid: TaskId,
    pub regions: Vec<MmapRegion>,
}

/// The mapped regions of all tasks.
#[derive(Debug)]
pub struct MmapTable {
    pub tasks: Vec<TaskRegions>,
}

/// Entry `i` is that of task `tid`.
pub open spec fn task_at(tasks: Seq<TaskRegions>, tid: TaskId, i: int) -> bool {
    0 <= i < tasks.len() && tasks[i].tid == tid
}

/// Task `tid` has an entry.
pub open spec fn has_task(tasks: Seq<TaskRegions>, tid: TaskId) -> bool {
    exists|i: int| task_at(tasks, tid, i)
}

/// The first `n` regions that lie within `[addr, end)`, or those that do not.
pub open spec fn part(
    regions: Seq<MmapRegion>,
    addr: int,
    end: int,
    inside: bool,
    n: int,
) -> Seq<MmapRegion>
    decreases n,
{
    if n <= 0 {
        Seq::empty()
    } else {
        let rest = part(regions, addr, end, inside, n - 1);
        if regions[n - 1].within(addr, end) == inside {
            rest.push(regions[n - 1])
        } else {
            rest
        }
    }
}

/// No two regions share an address.
pub open spec fn apart(regions: Seq<MmapRegion>) -> bool {
    forall|i: int, j: int|
        0 <= i < j < regions.len() ==> !(#[trigger] regions[i]).clashes(#[trigger] regions[j])
}

/// Position `i` is the first whose region holds `addr`.
pub open spec fn first_holding(regions: Seq<MmapRegion>, addr: u64, i: int) -> bool {
    &&& 0 <= i < regions.len()
    &&& regions[i].holds(addr)
    &&& forall|j: int| 0 <= j < i ==> !(#[trigger] regions[j]).holds(addr)
}

/// Some region holds `addr`.
pub open spec fn mapped(regions: Seq<MmapRegion>, addr: u64) -> bool {
    exists|i: int| first_holding(regions, addr, i)
}

/// The first region that holds `addr`.
pub open spec fn holder(regions: Seq<MmapRegion>, addr: u64) -> int {
    choose|i: int| first_holding(regions, addr, i)
}

proof fn lemma_holder(regions: Seq<MmapRegion>, addr: u64, i: int)
    requires
        first_holding(regions, addr, i),
    ensures
        mapped(regions, addr),
        holder(regions, addr) == i,
{
    let j = holder(regions, addr);
    assert(first_holding(regions, addr, j));
}

/// No region has an address in `[a, a + len)`.
pub open spec fn clear(regions: Seq<MmapRegion>, a: int, len: int) -> bool {
    forall|i: int|
        0 <= i < regions.len() ==> (#[trigger] regions[i]).end() <= a || regions[i].base >= a + len
}

/// A mapping of `len` bytes can be placed at `a`: at a page boundary of the mapping
/// range, within the address space, and clear of all regions.
pub open spec fn fits(regions: Seq<MmapRegion>, len: int, a: int) -> bool {
    &&& a % 4096 == 0
    &&& LOWEST_START <= a
    &&& a + len <= u64::MAX
    &&& clear(regions, a, len)
}

/// The lowest place from `from` up for `len` bytes.
pub open spec fn lowest_fit(regions: Seq<MmapRegion>, len: int, from: int, a: int) -> bool {
    &&& from <= a
    &&& fits(regions, len, a)
    &&& forall|b: int| from <= b < a ==> !#[trigger] fits(regions, len, b)
}

/// The lowest place from `from` up for `len` bytes, where there is one.
pub open spec fn first_fit(regions: Seq<MmapRegion>, len: int, from: int) -> Option<int> {
    if exists|a: int| lowest_fit(regions, len, from, a) {
        Some(choose|a: int| lowest_fit(regions, len, from, a))
    } else {
        None
    }
}

/// The address at which a search for free space starts.
pub open spec fn search_start(hint: u64) -> int {
    if hint < USER_START {
        USER_START as int
    } else {
        page_down(hint as int)
    }
}

/// The outcome of a search for free space: the lowest place from the start of the
/// search up; where there is none, the lowest of all; 0 where there is no room.
pub open spec fn free_address(regions: Seq<MmapRegion>, len: int, hint: u64) -> int {
    match first_fit(regions, len, search_start(hint)) {
        Some(a) => a,
        None => match first_fit(regions, len, LOWEST_START as int) {
            Some(a) => a,
            None => 0,
        },
    }
}

/// Where there is a place from `from` up, there is a lowest one.
proof fn lemma_lowest_exists(regions: Seq<MmapRegion>, len: int, from: int, b: int)
    requires
        from <= b,
        fits(regions, len, b),
    ensures
        exists|a: int| lowest_fit(regions, len, from, a),
    decreases b - from,
{
    if exists|c: int| from <= c < b && fits(regions, len, c) {
        let c = choose|c: int| from <= c < b && fits(regions, len, c);
        lemma_lowest_exists(regions, len, from, c);
    } else {
        assert(lowest_fit(regions, len, from, b));
    }
}

/// What a search from `from` up has found is the first fit.
proof fn lemma_first_fit(regions: Seq<MmapRegion>, len: int, from: int, r: Option<u64>)
    requires
        match r {
            Some(a) => lowest_fit(regions, len, from, a as int),
            None => forall|b: int| from <= b ==> !#[trigger] fits(regions, len, b),
        },
    ensures
        first_fit(regions, len, from) == (match r {
            Some(a) => Some(a as int),
            None => None::<int>,
        }),
{
    match r {
        Some(a) => {
            let c = choose|c: int| lowest_fit(regions, len, from, c);
            assert(lowest_fit(regions, len, from, c));
            if c < a {
                assert(!fits(regions, len, c));
            }
            if a < c {
                assert(!fits(regions, len, a as int));
            }
        },
        None => {
            if exists|a: int| lowest_fit(regions, len, from, a) {
                let a = choose|a: int| lowest_fit(regions, len, from, a);
                assert(!fits(regions, len, a));
            }
        },
    }
}

/// Every region ends at least a page below the top of the address space.
pub open spec fn below_top(regions: Seq<MmapRegion>) -> bool {
    forall|i: int|
        0 <= i < regions.len() ==> (#[trigger] regions[i]).end() + 4095 <= u64::MAX
}

impl MmapTable {
    /// The regions of a task, in the order in which they were added.
    pub open spec fn regions_of(&self, tid: TaskId) -> Seq<MmapRegion> {
        if has_task(self.tasks@, tid) {
            self.tasks@[choose|i: int| task_at(self.tasks@, tid, i)].regions@
        } else {
            Seq::empty()
        }
    }

    /// No task has two entries, every region ends within the address space, and
    /// the regions of a task share no address.
    pub open spec fn wf(&self) -> bool {
        &&& forall|i: int, j: int|
            0 <= i < j < self.tasks@.len() ==> (#[trigger] self.tasks@[i]).tid != (
            #[trigger] self.tasks@[j]).tid
        &&& forall|i: int| 0 <= i < self.tasks@.len() ==> apart((#[trigger] self.tasks@[i]).regions@)
        &&& forall|i: int, k: int|
            0 <= i < self.tasks@.len() && 0 <= k < self.tasks@[i].regions@.len() ==> (
            #[trigger] self.tasks@[i].regions@[k]).wf()
    }

    /// The regions of all tasks but `tid` are as in `pre`.
    pub open spec fn others_as(&self, pre: MmapTable, tid: TaskId) -> bool {
        forall|t: TaskId| t != tid ==> #[trigger] self.regions_of(t) == pre.regions_of(t)
    }

    proof fn lemma_entry(&self, tid: TaskId, i: int)
        requires
            self.wf(),
            task_at(self.tasks@, tid, i),
        ensures
            self.regions_of(tid) == self.tasks@[i].regions@,
            apart(self.regions_of(tid)),
            forall|k: int|
                0 <= k < self.regions_of(tid).len() ==> (#[trigger] self.regions_of(tid)[k]).wf(),
    {
        let j = choose|j: int| task_at(self.tasks@, tid, j);
        assert(task_at(self.tasks@, tid, j));
        assert(apart(self.tasks@[i].regions@));
    }

    /// Replacing the regions of entry `i` changes those of its task only.
    proof fn lemma_replaced(&self, pre: MmapTable, tid: TaskId, i: int)
        requires
            pre.wf(),
            task_at(pre.tasks@, tid, i),
            self.tasks@.len() == pre.tasks@.len(),
            self.tasks@[i].tid == tid,
            forall|j: int|
                0 <= j < pre.tasks@.len() && j != i ==> #[trigger] self.tasks@[j] == pre.tasks@[j],
            apart(self.tasks@[i].regions@),
            forall|k: int|
                0 <= k < self.tasks@[i].regions@.len() ==> (
                #[trigger] self.tasks@[i].regions@[k]).wf(),
        ensures
            self.wf(),
            self.regions_of(tid) == self.tasks@[i].regions@,
            self.others_as(pre, tid),
    {
        assert forall|a: int, b: int| 0 <= a < b < self.tasks@.len() implies (
        #[trigger] self.tasks@[a]).tid != (#[trigger] self.tasks@[b]).tid by {
            assert(pre.tasks@[a].tid != pre.tasks@[b].tid);
        }
        assert(self.wf());
        assert(task_at(self.tasks@, tid, i));
        self.lemma_entry(tid, i);
        assert forall|t: TaskId| t != tid implies #[trigger] self.regions_of(t) == pre.regions_of(
            t,
        ) by {
            if has_task(pre.tasks@, t) {
                let j = choose|j: int| task_at(pre.tasks@, t, j);
                assert(task_at(self.tasks@, t, j));
                self.lemma_entry(t, j);
            } else if has_task(self.tasks@, t) {
                let j = choose|j: int| task_at(self.tasks@, t, j);
                assert(task_at(pre.tasks@, t, j));
            }
        }
    }

    /// The empty table.
    pub fn new() -> (r: Self)
        ensures
            r.wf(),
            forall|t: TaskId| #[trigger] r.regions_of(t) == Seq::<MmapRegion>::empty(),
    {
        MmapTable { tasks: Vec::new() }
    }

    fn entry(&self, tid: TaskId) -> (r: Option<usize>)
        ensures
            match r {
                Some(i) => task_at(self.tasks@, tid, i as int),
                None => !has_task(self.tasks@, tid),
            },
    {
        let mut i: usize = 0;
        while i < self.tasks.len()
            invariant
                i <= self.tasks@.len(),
                forall|j: int| 0 <= j < i ==> (#[trigger] self.tasks@[j]).tid != tid,
            decreases self.tasks@.len() - i,
        {
            if self.tasks[i].tid == tid {
                return Some(i);
            }
            i += 1;
        }
        None
    }

    /// The entry of a task, made on first use.
    fn entry_or_new(&mut self, tid: TaskId) -> (r: usize)
        requires
            old(self).wf(),
        ensures
            final(self).wf(),
            task_at(final(self).tasks@, tid, r as int),
            forall|t: TaskId| #[trigger] final(self).regions_of(t) == old(self).regions_of(t),
    {
        match self.entry(tid) {
            Some(i) => i,
            None => {
                let i: usize = self.tasks.len();
                self.tasks.push(TaskRegions { tid, regions: Vec::new() });
                proof {
                    let now = self.tasks@;
                    let pre = old(self).tasks@;
                    assert forall|a: int, b: int| 0 <= a < b < now.len() implies (
                    #[trigger] now[a]).tid != (#[trigger] now[b]).tid by {
                        if b == i {
                            assert(now[a] == pre[a]);
                            assert(!task_at(pre, tid, a));
                        } else {
                            assert(now[a] == pre[a] && now[b] == pre[b]);
                        }
                    }
                    assert forall|a: int| 0 <= a < now.len() implies apart(
                        (#[trigger] now[a]).regions@,
                    ) by {
                        if a < i {
                            assert(now[a] == pre[a]);
                        }
                    }
                    assert forall|a: int, k: int|
                        0 <= a < now.len() && 0 <= k < now[a].regions@.len() implies (
                    #[trigger] now[a].regions@[k]).wf() by {
                        assert(now[a] == pre[a]);
                    }
                    assert(self.wf());
                    assert forall|t: TaskId| #[trigger] self.regions_of(t) == old(self).regions_of(
                        t,
                    ) by {
                        if t == tid {
                            assert(task_at(now, tid, i as int));
                            self.lemma_entry(tid, i as int);
                        } else if has_task(pre, t) {
                            let j = choose|j: int| task_at(pre, t, j);
                            assert(task_at(now, t, j));
                            self.lemma_entry(t, j);
                        } else if has_task(now, t) {
                            let j = choose|j: int| task_at(now, t, j);
                            assert(task_at(pre, t, j));
                        }
                    }
                }
                i
            },
        }
    }
}

/// What adding a region returns and leaves behind.
pub open spec fn add_outcome(
    pre: MmapTable,
    post: MmapTable,
    s0: MmapStats,
    s1: MmapStats,
    tid: TaskId,
    region: MmapRegion,
    max: usize,
    r: MmapResult<()>,
) -> bool {
    let regions = pre.regions_of(tid);
    &&& post.others_as(pre, tid)
    &&& if regions.len() >= max {
        &&& r == Err::<(), MmapError>(MmapError::TooManyRegions(tid, max))
        &&& post.regions_of(tid) == regions
        &&& s1 == s0
    } else if exists|i: int| 0 <= i < regions.len() && region.clashes(#[trigger] regions[i]) {
        &&& r == Err::<(), MmapError>(
            MmapError::RegionOverlap { addr: region.base, len: region.length },
        )
        &&& post.regions_of(tid) == regions
        &&& s1 == s0
    } else {
        &&& r is Ok
        &&& post.regions_of(tid) == regions.push(region)
        &&& s1 == counted_in(s0, region)
    }
}

/// Adds a region for a task. It must not share an address with another region of
/// the task.
pub fn add_region(
    table: &mut MmapTable,
    tid: TaskId,
    region: MmapRegion,
    config: &MmapConfig,
    stats: &mut MmapStats,
) -> (r: MmapResult<()>)
    requires
        old(table).wf(),
        region.wf(),
    ensures
        final(table).wf(),
        add_outcome(
            *old(table),
            *final(table),
            *old(stats),
            *final(stats),
            tid,
            region,
            config.max_regions_per_task,
            r,
        ),
{
    let i: usize = table.entry_or_new(tid);
    proof {
        table.lemma_entry(tid, i as int);
    }
    let ghost mid = *table;
    let ghost regions = table.regions_of(tid);
    if table.tasks[i].regions.len() >= config.max_regions_per_task {
        return Err(MmapError::TooManyRegions(tid, config.max_regions_per_task));
    }
    let mut k: usize = 0;
    while k < table.tasks[i].regions.len()
        invariant
            *table == mid,
            table.wf(),
            region.wf(),
            0 <= i < table.tasks@.len(),
            regions == table.tasks@[i as int].regions@,
            regions == old(table).regions_of(tid),
            regions == table.regions_of(tid),
            table.others_as(*old(table), tid),
            *stats == *old(stats),
            regions.len() < config.max_regions_per_task,
            k <= regions.len(),
            forall|j: int| 0 <= j < k ==> !region.clashes(#[trigger] regions[j]),
        decreases regions.len() - k,
    {
        assert(table.tasks@[i as int].regions@[k as int].wf());
        let end: u64 = region.base + region.length as u64;
        let r_base: u64 = table.tasks[i].regions[k].base;
        let r_end: u64 = r_base + table.tasks[i].regions[k].length as u64;
        if !(end <= r_base || region.base >= r_end) {
            assert(region.clashes(regions[k as int]));
            return Err(MmapError::RegionOverlap { addr: region.base, len: region.length });
        }
        k += 1;
    }
    stats.record_region(&region);
    let ghost added = region;
    table.tasks[i].regions.push(region);
    proof {
        let now = table.tasks@[i as int].regions@;
        assert(now == regions.push(added));
        assert forall|a: int, b: int| 0 <= a < b < now.len() implies !(#[trigger] now[a]).clashes(
            #[trigger] now[b],
        ) by {
            if b == regions.len() {
                assert(!added.clashes(regions[a]));
            } else {
                assert(!regions[a].clashes(regions[b]));
            }
        }
        assert forall|a: int| 0 <= a < now.len() implies (#[trigger] now[a]).wf() by {
            if a < regions.len() {
                assert(now[a] == mid.tasks@[i as int].regions@[a]);
            }
        }
        table.lemma_replaced(mid, tid, i as int);
    }
    Ok(())
}

/// Removes the regions of a task that lie within `[addr, addr + length)` and
/// returns them.
pub fn remove_region(
    table: &mut MmapTable,
    tid: TaskId,
    addr: Address,
    length: Length,
) -> (r: MmapResult<Vec<MmapRegion>>)
    requires
        old(table).wf(),
        addr + length <= u64::MAX,
    ensures
        final(table).wf(),
        final(table).others_as(*old(table), tid),
        ({
            let regions = old(table).regions_of(tid);
            let n = regions.len() as int;
            let gone = part(regions, addr as int, addr + length, true, n);
            match r {
                Ok(v) => {
                    &&& gone.len() > 0
                    &&& v@ == gone
                    &&& final(table).regions_of(tid) == part(
                        regions,
                        addr as int,
                        addr + length,
                        false,
                        n,
                    )
                },
                Err(e) => {
                    &&& gone.len() == 0
                    &&& e == (MmapError::RegionNotFound { addr })
                    &&& final(table).regions_of(tid) == regions
                },
            }
        }),
{
    let i: usize = match table.entry(tid) {
        Some(i) => i,
        None => {
            return Err(MmapError::RegionNotFound { addr });
        },
    };
    proof {
        table.lemma_entry(tid, i as int);
    }
    let ghost regions = table.regions_of(tid);
    let end: u64 = addr + length as u64;
    let mut removed: Vec<MmapRegion> = Vec::new();
    let mut kept: Vec<MmapRegion> = Vec::new();
    let mut k: usize = 0;
    while k < table.tasks[i].regions.len()
        invariant
            *table == *old(table),
            table.wf(),
            0 <= i < table.tasks@.len(),
            regions == table.tasks@[i as int].regions@,
            k <= regions.len(),
            end == addr + length,
            removed@ == part(regions, addr as int, end as int, true, k as int),
            kept@ == part(regions, addr as int, end as int, false, k as int),
        decreases regions.len() - k,
    {
        assert(table.tasks@[i as int].regions@[k as int].wf());
        let region = table.tasks[i].regions[k].clone();
        let r_end: u64 = region.base + region.length as u64;
        if region.base >= addr && r_end <= end {
            removed.push(region);
        } else {
            kept.push(region);
        }
        k += 1;
    }
    if removed.len() == 0 {
        return Err(MmapError::RegionNotFound { addr });
    }
    proof {
        lemma_part(regions, addr as int, end as int, false, k as int);
    }
    table.tasks[i].regions = kept;
    proof {
        table.lemma_replaced(*old(table), tid, i as int);
    }
    Ok(removed)
}

/// A part of the regions keeps their properties.
proof fn lemma_part(regions: Seq<MmapRegion>, addr: int, end: int, inside: bool, n: int)
    requires
        0 <= n <= regions.len(),
        apart(regions),
        forall|k: int| 0 <= k < regions.len() ==> (#[trigger] regions[k]).wf(),
    ensures
        apart(part(regions, addr, end, inside, n)),
        forall|k: int|
            0 <= k < part(regions, addr, end, inside, n).len() ==> (#[trigger] part(
                regions,
                addr,
                end,
                inside,
                n,
            )[k]).wf(),
        forall|k: int|
            0 <= k < part(regions, addr, end, inside, n).len() ==> exists|j: int|
                0 <= j < n && regions[j] == #[trigger] part(regions, addr, end, inside, n)[k],
    decreases n,
{
    if n > 0 {
        lemma_part(regions, addr, end, inside, n - 1);
        let rest = part(regions, addr, end, inside, n - 1);
        let all = part(regions, addr, end, inside, n);
        assert forall|k: int| 0 <= k < all.len() implies exists|j: int|
            0 <= j < n && regions[j] == #[trigger] all[k] by {
            if k < rest.len() {
                let j = choose|j: int| 0 <= j < n - 1 && regions[j] == rest[k];
                assert(regions[j] == all[k]);
            } else {
                assert(regions[n - 1] == all[k]);
            }
        }
        assert forall|a: int, b: int| 0 <= a < b < all.len() implies !(#[trigger] all[a]).clashes(
            #[trigger] all[b],
        ) by {
            if b < rest.len() {
                assert(!rest[a].clashes(rest[b]));
            } else {
                let j = choose|j: int| 0 <= j < n - 1 && regions[j] == rest[a];
                assert(!regions[j].clashes(regions[n - 1]));
            }
        }
    }
}

/// The first region of a task that holds `addr`.
pub fn find_region(table: &MmapTable, tid: TaskId, addr: Address) -> (r: Option<MmapRegion>)
    requires
        table.wf(),
    ensures
        match r {
            Some(region) => mapped(table.regions_of(tid), addr) && region == table.regions_of(
                tid,
            )[holder(table.regions_of(tid), addr)],
            None => !mapped(table.regions_of(tid), addr),
        },
{
    match find_position(table, tid, addr) {
        Some((i, k)) => {
            proof {
                table.lemma_entry(tid, i as int);
                lemma_holder(table.regions_of(tid), addr, k as int);
            }
            Some(table.tasks[i].regions[k].clone())
        },
        None => None,
    }
}

fn find_position(table: &MmapTable, tid: TaskId, addr: Address) -> (r: Option<(usize, usize)>)
    requires
        table.wf(),
    ensures
        match r {
            Some((i, k)) => task_at(table.tasks@, tid, i as int) && first_holding(
                table.tasks@[i as int].regions@,
                addr,
                k as int,
            ),
            None => !mapped(table.regions_of(tid), addr),
        },
{
    let i: usize = match table.entry(tid) {
        Some(i) => i,
        None => {
            return None;
        },
    };
    proof {
        table.lemma_entry(tid, i as int);
    }
    let mut k: usize = 0;
    while k < table.tasks[i].regions.len()
        invariant
            table.wf(),
            task_at(table.tasks@, tid, i as int),
            k <= table.tasks@[i as int].regions@.len(),
            forall|j: int|
                0 <= j < k ==> !(#[trigger] table.tasks@[i as int].regions@[j]).holds(addr),
        decreases table.tasks@[i as int].regions@.len() - k,
    {
        assert(table.tasks@[i as int].regions@[k as int].wf());
        if table.tasks[i].regions[k].contains(addr) {
            return Some((i, k));
        }
        k += 1;
    }
    None
}

/// Mutable access to the first region of a task that holds `addr`.
pub fn find_region_mut(table: &mut MmapTable, tid: TaskId, addr: Address) -> (r: Option<
    &mut MmapRegion,
>)
    requires
        old(table).wf(),
    ensures
        match r {
            Some(region) => {
                &&& mapped(old(table).regions_of(tid), addr)
                &&& *region == old(table).regions_of(tid)[holder(old(table).regions_of(tid), addr)]
                &&& (final(region).base == region.base && final(region).length == region.length)
                    ==> {
                    &&& final(table).wf()
                    &&& final(table).others_as(*old(table), tid)
                    &&& final(table).regions_of(tid) == old(table).regions_of(tid).update(
                        holder(old(table).regions_of(tid), addr),
                        *final(region),
                    )
                }
            },
            None => !mapped(old(table).regions_of(tid), addr) && *final(table) == *old(table),
        },
{
    match find_position(table, tid, addr) {
        Some((i, k)) => {
            let ghost pre = *table;
            proof {
                table.lemma_entry(tid, i as int);
                lemma_holder(table.regions_of(tid), addr, k as int);
                assert forall|post: MmapTable, new: MmapRegion| #[trigger]
                    region_replaced(post, pre, i as int, k as int, new) && new.base
                        == pre.regions_of(tid)[k as int].base && new.length == pre.regions_of(
                        tid,
                    )[k as int].length implies post.wf() && post.others_as(pre, tid)
                    && post.regions_of(tid) == pre.regions_of(tid).update(k as int, new) by {
                    lemma_region_replaced(post, pre, tid, i as int, k as int, new);
                }
            }
            let ghost end = *final(table);
            let region = &mut table.tasks[i].regions[k];
            assert(region_replaced(end, pre, i as int, k as int, *final(region)));
            Some(region)
        },
        None => None,
    }
}

/// `post` is `pre` with region `k` of entry `i` replaced by `new`.
pub open spec fn region_replaced(
    post: MmapTable,
    pre: MmapTable,
    i: int,
    k: int,
    new: MmapRegion,
) -> bool {
    &&& post.tasks@.len() == pre.tasks@.len()
    &&& post.tasks@[i].tid == pre.tasks@[i].tid
    &&& post.tasks@[i].regions@ == pre.tasks@[i].regions@.update(k, new)
    &&& forall|j: int|
        0 <= j < pre.tasks@.len() && j != i ==> #[trigger] post.tasks@[j] == pre.tasks@[j]
}

/// Replacing a region by one at the same place keeps the table in order.
proof fn lemma_region_replaced(
    post: MmapTable,
    pre: MmapTable,
    tid: TaskId,
    i: int,
    k: int,
    new: MmapRegion,
)
    requires
        pre.wf(),
        task_at(pre.tasks@, tid, i),
        0 <= k < pre.tasks@[i].regions@.len(),
        region_replaced(post, pre, i, k, new),
        new.base == pre.tasks@[i].regions@[k].base,
        new.length == pre.tasks@[i].regions@[k].length,
    ensures
        post.wf(),
        post.others_as(pre, tid),
        post.regions_of(tid) == pre.regions_of(tid).update(k, new),
{
    pre.lemma_entry(tid, i);
    let was = pre.tasks@[i].regions@;
    let now = post.tasks@[i].regions@;
    assert forall|a: int, b: int| 0 <= a < b < now.len() implies !(#[trigger] now[a]).clashes(
        #[trigger] now[b],
    ) by {
        assert(!was[a].clashes(was[b]));
    }
    assert forall|a: int| 0 <= a < now.len() implies (#[trigger] now[a]).wf() by {
        assert(was[a].wf());
    }
    post.lemma_replaced(pre, tid, i);
}

/// The regions of a task, in the order in which they were added.
pub fn get_regions(table: &MmapTable, tid: TaskId) -> (r: Vec<MmapRegion>)
    requires
        table.wf(),
    ensures
        r@ == table.regions_of(tid),
{
    let mut out: Vec<MmapRegion> = Vec::new();
    match table.entry(tid) {
        Some(i) => {
            proof {
                table.lemma_entry(tid, i as int);
            }
            let mut k: usize = 0;
            while k < table.tasks[i].regions.len()
                invariant
                    0 <= i < table.tasks@.len(),
                    k <= table.tasks@[i as int].regions@.len(),
                    out@ == table.tasks@[i as int].regions@.take(k as int),
                decreases table.tasks@[i as int].regions@.len() - k,
            {
                let ghost s = table.tasks@[i as int].regions@;
                out.push(table.tasks[i].regions[k].clone());
                assert(s.take(k + 1) =~= s.take(k as int).push(s[k as int]));
                k += 1;
            }
            assert(out@ =~= table.tasks@[i as int].regions@);
        },
        None => {
            assert(out@ =~= Seq::<MmapRegion>::empty());
        },
    }
    out
}

/// Removes all regions of a task and returns them.
pub fn clear_task(table: &mut MmapTable, tid: TaskId) -> (r: Vec<MmapRegion>)
    requires
        old(table).wf(),
    ensures
        final(table).wf(),
        r@ == old(table).regions_of(tid),
        final(table).regions_of(tid) == Seq::<MmapRegion>::empty(),
        final(table).others_as(*old(table), tid),
{
    match table.entry(tid) {
        Some(i) => {
            proof {
                table.lemma_entry(tid, i as int);
            }
            let entry = table.tasks.remove(i);
            proof {
                let pre = old(table).tasks@;
                let now = table.tasks@;
                assert forall|j: int| 0 <= j < now.len() implies #[trigger] now[j]
                    == pre[old_place(i as int, j)] by {}
                assert forall|a: int, b: int| 0 <= a < b < now.len() implies (
                #[trigger] now[a]).tid != (#[trigger] now[b]).tid by {
                    assert(pre[old_place(i as int, a)].tid != pre[old_place(i as int, b)].tid);
                }
                assert forall|a: int| 0 <= a < now.len() implies apart(
                    (#[trigger] now[a]).regions@,
                ) by {
                    assert(apart(pre[old_place(i as int, a)].regions@));
                }
                assert forall|a: int, k: int|
                    0 <= a < now.len() && 0 <= k < now[a].regions@.len() implies (
                #[trigger] now[a].regions@[k]).wf() by {
                    assert(pre[old_place(i as int, a)].regions@[k].wf());
                }
                assert(table.wf());
                if has_task(now, tid) {
                    let j = choose|j: int| task_at(now, tid, j);
                    assert(pre[old_place(i as int, j)].tid == pre[i as int].tid);
                }
                assert forall|t: TaskId| t != tid implies #[trigger] table.regions_of(t) == old(table).regions_of(t) by {
                    if has_task(pre, t) {
                        let j = choose|j: int| task_at(pre, t, j);
                        let k = if j < i {
                            j
                        } else {
                            j - 1
                        };
                        assert(now[k] == pre[j]);
                        assert(task_at(now, t, k));
                        table.lemma_entry(t, k);
                    } else if has_task(now, t) {
                        let j = choose|j: int| task_at(now, t, j);
                        assert(task_at(pre, t, old_place(i as int, j)));
                    }
                }
            }
            entry.regions
        },
        None => Vec::new(),
    }
}

/// Where entry `j` stood before entry `i` was removed.
spec fn old_place(i: int, j: int) -> int {
    if j < i {
        j
    } else {
        j + 1
    }
}

/// The first region with an address in `[at, at + length)`.
fn region_in_the_way(regions: &Vec<MmapRegion>, at: u64, length: Length) -> (r: Option<usize>)
    requires
        at + length <= u64::MAX,
        forall|i: int| 0 <= i < regions@.len() ==> (#[trigger] regions@[i]).wf(),
    ensures
        match r {
            Some(i) => i < regions@.len() && at < regions@[i as int].end()
                && regions@[i as int].base < at + length,
            None => clear(regions@, at as int, length as int),
        },
{
    let mut i: usize = 0;
    while i < regions.len()
        invariant
            at + length <= u64::MAX,
            forall|j: int| 0 <= j < regions@.len() ==> (#[trigger] regions@[j]).wf(),
            i <= regions@.len(),
            forall|j: int|
                0 <= j < i ==> (#[trigger] regions@[j]).end() <= at || regions@[j].base >= at
                    + length,
        decreases regions@.len() - i,
    {
        assert(regions@[i as int].wf());
        let base: u64 = regions[i].base;
        let end: u64 = base + regions[i].length as u64;
        if at < end && base < at + length as u64 {
            return Some(i);
        }
        i += 1;
    }
    None
}

/// The lowest place from `from` up for a mapping.
fn find_from(regions: &Vec<MmapRegion>, length: Length, from: u64) -> (r: Option<u64>)
    requires
        from % 4096 == 0,
        from >= LOWEST_START,
        forall|i: int| 0 <= i < regions@.len() ==> (#[trigger] regions@[i]).wf(),
    ensures
        match r {
            Some(a) => lowest_fit(regions@, length as int, from as int, a as int),
            None => forall|b: int| from <= b ==> !#[trigger] fits(regions@, length as int, b),
        },
{
    let ghost len = length as int;
    let mut at: u64 = from;
    loop
        invariant
            len == length,
            from <= at,
            from >= LOWEST_START,
            at % 4096 == 0,
            forall|i: int| 0 <= i < regions@.len() ==> (#[trigger] regions@[i]).wf(),
            forall|b: int| from <= b < at ==> !#[trigger] fits(regions@, len, b),
        decreases u64::MAX - at,
    {
        if length as u64 > u64::MAX - at {
            return None;
        }
        let i: usize = match region_in_the_way(regions, at, length) {
            Some(i) => i,
            None => {
                return Some(at);
            },
        };
        assert(regions@[i as int].wf());
        let end: u64 = regions[i].base + regions[i].length as u64;
        assert forall|b: int| at <= b < end implies !#[trigger] fits(regions@, len, b) by {
            assert(!(regions@[i as int].end() <= b || regions@[i as int].base >= b + len));
        }
        if end > u64::MAX - 4095 {
            return None;
        }
        at = page_floor(end + 4095);
    }
}

/// The outcome of a search among the regions of a task.
fn search(regions: &Vec<MmapRegion>, length: Length, hint: Address) -> (r: Address)
    requires
        forall|i: int| 0 <= i < regions@.len() ==> (#[trigger] regions@[i]).wf(),
    ensures
        r == free_address(regions@, length as int, hint),
{
    let start: u64 = if hint < USER_START {
        USER_START
    } else {
        page_floor(hint)
    };
    let first: Option<u64> = find_from(regions, length, start);
    proof {
        lemma_first_fit(regions@, length as int, start as int, first);
    }
    match first {
        Some(a) => a,
        None => {
            let any: Option<u64> = find_from(regions, length, LOWEST_START);
            proof {
                lemma_first_fit(regions@, length as int, LOWEST_START as int, any);
            }
            match any {
                Some(a) => a,
                None => 0,
            }
        },
    }
}

/// Searches for a free range of addresses for a mapping of a task: from the hint, or
/// from the start of the mapping range up, and then from the lowest address that may
/// be mapped up; 0 where there is no room.
pub fn find_free_address(table: &MmapTable, tid: TaskId, length: Length, hint: Address) -> (r:
    Address)
    requires
        table.wf(),
    ensures
        r == free_address(table.regions_of(tid), length as int, hint),
{
    match table.entry(tid) {
        Some(i) => {
            proof {
                table.lemma_entry(tid, i as int);
            }
            search(&table.tasks[i].regions, length, hint)
        },
        None => {
            let none: Vec<MmapRegion> = Vec::new();
            assert(none@ =~= table.regions_of(tid));
            search(&none, length, hint)
        },
    }
}

// ---------------------------------------------------------------------------
// Manager
// ---------------------------------------------------------------------------

/// Base and length are whole pages, and the part of the file that backs the
/// region can be addressed.
pub open spec fn tidy(region: MmapRegion) -> bool {
    &&& region.base % 4096 == 0
    &&& region.length % 4096 == 0
    &&& region.backing matches MmapBacking::File { offset, .. } ==> offset + region.length
        <= usize::MAX
}

/// The base of a new mapping: the hint where it is fixed, else a free address.
pub open spec fn place(
    regions: Seq<MmapRegion>,
    len: int,
    flags: Flags,
    hint: Address,
) -> int {
    if hint != 0 && flags & MAP_FIXED != 0 {
        page_down(hint as int)
    } else {
        free_address(regions, len, hint)
    }
}

/// A mapping of `len` bytes that is to be at the hint ends within the address space.
pub open spec fn fixed_fits(len: int, flags: Flags, hint: Address) -> bool {
    hint != 0 && flags & MAP_FIXED != 0 ==> page_down(hint as int) + page_up(len) <= u64::MAX
}

/// A page of a file that has to be written back.
#[derive(Debug, Clone, PartialEq, Eq)]
pub struct PageWrite {
    pub path: String,
    pub file_offset: u64,
    pub page_addr: u64,
}

/// Path, file offset and page address of each write.
pub open spec fn write_views(v: Seq<PageWrite>) -> Seq<(Seq<char>, int, int)> {
    Seq::new(v.len(), |i: int| (v[i].path@, v[i].file_offset as int, v[i].page_addr as int))
}

/// The writes for the dirty ones of the first `n` pages of a region.
pub open spec fn page_writes(region: MmapRegion, n: int) -> Seq<(Seq<char>, int, int)>
    decreases n,
{
    if n <= 0 {
        Seq::empty()
    } else {
        let rest = page_writes(region, n - 1);
        match region.backing {
            MmapBacking::File { path, offset, .. } => if region.dirty(n - 1) {
                rest.push((path@, offset + (n - 1) * 4096, region.base + (n - 1) * 4096))
            } else {
                rest
            },
            MmapBacking::Anonymous => rest,
        }
    }
}

/// A region that can be written back: it is backed by a file that was mapped for
/// writing.
pub open spec fn flushable(region: MmapRegion) -> bool {
    region.backing matches MmapBacking::File { writeable, .. } && writeable
}

/// The writes for a region.
pub open spec fn flush_writes(region: MmapRegion) -> Seq<(Seq<char>, int, int)> {
    if flushable(region) {
        page_writes(region, (region.length / 4096) as int)
    } else {
        Seq::empty()
    }
}

/// The region after its pages were written back.
pub open spec fn flushed(region: MmapRegion) -> MmapRegion {
    if flushable(region) {
        MmapRegion { dirty_mask: 0, ..region }
    } else {
        region
    }
}

/// The region is one that a synchronisation of `[addr, end)` writes back.
pub open spec fn to_sync(region: MmapRegion, addr: int, end: int) -> bool {
    region.within(addr, end) && region.is_shared()
}

/// The writes for the first `n` regions.
pub open spec fn sync_writes(
    regions: Seq<MmapRegion>,
    addr: int,
    end: int,
    n: int,
) -> Seq<(Seq<char>, int, int)>
    decreases n,
{
    if n <= 0 {
        Seq::empty()
    } else {
        let rest = sync_writes(regions, addr, end, n - 1);
        if to_sync(regions[n - 1], addr, end) {
            rest + flush_writes(regions[n - 1])
        } else {
            rest
        }
    }
}

/// A page of a file from position `pos` on, filled up with zeros.
pub open spec fn file_page(data: Seq<u8>, pos: int) -> Seq<u8> {
    Seq::new(
        4096,
        |i: int|
            if pos + i < data.len() {
                data[pos + i]
            } else {
                0u8
            },
    )
}

/// The page that a fault at `addr` in `region` brings in.
pub open spec fn fault_page(region: MmapRegion, addr: u64, file: Option<Seq<u8>>) -> Seq<u8> {
    match (region.backing, file) {
        (MmapBacking::File { offset, .. }, Some(data)) => file_page(
            data,
            offset + (page_down(addr as int) - region.base),
        ),
        _ => Seq::new(4096, |i: int| 0u8),
    }
}

/// The mappings of all tasks with their counters.
#[derive(Debug)]
pub struct MmapManager {
    pub config: MmapConfig,
    pub stats: MmapStats,
    pub table: MmapTable,
}

impl MmapManager {
    pub open spec fn wf(&self) -> bool {
        &&& self.config.broken_rule() is None
        &&& self.table.wf()
        &&& forall|t: TaskId, k: int|
            0 <= k < self.table.regions_of(t).len() ==> tidy(
                #[trigger] self.table.regions_of(t)[k],
            )
    }

    /// With the default settings, no region and no event counted.
    pub open spec fn is_default(self) -> bool {
        &&& self.wf()
        &&& self.config == (MmapConfig {
            max_regions_per_task: MAX_MMAP_REGIONS,
            enable_metrics: true,
            log_operations: false,
            default_prot: PROT_READ | PROT_WRITE,
            default_flags: MAP_SHARED,
        })
        &&& forall|t: TaskId| #[trigger] self.table.regions_of(t) == Seq::<MmapRegion>::empty()
        &&& self.stats == (MmapStats {
            total_regions: 0,
            anonymous_regions: 0,
            file_regions: 0,
            shared_regions: 0,
            private_regions: 0,
            total_mapped_pages: 0,
            dirty_pages: 0,
            page_faults: 0,
            msync_calls: 0,
            munmap_calls: 0,
        })
    }

    /// What mapping `region` returns and leaves behind.
    pub open spec fn map_outcome(
        pre: MmapManager,
        post: MmapManager,
        tid: TaskId,
        region: MmapRegion,
        r: MmapResult<Address>,
    ) -> bool {
        &&& post.config == pre.config
        &&& match r {
            Ok(a) => a == region.base && add_outcome(
                pre.table,
                post.table,
                pre.stats,
                post.stats,
                tid,
                region,
                pre.config.max_regions_per_task,
                Ok(()),
            ),
            Err(e) => add_outcome(
                pre.table,
                post.table,
                pre.stats,
                post.stats,
                tid,
                region,
                pre.config.max_regions_per_task,
                Err(e),
            ),
        }
    }

    /// What mapping a file returns and leaves behind.
    pub open spec fn mmap_file_outcome(
        pre: MmapManager,
        post: MmapManager,
        tid: TaskId,
        path: Seq<char>,
        file_len: Option<usize>,
        offset: u64,
        length: Length,
        prot: Prot,
        flags: Flags,
        hint: Address,
        r: MmapResult<Address>,
    ) -> bool {
        &&& if offset % 4096 != 0 {
                &&& r == Err::<Address, MmapError>(MmapError::InvalidOffset { offset })
                &&& post == pre
            } else if file_len is None {
                &&& r matches Err(MmapError::FileNotFound { path: p }) && p@ == path
                &&& post == pre
            } else if offset >= file_len->0 {
                &&& r == Err::<Address, MmapError>(
                    MmapError::OffsetBeyondFile { offset, size: file_len->0 },
                )
                &&& post == pre
            } else {
                let left = file_len->0 - offset;
                let actual = if length < left {
                    length as int
                } else {
                    left
                };
                let base = place(pre.table.regions_of(tid), page_up(actual), flags, hint);
                if base == 0 {
                    &&& r == Err::<Address, MmapError>(
                        MmapError::NoFreeAddressSpace(page_up(actual) as usize),
                    )
                    &&& post == pre
                } else {
                    exists|region: MmapRegion|
                        {
                            &&& #[trigger] MmapManager::map_outcome(
                                pre,
                                post,
                                tid,
                                region,
                                r,
                            )
                            &&& region.base == base
                            &&& region.length == page_up(actual)
                            &&& region.prot == prot
                            &&& region.flags == flags
                            &&& region.dirty_mask == 0
                            &&& !region.populated
                            &&& region.backing matches MmapBacking::File {
                                path: p,
                                offset: o,
                                length: l,
                                writeable: w,
                            } && p@ == path && o == offset && l == actual && w == (prot
                                & PROT_WRITE != 0)
                        }
                }
            }
    }

    /// What mapping anonymous memory returns and leaves behind.
    pub open spec fn mmap_anon_outcome(
        pre: MmapManager,
        post: MmapManager,
        tid: TaskId,
        length: Length,
        prot: Prot,
        flags: Flags,
        hint: Address,
        r: MmapResult<Address>,
    ) -> bool {
        &&& ({
                let base = place(
                    pre.table.regions_of(tid),
                    page_up(length as int),
                    flags,
                    hint,
                );
                if base == 0 {
                    &&& r == Err::<Address, MmapError>(
                        MmapError::NoFreeAddressSpace(page_up(length as int) as usize),
                    )
                    &&& post == pre
                } else {
                    MmapManager::map_outcome(
                        pre,
                        post,
                        tid,
                        MmapRegion {
                            base: base as u64,
                            length: page_up(length as int) as usize,
                            prot,
                            flags,
                            backing: MmapBacking::Anonymous,
                            dirty_mask: 0,
                            populated: false,
                        },
                        r,
                    )
                }
            })
    }

    /// What marking a page dirty leaves behind.
    pub open spec fn mark_dirty_outcome(
        pre: MmapManager,
        post: MmapManager,
        tid: TaskId,
        addr: Address,
    ) -> bool {
        &&& post.config == pre.config
        &&& post.table.others_as(pre.table, tid)
        &&& ({
                let regions = pre.table.regions_of(tid);
                let k = holder(regions, addr);
                let now = post.table.regions_of(tid);
                if !mapped(regions, addr) {
                    now == regions && post.stats == pre.stats
                } else {
                    &&& now == regions.update(
                        k,
                        MmapRegion { dirty_mask: now[k].dirty_mask, ..regions[k] },
                    )
                    &&& forall|j: int|
                        0 <= j ==> (#[trigger] now[k].dirty(j) <==> regions[k].dirty(j) || (
                        regions[k].is_shared() && j % 64 == regions[k].index_of(addr) % 64))
                    &&& post.stats == (MmapStats {
                        dirty_pages: pre.stats.dirty_pages.wrapping_add(1),
                        ..pre.stats
                    })
                }
            })
    }

    /// The writes that bring the files of the shared regions within
    /// `[addr, addr + length)` up to date.
    pub open spec fn range_writes(self, tid: TaskId, addr: Address, length: Length) -> Seq<
        (Seq<char>, int, int),
    > {
        let regions = self.table.regions_of(tid);
        sync_writes(regions, addr as int, addr + length, regions.len() as int)
    }

    /// What unmapping returns and leaves behind.
    pub open spec fn munmap_outcome(
        pre: MmapManager,
        post: MmapManager,
        tid: TaskId,
        addr: Address,
        length: Length,
        r: MmapResult<Vec<MmapRegion>>,
    ) -> bool {
        &&& post.config == pre.config
        &&& post.table.others_as(pre.table, tid)
        &&& ({
                let regions = pre.table.regions_of(tid);
                let n = regions.len() as int;
                let gone = part(regions, addr as int, addr + length, true, n);
                let s = MmapStats {
                    munmap_calls: pre.stats.munmap_calls.wrapping_add(1),
                    ..pre.stats
                };
                match r {
                    Ok(v) => {
                        &&& gone.len() > 0
                        &&& v@ == gone
                        &&& post.table.regions_of(tid) == part(
                            regions,
                            addr as int,
                            addr + length,
                            false,
                            n,
                        )
                        &&& post.stats == counted_out_all(s, gone, gone.len() as int)
                    },
                    Err(e) => {
                        &&& gone.len() == 0
                        &&& e == (MmapError::RegionNotFound { addr })
                        &&& post.table.regions_of(tid) == regions
                        &&& post.stats == s
                    },
                }
            })
    }

    /// What a synchronisation returns and leaves behind.
    pub open spec fn msync_outcome(
        pre: MmapManager,
        post: MmapManager,
        tid: TaskId,
        addr: Address,
        length: Length,
        r: MmapResult<Vec<PageWrite>>,
    ) -> bool {
        &&& post.config == pre.config
        &&& post.table.others_as(pre.table, tid)
        &&& post.stats == (MmapStats {
                msync_calls: pre.stats.msync_calls.wrapping_add(1),
                ..pre.stats
            })
        &&& ({
                let regions = pre.table.regions_of(tid);
                let n = regions.len() as int;
                let hit = exists|i: int|
                    0 <= i < n && to_sync(#[trigger] regions[i], addr as int, addr + length);
                match r {
                    Ok(v) => {
                        &&& hit
                        &&& write_views(v@) == pre.range_writes(tid, addr, length)
                        &&& post.table.regions_of(tid) == Seq::new(
                            n as nat,
                            |i: int|
                                if to_sync(regions[i], addr as int, addr + length) {
                                    flushed(regions[i])
                                } else {
                                    regions[i]
                                },
                        )
                    },
                    Err(e) => {
                        &&& !hit
                        &&& e == (MmapError::RegionNotFound { addr })
                        &&& post.table.regions_of(tid) == regions
                    },
                }
            })
    }

    /// What removing all mappings of a task returns and leaves behind.
    pub open spec fn cleanup_task_outcome(
        pre: MmapManager,
        post: MmapManager,
        tid: TaskId,
        r: Vec<MmapRegion>,
    ) -> bool {
        &&& post.config == pre.config
        &&& post.table.others_as(pre.table, tid)
        &&& post.table.regions_of(tid) == Seq::<MmapRegion>::empty()
        &&& r@ == pre.table.regions_of(tid)
        &&& post.stats == counted_out_all(pre.stats, r@, r@.len() as int)
    }

    /// Creates a manager; the configuration must be valid.
    pub fn new(config: MmapConfig) -> (r: Self)
        requires
            config.broken_rule() is None,
        ensures
            r.wf(),
            r.config == config,
            forall|t: TaskId| #[trigger] r.table.regions_of(t) == Seq::<MmapRegion>::empty(),
            r.stats == (MmapStats {
                total_regions: 0,
                anonymous_regions: 0,
                file_regions: 0,
                shared_regions: 0,
                private_regions: 0,
                total_mapped_pages: 0,
                dirty_pages: 0,
                page_faults: 0,
                msync_calls: 0,
                munmap_calls: 0,
            }),
    {
        MmapManager { config, stats: MmapStats::default(), table: MmapTable::new() }
    }

    /// Creates a manager with the default configuration.
    pub fn default() -> (r: Self)
        ensures
            r.is_default(),
    {
        Self::new(MmapConfig::default())
    }

    pub fn config(&self) -> (r: &MmapConfig)
        ensures
            *r == self.config,
    {
        &self.config
    }

    pub fn stats(&self) -> (r: &MmapStats)
        ensures
            *r == self.stats,
    {
        &self.stats
    }

    proof fn lemma_below_top(&self, tid: TaskId)
        requires
            self.wf(),
        ensures
            below_top(self.table.regions_of(tid)),
    {
        let regions = self.table.regions_of(tid);
        assert forall|i: int| 0 <= i < regions.len() implies (#[trigger] regions[i]).end() + 4095
            <= u64::MAX by {
            assert(has_task(self.table.tasks@, tid));
            let j = choose|j: int| task_at(self.table.tasks@, tid, j);
            self.table.lemma_entry(tid, j);
            assert(tidy(self.table.regions_of(tid)[i]));
            assert(regions[i].wf());
        }
    }

    proof fn lemma_map_keeps_wf(
        pre: MmapManager,
        post: MmapManager,
        tid: TaskId,
        region: MmapRegion,
        r: MmapResult<()>,
    )
        requires
            pre.wf(),
            tidy(region),
            post.config == pre.config,
            post.table.wf(),
            add_outcome(
                pre.table,
                post.table,
                pre.stats,
                post.stats,
                tid,
                region,
                pre.config.max_regions_per_task,
                r,
            ),
        ensures
            post.wf(),
    {
        assert forall|t: TaskId, k: int| 0 <= k < post.table.regions_of(t).len() implies tidy(
            #[trigger] post.table.regions_of(t)[k],
        ) by {
            if t != tid {
                assert(post.table.regions_of(t) == pre.table.regions_of(t));
                assert(tidy(pre.table.regions_of(t)[k]));
            } else if k < pre.table.regions_of(t).len() {
                assert(tidy(pre.table.regions_of(t)[k]));
            }
        }
    }

    /// The base of a new mapping.
    fn choose_base(&self, tid: TaskId, length: Length, flags: Flags, hint: Address) -> (r: Address)
        requires
            self.wf(),
        ensures
            r == place(self.table.regions_of(tid), length as int, flags, hint),
            r as int % 4096 == 0,
            hint == 0 || flags & MAP_FIXED == 0 ==> r + length <= u64::MAX,
    {
        proof {
            law_free_range_is_free(self.table.regions_of(tid), length as int, hint);
        }
        if hint != 0 && flags & MAP_FIXED != 0 {
            page_floor(hint)
        } else {
            find_free_address(&self.table, tid, length, hint)
        }
    }

    /// Maps a part of a file. `file_len` is the length of the file, or `None`
    /// where it does not exist.
    pub fn mmap_file(
        &mut self,
        tid: TaskId,
        path: &str,
        file_len: Option<usize>,
        offset: u64,
        length: Length,
        prot: Prot,
        flags: Flags,
        hint: Address,
    ) -> (r: MmapResult<Address>)
        requires
            old(self).wf(),
            file_len matches Some(n) ==> n <= usize::MAX - 4095 && fixed_fits(
                if length < n - offset {
                    length as int
                } else {
                    n - offset
                },
                flags,
                hint,
            ),
        ensures
            final(self).wf(),
            MmapManager::mmap_file_outcome(*old(self), *final(self), tid, path@, file_len, offset, length, prot, flags, hint, r),
    {
        if offset % 4096 != 0 {
            return Err(MmapError::InvalidOffset { offset });
        }
        let size: usize = match file_len {
            Some(n) => n,
            None => {
                return Err(MmapError::FileNotFound { path: path.to_owned() });
            },
        };
        if offset >= size as u64 {
            return Err(MmapError::OffsetBeyondFile { offset, size });
        }
        let left: usize = size - offset as usize;
        let actual: usize = if length < left {
            length
        } else {
            left
        };
        let aligned: usize = page_ceil(actual);
        let base: u64 = self.choose_base(tid, aligned, flags, hint);
        if base == 0 {
            return Err(MmapError::NoFreeAddressSpace(aligned));
        }
        let region = MmapRegion {
            base,
            length: aligned,
            prot,
            flags,
            backing: MmapBacking::File {
                path: path.to_owned(),
                offset,
                length: actual,
                writeable: (prot & PROT_WRITE) != 0,
            },
            dirty_mask: 0,
            populated: false,
        };
        self.map(tid, region)
    }

    /// Records a new mapping.
    fn map(&mut self, tid: TaskId, region: MmapRegion) -> (r: MmapResult<Address>)
        requires
            old(self).wf(),
            region.wf(),
            tidy(region),
        ensures
            final(self).wf(),
            MmapManager::map_outcome(*old(self), *final(self), tid, region, r),
    {
        let base: u64 = region.base;
        let ghost added = region;
        let res = add_region(&mut self.table, tid, region, &self.config, &mut self.stats);
        proof {
            MmapManager::lemma_map_keeps_wf(*old(self), *self, tid, added, res);
        }
        match res {
            Ok(()) => Ok(base),
            Err(e) => Err(e),
        }
    }

    /// Maps anonymous memory.
    pub fn mmap_anon(
        &mut self,
        tid: TaskId,
        length: Length,
        prot: Prot,
        flags: Flags,
        hint: Address,
    ) -> (r: MmapResult<Address>)
        requires
            old(self).wf(),
            length <= usize::MAX - 4095,
            fixed_fits(length as int, flags, hint),
        ensures
            final(self).wf(),
            MmapManager::mmap_anon_outcome(*old(self), *final(self), tid, length, prot, flags, hint, r),
    {
        let aligned: usize = page_ceil(length);
        let base: u64 = self.choose_base(tid, aligned, flags, hint);
        if base == 0 {
            return Err(MmapError::NoFreeAddressSpace(aligned));
        }
        let region = MmapRegion {
            base,
            length: aligned,
            prot,
            flags,
            backing: MmapBacking::Anonymous,
            dirty_mask: 0,
            populated: false,
        };
        self.map(tid, region)
    }

    /// Brings in the page that holds `fault_addr`. `file` is what the file behind
    /// the region holds, where there is one and it can be read.
    pub fn handle_page_fault(
        &mut self,
        tid: TaskId,
        fault_addr: Address,
        file: Option<&Vec<u8>>,
    ) -> (r: Option<Vec<u8>>)
        requires
            old(self).wf(),
        ensures
            final(self).wf(),
            *final(self) == (MmapManager {
                stats: MmapStats {
                    page_faults: old(self).stats.page_faults.wrapping_add(1),
                    ..old(self).stats
                },
                ..*old(self)
            }),
            match r {
                Some(page) => {
                    let regions = old(self).table.regions_of(tid);
                    &&& mapped(regions, fault_addr)
                    &&& page@ == fault_page(
                        regions[holder(regions, fault_addr)],
                        fault_addr,
                        match file {
                            Some(d) => Some(d@),
                            None => None,
                        },
                    )
                },
                None => !mapped(old(self).table.regions_of(tid), fault_addr),
            },
    {
        self.stats.inc_page_fault();
        let region = match find_region(&self.table, tid, fault_addr) {
            Some(region) => region,
            None => {
                return None;
            },
        };
        proof {
            let regions = self.table.regions_of(tid);
            let k = holder(regions, fault_addr);
            assert(first_holding(regions, fault_addr, k));
            assert(tidy(self.table.regions_of(tid)[k]));
            self.lemma_below_top(tid);
        }
        Some(page_contents(&region, fault_addr, file))
    }

    /// Marks the page that holds `addr` dirty, where its region is shared.
    pub fn mark_dirty(&mut self, tid: TaskId, addr: Address)
        requires
            old(self).wf(),
        ensures
            final(self).wf(),
            MmapManager::mark_dirty_outcome(*old(self), *final(self), tid, addr),
    {
        proof {
            let regions = self.table.regions_of(tid);
            if mapped(regions, addr) {
                let k = holder(regions, addr);
                assert(first_holding(regions, addr, k));
                assert(tidy(self.table.regions_of(tid)[k]));
                self.lemma_below_top(tid);
            }
        }
        match find_region_mut(&mut self.table, tid, addr) {
            Some(region) => {
                region.mark_dirty(addr);
                self.stats.inc_dirty();
            },
            None => {},
        }
        proof {
            assert forall|t: TaskId, k: int| 0 <= k < self.table.regions_of(t).len() implies tidy(
                #[trigger] self.table.regions_of(t)[k],
            ) by {
                assert(tidy(old(self).table.regions_of(t)[k]));
            }
        }
    }

    /// Unmaps the regions within `[addr, addr + length)` and returns them, so
    /// that their pages can be dropped from swap. The dirty pages of the shared ones
    /// have to be written to their files; they are appended to `writes`.
    pub fn munmap(
        &mut self,
        tid: TaskId,
        addr: Address,
        length: Length,
        writes: &mut Vec<PageWrite>,
    ) -> (r: MmapResult<Vec<MmapRegion>>)
        requires
            old(self).wf(),
            addr + length <= u64::MAX,
        ensures
            final(self).wf(),
            MmapManager::munmap_outcome(*old(self), *final(self), tid, addr, length, r),
            write_views(final(writes)@) == write_views(old(writes)@) + old(self).range_writes(
                tid,
                addr,
                length,
            ),
    {
        self.stats.inc_munmap();
        let outcome = remove_region(&mut self.table, tid, addr, length);
        proof {
            let regions = old(self).table.regions_of(tid);
            assert forall|t: TaskId, k: int| 0 <= k < self.table.regions_of(t).len() implies tidy(
                #[trigger] self.table.regions_of(t)[k],
            ) by {
                if t != tid || outcome is Err {
                    assert(self.table.regions_of(t) == old(self).table.regions_of(t));
                    assert(tidy(old(self).table.regions_of(t)[k]));
                } else {
                    old(self).lemma_regions_fine(tid);
                    lemma_part(
                        regions,
                        addr as int,
                        addr + length,
                        false,
                        regions.len() as int,
                    );
                    let j = choose|j: int|
                        0 <= j < regions.len() && regions[j] == self.table.regions_of(t)[k];
                    assert(tidy(old(self).table.regions_of(t)[j]));
                }
            }
        }
        proof {
            let regions = old(self).table.regions_of(tid);
            let n = regions.len() as int;
            old(self).lemma_regions_fine(tid);
            lemma_part(regions, addr as int, addr + length, true, n);
            lemma_part_writes(regions, addr as int, addr + length, n);
            assert(write_views(writes@) + Seq::<(Seq<char>, int, int)>::empty() =~= write_views(
                writes@,
            ));
        }
        match outcome {
            Ok(removed) => {
                proof {
                    let regions = old(self).table.regions_of(tid);
                    assert forall|k: int| 0 <= k < removed@.len() implies tidy(
                        #[trigger] removed@[k],
                    ) by {
                        let j = choose|j: int| 0 <= j < regions.len() && regions[j] == removed@[k];
                        assert(tidy(old(self).table.regions_of(tid)[j]));
                    }
                    lemma_part_kind(
                        regions,
                        addr as int,
                        addr + length,
                        true,
                        regions.len() as int,
                    );
                }
                self.stats.remove_all(&removed);
                push_shared_writes(&removed, writes, Ghost(addr as int), Ghost(addr + length));
                Ok(removed)
            },
            Err(e) => Err(e),
        }
    }

    proof fn lemma_regions_fine(&self, tid: TaskId)
        requires
            self.wf(),
        ensures
            apart(self.table.regions_of(tid)),
            forall|k: int|
                0 <= k < self.table.regions_of(tid).len() ==> (
                #[trigger] self.table.regions_of(tid)[k]).wf(),
    {
        if has_task(self.table.tasks@, tid) {
            let j = choose|j: int| task_at(self.table.tasks@, tid, j);
            self.table.lemma_entry(tid, j);
        }
    }

    /// Synchronises the shared regions within `[addr, addr + length)`: returns
    /// the dirty pages that have to be written to their files, and marks them
    /// clean.
    pub fn msync(&mut self, tid: TaskId, addr: Address, length: Length) -> (r: MmapResult<
        Vec<PageWrite>,
    >)
        requires
            old(self).wf(),
            addr + length <= u64::MAX,
        ensures
            final(self).wf(),
            MmapManager::msync_outcome(*old(self), *final(self), tid, addr, length, r),
    {
        self.stats.inc_msync();
        let end: u64 = addr + length as u64;
        let ghost regions = self.table.regions_of(tid);
        let ghost goal = Seq::new(
            regions.len(),
            |i: int|
                if to_sync(regions[i], addr as int, end as int) {
                    flushed(regions[i])
                } else {
                    regions[i]
                },
        );
        let mut writes: Vec<PageWrite> = Vec::new();
        let i: usize = match self.table.entry(tid) {
            Some(i) => i,
            None => {
                return Err(MmapError::RegionNotFound { addr });
            },
        };
        proof {
            self.table.lemma_entry(tid, i as int);
            self.lemma_regions_fine(tid);
        }
        let mut hit: bool = false;
        let mut k: usize = 0;
        while k < self.table.tasks[i].regions.len()
            invariant
                self.wf(),
                old(self).wf(),
                self.config == old(self).config,
                self.stats == (MmapStats {
                    msync_calls: old(self).stats.msync_calls.wrapping_add(1),
                    ..old(self).stats
                }),
                end == addr + length,
                task_at(self.table.tasks@, tid, i as int),
                self.table.tasks@[i as int].regions@ == self.table.regions_of(tid),
                regions == old(self).table.regions_of(tid),
                self.table.others_as(old(self).table, tid),
                goal == Seq::new(
                    regions.len(),
                    |i: int|
                        if to_sync(regions[i], addr as int, end as int) {
                            flushed(regions[i])
                        } else {
                            regions[i]
                        },
                ),
                forall|j: int| 0 <= j < regions.len() ==> (#[trigger] regions[j]).wf(),
                forall|j: int| 0 <= j < regions.len() ==> tidy(#[trigger] regions[j]),
                k <= regions.len(),
                self.table.regions_of(tid) == goal.take(k as int) + regions.skip(k as int),
                hit == exists|j: int|
                    0 <= j < k && to_sync(#[trigger] regions[j], addr as int, end as int),
                write_views(writes@) == sync_writes(regions, addr as int, end as int, k as int),
            decreases regions.len() - k,
        {
            let ghost now = self.table.regions_of(tid);
            assert(now[k as int] == regions[k as int]);
            assert(regions[k as int].wf());
            let base: u64 = self.table.tasks[i].regions[k].base;
            let r_end: u64 = base + self.table.tasks[i].regions[k].length as u64;
            let ghost before = self.table;
            if base >= addr && r_end <= end && self.table.tasks[i].regions[k].flags & MAP_SHARED
                != 0 {
                hit = true;
                assert(to_sync(regions[k as int], addr as int, end as int));
                flush_region(&mut self.table.tasks[i].regions[k], &mut writes);
                proof {
                    lemma_region_replaced(
                        self.table,
                        before,
                        tid,
                        i as int,
                        k as int,
                        flushed(regions[k as int]),
                    );
                    assert forall|t: TaskId, m: int|
                        0 <= m < self.table.regions_of(t).len() implies tidy(
                        #[trigger] self.table.regions_of(t)[m],
                    ) by {
                        assert(tidy(before.regions_of(t)[m]));
                    }
                    assert(self.table.regions_of(tid) == now.update(
                        k as int,
                        goal[k as int],
                    ));
                }
            }
            proof {
                self.table.lemma_entry(tid, i as int);
                assert(self.table.regions_of(tid) =~= goal.take(k + 1) + regions.skip(k + 1));
            }
            k += 1;
        }
        proof {
            assert(self.table.regions_of(tid) =~= goal);
            if !hit {
                assert(goal =~= regions);
            }
        }
        if !hit {
            return Err(MmapError::RegionNotFound { addr });
        }
        Ok(writes)
    }

    /// Removes all mappings of a task and returns them, so that their pages can
    /// be dropped from swap.
    pub fn cleanup_task(&mut self, tid: TaskId) -> (r: Vec<MmapRegion>)
        requires
            old(self).wf(),
        ensures
            final(self).wf(),
            MmapManager::cleanup_task_outcome(*old(self), *final(self), tid, r),
    {
        let regions = clear_task(&mut self.table, tid);
        self.stats.remove_all(&regions);
        proof {
            assert forall|t: TaskId, k: int| 0 <= k < self.table.regions_of(t).len() implies tidy(
                #[trigger] self.table.regions_of(t)[k],
            ) by {
                assert(self.table.regions_of(t) == old(self).table.regions_of(t));
                assert(tidy(old(self).table.regions_of(t)[k]));
            }
        }
        regions
    }

    pub fn stats_snapshot(&self) -> (r: MmapStatsSnapshot)
        ensures
            r == snapshot_of(self.stats),
    {
        self.stats.snapshot()
    }
}

pub open spec fn snapshot_of(m: MmapStats) -> MmapStatsSnapshot {
    MmapStatsSnapshot {
        total_regions: m.total_regions,
        anonymous_regions: m.anonymous_regions,
        file_regions: m.file_regions,
        shared_regions: m.shared_regions,
        private_regions: m.private_regions,
        total_mapped_pages: m.total_mapped_pages,
        dirty_pages: m.dirty_pages,
        page_faults: m.page_faults,
        msync_calls: m.msync_calls,
        munmap_calls: m.munmap_calls,
    }
}

/// The page that a fault at `addr` in `region` brings in.
fn page_contents(region: &MmapRegion, addr: Address, file: Option<&Vec<u8>>) -> (r: Vec<u8>)
    requires
        region.wf(),
        region.holds(addr),
        tidy(*region),
    ensures
        r@ == fault_page(
            *region,
            addr,
            match file {
                Some(d) => Some(d@),
                None => None,
            },
        ),
{
    match (&region.backing, file) {
        (MmapBacking::File { path: _, offset, length: _, writeable: _ }, Some(data)) => {
            let page_off: usize = region.page_offset(addr);
            let pos: usize = *offset as usize + page_off;
            let mut page: Vec<u8> = Vec::new();
            let mut i: usize = 0;
            while i < 4096
                invariant
                    i <= 4096,
                    page@ == file_page(data@, pos as int).take(i as int),
                decreases 4096 - i,
            {
                let b: u8 = if pos < data.len() && i < data.len() - pos {
                    data[pos + i]
                } else {
                    0
                };
                page.push(b);
                proof {
                    let full = file_page(data@, pos as int);
                    assert(full[i as int] == b);
                    assert(full.take(i + 1) =~= full.take(i as int).push(b));
                }
                i += 1;
            }
            assert(page@ =~= file_page(data@, pos as int));
            page
        },
        _ => {
            let page: Vec<u8> = vec![0u8; 4096];
            assert(page@ =~= Seq::new(4096, |i: int| 0u8));
            page
        },
    }
}

/// Appends the writes for the dirty pages of a region.
fn push_writes(region: &MmapRegion, writes: &mut Vec<PageWrite>)
    requires
        region.wf(),
        tidy(*region),
    ensures
        write_views(final(writes)@) == write_views(old(writes)@) + flush_writes(*region),
{
    proof {
        assert(write_views(old(writes)@) + Seq::<(Seq<char>, int, int)>::empty() =~= write_views(
            old(writes)@,
        ));
    }
    match &region.backing {
        MmapBacking::File { path, offset, length: _, writeable } => {
            if *writeable {
                let n: usize = region.page_count();
                let mut i: usize = 0;
                while i < n
                    invariant
                        region.wf(),
                        tidy(*region),
                        region.backing matches MmapBacking::File { path: p, offset: o, .. } && p
                            == *path && o == *offset,
                        n == region.length / 4096,
                        i <= n,
                        write_views(writes@) == write_views(old(writes)@) + page_writes(
                            *region,
                            i as int,
                        ),
                    decreases n - i,
                {
                    if region.is_dirty(i) {
                        let w = PageWrite {
                            path: path.clone(),
                            file_offset: *offset + (i * PAGE_SIZE) as u64,
                            page_addr: region.base + (i * PAGE_SIZE) as u64,
                        };
                        let ghost before = writes@;
                        let ghost view = (w.path@, w.file_offset as int, w.page_addr as int);
                        writes.push(w);
                        proof {
                            assert(write_views(writes@) =~= write_views(before).push(view));
                            assert((write_views(old(writes)@) + page_writes(*region, i as int)).push(
                                view,
                            ) =~= write_views(old(writes)@) + page_writes(*region, i as int).push(
                                view,
                            ));
                        }
                    }
                    i += 1;
                }
            }
        },
        MmapBacking::Anonymous => {},
    }
}

/// Appends the writes for the dirty pages of a region and marks them clean.
fn flush_region(region: &mut MmapRegion, writes: &mut Vec<PageWrite>)
    requires
        old(region).wf(),
        tidy(*old(region)),
    ensures
        *final(region) == flushed(*old(region)),
        write_views(final(writes)@) == write_views(old(writes)@) + flush_writes(*old(region)),
{
    push_writes(region, writes);
    let clean: bool = match &region.backing {
        MmapBacking::File { writeable, .. } => *writeable,
        MmapBacking::Anonymous => false,
    };
    if clean {
        region.clear_dirty();
    }
}

/// Appends the writes for the dirty pages of the shared ones of regions within a range.
fn push_shared_writes(
    regions: &Vec<MmapRegion>,
    writes: &mut Vec<PageWrite>,
    Ghost(addr): Ghost<int>,
    Ghost(end): Ghost<int>,
)
    requires
        forall|k: int|
            0 <= k < regions@.len() ==> (#[trigger] regions@[k]).wf() && tidy(regions@[k])
                && regions@[k].within(addr, end),
    ensures
        write_views(final(writes)@) == write_views(old(writes)@) + sync_writes(
            regions@,
            addr,
            end,
            regions@.len() as int,
        ),
{
    let mut k: usize = 0;
    assert(write_views(writes@) + Seq::<(Seq<char>, int, int)>::empty() =~= write_views(writes@));
    while k < regions.len()
        invariant
            forall|k: int|
                0 <= k < regions@.len() ==> (#[trigger] regions@[k]).wf() && tidy(regions@[k])
                    && regions@[k].within(addr, end),
            k <= regions@.len(),
            write_views(writes@) == write_views(old(writes)@) + sync_writes(
                regions@,
                addr,
                end,
                k as int,
            ),
        decreases regions@.len() - k,
    {
        let ghost before = sync_writes(regions@, addr, end, k as int);
        if regions[k].flags & MAP_SHARED != 0 {
            push_writes(&regions[k], writes);
            assert(write_views(old(writes)@) + before + flush_writes(regions@[k as int])
                =~= write_views(old(writes)@) + (before + flush_writes(regions@[k as int])));
        }
        k += 1;
    }
}

/// The writes for a range are those for the regions within it.
proof fn lemma_part_writes(regions: Seq<MmapRegion>, addr: int, end: int, n: int)
    requires
        0 <= n <= regions.len(),
    ensures
        ({
            let inside = part(regions, addr, end, true, n);
            sync_writes(regions, addr, end, n) == sync_writes(
                inside,
                addr,
                end,
                inside.len() as int,
            )
        }),
    decreases n,
{
    if n > 0 {
        lemma_part_writes(regions, addr, end, n - 1);
        let rest = part(regions, addr, end, true, n - 1);
        let inside = part(regions, addr, end, true, n);
        if regions[n - 1].within(addr, end) {
            lemma_same_writes(rest, inside, addr, end, rest.len() as int);
        }
    }
}

/// The writes depend on the regions in question alone.
proof fn lemma_same_writes(a: Seq<MmapRegion>, b: Seq<MmapRegion>, addr: int, end: int, n: int)
    requires
        forall|i: int| 0 <= i < n ==> a[i] == b[i],
    ensures
        sync_writes(a, addr, end, n) == sync_writes(b, addr, end, n),
    decreases n,
{
    if n > 0 {
        lemma_same_writes(a, b, addr, end, n - 1);
    }
}

/// The addresses of the pages of a region, which are touched when a mapping is
/// populated.
pub fn pre_populate(region: &MmapRegion) -> (r: Vec<Address>)
    requires
        region.wf(),
        tidy(*region),
    ensures
        r@ == Seq::new(
            (region.length / 4096) as nat,
            |i: int| (region.base + i * 4096) as u64,
        ),
{
    let n: usize = region.page_count();
    let mut out: Vec<Address> = Vec::new();
    let mut i: usize = 0;
    while i < n
        invariant
            region.wf(),
            tidy(*region),
            n == region.length / 4096,
            i <= n,
            out@.len() == i,
            forall|j: int| 0 <= j < i ==> #[trigger] out@[j] == region.base + j * 4096,
        decreases n - i,
    {
        out.push(region.base + (i * PAGE_SIZE) as u64);
        i += 1;
    }
    assert(out@ =~= Seq::new((region.length / 4096) as nat, |i: int| (region.base + i * 4096) as u64));
    out
}

// ---------------------------------------------------------------------------
// The kernel-wide instance, which its owner passes in
// ---------------------------------------------------------------------------

/// Sets up the instance on first use; a second call changes nothing.
pub fn init(global: &mut Option<MmapManager>)
    ensures
        match *old(global) {
            Some(_) => *final(global) == *old(global),
            None => *final(global) matches Some(m) && m.is_default(),
        },
{
    if global.is_none() {
        *global = Some(MmapManager::default());
    }
}

/// Maps a part of a file.
pub fn mmap_file(
    manager: &mut MmapManager,
    tid: TaskId,
    path: &str,
    file_len: Option<usize>,
    offset: u64,
    length: usize,
    prot: u32,
    flags: u32,
    hint: u64,
) -> (r: Option<u64>)
    requires
        old(manager).wf(),
        file_len matches Some(n) ==> n <= usize::MAX - 4095 && fixed_fits(
            if length < n - offset {
                length as int
            } else {
                n - offset
            },
            flags,
            hint,
        ),
    ensures
        final(manager).wf(),
        exists|res: MmapResult<Address>| #[trigger]
            MmapManager::mmap_file_outcome(
                *old(manager),
                *final(manager),
                tid,
                path@,
                file_len,
                offset,
                length,
                prot,
                flags,
                hint,
                res,
            ) && r == ok_of(res),
{
    let res = manager.mmap_file(tid, path, file_len, offset, length, prot, flags, hint);
    let ghost outcome = res;
    let r = match res {
        Ok(a) => Some(a),
        Err(_) => None,
    };
    assert(MmapManager::mmap_file_outcome(
        *old(manager),
        *manager,
        tid,
        path@,
        file_len,
        offset,
        length,
        prot,
        flags,
        hint,
        outcome,
    ));
    r
}

/// The value of a successful result.
pub open spec fn ok_of(res: MmapResult<Address>) -> Option<u64> {
    match res {
        Ok(a) => Some(a),
        Err(_) => None,
    }
}

/// Maps anonymous memory; 0 where that fails.
pub fn mmap_anon(
    manager: &mut MmapManager,
    tid: TaskId,
    length: usize,
    prot: u32,
    flags: u32,
    hint: u64,
) -> (r: u64)
    requires
        old(manager).wf(),
        length <= usize::MAX - 4095,
        fixed_fits(length as int, flags, hint),
    ensures
        final(manager).wf(),
        exists|res: MmapResult<Address>| #[trigger]
            MmapManager::mmap_anon_outcome(
                *old(manager),
                *final(manager),
                tid,
                length,
                prot,
                flags,
                hint,
                res,
            ) && r == match res {
                Ok(a) => a,
                Err(_) => 0,
            },
{
    let res = manager.mmap_anon(tid, length, prot, flags, hint);
    let ghost outcome = res;
    let r: u64 = match res {
        Ok(a) => a,
        Err(_) => 0,
    };
    assert(MmapManager::mmap_anon_outcome(
        *old(manager),
        *manager,
        tid,
        length,
        prot,
        flags,
        hint,
        outcome,
    ));
    r
}

/// Brings in the page that holds `fault_addr`.
pub fn handle_page_fault(
    manager: &mut MmapManager,
    tid: TaskId,
    fault_addr: u64,
    file: Option<&Vec<u8>>,
) -> (r: Option<Vec<u8>>)
    requires
        old(manager).wf(),
    ensures
        final(manager).wf(),
        *final(manager) == (MmapManager {
            stats: MmapStats {
                page_faults: old(manager).stats.page_faults.wrapping_add(1),
                ..old(manager).stats
            },
            ..*old(manager)
        }),
        match r {
            Some(page) => {
                let regions = old(manager).table.regions_of(tid);
                &&& mapped(regions, fault_addr)
                &&& page@ == fault_page(
                    regions[holder(regions, fault_addr)],
                    fault_addr,
                    match file {
                        Some(d) => Some(d@),
                        None => None,
                    },
                )
            },
            None => !mapped(old(manager).table.regions_of(tid), fault_addr),
        },
{
    manager.handle_page_fault(tid, fault_addr, file)
}

/// Marks the page that holds `addr` dirty.
pub fn mark_dirty(manager: &mut MmapManager, tid: TaskId, addr: u64)
    requires
        old(manager).wf(),
    ensures
        final(manager).wf(),
        MmapManager::mark_dirty_outcome(*old(manager), *final(manager), tid, addr),
{
    manager.mark_dirty(tid, addr);
}

/// Unmaps the regions within `[addr, addr + length)`; the regions that went are
/// appended to `removed`, and what has to be written to `writes`.
pub fn munmap(
    manager: &mut MmapManager,
    tid: TaskId,
    addr: u64,
    length: usize,
    removed: &mut Vec<MmapRegion>,
    writes: &mut Vec<PageWrite>,
) -> (r: bool)
    requires
        old(manager).wf(),
        addr + length <= u64::MAX,
    ensures
        final(manager).wf(),
        exists|res: MmapResult<Vec<MmapRegion>>| #[trigger]
            MmapManager::munmap_outcome(*old(manager), *final(manager), tid, addr, length, res)
                && r == (res is Ok) && final(removed)@ == old(removed)@ + (match res {
                Ok(v) => v@,
                Err(_) => Seq::empty(),
            }),
        write_views(final(writes)@) == write_views(old(writes)@) + old(manager).range_writes(
            tid,
            addr,
            length,
        ),
{
    let mut res = manager.munmap(tid, addr, length, writes);
    let ghost outcome = res;
    assert(MmapManager::munmap_outcome(*old(manager), *manager, tid, addr, length, outcome));
    match res {
        Ok(mut v) => {
            removed.append(&mut v);
            true
        },
        Err(_) => {
            assert(removed@ + Seq::<MmapRegion>::empty() =~= removed@);
            false
        },
    }
}

/// Synchronises the shared regions within `[addr, addr + length)`; the pages to
/// write are appended to `writes`.
pub fn msync(
    manager: &mut MmapManager,
    tid: TaskId,
    addr: u64,
    length: usize,
    writes: &mut Vec<PageWrite>,
) -> (r: bool)
    requires
        old(manager).wf(),
        addr + length <= u64::MAX,
    ensures
        final(manager).wf(),
        exists|res: MmapResult<Vec<PageWrite>>| #[trigger]
            MmapManager::msync_outcome(*old(manager), *final(manager), tid, addr, length, res)
                && r == (res is Ok) && final(writes)@ == old(writes)@ + (match res {
                Ok(v) => v@,
                Err(_) => Seq::empty(),
            }),
{
    let mut res = manager.msync(tid, addr, length);
    let ghost outcome = res;
    assert(MmapManager::msync_outcome(*old(manager), *manager, tid, addr, length, outcome));
    match res {
        Ok(mut v) => {
            writes.append(&mut v);
            true
        },
        Err(_) => {
            assert(writes@ + Seq::<PageWrite>::empty() =~= writes@);
            false
        },
    }
}

/// Removes all mappings of a task and returns them.
pub fn cleanup_task(manager: &mut MmapManager, tid: TaskId) -> (r: Vec<MmapRegion>)
    requires
        old(manager).wf(),
    ensures
        final(manager).wf(),
        MmapManager::cleanup_task_outcome(*old(manager), *final(manager), tid, r),
{
    manager.cleanup_task(tid)
}

/// The counters.
pub fn mmap_stats(manager: &MmapManager) -> (r: &MmapStats)
    ensures
        *r == manager.stats,
{
    manager.stats()
}

/// Total and used memory in MiB from the counts of frames, and the used swap
/// slots.
pub fn memory_stats(
    total_frames: usize,
    used_frames: usize,
    swap_used: usize,
) -> (r: (usize, usize, usize))
    requires
        total_frames * 4 <= usize::MAX,
        used_frames * 4 <= usize::MAX,
    ensures
        r.0 == total_frames * 4 / 1024,
        r.1 == used_frames * 4 / 1024,
        r.2 == swap_used,
{
    (total_frames * 4 / 1024, used_frames * 4 / 1024, swap_used)
}

// ---------------------------------------------------------------------------
// Laws
// ---------------------------------------------------------------------------

/// After a region was added, every address in it is found in that region.
pub proof fn law_added_region_is_found(
    pre: MmapTable,
    post: MmapTable,
    s0: MmapStats,
    s1: MmapStats,
    tid: TaskId,
    region: MmapRegion,
    max: usize,
    addr: u64,
)
    requires
        pre.wf(),
        add_outcome(pre, post, s0, s1, tid, region, max, Ok(())),
        region.holds(addr),
    ensures
        mapped(post.regions_of(tid), addr),
        post.regions_of(tid)[holder(post.regions_of(tid), addr)] == region,
{
    let was = pre.regions_of(tid);
    let now = post.regions_of(tid);
    let k = was.len() as int;
    assert forall|j: int| 0 <= j < k implies !(#[trigger] now[j]).holds(addr) by {
        assert(!region.clashes(was[j]));
    }
    assert(first_holding(now, addr, k));
    lemma_holder(now, addr, k);
}

/// After an unmapping, no address of a region that went is mapped.
pub proof fn law_unmapped_is_gone(
    pre: MmapManager,
    post: MmapManager,
    tid: TaskId,
    addr: Address,
    length: Length,
    v: Vec<MmapRegion>,
    p: u64,
    i: int,
)
    requires
        pre.wf(),
        MmapManager::munmap_outcome(pre, post, tid, addr, length, Ok(v)),
        0 <= i < v@.len(),
        v@[i].holds(p),
    ensures
        !mapped(post.table.regions_of(tid), p),
{
    let regions = pre.table.regions_of(tid);
    let n = regions.len() as int;
    pre.lemma_regions_fine(tid);
    lemma_part(regions, addr as int, addr + length, true, n);
    lemma_part(regions, addr as int, addr + length, false, n);
    lemma_part_kind(regions, addr as int, addr + length, true, n);
    lemma_part_kind(regions, addr as int, addr + length, false, n);
    let now = post.table.regions_of(tid);
    if mapped(now, p) {
        let k = holder(now, p);
        assert(first_holding(now, p, k));
        let a = choose|a: int| 0 <= a < n && regions[a] == now[k];
        let b = choose|b: int| 0 <= b < n && regions[b] == v@[i];
        assert(regions[a].within(addr as int, addr + length) != regions[b].within(
            addr as int,
            addr + length,
        ));
        if a < b {
            assert(!regions[a].clashes(regions[b]));
        } else {
            assert(!regions[b].clashes(regions[a]));
        }
    }
}

/// The regions of a part lie within the range, or do not, as the part says.
proof fn lemma_part_kind(regions: Seq<MmapRegion>, addr: int, end: int, inside: bool, n: int)
    requires
        0 <= n <= regions.len(),
    ensures
        forall|k: int|
            0 <= k < part(regions, addr, end, inside, n).len() ==> (#[trigger] part(
                regions,
                addr,
                end,
                inside,
                n,
            )[k]).within(addr, end) == inside,
    decreases n,
{
    if n > 0 {
        lemma_part_kind(regions, addr, end, inside, n - 1);
        let rest = part(regions, addr, end, inside, n - 1);
        let all = part(regions, addr, end, inside, n);
        assert forall|k: int| 0 <= k < all.len() implies (#[trigger] all[k]).within(addr, end)
            == inside by {
            if k < rest.len() {
                assert(all[k] == rest[k]);
            }
        }
    }
}

/// A search for free space gives a page boundary of the mapping range from which on
/// the whole length is free, wherever there is such a place; and 0 only where there is
/// none.
pub proof fn law_free_range_is_free(regions: Seq<MmapRegion>, len: int, hint: u64)
    ensures
        free_address(regions, len, hint) != 0 ==> fits(
            regions,
            len,
            free_address(regions, len, hint),
        ),
        free_address(regions, len, hint) == 0 ==> forall|b: int| !#[trigger] fits(regions, len, b),
{
    let start = search_start(hint);
    match first_fit(regions, len, start) {
        Some(a) => {
            assert(lowest_fit(regions, len, start, a));
        },
        None => {
            match first_fit(regions, len, LOWEST_START as int) {
                Some(a) => {
                    assert(lowest_fit(regions, len, LOWEST_START as int, a));
                },
                None => {
                    assert forall|b: int| !#[trigger] fits(regions, len, b) by {
                        if fits(regions, len, b) {
                            lemma_lowest_exists(regions, len, LOWEST_START as int, b);
                        }
                    }
                },
            }
        },
    }
}

/// A region that is placed where free space was found overlaps no other.
pub proof fn law_free_range_can_be_added(
    pre: MmapTable,
    post: MmapTable,
    s0: MmapStats,
    s1: MmapStats,
    tid: TaskId,
    region: MmapRegion,
    max: usize,
    hint: u64,
    r: MmapResult<()>,
)
    requires
        region.base != 0,
        region.base == free_address(pre.regions_of(tid), region.length as int, hint),
        add_outcome(pre, post, s0, s1, tid, region, max, r),
    ensures
        !(r matches Err(MmapError::RegionOverlap { .. })),
        pre.regions_of(tid).len() < max ==> r is Ok,
{
    law_free_range_is_free(pre.regions_of(tid), region.length as int, hint);
}

/// A page of a shared region that was marked dirty is written by the next
/// synchronisation of the region, and is clean afterwards.
pub proof fn law_marked_page_is_written(region: MmapRegion, i: int)
    requires
        flushable(region),
        0 <= i < region.length / 4096,
        region.dirty(i),
    ensures
        flush_writes(region).contains(
            (
                region.backing->path@,
                region.backing->offset + i * 4096,
                region.base + i * 4096,
            ),
        ),
        !flushed(region).dirty(i),
{
    lemma_page_write(region, i, (region.length / 4096) as int);
    let k = (i % 64) as u64;
    assert((0u64 >> k) & 1 == 0) by (bit_vector)
        requires
            k < 64,
    ;
}

/// A dirty page of a shared region that was mapped for writing reaches its file when a
/// range that holds the region is synchronised or unmapped.
pub proof fn law_dirty_page_reaches_file(
    m: MmapManager,
    tid: TaskId,
    addr: Address,
    length: Length,
    j: int,
    i: int,
)
    requires
        0 <= j < m.table.regions_of(tid).len(),
        to_sync(m.table.regions_of(tid)[j], addr as int, addr + length),
        flushable(m.table.regions_of(tid)[j]),
        0 <= i < m.table.regions_of(tid)[j].length / 4096,
        m.table.regions_of(tid)[j].dirty(i),
    ensures
        ({
            let region = m.table.regions_of(tid)[j];
            m.range_writes(tid, addr, length).contains(
                (
                    region.backing->path@,
                    region.backing->offset + i * 4096,
                    region.base + i * 4096,
                ),
            )
        }),
{
    let regions = m.table.regions_of(tid);
    law_marked_page_is_written(regions[j], i);
    lemma_region_writes(regions, addr as int, addr + length, j, regions.len() as int);
}

/// What a region has to write is among what its range has to write.
proof fn lemma_region_writes(regions: Seq<MmapRegion>, addr: int, end: int, j: int, n: int)
    requires
        0 <= j < n <= regions.len(),
        to_sync(regions[j], addr, end),
    ensures
        forall|w: (Seq<char>, int, int)|
            flush_writes(regions[j]).contains(w) ==> #[trigger] sync_writes(
                regions,
                addr,
                end,
                n,
            ).contains(w),
    decreases n,
{
    let all = sync_writes(regions, addr, end, n);
    let rest = sync_writes(regions, addr, end, n - 1);
    let own = flush_writes(regions[j]);
    if j < n - 1 {
        lemma_region_writes(regions, addr, end, j, n - 1);
    }
    assert forall|w: (Seq<char>, int, int)| own.contains(w) implies #[trigger] all.contains(w) by {
        if j < n - 1 {
            assert(rest.contains(w));
            let k = choose|k: int| 0 <= k < rest.len() && rest[k] == w;
            assert(all[k] == w);
        } else {
            let k = choose|k: int| 0 <= k < own.len() && own[k] == w;
            assert(all[rest.len() + k] == w);
        }
    }
}

/// Changes to private memory do not reach the file: every page that a synchronisation
/// or an unmapping writes is a dirty page of a shared region that was mapped for
/// writing, within the range.
pub proof fn law_private_is_not_written(
    m: MmapManager,
    tid: TaskId,
    addr: Address,
    length: Length,
    k: int,
) -> (r: (int, int))
    requires
        0 <= k < m.range_writes(tid, addr, length).len(),
    ensures
        ({
            let region = m.table.regions_of(tid)[r.0];
            &&& 0 <= r.0 < m.table.regions_of(tid).len()
            &&& to_sync(region, addr as int, addr + length)
            &&& flushable(region)
            &&& 0 <= r.1 < region.length / 4096
            &&& region.dirty(r.1)
            &&& m.range_writes(tid, addr, length)[k] == (
                region.backing->path@,
                region.backing->offset + r.1 * 4096,
                region.base + r.1 * 4096,
            )
        }),
{
    let regions = m.table.regions_of(tid);
    lemma_write_source(regions, addr as int, addr + length, regions.len() as int, k)
}

proof fn lemma_write_source(
    regions: Seq<MmapRegion>,
    addr: int,
    end: int,
    n: int,
    k: int,
) -> (r: (int, int))
    requires
        0 <= n <= regions.len(),
        0 <= k < sync_writes(regions, addr, end, n).len(),
    ensures
        0 <= r.0 < n,
        to_sync(regions[r.0], addr, end),
        flushable(regions[r.0]),
        0 <= r.1 < regions[r.0].length / 4096,
        regions[r.0].dirty(r.1),
        sync_writes(regions, addr, end, n)[k] == (
            regions[r.0].backing->path@,
            regions[r.0].backing->offset + r.1 * 4096,
            regions[r.0].base + r.1 * 4096,
        ),
    decreases n,
{
    let rest = sync_writes(regions, addr, end, n - 1);
    if k < rest.len() {
        lemma_write_source(regions, addr, end, n - 1, k)
    } else {
        let region = regions[n - 1];
        let i = lemma_page_source(region, (region.length / 4096) as int, k - rest.len());
        (n - 1, i)
    }
}

proof fn lemma_page_source(region: MmapRegion, n: int, k: int) -> (i: int)
    requires
        flushable(region),
        0 <= k < page_writes(region, n).len(),
    ensures
        0 <= i < n,
        region.dirty(i),
        page_writes(region, n)[k] == (
            region.backing->path@,
            region.backing->offset + i * 4096,
            region.base + i * 4096,
        ),
    decreases n,
{
    if k < page_writes(region, n - 1).len() {
        lemma_page_source(region, n - 1, k)
    } else {
        n - 1
    }
}

proof fn lemma_page_write(region: MmapRegion, i: int, n: int)
    requires
        flushable(region),
        0 <= i < n,
        region.dirty(i),
    ensures
        page_writes(region, n).contains(
            (
                region.backing->path@,
                region.backing->offset + i * 4096,
                region.base + i * 4096,
            ),
        ),
    decreases n,
{
    let w = (region.backing->path@, region.backing->offset + i * 4096, region.base + i * 4096);
    let all = page_writes(region, n);
    let rest = page_writes(region, n - 1);
    if i == n - 1 {
        assert(all[all.len() - 1] == w);
    } else {
        lemma_page_write(region, i, n - 1);
        let k = choose|k: int| 0 <= k < rest.len() && rest[k] == w;
        assert(all[k] == w);
    }
}

/// A page boundary at or below an address is less than a page away from it, and one at
/// or above a length is less than a page more.
pub proof fn law_pages_enclose(addr: u64, len: usize, floor: u64, ceil: usize)
    requires
        call_ensures(page_floor, (addr,), floor),
        call_ensures(page_ceil, (len,), ceil),
    ensures
        floor as int % 4096 == 0,
        floor <= addr < floor + 4096,
        ceil as int % 4096 == 0,
        ceil - 4096 < len <= ceil,
{
}

/// The region of a task that holds an address is the one that is found for it.
proof fn lemma_held(m: MmapManager, tid: TaskId, addr: u64, k: int)
    requires
        m.wf(),
        0 <= k < m.table.regions_of(tid).len(),
        m.table.regions_of(tid)[k].base <= addr,
        addr < m.table.regions_of(tid)[k].base + m.table.regions_of(tid)[k].length,
    ensures
        mapped(m.table.regions_of(tid), addr),
        holder(m.table.regions_of(tid), addr) == k,
{
    let regions = m.table.regions_of(tid);
    m.lemma_regions_fine(tid);
    assert forall|j: int| 0 <= j < k implies !(#[trigger] regions[j]).holds(addr) by {
        assert(!regions[j].clashes(regions[k]));
    }
    assert(first_holding(regions, addr, k));
    lemma_holder(regions, addr, k);
}

/// A fault at an address of a region brings in the page that holds the address. Of a file
/// that was mapped from offset `o` on at base `b`, its byte `i` is the file's byte at
/// `o + (start of the page - b) + i`, and zero where the file has none. Without a file it
/// is a page of zeros. A fault outside of all regions brings in nothing.
pub proof fn law_fault_brings_in_the_page(
    m: &mut MmapManager,
    tid: TaskId,
    addr: u64,
    file: Option<&Vec<u8>>,
    r: Option<Vec<u8>>,
    k: int,
)
    requires
        old(m).wf(),
        call_ensures(MmapManager::handle_page_fault, (m, tid, addr, file), r) || call_ensures(
            handle_page_fault,
            (m, tid, addr, file),
            r,
        ),
    ensures
        r is None <==> forall|j: int|
            0 <= j < old(m).table.regions_of(tid).len() ==> !((#[trigger] old(m).table.regions_of(
                tid,
            )[j]).base <= addr && addr < old(m).table.regions_of(tid)[j].base + old(
                m).table.regions_of(tid)[j].length),
        ({
            let regions = old(m).table.regions_of(tid);
            let region = regions[k];
            0 <= k < regions.len() && region.base <= addr && addr < region.base + region.length
                ==> {
                &&& r is Some
                &&& r->0@.len() == 4096
                &&& forall|i: int|
                    0 <= i < 4096 ==> #[trigger] r->0@[i] == (if region.backing is File
                        && file is Some && region.backing->offset + (addr - addr as int % 4096
                        - region.base) + i < file->0@.len() {
                        file->0@[region.backing->offset + (addr - addr as int % 4096
                            - region.base) + i]
                    } else {
                        0u8
                    })
            }
        }),
        final(m).table == old(m).table,
        final(m).config == old(m).config,
        old(m).stats.page_faults < u64::MAX ==> final(m).stats.page_faults == old(
            m).stats.page_faults + 1,
        final(m).stats.dirty_pages == old(m).stats.dirty_pages,
{
    let regions = old(m).table.regions_of(tid);
    if 0 <= k < regions.len() && regions[k].base <= addr && addr < regions[k].base
        + regions[k].length {
        lemma_held(*old(m), tid, addr, k);
    }
    if r is None {
        assert forall|j: int| 0 <= j < regions.len() implies !((#[trigger] regions[j]).base <= addr
            && addr < regions[j].base + regions[j].length) by {
            if regions[j].base <= addr && addr < regions[j].base + regions[j].length {
                lemma_held(*old(m), tid, addr, j);
            }
        }
    } else {
        let h = holder(regions, addr);
        assert(first_holding(regions, addr, h));
        assert(regions[h].base <= addr);
    }
}

/// A page that a fault has read in goes back to where it was read from: each page that a
/// synchronisation or an unmapping writes lies in a region of the range, and the file
/// position it is written to is the one from which a fault at any address of the page
/// fills it.
pub proof fn law_page_goes_back_to_its_place(
    m: MmapManager,
    tid: TaskId,
    addr: Address,
    length: Length,
    k: int,
    p: u64,
    data: Seq<u8>,
    i: int,
) -> (j: int)
    requires
        m.wf(),
        0 <= k < m.range_writes(tid, addr, length).len(),
        m.range_writes(tid, addr, length)[k].2 <= p,
        p < m.range_writes(tid, addr, length)[k].2 + 4096,
        0 <= i < 4096,
    ensures
        ({
            let regions = m.table.regions_of(tid);
            let w = m.range_writes(tid, addr, length)[k];
            &&& 0 <= j < regions.len()
            &&& addr <= regions[j].base <= w.2
            &&& w.2 + 4096 <= regions[j].base + regions[j].length <= addr + length
            &&& regions[j].backing is File
            &&& regions[j].backing->path@ == w.0
            &&& w.2 % 4096 == 0
            &&& w.1 - regions[j].backing->offset == w.2 - regions[j].base
            &&& holder(regions, p) == j
            &&& fault_page(regions[j], p, Some(data))[i] == (if w.1 + i < data.len() {
                data[w.1 + i]
            } else {
                0u8
            })
        }),
{
    let (j, n) = law_private_is_not_written(m, tid, addr, length, k);
    let region = m.table.regions_of(tid)[j];
    let w = m.range_writes(tid, addr, length)[k];
    assert(tidy(region));
    assert(region.base as int % 4096 == 0);
    assert(p as int - p as int % 4096 == w.2);
    lemma_held(m, tid, p, j);
    j
}

/// After a write at an address of a region is noted, the page of that address is dirty
/// where the region is shared, and what was dirty stays so. No page gets dirty but that
/// one and those that share its mark, which are 64 pages away or a multiple of that; in a
/// private region none does. Nothing but the mark changes in any region.
pub proof fn law_marked_page_is_dirty(
    m: &mut MmapManager,
    tid: TaskId,
    addr: u64,
    k: int,
    page: int,
)
    requires
        old(m).wf(),
        call_ensures(MmapManager::mark_dirty, (m, tid, addr), ()) || call_ensures(
            mark_dirty,
            (m, tid, addr),
            (),
        ),
        0 <= k < old(m).table.regions_of(tid).len(),
        page >= 0,
    ensures
        ({
            let was = old(m).table.regions_of(tid)[k];
            let now = final(m).table.regions_of(tid)[k];
            let hit = was.base <= addr && addr < was.base + was.length;
            &&& final(m).table.regions_of(tid).len() == old(m).table.regions_of(tid).len()
            &&& now.base == was.base && now.length == was.length && now.prot == was.prot
                && now.flags == was.flags && now.backing == was.backing
            &&& was.dirty(page) ==> now.dirty(page)
            &&& hit && was.is_shared() && was.base + page * 4096 <= addr && addr < was.base + page
                * 4096 + 4096 ==> now.dirty(page)
            &&& now.dirty(page) && !was.dirty(page) ==> hit && was.is_shared() && ((page * 4096
                + was.base) - (addr - addr as int % 4096)) % 262144 == 0
        }),
{
    let regions = old(m).table.regions_of(tid);
    let was = regions[k];
    let now = final(m).table.regions_of(tid);
    let hit = was.base <= addr && addr < was.base + was.length;
    if hit {
        lemma_held(*old(m), tid, addr, k);
        assert(now[k].dirty(page) <==> was.dirty(page) || (was.is_shared() && page % 64
            == was.index_of(addr) % 64));
        assert(tidy(was));
        assert(was.base as int % 4096 == 0);
        if now[k].dirty(page) && !was.dirty(page) {
            let x = was.index_of(addr);
            assert(page % 64 == x % 64);
            assert(x * 4096 == addr - addr as int % 4096 - was.base);
            assert(page * 4096 - x * 4096 == ((page / 64) - (x / 64)) * 262144);
        }
    } else if mapped(regions, addr) {
        let h = holder(regions, addr);
        assert(first_holding(regions, addr, h));
        assert(h != k);
    }
}

/// The regions of a part are all those of their kind.
proof fn lemma_part_whole(
    regions: Seq<MmapRegion>,
    addr: int,
    end: int,
    inside: bool,
    n: int,
    j: int,
)
    requires
        0 <= j < n <= regions.len(),
        regions[j].within(addr, end) == inside,
    ensures
        part(regions, addr, end, inside, n).contains(regions[j]),
    decreases n,
{
    let rest = part(regions, addr, end, inside, n - 1);
    let all = part(regions, addr, end, inside, n);
    if j < n - 1 {
        lemma_part_whole(regions, addr, end, inside, n - 1, j);
        let k = choose|k: int| 0 <= k < rest.len() && rest[k] == regions[j];
        assert(all[k] == regions[j]);
    } else {
        assert(all[all.len() - 1] == regions[j]);
    }
}

/// An unmapping takes exactly the regions that lie wholly in its range: those it returns,
/// and every other one is kept. Where it takes none it says that there is no region
/// there, and nothing is changed but the count of calls. Other tasks keep theirs.
pub proof fn law_unmapping_takes_what_is_inside(
    m: &mut MmapManager,
    tid: TaskId,
    addr: u64,
    length: usize,
    writes: &mut Vec<PageWrite>,
    r: MmapResult<Vec<MmapRegion>>,
    k: int,
    other: TaskId,
)
    requires
        old(m).wf(),
        call_ensures(MmapManager::munmap, (m, tid, addr, length, writes), r),
        0 <= k < old(m).table.regions_of(tid).len(),
    ensures
        ({
            let region = old(m).table.regions_of(tid)[k];
            let inside = addr <= region.base && region.base + region.length <= addr + length;
            &&& inside ==> r is Ok && r->Ok_0@.contains(region)
            &&& !inside ==> final(m).table.regions_of(tid).contains(region)
            &&& r is Ok ==> (forall|i: int|
                0 <= i < r->Ok_0@.len() ==> addr <= (#[trigger] r->Ok_0@[i]).base
                    && r->Ok_0@[i].base + r->Ok_0@[i].length <= addr + length)
            &&& r is Ok ==> (forall|i: int|
                0 <= i < final(m).table.regions_of(tid).len() ==> !(addr <= (
                #[trigger] final(m).table.regions_of(tid)[i]).base && final(m).table.regions_of(
                    tid,
                )[i].base + final(m).table.regions_of(tid)[i].length <= addr + length))
        }),
        r matches Err(e) ==> e == (MmapError::RegionNotFound { addr }) && final(m).table.regions_of(
            tid,
        ) == old(m).table.regions_of(tid),
        other != tid ==> final(m).table.regions_of(other) == old(m).table.regions_of(other),
{
    let regions = old(m).table.regions_of(tid);
    let n = regions.len() as int;
    let region = regions[k];
    let inside = region.within(addr as int, addr + length);
    lemma_part_whole(regions, addr as int, addr + length, inside, n, k);
    lemma_part_kind(regions, addr as int, addr + length, true, n);
    lemma_part_kind(regions, addr as int, addr + length, false, n);
}

/// A synchronisation of a range leaves every region where it was, with what it had but
/// the marks. The marks go from the shared regions that lie wholly in the range and are
/// files mapped for writing, and from no others. It fails exactly where no shared region
/// lies wholly in the range.
pub proof fn law_synchronised_is_clean(
    m: &mut MmapManager,
    tid: TaskId,
    addr: u64,
    length: usize,
    r: MmapResult<Vec<PageWrite>>,
    k: int,
    page: int,
)
    requires
        old(m).wf(),
        call_ensures(MmapManager::msync, (m, tid, addr, length), r),
        0 <= k < old(m).table.regions_of(tid).len(),
        page >= 0,
    ensures
        ({
            let was = old(m).table.regions_of(tid)[k];
            let now = final(m).table.regions_of(tid)[k];
            let inside = addr <= was.base && was.base + was.length <= addr + length;
            let shared = was.flags & 1 != 0;
            &&& final(m).table.regions_of(tid).len() == old(m).table.regions_of(tid).len()
            &&& now.base == was.base && now.length == was.length && now.prot == was.prot
                && now.flags == was.flags && now.backing == was.backing
            &&& inside && shared ==> r is Ok
            &&& inside && shared && was.backing is File && was.backing->writeable ==> !now.dirty(
                page,
            )
            &&& !(inside && shared && was.backing is File && was.backing->writeable) ==> now == was
        }),
        r matches Ok(v) ==> exists|j: int|
            0 <= j < old(m).table.regions_of(tid).len() && addr <= (
            #[trigger] old(m).table.regions_of(tid)[j]).base && old(m).table.regions_of(
                tid,
            )[j].base + old(m).table.regions_of(tid)[j].length <= addr + length && old(
                m).table.regions_of(tid)[j].flags & 1 != 0,
{
    let b = (page % 64) as u64;
    assert((0u64 >> b) & 1 == 0) by (bit_vector)
        requires
            b < 64,
    ;
    let regions = old(m).table.regions_of(tid);
    let now = final(m).table.regions_of(tid);
    if to_sync(regions[k], addr as int, addr + length) {
        assert(r is Ok);
        assert(now[k] == flushed(regions[k]));
    } else {
        assert(now[k] == regions[k]);
    }
    if r is Ok {
        let i = choose|i: int|
            0 <= i < regions.len() && to_sync(#[trigger] regions[i], addr as int, addr + length);
        assert(regions[i].flags & 1 != 0);
    }
}

/// The region that is found for an address holds it, and one is found wherever there is
/// one that does.
pub proof fn law_found_region_holds_the_address(
    table: &MmapTable,
    tid: TaskId,
    addr: u64,
    r: Option<MmapRegion>,
    k: int,
)
    requires
        call_ensures(find_region, (table, tid, addr), r),
    ensures
        r matches Some(region) ==> region.base <= addr && addr < region.base + region.length
            && table.regions_of(tid).contains(region),
        r is None && 0 <= k < table.regions_of(tid).len() ==> !(table.regions_of(tid)[k].base <= addr
            && addr < table.regions_of(tid)[k].base + table.regions_of(tid)[k].length),
{
    let regions = table.regions_of(tid);
    if r is None {
        if 0 <= k < regions.len() && regions[k].holds(addr) {
            lemma_some_first(regions, addr, k);
        }
    } else {
        assert(first_holding(regions, addr, holder(regions, addr)));
    }
}

/// Where a region holds an address, there is a first one that does.
proof fn lemma_some_first(regions: Seq<MmapRegion>, addr: u64, k: int)
    requires
        0 <= k < regions.len(),
        regions[k].holds(addr),
    ensures
        mapped(regions, addr),
    decreases k,
{
    if exists|j: int| 0 <= j < k && (#[trigger] regions[j]).holds(addr) {
        let j = choose|j: int| 0 <= j < k && (#[trigger] regions[j]).holds(addr);
        lemma_some_first(regions, addr, j);
    } else {
        assert(first_holding(regions, addr, k));
    }
}

/// A mapping is placed at a page boundary. Where it is to be at the hint, it is at the
/// start of the hint's page; else it overlaps no region, lies within the address space,
/// and lies at or above the hint and the usual start wherever there is room for it there.
pub proof fn law_placed_where_there_is_room(
    regions: Seq<MmapRegion>,
    len: int,
    flags: Flags,
    hint: Address,
    k: int,
    b: int,
)
    ensures
        ({
            let a = place(regions, len, flags, hint);
            &&& hint != 0 && flags & 0x10 != 0 ==> a % 4096 == 0 && a <= hint < a + 4096
            &&& !(hint != 0 && flags & 0x10 != 0) && a != 0 ==> {
                &&& a % 4096 == 0
                &&& 0x1000_0000_0000 <= a
                &&& a + len <= u64::MAX
                &&& 0 <= k < regions.len() ==> regions[k].base + regions[k].length <= a || a + len
                    <= regions[k].base
                &&& (b % 4096 == 0 && b + len <= u64::MAX && hint <= b && 0x7000_0000_0000 <= b && (
                forall|j: int|
                    0 <= j < regions.len() ==> (#[trigger] regions[j]).base + regions[j].length
                        <= b || b + len <= regions[j].base)) ==> a <= b && hint - 4096 < a
                    && 0x7000_0000_0000 <= a
            }
        }),
{
    let start = search_start(hint);
    let a = place(regions, len, flags, hint);
    if !(hint != 0 && flags & MAP_FIXED != 0) && a != 0 {
        law_free_range_is_free(regions, len, hint);
        assert(fits(regions, len, a));
        if b % 4096 == 0 && b + len <= u64::MAX && hint <= b && 0x7000_0000_0000 <= b && (
        forall|j: int|
            0 <= j < regions.len() ==> (#[trigger] regions[j]).base + regions[j].length <= b || b
                + len <= regions[j].base) {
            assert(clear(regions, b, len)) by {
                assert forall|i: int| 0 <= i < regions.len() implies (
                #[trigger] regions[i]).end() <= b || regions[i].base >= b + len by {}
            }
            assert(fits(regions, len, b));
            lemma_lowest_exists(regions, len, start, b);
            assert(lowest_fit(regions, len, start, first_fit(regions, len, start)->0));
        }
    }
}

/// A region that is counted and then no longer counted leaves the numbers as they were.
/// It counts once among all, once as anonymous or as a file, once as shared or as
/// private, and with its whole pages.
pub proof fn law_counted_region_is_taken_back(
    s: &mut MmapStats,
    t: &mut MmapStats,
    region: &MmapRegion,
)
    requires
        call_ensures(MmapStats::record_region, (s, region), ()),
        call_ensures(MmapStats::remove_region, (t, region), ()),
        *old(t) == *final(s),
    ensures
        *final(t) == *old(s),
        ({
            let a = *old(s);
            let b = *final(s);
            a.total_regions < 0x1000_0000_0000 && a.anonymous_regions < 0x1000_0000_0000
                && a.file_regions < 0x1000_0000_0000 && a.shared_regions < 0x1000_0000_0000
                && a.private_regions < 0x1000_0000_0000 && a.total_mapped_pages
                < 0x1000_0000_0000 ==> {
                &&& b.total_regions == a.total_regions + 1
                &&& b.anonymous_regions + b.file_regions == a.anonymous_regions + a.file_regions + 1
                &&& b.anonymous_regions == a.anonymous_regions + 1 <==> region.backing is Anonymous
                &&& b.shared_regions + b.private_regions == a.shared_regions + a.private_regions + 1
                &&& b.shared_regions == a.shared_regions + 1 <==> region.flags & 1 != 0
                &&& b.anonymous_regions >= a.anonymous_regions && b.file_regions >= a.file_regions
                &&& b.shared_regions >= a.shared_regions && b.private_regions >= a.private_regions
                &&& (b.total_mapped_pages - a.total_mapped_pages) * 4096 <= region.length
                &&& region.length < (b.total_mapped_pages - a.total_mapped_pages + 1) * 4096
                &&& b.dirty_pages == a.dirty_pages && b.page_faults == a.page_faults
                    && b.msync_calls == a.msync_calls && b.munmap_calls == a.munmap_calls
            }
        }),
{
}

/// A file is mapped from an offset at a page boundary within it, and only so. The mapping
/// starts at a page boundary and takes the pages that hold what was asked for, or what the
/// file has left; its region remembers the file, the offset and whether it may be
/// written, and is clean. Every other region stays.
pub proof fn law_mapped_file_is_there(
    m: &mut MmapManager,
    tid: TaskId,
    path: &str,
    file_len: Option<usize>,
    offset: u64,
    length: usize,
    prot: u32,
    flags: u32,
    hint: u64,
    r: MmapResult<Address>,
)
    requires
        old(m).wf(),
        call_ensures(
            MmapManager::mmap_file,
            (m, tid, path, file_len, offset, length, prot, flags, hint),
            r,
        ),
    ensures
        offset as int % 4096 != 0 ==> r == Err::<Address, MmapError>(
            MmapError::InvalidOffset { offset },
        ),
        offset as int % 4096 == 0 && file_len is None ==> r is Err && r->Err_0 is FileNotFound
            && r->Err_0->FileNotFound_path@ == path@,
        offset as int % 4096 == 0 && file_len is Some && offset >= file_len->0 ==> r == Err::<
            Address,
            MmapError,
        >(MmapError::OffsetBeyondFile { offset, size: file_len->0 }),
        r matches Err(_) ==> final(m).table.regions_of(tid) == old(m).table.regions_of(tid),
        r matches Ok(a) ==> {
            let was = old(m).table.regions_of(tid);
            let now = final(m).table.regions_of(tid);
            let region = now[was.len() as int];
            let held = region.backing->File_length;
            &&& a as int % 4096 == 0
            &&& offset as int % 4096 == 0
            &&& file_len is Some && offset < file_len->0
            &&& was.len() < old(m).config.max_regions_per_task
            &&& now.len() == was.len() + 1
            &&& forall|i: int| 0 <= i < was.len() ==> #[trigger] now[i] == was[i]
            &&& region.base == a
            &&& region.prot == prot && region.flags == flags
            &&& region.backing is File
            &&& region.backing->path@ == path@
            &&& region.backing->offset == offset
            &&& region.backing->writeable <==> prot & 2 != 0
            &&& held <= length && offset + held <= file_len->0
            &&& held == length || offset + held == file_len->0
            &&& region.length as int % 4096 == 0
            &&& held <= region.length < held + 4096
            &&& region.dirty_mask == 0
            &&& hint != 0 && flags & 0x10 != 0 ==> a <= hint < a + 4096
        },
{
    if r is Ok {
        let left = file_len->0 - offset;
        let actual = if length < left {
            length as int
        } else {
            left
        };
        let was = old(m).table.regions_of(tid);
        let base = place(was, page_up(actual), flags, hint);
        assert(base != 0);
        law_placed_where_there_is_room(was, page_up(actual), flags, hint, 0, 0);
        let region = choose|region: MmapRegion|
            {
                &&& #[trigger] MmapManager::map_outcome(*old(m), *final(m), tid, region, r)
                &&& region.base == base
                &&& region.length == page_up(actual)
                &&& region.prot == prot
                &&& region.flags == flags
                &&& region.dirty_mask == 0
                &&& !region.populated
                &&& region.backing matches MmapBacking::File {
                    path: p,
                    offset: o,
                    length: l,
                    writeable: w,
                } && p@ == path@ && o == offset && l == actual && w == (prot & PROT_WRITE != 0)
            };
        assert(final(m).table.regions_of(tid) == was.push(region));
        assert(final(m).table.regions_of(tid)[was.len() as int] == region);
    }
}

/// Anonymous memory is mapped at a page boundary with the pages that hold the length that
/// was asked for. Its region has no file behind it and is clean, and every other region
/// stays.
pub proof fn law_mapped_memory_is_there(
    m: &mut MmapManager,
    tid: TaskId,
    length: usize,
    prot: u32,
    flags: u32,
    hint: u64,
    r: MmapResult<Address>,
)
    requires
        old(m).wf(),
        length <= usize::MAX - 4095,
        call_ensures(MmapManager::mmap_anon, (m, tid, length, prot, flags, hint), r),
    ensures
        r matches Err(_) ==> final(m).table.regions_of(tid) == old(m).table.regions_of(tid),
        r matches Ok(a) ==> {
            let was = old(m).table.regions_of(tid);
            let now = final(m).table.regions_of(tid);
            let region = now[was.len() as int];
            &&& a as int % 4096 == 0
            &&& was.len() < old(m).config.max_regions_per_task
            &&& now.len() == was.len() + 1
            &&& forall|i: int| 0 <= i < was.len() ==> #[trigger] now[i] == was[i]
            &&& region.base == a
            &&& region.prot == prot && region.flags == flags
            &&& region.backing is Anonymous
            &&& region.length as int % 4096 == 0
            &&& length <= region.length < length + 4096
            &&& region.dirty_mask == 0
            &&& hint != 0 && flags & 0x10 != 0 ==> a <= hint < a + 4096
        },
{
    if r is Ok {
        let was = old(m).table.regions_of(tid);
        law_placed_where_there_is_room(was, page_up(length as int), flags, hint, 0, 0);
        assert(final(m).table.regions_of(tid)[was.len() as int].base == r->Ok_0);
    }
}

/// Memory is told in whole MiB of 256 frames each, rounded down.
pub proof fn law_memory_is_told_in_mib(
    total: usize,
    used: usize,
    swapped: usize,
    r: (usize, usize, usize),
)
    requires
        call_ensures(memory_stats, (total, used, swapped), r),
    ensures
        r.0 * 256 <= total < (r.0 + 1) * 256,
        r.1 * 256 <= used < (r.1 + 1) * 256,
        r.2 == swapped,
{
}

} // verus!
