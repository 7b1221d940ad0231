//! Physical memory: frames, page tables, the kernel heap and swap.
use crate::memory::frame_alloc::{FrameAllocator, FrameError, MemoryRegion, MemoryRegionKind};
use crate::memory::heap::HeapError;
use crate::memory::mapper::MapperError;
use vstd::prelude::*;

pub mod frame_alloc;
pub mod heap;
pub mod mapper;
pub mod oom;
pub mod paging;
pub mod refcount;
pub mod swap;

verus! {

/// Start of the kernel heap.
pub const HEAP_START: u64 = 0x4444_4444_0000;

/// Size of the kernel heap: 8 MiB.
pub const HEAP_SIZE: u64 = 0x80_0000;

/// Settings of memory.
#[derive(Debug, Clone, Copy, PartialEq, Eq)]
pub struct MemoryConfig {
    pub heap_start: u64,
    pub heap_size: u64,
    pub enable_refcounting: bool,
    pub enable_oom_handler: bool,
    pub collect_metrics: bool,
    pub log_initialisation: bool,
}

impl Default for MemoryConfig {
    fn default() -> (r: Self)
        ensures
            r == (MemoryConfig {
                heap_start: HEAP_START,
                heap_size: HEAP_SIZE,
                enable_refcounting: true,
                enable_oom_handler: true,
                collect_metrics: true,
                log_initialisation: true,
            }),
    {
        MemoryConfig {
            heap_start: HEAP_START,
            heap_size: HEAP_SIZE,
            enable_refcounting: true,
            enable_oom_handler: true,
            collect_metrics: true,
            log_initialisation: true,
        }
    }
}

impl MemoryConfig {
    /// The first rule that the configuration breaks, if any.
    pub open spec fn broken_rule(&self) -> Option<Seq<char>> {
        if self.heap_size == 0 {
            Some("heap_size must be > 0"@)
        } else if self.heap_start % 4096 != 0 {
            Some("heap_start must be page\u{2011}aligned"@)
        } else if self.heap_size % 4096 != 0 {
            Some("heap_size must be a multiple of page size"@)
        } else {
            None
        }
    }

    pub fn validate(&self) -> (r: Result<(), &'static str>)
        ensures
            match r {
                Ok(_) => self.broken_rule() is None,
                Err(e) => self.broken_rule() == Some(e@),
            },
    {
        if self.heap_size == 0 {
            return Err("heap_size must be > 0");
        }
        if self.heap_start % 4096 != 0 {
            return Err("heap_start must be page\u{2011}aligned");
        }
        if self.heap_size % 4096 != 0 {
            return Err("heap_size must be a multiple of page size");
        }
        Ok(())
    }

    pub fn with_heap_size(self, size: u64) -> (r: Self)
        ensures
            r == (MemoryConfig { heap_size: size, ..self }),
    {
        MemoryConfig { heap_size: size, ..self }
    }

    pub fn with_heap_start(self, start: u64) -> (r: Self)
        ensures
            r == (MemoryConfig { heap_start: start, ..self }),
    {
        MemoryConfig { heap_start: start, ..self }
    }
}

/// Errors of memory.
#[derive(Debug)]
pub enum MemoryError {
    Frame(FrameError),
    Heap(HeapError),
    Mapper(MapperError),
    Config(String),
    InsufficientMemory,
}

pub type MemoryResult<T> = Result<T, MemoryError>;

impl From<FrameError> for MemoryError {
    fn from(e: FrameError) -> (r: Self) {
        MemoryError::Frame(e)
    }
}

impl vstd::std_specs::convert::FromSpecImpl<FrameError> for MemoryError {
    open spec fn obeys_from_spec() -> bool {
        true
    }

    open spec fn from_spec(e: FrameError) -> Self {
        MemoryError::Frame(e)
    }
}

impl From<HeapError> for MemoryError {
    fn from(e: HeapError) -> (r: Self) {
        MemoryError::Heap(e)
    }
}

impl vstd::std_specs::convert::FromSpecImpl<HeapError> for MemoryError {
    open spec fn obeys_from_spec() -> bool {
        true
    }

    open spec fn from_spec(e: HeapError) -> Self {
        MemoryError::Heap(e)
    }
}

impl From<MapperError> for MemoryError {
    fn from(e: MapperError) -> (r: Self) {
        MemoryError::Mapper(e)
    }
}

impl vstd::std_specs::convert::FromSpecImpl<MapperError> for MemoryError {
    open spec fn obeys_from_spec() -> bool {
        true
    }

    open spec fn from_spec(e: MapperError) -> Self {
        MemoryError::Mapper(e)
    }
}

/// What memory has done.
#[derive(Debug, Clone, Copy, PartialEq, Eq)]
pub struct MemoryMetrics {
    pub total_allocations: u64,
    pub total_frees: u64,
    pub oom_events: u64,
    pub heap_allocations: u64,
    pub heap_deallocations: u64,
    pub page_faults: u64,
}

impl Default for MemoryMetrics {
    fn default() -> (r: Self)
        ensures
            r == (MemoryMetrics {
                total_allocations: 0,
                total_frees: 0,
                oom_events: 0,
                heap_allocations: 0,
                heap_deallocations: 0,
                page_faults: 0,
            }),
    {
        MemoryMetrics {
            total_allocations: 0,
            total_frees: 0,
            oom_events: 0,
            heap_allocations: 0,
            heap_deallocations: 0,
            page_faults: 0,
        }
    }
}

impl MemoryMetrics {
    pub fn inc_alloc(&mut self)
        ensures
            *final(self) == (MemoryMetrics {
                total_allocations: old(self).total_allocations.wrapping_add(1),
                ..*old(self)
            }),
    {
        self.total_allocations = self.total_allocations.wrapping_add(1);
    }

    pub fn inc_free(&mut self)
        ensures
            *final(self) == (MemoryMetrics {
                total_frees: old(self).total_frees.wrapping_add(1),
                ..*old(self)
            }),
    {
        self.total_frees = self.total_frees.wrapping_add(1);
    }

    pub fn inc_oom(&mut self)
        ensures
            *final(self) == (MemoryMetrics {
                oom_events: old(self).oom_events.wrapping_add(1),
                ..*old(self)
            }),
    {
        self.oom_events = self.oom_events.wrapping_add(1);
    }

    pub fn inc_heap_alloc(&mut self)
        ensures
            *final(self) == (MemoryMetrics {
                heap_allocations: old(self).heap_allocations.wrapping_add(1),
                ..*old(self)
            }),
    {
        self.heap_allocations = self.heap_allocations.wrapping_add(1);
    }

    pub fn inc_heap_free(&mut self)
        ensures
            *final(self) == (MemoryMetrics {
                heap_deallocations: old(self).heap_deallocations.wrapping_add(1),
                ..*old(self)
            }),
    {
        self.heap_deallocations = self.heap_deallocations.wrapping_add(1);
    }

    pub fn inc_page_fault(&mut self)
        ensures
            *final(self) == (MemoryMetrics {
                page_faults: old(self).page_faults.wrapping_add(1),
                ..*old(self)
            }),
    {
        self.page_faults = self.page_faults.wrapping_add(1);
    }

    /// A copy of the counters.
    pub fn snapshot(&self) -> (r: MemoryMetricsSnapshot)
        ensures
            r == (MemoryMetricsSnapshot {
                total_allocations: self.total_allocations,
                total_frees: self.total_frees,
                oom_events: self.oom_events,
                heap_allocations: self.heap_allocations,
                heap_deallocations: self.heap_deallocations,
                page_faults: self.page_faults,
            }),
    {
        MemoryMetricsSnapshot {
            total_allocations: self.total_allocations,
            total_frees: self.total_frees,
            oom_events: self.oom_events,
            heap_allocations: self.heap_allocations,
            heap_deallocations: self.heap_deallocations,
            page_faults: self.page_faults,
        }
    }
}

/// A copy of [`MemoryMetrics`] at one moment.
#[derive(Debug, Clone, Copy, PartialEq, Eq)]
pub struct MemoryMetricsSnapshot {
    pub total_allocations: u64,
    pub total_frees: u64,
    pub oom_events: u64,
    pub heap_allocations: u64,
    pub heap_deallocations: u64,
    pub page_faults: u64,
}

/// The usable bytes of the first `n` regions.
pub open spec fn usable_bytes(regions: Seq<MemoryRegion>, n: int) -> int
    decreases n,
{
    if n <= 0 {
        0
    } else if regions[n - 1].kind is Usable {
        usable_bytes(regions, n - 1) + (regions[n - 1].end - regions[n - 1].start)
    } else {
        usable_bytes(regions, n - 1)
    }
}

/// No usable region ends before it starts.
pub open spec fn ordered(regions: Seq<MemoryRegion>) -> bool {
    forall|i: int|
        0 <= i < regions.len() && (#[trigger] regions[i]).kind is Usable ==> regions[i].start
            <= regions[i].end
}

/// The first usable region from place `i` on.
pub open spec fn first_usable(regions: Seq<MemoryRegion>, i: int) -> Option<MemoryRegion>
    decreases regions.len() - i,
{
    if i < 0 || i >= regions.len() {
        None
    } else if regions[i].kind is Usable {
        Some(regions[i])
    } else {
        first_usable(regions, i + 1)
    }
}

proof fn lemma_usable_grows(regions: Seq<MemoryRegion>, i: int, n: int)
    requires
        ordered(regions),
        0 <= i <= n <= regions.len(),
    ensures
        0 <= usable_bytes(regions, i) <= usable_bytes(regions, n),
    decreases n,
{
    if i < n {
        lemma_usable_grows(regions, i, n - 1);
    } else if n > 0 {
        lemma_usable_grows(regions, n - 1, n - 1);
    }
}

/// The usable bytes of a memory map.
pub fn total_usable_bytes(regions: &Vec<MemoryRegion>) -> (r: u64)
    requires
        ordered(regions@),
        usable_bytes(regions@, regions@.len() as int) <= u64::MAX,
    ensures
        r == usable_bytes(regions@, regions@.len() as int),
{
    let mut total: u64 = 0;
    let mut i: usize = 0;
    while i < regions.len()
        invariant
            i <= regions@.len(),
            ordered(regions@),
            usable_bytes(regions@, regions@.len() as int) <= u64::MAX,
            total == usable_bytes(regions@, i as int),
        decreases regions@.len() - i,
    {
        proof {
            lemma_usable_grows(regions@, i + 1, regions@.len() as int);
        }
        match regions[i].kind {
            MemoryRegionKind::Usable => {
                assert(regions@[i as int].kind is Usable);
                total += regions[i].end - regions[i].start;
            },
            _ => {},
        }
        i += 1;
    }
    total
}

/// What a memory map holds for the kernel.
#[derive(Debug, Clone, Copy, PartialEq, Eq)]
pub struct MemoryLayout {
    /// The first usable region.
    pub usable_start: u64,
    pub usable_end: u64,
    /// Bytes of all usable regions.
    pub total_usable: u64,
    pub frame_count: u64,
}

impl MemoryLayout {
    pub fn from_regions(regions: &Vec<MemoryRegion>) -> (r: Self)
        requires
            ordered(regions@),
            usable_bytes(regions@, regions@.len() as int) <= u64::MAX,
        ensures
            r.total_usable == usable_bytes(regions@, regions@.len() as int),
            r.frame_count == r.total_usable / 4096,
            match first_usable(regions@, 0) {
                Some(first) => r.usable_start == first.start && r.usable_end == first.end,
                None => r.usable_start == 0 && r.usable_end == 0,
            },
    {
        let total: u64 = total_usable_bytes(regions);
        let mut i: usize = 0;
        while i < regions.len()
            invariant
                i <= regions@.len(),
                first_usable(regions@, 0) == first_usable(regions@, i as int),
                total == usable_bytes(regions@, regions@.len() as int),
            decreases regions@.len() - i,
        {
            match regions[i].kind {
                MemoryRegionKind::Usable => {
                    return MemoryLayout {
                        usable_start: regions[i].start,
                        usable_end: regions[i].end,
                        total_usable: total,
                        frame_count: total / 4096,
                    };
                },
                _ => {},
            }
            i += 1;
        }
        MemoryLayout {
            usable_start: 0,
            usable_end: 0,
            total_usable: total,
            frame_count: total / 4096,
        }
    }
}

/// Memory of the system.
#[derive(Debug)]
pub struct MemoryManager {
    pub config: MemoryConfig,
    pub metrics: MemoryMetrics,
    pub initialised: bool,
}

impl MemoryManager {
    pub fn new(config: MemoryConfig) -> (r: Self)
        requires
            config.broken_rule() is None,
        ensures
            r.config == config,
            r.metrics == (MemoryMetrics {
                total_allocations: 0,
                total_frees: 0,
                oom_events: 0,
                heap_allocations: 0,
                heap_deallocations: 0,
                page_faults: 0,
            }),
            !r.initialised,
    {
        MemoryManager { config, metrics: MemoryMetrics::default(), initialised: false }
    }

    pub fn default() -> (r: Self)
        ensures
            r.config == (MemoryConfig {
                heap_start: HEAP_START,
                heap_size: HEAP_SIZE,
                enable_refcounting: true,
                enable_oom_handler: true,
                collect_metrics: true,
                log_initialisation: true,
            }),
            r.metrics == (MemoryMetrics {
                total_allocations: 0,
                total_frees: 0,
                oom_events: 0,
                heap_allocations: 0,
                heap_deallocations: 0,
                page_faults: 0,
            }),
            !r.initialised,
    {
        MemoryManager::new(MemoryConfig::default())
    }

    pub fn config(&self) -> (r: &MemoryConfig)
        ensures
            *r == self.config,
    {
        &self.config
    }

    pub fn metrics(&self) -> (r: &MemoryMetrics)
        ensures
            *r == self.metrics,
    {
        &self.metrics
    }

    /// Starts to set memory up: the frames come first. The page tables and the heap
    /// follow, then [`MemoryManager::heap_ready`]. Says whether there is anything to do;
    /// there is not if memory is set up already.
    pub fn init(
        &mut self,
        frames: &mut Option<FrameAllocator>,
        phys_offset: u64,
        regions: &Vec<MemoryRegion>,
    ) -> (r: bool)
        requires
            !old(self).initialised ==> {
                &&& paging::canonical(phys_offset)
                &&& phys_offset != 0
                &&& ordered(regions@)
                &&& 0 < usable_bytes(regions@, regions@.len() as int) <= u64::MAX
                &&& frame_alloc::init_fits(*old(frames), regions@)
            },
        ensures
            r == !old(self).initialised,
            *final(self) == *old(self),
            r ==> frame_alloc::init_outcome(*old(frames), *final(frames), phys_offset, regions@),
            !r ==> *final(frames) == *old(frames),
    {
        if self.initialised {
            return false;
        }
        frame_alloc::init(frames, phys_offset, regions);
        true
    }

    /// Ends to set memory up, when the heap is ready: from now on references to frames
    /// are counted.
    pub fn heap_ready(&mut self, frames: &mut FrameAllocator)
        requires
            old(frames).wf(),
        ensures
            *final(self) == (MemoryManager { initialised: true, ..*old(self) }),
            final(frames).wf(),
            *final(frames) == (FrameAllocator { refs: final(frames).refs, ..*old(frames) }),
            final(frames).refs.ready,
            final(frames).refs.counts@ == Seq::new(
                (if old(frames).bitmap.max_frames < frame_alloc::MAX_FRAMES {
                    old(frames).bitmap.max_frames
                } else {
                    frame_alloc::MAX_FRAMES
                }) as nat,
                |i: int| 0u32,
            ),
    {
        frame_alloc::mark_heap_ready(frames);
        self.initialised = true;
    }

    pub fn is_initialised(&self) -> (r: bool)
        ensures
            r == self.initialised,
    {
        self.initialised
    }

    /// Forgets that memory was set up.
    pub fn reset(&mut self)
        ensures
            *final(self) == (MemoryManager { initialised: false, ..*old(self) }),
    {
        self.initialised = false;
    }

    pub fn metrics_snapshot(&self) -> (r: MemoryMetricsSnapshot)
        ensures
            r.total_allocations == self.metrics.total_allocations,
            r.total_frees == self.metrics.total_frees,
            r.oom_events == self.metrics.oom_events,
            r.heap_allocations == self.metrics.heap_allocations,
            r.heap_deallocations == self.metrics.heap_deallocations,
            r.page_faults == self.metrics.page_faults,
    {
        self.metrics.snapshot()
    }

    pub fn reset_metrics(&mut self)
        ensures
            *final(self) == (MemoryManager {
                metrics: MemoryMetrics {
                    total_allocations: 0,
                    total_frees: 0,
                    oom_events: 0,
                    heap_allocations: 0,
                    heap_deallocations: 0,
                    page_faults: 0,
                },
                ..*old(self)
            }),
    {
        self.metrics = MemoryMetrics::default();
    }
}

/// What is usable grows by the length of each usable region, and by nothing for any other.
pub proof fn law_usable_memory_adds_up(
    regions: &Vec<MemoryRegion>,
    more: &Vec<MemoryRegion>,
    region: MemoryRegion,
    a: u64,
    b: u64,
)
    requires
        more@ == regions@.push(region),
        call_ensures(total_usable_bytes, (regions,), a),
        call_ensures(total_usable_bytes, (more,), b),
    ensures
        region.kind is Usable ==> b - a == region.end - region.start,
        region.kind !is Usable ==> b == a,
        regions@.len() == 0 ==> a == 0,
{
    lemma_usable_prefix(regions@, more@, regions@.len() as int);
}

proof fn lemma_usable_prefix(a: Seq<MemoryRegion>, b: Seq<MemoryRegion>, n: int)
    requires
        0 <= n <= a.len(),
        n <= b.len(),
        forall|i: int| 0 <= i < n ==> #[trigger] a[i] == b[i],
    ensures
        usable_bytes(a, n) == usable_bytes(b, n),
    decreases n,
{
    if n > 0 {
        lemma_usable_prefix(a, b, n - 1);
        assert(a[n - 1] == b[n - 1]);
    }
}

/// The layout starts where the first usable region starts and ends where it ends, and it
/// has as many frames as the usable bytes fill.
pub proof fn law_layout_is_of_usable_memory(
    regions: &Vec<MemoryRegion>,
    r: MemoryLayout,
    total: u64,
    k: int,
)
    requires
        call_ensures(MemoryLayout::from_regions, (regions,), r),
        call_ensures(total_usable_bytes, (regions,), total),
        0 <= k < regions@.len(),
        regions@[k].kind is Usable,
        forall|i: int| 0 <= i < k ==> (#[trigger] regions@[i]).kind !is Usable,
    ensures
        r.usable_start == regions@[k].start,
        r.usable_end == regions@[k].end,
        r.total_usable == total,
        r.frame_count * 4096 <= total < r.frame_count * 4096 + 4096,
{
    lemma_first_usable(regions@, 0, k);
}

proof fn lemma_first_usable(regions: Seq<MemoryRegion>, i: int, k: int)
    requires
        0 <= i <= k < regions.len(),
        regions[k].kind is Usable,
        forall|j: int| i <= j < k ==> (#[trigger] regions[j]).kind !is Usable,
    ensures
        first_usable(regions, i) == Some(regions[k]),
    decreases k - i,
{
    if i < k {
        assert(regions[i].kind !is Usable);
        lemma_first_usable(regions, i + 1, k);
    }
}

/// Settings of memory pass exactly where the heap has whole pages, at least one, from a
/// page boundary on.
pub proof fn law_memory_settings_are_whole_pages(c: &MemoryConfig, r: Result<(), &'static str>)
    requires
        call_ensures(MemoryConfig::validate, (c,), r),
    ensures
        r is Ok <==> c.heap_size >= 4096 && c.heap_size as int % 4096 == 0 && c.heap_start as int
            % 4096 == 0,
        c.heap_size == 0 ==> r is Err && r->Err_0@ == "heap_size must be > 0"@,
{
}

/// Memory is set up once; then every frame has its count, at zero.
pub proof fn law_memory_is_set_up_once(
    m: &mut MemoryManager,
    frames: &mut Option<FrameAllocator>,
    offset: u64,
    regions: &Vec<MemoryRegion>,
    r: bool,
    ready: &mut MemoryManager,
    owner: &mut FrameAllocator,
    k: int,
)
    requires
        call_ensures(MemoryManager::init, (m, frames, offset, regions), r),
        call_ensures(MemoryManager::heap_ready, (ready, owner), ()),
    ensures
        r <==> !old(m).initialised,
        !r ==> *final(frames) == *old(frames),
        final(ready).initialised,
        final(owner).bitmap == old(owner).bitmap,
        0 <= k < final(owner).refs.counts@.len() ==> final(owner).refs.counts@[k] == 0,
        old(owner).bitmap.max_frames <= frame_alloc::MAX_FRAMES ==> final(
            owner).refs.counts@.len() == old(owner).bitmap.max_frames,
{
}

/// The numbers that memory reports are those that were counted.
pub proof fn law_memory_report_is_what_was_counted(m: &MemoryManager, r: MemoryMetricsSnapshot)
    requires
        call_ensures(MemoryManager::metrics_snapshot, (m,), r),
    ensures
        r.total_allocations == m.metrics.total_allocations,
        r.total_frees == m.metrics.total_frees,
        r.oom_events == m.metrics.oom_events,
        r.heap_allocations == m.metrics.heap_allocations,
        r.heap_deallocations == m.metrics.heap_deallocations,
        r.page_faults == m.metrics.page_faults,
{
}

} // verus!
