//! The kernel heap: which pages it takes and how they are mapped.
use crate::memory::paging;
use vstd::prelude::*;

verus! {

/// Start of the kernel heap.
pub const HEAP_START: u64 = 0x4444_4444_0000;

/// Size of the kernel heap: 64 MiB.
pub const HEAP_SIZE: u64 = 0x400_0000;

pub const PAGE_SIZE: u64 = 4096;

/// Present, writable and not executable.
pub const HEAP_FLAGS: u64 = 0x8000_0000_0000_0003;

/// Where the heap is and how its pages are mapped.
#[derive(Debug, Clone, Copy, PartialEq, Eq)]
pub struct HeapConfig {
    pub start: u64,
    pub size: u64,
    pub flags: u64,
    pub collect_metrics: bool,
    pub log_mapping: bool,
}

impl Default for HeapConfig {
    fn default() -> (r: Self)
        ensures
            r == (HeapConfig {
                start: HEAP_START,
                size: HEAP_SIZE,
                flags: HEAP_FLAGS,
                collect_metrics: true,
                log_mapping: true,
            }),
    {
        assert(0x1u64 | 0x2u64 | 0x8000_0000_0000_0000u64 == HEAP_FLAGS) by (bit_vector);
        HeapConfig {
            start: HEAP_START,
            size: HEAP_SIZE,
            flags: paging::present_flag() | paging::writable_flag() | paging::no_execute_flag(),
            collect_metrics: true,
            log_mapping: true,
        }
    }
}

impl HeapConfig {
    /// The first rule that the configuration breaks, if any.
    pub open spec fn broken_rule(&self) -> Option<Seq<char>> {
        if self.size == 0 {
            Some("heap size must be > 0"@)
        } else if self.start % 4096 != 0 {
            Some("heap start must be page-aligned"@)
        } else if self.size % 4096 != 0 {
            Some("heap size must be a multiple of page size"@)
        } else {
            None
        }
    }

    pub fn validate(&self) -> (r: Result<(), &'static str>)
        ensures
            match r {
                Ok(_) => self.broken_rule() is None,
                Err(e) => self.broken_rule() == Some(e@),
            },
    {
        if self.size == 0 {
            return Err("heap size must be > 0");
        }
        if self.start % 4096 != 0 {
            return Err("heap start must be page-aligned");
        }
        if self.size % 4096 != 0 {
            return Err("heap size must be a multiple of page size");
        }
        Ok(())
    }

    pub fn with_size(self, size: u64) -> (r: Self)
        ensures
            r == (HeapConfig { size: size, ..self }),
    {
        HeapConfig { size: size, ..self }
    }

    pub fn with_start(self, start: u64) -> (r: Self)
        ensures
            r == (HeapConfig { start: start, ..self }),
    {
        HeapConfig { start: start, ..self }
    }

    pub fn with_metrics(self) -> (r: Self)
        ensures
            r == (HeapConfig { collect_metrics: true, ..self }),
    {
        HeapConfig { collect_metrics: true, ..self }
    }
}

/// Errors of the heap.
#[derive(Debug, Clone, PartialEq, Eq)]
pub enum HeapError {
    ZeroSize,
    StartNotAligned { start: u64 },
    SizeNotAligned { size: u64 },
    FrameAllocationFailed,
    PageMapFailed { addr: u64, reason: &'static str },
    AlreadyInitialised,
    Config(String),
}

pub type HeapResult<T> = Result<T, HeapError>;

/// Numbers of the heap.
#[derive(Debug, Clone, Copy, PartialEq, Eq)]
pub struct HeapStats {
    pub total_pages: u64,
    pub mapped_pages: u64,
    pub size_bytes: u64,
    pub used_bytes: u64,
}

impl Default for HeapStats {
    fn default() -> (r: Self)
        ensures
            r == (HeapStats { total_pages: 0, mapped_pages: 0, size_bytes: 0, used_bytes: 0 }),
    {
        HeapStats { total_pages: 0, mapped_pages: 0, size_bytes: 0, used_bytes: 0 }
    }
}

/// What happened to the heap.
#[derive(Debug, Clone, Copy, PartialEq, Eq)]
pub struct HeapMetrics {
    pub total_pages_mapped: u64,
    pub total_bytes_mapped: u64,
    pub failed_allocations: u64,
    pub failed_mappings: u64,
    pub heap_init_calls: u64,
}

impl Default for HeapMetrics {
    fn default() -> (r: Self)
        ensures
            r == (HeapMetrics {
                total_pages_mapped: 0,
                total_bytes_mapped: 0,
                failed_allocations: 0,
                failed_mappings: 0,
                heap_init_calls: 0,
            }),
    {
        HeapMetrics {
            total_pages_mapped: 0,
            total_bytes_mapped: 0,
            failed_allocations: 0,
            failed_mappings: 0,
            heap_init_calls: 0,
        }
    }
}

impl HeapMetrics {
    /// That many pages were mapped.
    pub fn inc_pages_mapped(&mut self, count: usize)
        requires
            count * 4096 <= u64::MAX,
        ensures
            *final(self) == (HeapMetrics {
                total_pages_mapped: old(self).total_pages_mapped.wrapping_add(count as u64),
                total_bytes_mapped: old(self).total_bytes_mapped.wrapping_add(
                    (count * 4096) as u64,
                ),
                ..*old(self)
            }),
    {
        self.total_pages_mapped = self.total_pages_mapped.wrapping_add(count as u64);
        self.total_bytes_mapped = self.total_bytes_mapped.wrapping_add(count as u64 * 4096);
    }

    pub fn inc_failed_allocation(&mut self)
        ensures
            *final(self) == (HeapMetrics {
                failed_allocations: old(self).failed_allocations.wrapping_add(1),
                ..*old(self)
            }),
    {
        self.failed_allocations = self.failed_allocations.wrapping_add(1);
    }

    pub fn inc_failed_mapping(&mut self)
        ensures
            *final(self) == (HeapMetrics {
                failed_mappings: old(self).failed_mappings.wrapping_add(1),
                ..*old(self)
            }),
    {
        self.failed_mappings = self.failed_mappings.wrapping_add(1);
    }

    pub fn inc_init_call(&mut self)
        ensures
            *final(self) == (HeapMetrics {
                heap_init_calls: old(self).heap_init_calls.wrapping_add(1),
                ..*old(self)
            }),
    {
        self.heap_init_calls = self.heap_init_calls.wrapping_add(1);
    }

    /// A copy of the counters.
    pub fn snapshot(&self) -> (r: HeapMetricsSnapshot)
        ensures
            r == (HeapMetricsSnapshot {
                total_pages_mapped: self.total_pages_mapped,
                total_bytes_mapped: self.total_bytes_mapped,
                failed_allocations: self.failed_allocations,
                failed_mappings: self.failed_mappings,
                heap_init_calls: self.heap_init_calls,
            }),
    {
        HeapMetricsSnapshot {
            total_pages_mapped: self.total_pages_mapped,
            total_bytes_mapped: self.total_bytes_mapped,
            failed_allocations: self.failed_allocations,
            failed_mappings: self.failed_mappings,
            heap_init_calls: self.heap_init_calls,
        }
    }
}

impl Default for HeapMetricsSnapshot {
    fn default() -> (r: Self)
        ensures
            r == (HeapMetricsSnapshot {
                total_pages_mapped: 0,
                total_bytes_mapped: 0,
                failed_allocations: 0,
                failed_mappings: 0,
                heap_init_calls: 0,
            }),
    {
        HeapMetricsSnapshot {
            total_pages_mapped: 0,
            total_bytes_mapped: 0,
            failed_allocations: 0,
            failed_mappings: 0,
            heap_init_calls: 0,
        }
    }
}

/// A copy of [`HeapMetrics`] at one moment.
#[derive(Debug, Clone, Copy, PartialEq, Eq)]
pub struct HeapMetricsSnapshot {
    pub total_pages_mapped: u64,
    pub total_bytes_mapped: u64,
    pub failed_allocations: u64,
    pub failed_mappings: u64,
    pub heap_init_calls: u64,
}

// ---------------------------------------------------------------------------
// Ranges of pages
// ---------------------------------------------------------------------------

/// Pages from the first up to and with the last, known by their start addresses.
#[derive(Debug, Clone, Copy, PartialEq, Eq)]
pub struct PageRange {
    pub first: u64,
    pub last: u64,
}

/// The start of the page that holds an address.
pub open spec fn page_of(addr: int) -> int {
    addr - addr % 4096
}

impl PageRange {
    /// Both ends are starts of pages, and the range does not reach the end of the
    /// half of the address space that it starts in.
    pub open spec fn wf(self) -> bool {
        &&& self.first % 4096 == 0
        &&& self.last % 4096 == 0
        &&& self.last < 0x7FFF_FFFF_F000 || 0xFFFF_8000_0000_0000 <= self.first
    }

    pub open spec fn count(self) -> int {
        if self.first <= self.last {
            (self.last - self.first) / 4096 + 1
        } else {
            0
        }
    }

    /// How many pages there are.
    pub fn len(&self) -> (r: u64)
        requires
            self.wf(),
        ensures
            r == self.count(),
    {
        if self.first <= self.last {
            (self.last - self.first) / 4096 + 1
        } else {
            0
        }
    }

    /// The pages, in order.
    pub fn pages(&self) -> (r: Vec<u64>)
        requires
            self.wf(),
        ensures
            r@.len() == self.count(),
            forall|i: int| 0 <= i < r@.len() ==> #[trigger] r@[i] == self.first + i * 4096,
    {
        let mut out: Vec<u64> = Vec::new();
        let n: u64 = self.len();
        let mut i: u64 = 0;
        while i < n
            invariant
                i <= n,
                n == self.count(),
                self.wf(),
                out@.len() == i,
                forall|j: int| 0 <= j < i ==> #[trigger] out@[j] == self.first + j * 4096,
            decreases n - i,
        {
            out.push(self.first + i * 4096);
            i += 1;
        }
        out
    }
}

/// The pages that hold the addresses from `start` up to and with `end`.
pub fn page_range_inclusive(start: u64, end: u64) -> (r: PageRange)
    requires
        paging::canonical(start),
        paging::canonical(end),
    ensures
        r.first == page_of(start as int),
        r.last == page_of(end as int),
{
    PageRange { first: paging::page_start(start), last: paging::page_start(end) }
}

/// An address is in the range exactly if its page is.
pub proof fn law_range_covers_addresses(start: u64, end: u64, addr: u64)
    requires
        start <= addr <= end,
    ensures
        ({
            let r = PageRange {
                first: page_of(start as int) as u64,
                last: page_of(end as int) as u64,
            };
            let i = (page_of(addr as int) - r.first) / 4096;
            0 <= i < r.count() && r.first + i * 4096 == page_of(addr as int)
        }),
{
}

// ---------------------------------------------------------------------------
// Mapping the heap
// ---------------------------------------------------------------------------

/// What has happened, as far as the heap has to know.
#[derive(Debug, Clone, Copy, PartialEq, Eq)]
pub enum HeapEvent {
    /// The heap is to be set up.
    Start,
    /// A frame was asked for; here is its start address, if there was one.
    Frame(Option<u64>),
    /// A page was to be mapped; did that succeed?
    Mapped(bool),
}

/// What is to be done next.
#[derive(Debug)]
pub enum HeapAction {
    /// Ask for a frame.
    TakeFrame,
    /// Map a page to a frame.
    MapPage { page: u64, frame: u64, flags: u64 },
    /// All pages are mapped: hand the memory to the allocator.
    Ready { start: u64, size: u64 },
    /// Give up. Take back the mappings of these pages.
    Fail { error: HeapError, unmap: Vec<u64> },
}

/// How far the set-up has come.
#[derive(Debug, Clone, Copy, PartialEq, Eq)]
pub enum HeapPhase {
    Idle,
    WantsFrame,
    WantsPage { frame: u64 },
}

/// Sets the heap up, page by page.
#[derive(Debug)]
pub struct HeapInitialiser {
    pub config: HeapConfig,
    pub metrics: HeapMetrics,
    pub initialised: bool,
    pub phase: HeapPhase,
    /// Pages that are mapped, with their frames.
    pub mapped: Vec<(u64, u64)>,
}

/// The state of the set-up.
#[verifier::ext_equal]
pub struct Setup {
    pub config: HeapConfig,
    pub metrics: HeapMetrics,
    pub initialised: bool,
    pub phase: HeapPhase,
    pub mapped: Seq<(u64, u64)>,
}

/// What is to be done next.
pub enum Deed {
    TakeFrame,
    MapPage { page: u64, frame: u64, flags: u64 },
    Ready { start: u64, size: u64 },
    Fail { error: HeapError, unmap: Seq<u64> },
}

impl View for HeapInitialiser {
    type V = Setup;

    open spec fn view(&self) -> Setup {
        Setup {
            config: self.config,
            metrics: self.metrics,
            initialised: self.initialised,
            phase: self.phase,
            mapped: self.mapped@,
        }
    }
}

impl View for HeapAction {
    type V = Deed;

    open spec fn view(&self) -> Deed {
        match *self {
            HeapAction::TakeFrame => Deed::TakeFrame,
            HeapAction::MapPage { page, frame, flags } => Deed::MapPage { page, frame, flags },
            HeapAction::Ready { start, size } => Deed::Ready { start, size },
            HeapAction::Fail { error, unmap } => Deed::Fail { error, unmap: unmap@ },
        }
    }
}

impl Setup {
    /// The settings are valid, and the heap lies in one half of the address space.
    pub open spec fn wf(self) -> bool {
        let c = self.config;
        &&& c.broken_rule() is None
        &&& c.start + c.size < 0x8000_0000_0000 || 0xFFFF_8000_0000_0000 <= c.start && c.start
            + c.size <= u64::MAX
        &&& self.phase !is Idle ==> self.mapped.len() < c.size / 4096 && !self.initialised
    }

    /// The page that is mapped next.
    pub open spec fn page(self) -> u64 {
        (self.config.start + self.mapped.len() * 4096) as u64
    }

    /// The event is one that the set-up waits for.
    pub open spec fn expects(self, event: HeapEvent) -> bool {
        match event {
            HeapEvent::Start => self.phase is Idle,
            HeapEvent::Frame(_) => self.phase is WantsFrame,
            HeapEvent::Mapped(_) => self.phase is WantsPage,
        }
    }

    /// The state after an event.
    pub open spec fn after(self, event: HeapEvent) -> Setup {
        match event {
            HeapEvent::Start => if self.initialised {
                self
            } else {
                Setup {
                    metrics: HeapMetrics {
                        heap_init_calls: self.metrics.heap_init_calls.wrapping_add(1),
                        ..self.metrics
                    },
                    phase: HeapPhase::WantsFrame,
                    mapped: Seq::empty(),
                    ..self
                }
            },
            HeapEvent::Frame(Some(frame)) => Setup { phase: HeapPhase::WantsPage { frame }, ..self },
            HeapEvent::Frame(None) => Setup {
                metrics: HeapMetrics {
                    failed_allocations: self.metrics.failed_allocations.wrapping_add(1),
                    ..self.metrics
                },
                phase: HeapPhase::Idle,
                ..self
            },
            HeapEvent::Mapped(true) => {
                let mapped = self.mapped.push((self.page(), self.phase->frame));
                if mapped.len() == self.config.size / 4096 {
                    Setup {
                        metrics: HeapMetrics {
                            total_pages_mapped: self.metrics.total_pages_mapped.wrapping_add(
                                (self.config.size / 4096) as u64,
                            ),
                            total_bytes_mapped: self.metrics.total_bytes_mapped.wrapping_add(
                                self.config.size,
                            ),
                            ..self.metrics
                        },
                        initialised: true,
                        phase: HeapPhase::Idle,
                        mapped,
                        ..self
                    }
                } else {
                    Setup { phase: HeapPhase::WantsFrame, mapped, ..self }
                }
            },
            HeapEvent::Mapped(false) => Setup {
                metrics: HeapMetrics {
                    failed_mappings: self.metrics.failed_mappings.wrapping_add(1),
                    ..self.metrics
                },
                phase: HeapPhase::Idle,
                mapped: Seq::empty(),
                ..self
            },
        }
    }

    /// What is to be done after an event.
    pub open spec fn deed(self, event: HeapEvent) -> Deed {
        match event {
            HeapEvent::Start => if self.initialised {
                Deed::Fail { error: HeapError::AlreadyInitialised, unmap: Seq::empty() }
            } else {
                Deed::TakeFrame
            },
            HeapEvent::Frame(Some(frame)) => Deed::MapPage {
                page: self.page(),
                frame,
                flags: self.config.flags & paging::FLAG_BITS,
            },
            HeapEvent::Frame(None) => Deed::Fail {
                error: HeapError::FrameAllocationFailed,
                unmap: Seq::empty(),
            },
            HeapEvent::Mapped(true) => if self.mapped.len() + 1 == self.config.size / 4096 {
                Deed::Ready { start: self.config.start, size: self.config.size }
            } else {
                Deed::TakeFrame
            },
            HeapEvent::Mapped(false) => Deed::Fail {
                error: HeapError::PageMapFailed { addr: self.page(), reason: "mapper error" },
                unmap: pages_of(self.mapped),
            },
        }
    }
}

pub open spec fn pages_of(mapped: Seq<(u64, u64)>) -> Seq<u64> {
    Seq::new(mapped.len(), |i: int| mapped[i].0)
}

impl HeapInitialiser {
    /// A heap that is not set up yet; the configuration must be valid.
    pub fn new(config: HeapConfig) -> (r: Self)
        requires
            config.broken_rule() is None,
        ensures
            r.config == config,
            r.metrics == (HeapMetrics {
                total_pages_mapped: 0,
                total_bytes_mapped: 0,
                failed_allocations: 0,
                failed_mappings: 0,
                heap_init_calls: 0,
            }),
            !r.initialised,
            r.phase is Idle,
            r.mapped@.len() == 0,
    {
        HeapInitialiser {
            config,
            metrics: HeapMetrics::default(),
            initialised: false,
            phase: HeapPhase::Idle,
            mapped: Vec::new(),
        }
    }

    /// A heap with the default settings.
    pub fn default() -> (r: Self)
        ensures
            r@.wf(),
            r.config == (HeapConfig {
                start: HEAP_START,
                size: HEAP_SIZE,
                flags: HEAP_FLAGS,
                collect_metrics: true,
                log_mapping: true,
            }),
            r.metrics == (HeapMetrics {
                total_pages_mapped: 0,
                total_bytes_mapped: 0,
                failed_allocations: 0,
                failed_mappings: 0,
                heap_init_calls: 0,
            }),
            !r.initialised,
            r.phase is Idle,
            r.mapped@.len() == 0,
    {
        HeapInitialiser::new(HeapConfig::default())
    }

    pub fn metrics(&self) -> (r: &HeapMetrics)
        ensures
            *r == self.metrics,
    {
        &self.metrics
    }

    pub fn config(&self) -> (r: &HeapConfig)
        ensures
            *r == self.config,
    {
        &self.config
    }

    /// Sets the heap up: takes what has happened and says what is to be done next.
    /// For each page a frame is asked for and mapped. If a page cannot be mapped, the
    /// mappings of the pages before it are taken back.
    pub fn init(&mut self, event: HeapEvent) -> (r: HeapAction)
        requires
            old(self)@.wf(),
            old(self)@.expects(event),
            old(self).config.size / 4096 <= usize::MAX,
        ensures
            final(self)@.wf(),
            final(self)@ == old(self)@.after(event),
            r@ == old(self)@.deed(event),
    {
        let r = match event {
            HeapEvent::Start => {
                if self.initialised {
                    return self.fail(HeapError::AlreadyInitialised);
                }
                self.metrics.inc_init_call();
                self.mapped = Vec::new();
                self.phase = HeapPhase::WantsFrame;
                HeapAction::TakeFrame
            },
            HeapEvent::Frame(Some(frame)) => {
                self.phase = HeapPhase::WantsPage { frame };
                HeapAction::MapPage {
                    page: self.page(),
                    frame,
                    flags: paging::known_flags(self.config.flags),
                }
            },
            HeapEvent::Frame(None) => {
                self.metrics.inc_failed_allocation();
                self.phase = HeapPhase::Idle;
                return self.fail(HeapError::FrameAllocationFailed);
            },
            HeapEvent::Mapped(true) => {
                let page: u64 = self.page();
                let frame: u64 = match self.phase {
                    HeapPhase::WantsPage { frame } => frame,
                    _ => 0,
                };
                self.mapped.push((page, frame));
                let pages: u64 = self.config.size / 4096;
                if self.mapped.len() as u64 == pages {
                    self.metrics.inc_pages_mapped(self.mapped.len());
                    self.initialised = true;
                    self.phase = HeapPhase::Idle;
                    HeapAction::Ready { start: self.config.start, size: self.config.size }
                } else {
                    self.phase = HeapPhase::WantsFrame;
                    HeapAction::TakeFrame
                }
            },
            HeapEvent::Mapped(false) => {
                let page: u64 = self.page();
                self.metrics.inc_failed_mapping();
                let mut unmap: Vec<u64> = Vec::new();
                let mut i: usize = 0;
                while i < self.mapped.len()
                    invariant
                        i <= self.mapped@.len(),
                        unmap@.len() == i,
                        forall|j: int| 0 <= j < i ==> #[trigger] unmap@[j] == self.mapped@[j].0,
                    decreases self.mapped@.len() - i,
                {
                    unmap.push(self.mapped[i].0);
                    i += 1;
                }
                assert(unmap@ =~= pages_of(old(self).mapped@));
                self.mapped = Vec::new();
                self.phase = HeapPhase::Idle;
                HeapAction::Fail {
                    error: HeapError::PageMapFailed { addr: page, reason: "mapper error" },
                    unmap,
                }
            },
        };
        assert(self@ =~= old(self)@.after(event));
        r
    }

    fn page(&self) -> (r: u64)
        requires
            self@.wf(),
            self.mapped@.len() < self.config.size / 4096,
        ensures
            r == self@.page(),
    {
        self.config.start + self.mapped.len() as u64 * 4096
    }

    fn fail(&self, error: HeapError) -> (r: HeapAction)
        ensures
            r@ == (Deed::Fail { error, unmap: Seq::empty() }),
    {
        HeapAction::Fail { error, unmap: Vec::new() }
    }

    pub fn is_initialised(&self) -> (r: bool)
        ensures
            r == self.initialised,
    {
        self.initialised
    }

    /// Forgets that the heap was set up.
    pub fn reset(&mut self)
        ensures
            final(self)@ == (Setup { initialised: false, ..old(self)@ }),
    {
        self.initialised = false;
    }
}

/// The kernel heap.
#[derive(Debug)]
pub struct HeapManager {
    pub initialiser: HeapInitialiser,
}

impl HeapManager {
    pub fn new(config: HeapConfig) -> (r: Self)
        requires
            config.broken_rule() is None,
        ensures
            r.initialiser.config == config,
            r.initialiser.metrics == (HeapMetrics {
                total_pages_mapped: 0,
                total_bytes_mapped: 0,
                failed_allocations: 0,
                failed_mappings: 0,
                heap_init_calls: 0,
            }),
            !r.initialiser.initialised,
            r.initialiser.phase is Idle,
            r.initialiser.mapped@.len() == 0,
    {
        HeapManager { initialiser: HeapInitialiser::new(config) }
    }

    pub fn default() -> (r: Self)
        ensures
            r.initialiser@.wf(),
            r.initialiser.config == (HeapConfig {
                start: HEAP_START,
                size: HEAP_SIZE,
                flags: HEAP_FLAGS,
                collect_metrics: true,
                log_mapping: true,
            }),
            r.initialiser.metrics == (HeapMetrics {
                total_pages_mapped: 0,
                total_bytes_mapped: 0,
                failed_allocations: 0,
                failed_mappings: 0,
                heap_init_calls: 0,
            }),
            !r.initialiser.initialised,
            r.initialiser.phase is Idle,
            r.initialiser.mapped@.len() == 0,
    {
        HeapManager { initialiser: HeapInitialiser::default() }
    }

    pub fn config(&self) -> (r: &HeapConfig)
        ensures
            *r == self.initialiser.config,
    {
        self.initialiser.config()
    }

    pub fn metrics(&self) -> (r: &HeapMetrics)
        ensures
            *r == self.initialiser.metrics,
    {
        self.initialiser.metrics()
    }

    /// Sets the heap up, step by step.
    pub fn init(&mut self, event: HeapEvent) -> (r: HeapAction)
        requires
            old(self).initialiser@.wf(),
            old(self).initialiser@.expects(event),
            old(self).initialiser.config.size / 4096 <= usize::MAX,
        ensures
            final(self).initialiser@.wf(),
            final(self).initialiser@ == old(self).initialiser@.after(event),
            r@ == old(self).initialiser@.deed(event),
    {
        self.initialiser.init(event)
    }

    pub fn is_initialised(&self) -> (r: bool)
        ensures
            r == self.initialiser.initialised,
    {
        self.initialiser.is_initialised()
    }

    /// The numbers of the heap. What is in use is not known.
    pub fn stats(&self) -> (r: HeapStats)
        ensures
            r == stats_of(self.initialiser@),
    {
        let total: u64 = self.config().size / 4096;
        HeapStats {
            total_pages: total,
            mapped_pages: if self.is_initialised() {
                total
            } else {
                0
            },
            size_bytes: self.config().size,
            used_bytes: 0,
        }
    }

    pub fn metrics_snapshot(&self) -> (r: HeapMetricsSnapshot)
        ensures
            r == snapshot_of(self.initialiser.metrics),
    {
        self.metrics().snapshot()
    }

    pub fn reset_metrics(&mut self)
        ensures
            final(self).initialiser@ == (Setup {
                metrics: HeapMetrics {
                    total_pages_mapped: 0,
                    total_bytes_mapped: 0,
                    failed_allocations: 0,
                    failed_mappings: 0,
                    heap_init_calls: 0,
                },
                ..old(self).initialiser@
            }),
    {
        self.initialiser.metrics = HeapMetrics::default();
    }
}

pub open spec fn stats_of(s: Setup) -> HeapStats {
    HeapStats {
        total_pages: (s.config.size / 4096) as u64,
        mapped_pages: if s.initialised {
            (s.config.size / 4096) as u64
        } else {
            0
        },
        size_bytes: s.config.size,
        used_bytes: 0,
    }
}

pub open spec fn snapshot_of(m: HeapMetrics) -> HeapMetricsSnapshot {
    HeapMetricsSnapshot {
        total_pages_mapped: m.total_pages_mapped,
        total_bytes_mapped: m.total_bytes_mapped,
        failed_allocations: m.failed_allocations,
        failed_mappings: m.failed_mappings,
        heap_init_calls: m.heap_init_calls,
    }
}

/// The counters of the kernel heap; zeros before there is one.
pub fn heap_metrics(global: &Option<HeapManager>) -> (r: HeapMetricsSnapshot)
    ensures
        r == (match *global {
            Some(m) => snapshot_of(m.initialiser.metrics),
            None => HeapMetricsSnapshot {
                total_pages_mapped: 0,
                total_bytes_mapped: 0,
                failed_allocations: 0,
                failed_mappings: 0,
                heap_init_calls: 0,
            },
        }),
{
    match global {
        Some(m) => m.metrics_snapshot(),
        None => HeapMetricsSnapshot::default(),
    }
}

/// The numbers of the kernel heap; zeros before there is one.
pub fn heap_stats(global: &Option<HeapManager>) -> (r: HeapStats)
    ensures
        r == (match *global {
            Some(m) => stats_of(m.initialiser@),
            None => HeapStats { total_pages: 0, mapped_pages: 0, size_bytes: 0, used_bytes: 0 },
        }),
{
    match global {
        Some(m) => m.stats(),
        None => HeapStats::default(),
    }
}

// ---------------------------------------------------------------------------
// Laws
// ---------------------------------------------------------------------------

/// The state after one page was taken care of.
pub open spec fn page_done(s: Setup, frame: u64) -> Setup {
    s.after(HeapEvent::Frame(Some(frame))).after(HeapEvent::Mapped(true))
}

/// The state after the first `n` pages were mapped to those frames.
pub open spec fn pages_done(s: Setup, frames: Seq<u64>, n: int) -> Setup
    decreases n,
{
    if n <= 0 {
        s
    } else {
        page_done(pages_done(s, frames, n - 1), frames[n - 1])
    }
}

/// With a frame for each page and no failure, each page of the heap is mapped, once
/// and in order, and the heap is ready after the last and not before.
pub proof fn law_whole_heap_is_mapped(s: Setup, frames: Seq<u64>, n: int)
    requires
        s.wf(),
        s.phase is WantsFrame,
        s.mapped.len() == 0,
        0 <= n <= s.config.size / 4096,
        frames.len() == s.config.size / 4096,
    ensures
        ({
            let t = pages_done(s, frames, n);
            &&& t.config == s.config
            &&& t.mapped == Seq::new(
                n as nat,
                |i: int| ((s.config.start + i * 4096) as u64, frames[i]),
            )
            &&& t.initialised <==> n == s.config.size / 4096
            &&& n < s.config.size / 4096 ==> t.phase is WantsFrame
        }),
    decreases n,
{
    let t = pages_done(s, frames, n);
    if n > 0 {
        law_whole_heap_is_mapped(s, frames, n - 1);
        let before = pages_done(s, frames, n - 1);
        assert(before.page() == s.config.start + (n - 1) * 4096);
    }
    assert(t.mapped =~= Seq::new(
        n as nat,
        |i: int| ((s.config.start + i * 4096) as u64, frames[i]),
    ));
}

/// A page that cannot be mapped leaves no page mapped: every page that was mapped is
/// to be taken back.
pub proof fn law_failed_set_up_leaves_nothing(s: Setup)
    requires
        s.wf(),
        s.phase is WantsPage,
    ensures
        s.deed(HeapEvent::Mapped(false)) matches Deed::Fail { error, unmap } && unmap == pages_of(
            s.mapped,
        ),
        s.after(HeapEvent::Mapped(false)).mapped.len() == 0,
        !s.after(HeapEvent::Mapped(false)).initialised,
{
}

/// Each page of the heap is mapped where the pages before it end, to the frame that was
/// taken for it. The heap is ready once its pages are as many bytes as it is to have; a
/// frame or a page that cannot be had ends the set-up, and what was mapped is named for
/// being taken back where a page failed.
pub proof fn law_heap_grows_page_by_page(
    h: &mut HeapInitialiser,
    event: HeapEvent,
    r: HeapAction,
    i: int,
)
    requires
        old(h)@.wf(),
        call_ensures(HeapInitialiser::init, (h, event), r),
    ensures
        ({
            let n = old(h).mapped@.len();
            let c = old(h).config;
            &&& final(h).config == c
            &&& event is Start && old(h).initialised ==> r@ is Fail && r@->error
                == HeapError::AlreadyInitialised && final(h)@ == old(h)@
            &&& event is Start && !old(h).initialised ==> r@ is TakeFrame && final(
                h).mapped@.len() == 0
            &&& event is Frame && event->Frame_0 is Some && old(h).phase is WantsFrame ==> {
                &&& r@ is MapPage
                &&& r@->MapPage_page == c.start + n * 4096
                &&& r@->MapPage_frame == event->Frame_0->0
                &&& final(h).mapped@ == old(h).mapped@
                &&& !final(h).initialised
            }
            &&& event is Frame && event->Frame_0 is None && old(h).phase is WantsFrame ==> {
                &&& r@ is Fail
                &&& r@->error == HeapError::FrameAllocationFailed
                &&& !final(h).initialised
            }
            &&& event == HeapEvent::Mapped(true) && old(h).phase is WantsPage ==> {
                &&& final(h).mapped@.len() == n + 1
                &&& final(h).mapped@[n as int].0 == c.start + n * 4096
                &&& final(h).mapped@[n as int].1 == old(h).phase->frame
                &&& 0 <= i < n ==> final(h).mapped@[i] == old(h).mapped@[i]
                &&& final(h).initialised <==> (n + 1) * 4096 == c.size
                &&& r@ is Ready <==> (n + 1) * 4096 == c.size
                &&& r@ is Ready ==> r@->start == c.start && r@->size == c.size
                &&& r@ !is Ready ==> r@ is TakeFrame
            }
            &&& event == HeapEvent::Mapped(false) && old(h).phase is WantsPage ==> {
                &&& r@ is Fail
                &&& r@->unmap.len() == n
                &&& 0 <= i < n ==> r@->unmap[i] == old(h).mapped@[i].0
                &&& r@->error is PageMapFailed
                &&& r@->error->addr == c.start + n * 4096
                &&& final(h).mapped@.len() == 0
                &&& !final(h).initialised
            }
        }),
{
}

/// A heap has as many pages as its bytes fill, and all of them are mapped once it is
/// initialised and none before; the bytes that are mapped are what is counted.
pub proof fn law_heap_numbers(m: &HeapManager, stats: HeapStats, snap: HeapMetricsSnapshot)
    requires
        m.initialiser@.wf(),
        call_ensures(HeapManager::stats, (m,), stats),
        call_ensures(HeapManager::metrics_snapshot, (m,), snap),
    ensures
        stats.size_bytes == m.initialiser.config.size,
        stats.total_pages * 4096 == stats.size_bytes,
        m.initialiser.initialised ==> stats.mapped_pages == stats.total_pages,
        !m.initialiser.initialised ==> stats.mapped_pages == 0,
        snap.total_pages_mapped == m.initialiser.metrics.total_pages_mapped,
        snap.total_bytes_mapped == m.initialiser.metrics.total_bytes_mapped,
        snap.failed_allocations == m.initialiser.metrics.failed_allocations,
        snap.failed_mappings == m.initialiser.metrics.failed_mappings,
        snap.heap_init_calls == m.initialiser.metrics.heap_init_calls,
{
}

/// Pages are counted with their bytes.
pub proof fn law_pages_are_counted_with_their_bytes(m: &mut HeapMetrics, count: usize)
    requires
        count * 4096 <= u64::MAX,
        call_ensures(HeapMetrics::inc_pages_mapped, (m, count), ()),
        old(m).total_pages_mapped + count <= u64::MAX,
        old(m).total_bytes_mapped + count * 4096 <= u64::MAX,
    ensures
        final(m).total_pages_mapped - old(m).total_pages_mapped == count,
        final(m).total_bytes_mapped - old(m).total_bytes_mapped == count * 4096,
        final(m).failed_allocations == old(m).failed_allocations,
{
}

/// The pages of a range of addresses are the consecutive ones from that of the first
/// address to that of the last: each address of the range lies in one of them, and the
/// first and the last hold the ends.
pub proof fn law_pages_hold_the_range(
    start: u64,
    end: u64,
    range: PageRange,
    n: u64,
    pages: Vec<u64>,
    addr: u64,
)
    requires
        start <= addr <= end,
        call_ensures(page_range_inclusive, (start, end), range),
        call_ensures(PageRange::len, (&range,), n),
        call_ensures(PageRange::pages, (&range,), pages),
    ensures
        pages@.len() == n,
        n >= 1,
        pages@[0] <= start < pages@[0] + 4096,
        pages@[n - 1] <= end < pages@[n - 1] + 4096,
        exists|i: int| 0 <= i < n && #[trigger] pages@[i] <= addr && addr < pages@[i] + 4096,
        forall|i: int| 0 <= i < n ==> #[trigger] pages@[i] as int % 4096 == 0,
{
    let i = (page_of(addr as int) - range.first) / 4096;
    assert(0 <= i < n);
    assert(pages@[i] == range.first + i * 4096);
    assert(pages@[0] == range.first + 0 * 4096);
    assert(pages@[n - 1] == range.first + (n - 1) * 4096);
}

/// Settings of a heap pass exactly where it has at least one page and whole pages from a
/// page boundary on.
pub proof fn law_heap_settings_are_whole_pages(c: &HeapConfig, r: Result<(), &'static str>)
    requires
        call_ensures(HeapConfig::validate, (c,), r),
    ensures
        r is Ok <==> c.size >= 4096 && c.size as int % 4096 == 0 && c.start as int % 4096 == 0,
        c.size == 0 ==> r is Err && r->Err_0@ == "heap size must be > 0"@,
{
}

} // verus!
