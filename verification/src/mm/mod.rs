//! Memory management: the page, object and mapping allocators and the manager
//! that ties them together.
use crate::mm::buddy::BuddyManager;
use crate::mm::mmap::{MmapManager, MmapRegion, PageWrite, TaskId};
use crate::mm::slab::SlabManager;
use crate::text;
use vstd::arithmetic::power2::*;
use vstd::prelude::*;

pub mod buddy;
pub mod coalesce;
pub mod mmap;
pub mod shm;
pub mod slab;

verus! {

/// Size of a frame.
pub const FRAME_SIZE: usize = 4096;

/// How little memory may be free before the pressure rises, in hundredths of a
/// percent.
#[derive(Debug, Clone, Copy, PartialEq, Eq)]
pub struct MemoryPressureThresholds {
    pub moderate: u64,
    pub high: u64,
    pub critical: u64,
}

impl Default for MemoryPressureThresholds {
    /// 20, 10 and 5 percent.
    fn default() -> (r: Self)
        ensures
            r == (MemoryPressureThresholds { moderate: 2000, high: 1000, critical: 500 }),
    {
        MemoryPressureThresholds { moderate: 2000, high: 1000, critical: 500 }
    }
}

/// Settings of memory management.
#[derive(Debug, Clone, Copy, PartialEq, Eq)]
pub struct MemoryConfig {
    pub pressure_thresholds: MemoryPressureThresholds,
    pub enable_metrics: bool,
    pub log_allocations: bool,
    pub log_frees: bool,
    /// Whoever allocates is to panic when there is no memory.
    pub panic_on_oom: bool,
}

impl Default for MemoryConfig {
    fn default() -> (r: Self)
        ensures
            r == (MemoryConfig {
                pressure_thresholds: MemoryPressureThresholds {
                    moderate: 2000,
                    high: 1000,
                    critical: 500,
                },
                enable_metrics: true,
                log_allocations: false,
                log_frees: false,
                panic_on_oom: false,
            }),
    {
        MemoryConfig {
            pressure_thresholds: MemoryPressureThresholds::default(),
            enable_metrics: true,
            log_allocations: false,
            log_frees: false,
            panic_on_oom: false,
        }
    }
}

impl MemoryConfig {
    /// The first rule that the configuration breaks, if any.
    pub open spec fn broken_rule(&self) -> Option<Seq<char>> {
        let t = self.pressure_thresholds;
        if t.moderate <= t.high {
            Some("moderate threshold must be > high threshold"@)
        } else if t.high <= t.critical {
            Some("high threshold must be > critical threshold"@)
        } else if t.critical == 0 {
            Some("critical threshold must be > 0"@)
        } else {
            None
        }
    }

    pub fn validate(&self) -> (r: Result<(), &'static str>)
        ensures
            match r {
                Ok(_) => self.broken_rule() is None,
                Err(e) => self.broken_rule() == Some(e@),
            },
    {
        if self.pressure_thresholds.moderate <= self.pressure_thresholds.high {
            return Err("moderate threshold must be > high threshold");
        }
        if self.pressure_thresholds.high <= self.pressure_thresholds.critical {
            return Err("high threshold must be > critical threshold");
        }
        if self.pressure_thresholds.critical == 0 {
            return Err("critical threshold must be > 0");
        }
        Ok(())
    }
}

/// Errors of memory management.
#[derive(Debug, Clone, PartialEq, Eq)]
pub enum MemoryError {
    OutOfMemory { requested: usize },
    InvalidAlignment { alignment: usize },
    InvalidAddress { address: u64 },
    SlabAllocationFailed { cache: &'static str },
    Mmap(String),
    Config(String),
}

pub type MemoryResult<T> = Result<T, MemoryError>;

/// What memory management has done.
#[derive(Debug, Clone, Copy, PartialEq, Eq)]
pub struct MemoryMetrics {
    pub total_allocations: u64,
    pub total_frees: u64,
    pub total_bytes_allocated: u64,
    pub total_bytes_freed: u64,
    pub oom_events: u64,
    pub oom_recovered: u64,
    pub pressure_normal_events: u64,
    pub pressure_moderate_events: u64,
    pub pressure_high_events: u64,
    pub pressure_critical_events: u64,
    pub slab_allocations: u64,
    pub slab_frees: u64,
    pub mmap_regions: u64,
}

impl Default for MemoryMetrics {
    fn default() -> (r: Self)
        ensures
            r == (MemoryMetrics {
                total_allocations: 0,
                total_frees: 0,
                total_bytes_allocated: 0,
                total_bytes_freed: 0,
                oom_events: 0,
                oom_recovered: 0,
                pressure_normal_events: 0,
                pressure_moderate_events: 0,
                pressure_high_events: 0,
                pressure_critical_events: 0,
                slab_allocations: 0,
                slab_frees: 0,
                mmap_regions: 0,
            }),
    {
        MemoryMetrics {
            total_allocations: 0,
            total_frees: 0,
            total_bytes_allocated: 0,
            total_bytes_freed: 0,
            oom_events: 0,
            oom_recovered: 0,
            pressure_normal_events: 0,
            pressure_moderate_events: 0,
            pressure_high_events: 0,
            pressure_critical_events: 0,
            slab_allocations: 0,
            slab_frees: 0,
            mmap_regions: 0,
        }
    }
}

impl MemoryMetrics {
    /// With one more event of that pressure.
    pub open spec fn with_pressure(self, level: MemPressure) -> MemoryMetrics {
        match level {
            MemPressure::Normal => MemoryMetrics {
                pressure_normal_events: self.pressure_normal_events.wrapping_add(1),
                ..self
            },
            MemPressure::Moderate => MemoryMetrics {
                pressure_moderate_events: self.pressure_moderate_events.wrapping_add(1),
                ..self
            },
            MemPressure::High => MemoryMetrics {
                pressure_high_events: self.pressure_high_events.wrapping_add(1),
                ..self
            },
            MemPressure::Critical => MemoryMetrics {
                pressure_critical_events: self.pressure_critical_events.wrapping_add(1),
                ..self
            },
        }
    }

    pub fn inc_pressure_event(&mut self, level: MemPressure)
        ensures
            *final(self) == old(self).with_pressure(level),
    {
        match level {
            MemPressure::Normal => {
                self.pressure_normal_events = self.pressure_normal_events.wrapping_add(1);
            },
            MemPressure::Moderate => {
                self.pressure_moderate_events = self.pressure_moderate_events.wrapping_add(1);
            },
            MemPressure::High => {
                self.pressure_high_events = self.pressure_high_events.wrapping_add(1);
            },
            MemPressure::Critical => {
                self.pressure_critical_events = self.pressure_critical_events.wrapping_add(1);
            },
        }
    }

    pub fn inc_alloc(&mut self, bytes: usize)
        ensures
            *final(self) == (MemoryMetrics {
                total_allocations: old(self).total_allocations.wrapping_add(1),
                total_bytes_allocated: old(self).total_bytes_allocated.wrapping_add(bytes as u64),
                ..*old(self)
            }),
    {
        self.total_allocations = self.total_allocations.wrapping_add(1);
        self.total_bytes_allocated = self.total_bytes_allocated.wrapping_add(bytes as u64);
    }

    pub fn inc_free(&mut self, bytes: usize)
        ensures
            *final(self) == (MemoryMetrics {
                total_frees: old(self).total_frees.wrapping_add(1),
                total_bytes_freed: old(self).total_bytes_freed.wrapping_add(bytes as u64),
                ..*old(self)
            }),
    {
        self.total_frees = self.total_frees.wrapping_add(1);
        self.total_bytes_freed = self.total_bytes_freed.wrapping_add(bytes as u64);
    }

    pub fn inc_oom(&mut self)
        ensures
            *final(self) == (MemoryMetrics {
                oom_events: old(self).oom_events.wrapping_add(1),
                ..*old(self)
            }),
    {
        self.oom_events = self.oom_events.wrapping_add(1);
    }

    pub fn inc_oom_recovered(&mut self)
        ensures
            *final(self) == (MemoryMetrics {
                oom_recovered: old(self).oom_recovered.wrapping_add(1),
                ..*old(self)
            }),
    {
        self.oom_recovered = self.oom_recovered.wrapping_add(1);
    }

    pub fn inc_slab_alloc(&mut self)
        ensures
            *final(self) == (MemoryMetrics {
                slab_allocations: old(self).slab_allocations.wrapping_add(1),
                ..*old(self)
            }),
    {
        self.slab_allocations = self.slab_allocations.wrapping_add(1);
    }

    pub fn inc_slab_free(&mut self)
        ensures
            *final(self) == (MemoryMetrics {
                slab_frees: old(self).slab_frees.wrapping_add(1),
                ..*old(self)
            }),
    {
        self.slab_frees = self.slab_frees.wrapping_add(1);
    }

    pub fn inc_mmap_region(&mut self)
        ensures
            *final(self) == (MemoryMetrics {
                mmap_regions: old(self).mmap_regions.wrapping_add(1),
                ..*old(self)
            }),
    {
        self.mmap_regions = self.mmap_regions.wrapping_add(1);
    }

    /// A copy of the counters.
    pub fn snapshot(&self) -> (r: MemoryMetricsSnapshot)
        ensures
            r == (MemoryMetricsSnapshot {
                total_allocations: self.total_allocations,
                total_frees: self.total_frees,
                total_bytes_allocated: self.total_bytes_allocated,
                total_bytes_freed: self.total_bytes_freed,
                oom_events: self.oom_events,
                oom_recovered: self.oom_recovered,
                pressure_normal_events: self.pressure_normal_events,
                pressure_moderate_events: self.pressure_moderate_events,
                pressure_high_events: self.pressure_high_events,
                pressure_critical_events: self.pressure_critical_events,
                slab_allocations: self.slab_allocations,
                slab_frees: self.slab_frees,
                mmap_regions: self.mmap_regions,
            }),
    {
        MemoryMetricsSnapshot {
            total_allocations: self.total_allocations,
            total_frees: self.total_frees,
            total_bytes_allocated: self.total_bytes_allocated,
            total_bytes_freed: self.total_bytes_freed,
            oom_events: self.oom_events,
            oom_recovered: self.oom_recovered,
            pressure_normal_events: self.pressure_normal_events,
            pressure_moderate_events: self.pressure_moderate_events,
            pressure_high_events: self.pressure_high_events,
            pressure_critical_events: self.pressure_critical_events,
            slab_allocations: self.slab_allocations,
            slab_frees: self.slab_frees,
            mmap_regions: self.mmap_regions,
        }
    }
}

/// A copy of [`MemoryMetrics`] at one moment.
#[derive(Debug, Clone, Copy, PartialEq, Eq)]
pub struct MemoryMetricsSnapshot {
    pub total_allocations: u64,
    pub total_frees: u64,
    pub total_bytes_allocated: u64,
    pub total_bytes_freed: u64,
    pub oom_events: u64,
    pub oom_recovered: u64,
    pub pressure_normal_events: u64,
    pub pressure_moderate_events: u64,
    pub pressure_high_events: u64,
    pub pressure_critical_events: u64,
    pub slab_allocations: u64,
    pub slab_frees: u64,
    pub mmap_regions: u64,
}

// ---------------------------------------------------------------------------
// Pressure and statistics
// ---------------------------------------------------------------------------

/// How scarce memory is.
#[derive(Debug, Clone, Copy, PartialEq, Eq, Structural)]
pub enum MemPressure {
    Normal,
    Moderate,
    High,
    Critical,
}

/// The pressure when `num` of `den` parts of memory are free.
pub open spec fn pressure_of(num: int, den: int, t: MemoryPressureThresholds) -> MemPressure {
    if num * 10000 > t.moderate * den {
        MemPressure::Normal
    } else if num * 10000 > t.high * den {
        MemPressure::Moderate
    } else if num * 10000 > t.critical * den {
        MemPressure::High
    } else {
        MemPressure::Critical
    }
}

fn pressure(num: u64, den: u64, t: &MemoryPressureThresholds) -> (r: MemPressure)
    ensures
        r == pressure_of(num as int, den as int, *t),
{
    let free: u128 = num as u128 * 10000;
    let d: u128 = den as u128;
    assert(t.moderate * d <= 0xffff_ffff_ffff_ffff * 0xffff_ffff_ffff_ffff && t.high * d
        <= 0xffff_ffff_ffff_ffff * 0xffff_ffff_ffff_ffff && t.critical * d <= 0xffff_ffff_ffff_ffff
        * 0xffff_ffff_ffff_ffff) by (nonlinear_arith)
        requires
            d <= 0xffff_ffff_ffff_ffff,
            t.moderate <= 0xffff_ffff_ffff_ffff,
            t.high <= 0xffff_ffff_ffff_ffff,
            t.critical <= 0xffff_ffff_ffff_ffff,
    ;
    if free > t.moderate as u128 * d {
        MemPressure::Normal
    } else if free > t.high as u128 * d {
        MemPressure::Moderate
    } else if free > t.critical as u128 * d {
        MemPressure::High
    } else {
        MemPressure::Critical
    }
}

impl MemPressure {
    /// The pressure at a percentage of free memory, in hundredths of a percent.
    pub fn from_free_percent(free_percent: u64, thresholds: &MemoryPressureThresholds) -> (r: Self)
        ensures
            r == (if free_percent > thresholds.moderate {
                MemPressure::Normal
            } else if free_percent > thresholds.high {
                MemPressure::Moderate
            } else if free_percent > thresholds.critical {
                MemPressure::High
            } else {
                MemPressure::Critical
            }),
    {
        pressure(free_percent, 10000, thresholds)
    }

    /// From normal, 0, to critical, 3.
    pub open spec fn rank(self) -> int {
        match self {
            MemPressure::Normal => 0,
            MemPressure::Moderate => 1,
            MemPressure::High => 2,
            MemPressure::Critical => 3,
        }
    }
}

/// The less memory is free, the higher is the pressure.
pub proof fn law_pressure_rises(a: int, b: int, den: int, t: MemoryPressureThresholds)
    requires
        0 <= a <= b,
        den > 0,
        t.critical <= t.high <= t.moderate,
    ensures
        pressure_of(b, den, t).rank() <= pressure_of(a, den, t).rank(),
{
    assert(t.critical * den <= t.high * den && t.high * den <= t.moderate * den)
        by (nonlinear_arith)
        requires
            t.critical <= t.high <= t.moderate,
            den > 0,
    ;
}

/// Bytes of the whole system.
#[derive(Debug, Clone, Copy, PartialEq, Eq)]
pub struct MemStats {
    pub total_memory: usize,
    pub free_memory: usize,
    pub kernel_memory: usize,
    pub userspace_memory: usize,
    pub slab_memory: usize,
    pub swapped_memory: usize,
}

impl Default for MemStats {
    fn default() -> (r: Self)
        ensures
            r == (MemStats {
                total_memory: 0,
                free_memory: 0,
                kernel_memory: 0,
                userspace_memory: 0,
                slab_memory: 0,
                swapped_memory: 0,
            }),
    {
        MemStats {
            total_memory: 0,
            free_memory: 0,
            kernel_memory: 0,
            userspace_memory: 0,
            slab_memory: 0,
            swapped_memory: 0,
        }
    }
}

impl MemStats {
    /// How much memory is in use, in hundredths of a percent, rounded down.
    pub fn utilisation_percent(&self) -> (r: u64)
        requires
            self.total_memory > 0 ==> self.free_memory <= self.total_memory,
        ensures
            r == (if self.total_memory == 0 {
                0
            } else {
                (self.total_memory - self.free_memory) * 10000 / self.total_memory as int
            }),
    {
        if self.total_memory == 0 {
            return 0;
        }
        let used: u128 = (self.total_memory - self.free_memory) as u128 * 10000;
        let total: u128 = self.total_memory as u128;
        assert(used / total <= 10000) by (nonlinear_arith)
            requires
                used <= total * 10000,
                total > 0,
        ;
        (used / total) as u64
    }

    /// The numbers in one line; `used` is the part in use, in percent, as it is shown.
    pub fn summary(&self, used: &str) -> (r: String)
        ensures
            r@ == "Mem: total="@ + text::fixed(self.total_memory as int, 1048576, 2)
                + " MiB, free="@ + text::fixed(self.free_memory as int, 1048576, 2)
                + " MiB, kernel="@ + text::fixed(self.kernel_memory as int, 1048576, 2)
                + " MiB, user="@ + text::fixed(self.userspace_memory as int, 1048576, 2)
                + " MiB, swap="@ + text::fixed(self.swapped_memory as int, 1048576, 2) + " MiB ("@
                + used@ + "% used)"@,
    {
        let mut out = "Mem: total=".to_owned();
        text::push_fixed(&mut out, self.total_memory as u128, 1048576, 2);
        out.append(" MiB, free=");
        text::push_fixed(&mut out, self.free_memory as u128, 1048576, 2);
        out.append(" MiB, kernel=");
        text::push_fixed(&mut out, self.kernel_memory as u128, 1048576, 2);
        out.append(" MiB, user=");
        text::push_fixed(&mut out, self.userspace_memory as u128, 1048576, 2);
        out.append(" MiB, swap=");
        text::push_fixed(&mut out, self.swapped_memory as u128, 1048576, 2);
        out.append(" MiB (");
        out.append(used);
        out.append("% used)");
        out
    }
}

/// The memory that the pages come from.
#[derive(Debug, Clone, Copy, PartialEq, Eq)]
pub struct MemoryLayout {
    pub usable_start: u64,
    pub usable_end: u64,
    pub total_usable: usize,
    pub frame_count: usize,
}

/// The layout that is taken where none is known: 64 MiB from 4 MiB on.
pub fn default_layout() -> (r: MemoryLayout)
    ensures
        r == (MemoryLayout {
            usable_start: 0x40_0000,
            usable_end: 0x440_0000,
            total_usable: 0x400_0000,
            frame_count: 0x4000,
        }),
{
    MemoryLayout {
        usable_start: 0x40_0000,
        usable_end: 0x440_0000,
        total_usable: 0x400_0000,
        frame_count: 0x400_0000 / FRAME_SIZE,
    }
}

// ---------------------------------------------------------------------------
// The manager
// ---------------------------------------------------------------------------

/// Memory management. The allocators belong to its owner, who passes them in.
#[derive(Debug)]
pub struct MemoryManager {
    pub config: MemoryConfig,
    pub metrics: MemoryMetrics,
}

/// Counters that have counted nothing.
pub open spec fn no_events() -> MemoryMetrics {
    MemoryMetrics {
        total_allocations: 0,
        total_frees: 0,
        total_bytes_allocated: 0,
        total_bytes_freed: 0,
        oom_events: 0,
        oom_recovered: 0,
        pressure_normal_events: 0,
        pressure_moderate_events: 0,
        pressure_high_events: 0,
        pressure_critical_events: 0,
        slab_allocations: 0,
        slab_frees: 0,
        mmap_regions: 0,
    }
}

/// A manager with the default settings that has done nothing yet.
pub open spec fn is_default(m: MemoryManager) -> bool {
    &&& m.config.pressure_thresholds == (MemoryPressureThresholds {
        moderate: 2000,
        high: 1000,
        critical: 500,
    })
    &&& !m.config.panic_on_oom
    &&& m.metrics == no_events()
}

/// The bytes of a block, as a word holds them: 0 where they are too many.
pub open spec fn block_bytes(order: usize) -> int {
    if 4096 * pow2(order as nat) <= usize::MAX {
        4096 * pow2(order as nat) as int
    } else {
        0
    }
}

fn bytes_of(order: usize) -> (r: usize)
    requires
        order < usize::BITS,
    ensures
        r == block_bytes(order),
{
    if order >= 52 {
        proof {
            lemma2_to64_rest();
            if order > 52 {
                lemma_pow2_strictly_increases(52, order as nat);
            }
        }
        return 0;
    }
    proof {
        lemma2_to64_rest();
        lemma_pow2_strictly_increases(order as nat, 52);
    }
    let n: u64 = 4096 * buddy::pow2_of(order);
    if n <= usize::MAX as u64 {
        n as usize
    } else {
        0
    }
}

/// What a first attempt to allocate pages leads to.
#[derive(Debug, Clone, Copy, PartialEq, Eq, Structural)]
pub enum AllocStep {
    /// The pages are at that address.
    Done(u64),
    /// There is no memory: the handler, where there is one, is to be asked to free some.
    AskHandler,
}

/// What a first attempt to allocate pages returns and leaves behind.
pub open spec fn alloc_outcome(
    m0: MemoryMetrics,
    m1: MemoryMetrics,
    b0: BuddyManager,
    b1: BuddyManager,
    order: usize,
    r: AllocStep,
) -> bool {
    exists|first: buddy::BuddyResult<u64>|
        {
            &&& #[trigger] buddy::manager_alloc_outcome(b0, b1, order, first)
            &&& match first {
                Ok(addr) => {
                    &&& r == AllocStep::Done(addr)
                    &&& m1 == (MemoryMetrics {
                        total_allocations: m0.total_allocations.wrapping_add(1),
                        total_bytes_allocated: m0.total_bytes_allocated.wrapping_add(
                            block_bytes(order) as u64,
                        ),
                        ..m0
                    })
                },
                Err(_) => {
                    &&& r == AllocStep::AskHandler
                    &&& m1 == (MemoryMetrics { oom_events: m0.oom_events.wrapping_add(1), ..m0 })
                },
            }
        }
}

/// What the second attempt returns and leaves behind, on the pages as the handler has
/// left them. It is made only where the handler has freed memory, and then counts as a
/// recovery, not as an allocation.
pub open spec fn again_outcome(
    m0: MemoryMetrics,
    m1: MemoryMetrics,
    b0: BuddyManager,
    b1: BuddyManager,
    order: usize,
    recovered: bool,
    r: MemoryResult<u64>,
) -> bool {
    let failed = Err::<u64, MemoryError>(
        MemoryError::OutOfMemory { requested: block_bytes(order) as usize },
    );
    if recovered {
        exists|again: buddy::BuddyResult<u64>|
            {
                &&& #[trigger] buddy::manager_alloc_outcome(b0, b1, order, again)
                &&& r == match again {
                    Ok(addr) => Ok(addr),
                    Err(_) => failed,
                }
                &&& m1 == (MemoryMetrics {
                    oom_recovered: m0.oom_recovered.wrapping_add(1),
                    ..m0
                })
            }
    } else {
        r == failed && m1 == m0 && b1 == b0
    }
}

/// Where there is memory, the first attempt gets it; and where there is none but the
/// handler has freed enough, the second one does.
pub proof fn law_freed_memory_is_got(
    m0: MemoryMetrics,
    m1: MemoryMetrics,
    b0: BuddyManager,
    b1: BuddyManager,
    order: usize,
    first: AllocStep,
    again: MemoryResult<u64>,
)
    ensures
        alloc_outcome(m0, m1, b0, b1, order, first) ==> (first is Done <==> b0.has_block(order)),
        again_outcome(m0, m1, b0, b1, order, true, again) ==> (again is Ok <==> b0.has_block(
            order,
        )),
{
}

/// The caches are set up, with the default ones, unless they were before.
pub open spec fn objects_ready<A: Fn() -> Option<u64>, F: Fn(u64)>(
    pre: Option<SlabManager<A, F>>,
    post: Option<SlabManager<A, F>>,
    alloc_page_fn: A,
    free_page_fn: F,
) -> bool {
    match pre {
        Some(_) => post == pre,
        None => {
            &&& post matches Some(m)
            &&& m.is_default()
            &&& m.alloc_page_fn == alloc_page_fn
            &&& m.free_page_fn == free_page_fn
        },
    }
}

/// The manager is set up, with the default settings, unless it was before.
pub open spec fn manager_ready(pre: Option<MemoryManager>, post: Option<MemoryManager>) -> bool {
    match pre {
        Some(_) => post == pre,
        None => post matches Some(m) && is_default(m),
    }
}

/// The mappings are set up, with none, unless they were before.
pub open spec fn mappings_ready(pre: Option<MmapManager>, post: Option<MmapManager>) -> bool {
    match pre {
        Some(_) => post == pre,
        None => post matches Some(m) && m.is_default(),
    }
}

/// An object was taken from the cache `name`, from a new page where the cache had none
/// left.
pub open spec fn object_taken<A: Fn() -> Option<u64>, F: Fn(u64)>(
    pre: SlabManager<A, F>,
    post: SlabManager<A, F>,
    name: Seq<char>,
    r: Option<slab::Object>,
) -> bool {
    exists|page: Option<u64>, res: slab::SlabResult<slab::Object>|
        {
            &&& #[trigger] SlabManager::<A, F>::alloc_outcome(pre, post, name, page, res)
            &&& r == match res {
                Ok(p) => Some(p),
                Err(_) => None,
            }
            &&& if pre.lacks_objects(name) {
                call_ensures(pre.alloc_page_fn, (), page)
            } else {
                page is None
            }
        }
}

/// An object was put back into the cache `name`, if there is one.
pub open spec fn object_returned<A: Fn() -> Option<u64>, F: Fn(u64)>(
    pre: SlabManager<A, F>,
    post: SlabManager<A, F>,
    name: Seq<char>,
    p: u64,
) -> bool {
    &&& post.same_setup(pre)
    &&& if !slab::has_cache(pre.caches@, name) {
        &&& post.caches@ == pre.caches@
        &&& post.metrics == pre.metrics
    } else {
        let i = slab::cache_pos(pre.caches@, name);
        &&& post.caches@ == pre.caches@.update(i, post.caches@[i])
        &&& exists|r: slab::SlabResult<()>| #[trigger]
            slab::SlabCache::free_outcome(pre.caches@[i], post.caches@[i], p, r) && post.metrics
                == (if r is Ok {
                slab::SlabMetrics {
                    frees: pre.metrics.frees.wrapping_add(1),
                    ..pre.metrics
                }
            } else {
                slab::SlabMetrics {
                    free_failures: pre.metrics.free_failures.wrapping_add(1),
                    ..pre.metrics
                }
            })
    }
}

/// What a page fault brings in: the page that holds the address, where it is mapped.
pub open spec fn fault_outcome(
    pre: MmapManager,
    post: MmapManager,
    tid: TaskId,
    fault_addr: u64,
    file: Option<&Vec<u8>>,
    r: Option<Vec<u8>>,
) -> bool {
    let regions = pre.table.regions_of(tid);
    &&& post == (MmapManager {
        stats: mmap::MmapStats {
            page_faults: pre.stats.page_faults.wrapping_add(1),
            ..pre.stats
        },
        ..pre
    })
    &&& match r {
        Some(page) => {
            &&& mmap::mapped(regions, fault_addr)
            &&& page@ == mmap::fault_page(
                regions[mmap::holder(regions, fault_addr)],
                fault_addr,
                match file {
                    Some(d) => Some(d@),
                    None => None,
                },
            )
        },
        None => !mmap::mapped(regions, fault_addr),
    }
}

/// How scarce memory is; not at all where there is none.
pub open spec fn felt_pressure(
    pages: BuddyManager,
    thresholds: MemoryPressureThresholds,
) -> MemPressure {
    if pages.inner().spec_total_pages() == 0 {
        pressure_of(1, 1, thresholds)
    } else {
        pressure_of(
            pages.inner().spec_free_pages() as int,
            pages.inner().spec_total_pages() as int,
            thresholds,
        )
    }
}

/// The bytes of the whole system.
pub open spec fn stats_of(pages: BuddyManager, slab_memory: usize, used_swap: usize) -> MemStats {
    let free = pages.inner().spec_free_pages() * 4096;
    let left = free - slab_memory - used_swap * 4096;
    MemStats {
        total_memory: (pages.inner().spec_total_pages() * 4096) as usize,
        free_memory: free as usize,
        kernel_memory: slab_memory,
        userspace_memory: if left < 0 {
            0
        } else {
            left as usize
        },
        slab_memory,
        swapped_memory: (used_swap * 4096) as usize,
    }
}

impl MemoryManager {
    /// With pages freed once more.
    pub open spec fn pages_freed(self, order: usize) -> MemoryManager {
        MemoryManager {
            metrics: MemoryMetrics {
                total_frees: self.metrics.total_frees.wrapping_add(1),
                total_bytes_freed: self.metrics.total_bytes_freed.wrapping_add(
                    block_bytes(order) as u64,
                ),
                ..self.metrics
            },
            ..self
        }
    }

    /// With an object asked for once more; only one that was got counts.
    pub open spec fn object_asked(self, got: bool) -> MemoryManager {
        if got {
            MemoryManager {
                metrics: MemoryMetrics {
                    slab_allocations: self.metrics.slab_allocations.wrapping_add(1),
                    ..self.metrics
                },
                ..self
            }
        } else {
            self
        }
    }

    /// With an object put back once more.
    pub open spec fn object_freed(self) -> MemoryManager {
        MemoryManager {
            metrics: MemoryMetrics {
                slab_frees: self.metrics.slab_frees.wrapping_add(1),
                ..self.metrics
            },
            ..self
        }
    }

    pub fn new(config: MemoryConfig) -> (r: Self)
        requires
            config.broken_rule() is None,
        ensures
            r.config == config,
            r.metrics == no_events(),
    {
        MemoryManager { config, metrics: MemoryMetrics::default() }
    }

    pub fn default() -> (r: Self)
        ensures
            is_default(r),
    {
        MemoryManager::new(MemoryConfig::default())
    }

    pub fn config(&self) -> (r: &MemoryConfig)
        ensures
            *r == self.config,
    {
        &self.config
    }

    pub fn metrics(&self) -> (r: &MemoryMetrics)
        ensures
            *r == self.metrics,
    {
        &self.metrics
    }

    /// Sets the allocators up: pages first, then objects, then mappings.
    pub fn init<A: Fn() -> Option<u64>, F: Fn(u64)>(
        &self,
        layout: &MemoryLayout,
        pages: &mut Option<BuddyManager>,
        objects: &mut Option<SlabManager<A, F>>,
        mappings: &mut Option<MmapManager>,
        alloc_page_fn: A,
        free_page_fn: F,
    )
        requires
            buddy::init_fits(*old(pages), layout.usable_start, layout.frame_count),
            *old(objects) is None ==> slab::page_source_ok(alloc_page_fn, slab::PAGE_SIZE),
        ensures
            buddy::init_outcome(
                *old(pages),
                *final(pages),
                layout.usable_start,
                layout.frame_count,
            ),
            objects_ready(*old(objects), *final(objects), alloc_page_fn, free_page_fn),
            mappings_ready(*old(mappings), *final(mappings)),
    {
        buddy::init(pages, layout.usable_start, layout.frame_count);
        slab::init(objects, alloc_page_fn, free_page_fn);
        mmap::init(mappings);
    }

    /// Tries to allocate `2^order` pages. Where there is no memory, the handler is to be
    /// asked to free some; [`MemoryManager::alloc_again`] takes its answer.
    pub fn alloc_pages(&mut self, pages: &mut BuddyManager, order: usize) -> (r: AllocStep)
        requires
            old(pages).wf(),
            order < usize::BITS,
        ensures
            final(pages).wf(),
            final(self).config == old(self).config,
            alloc_outcome(
                old(self).metrics,
                final(self).metrics,
                *old(pages),
                *final(pages),
                order,
                r,
            ),
    {
        let first = pages.alloc_pages(order);
        let ghost outcome = first;
        assert(buddy::manager_alloc_outcome(*old(pages), *pages, order, outcome));
        match first {
            Ok(addr) => {
                self.metrics.inc_alloc(bytes_of(order));
                AllocStep::Done(addr)
            },
            Err(_) => {
                self.metrics.inc_oom();
                AllocStep::AskHandler
            },
        }
    }

    /// Goes on after there was no memory: with what the handler has freed, where it says
    /// that it has; else the allocation fails.
    ///
    /// Where running out of memory is to stop the kernel, the caller stops it instead of
    /// going on with a handler that did not help.
    pub fn alloc_again(&mut self, pages: &mut BuddyManager, order: usize, recovered: bool) -> (r:
        MemoryResult<u64>)
        requires
            old(pages).wf(),
            order < usize::BITS,
            old(self).config.panic_on_oom ==> recovered,
        ensures
            final(pages).wf(),
            final(self).config == old(self).config,
            again_outcome(
                old(self).metrics,
                final(self).metrics,
                *old(pages),
                *final(pages),
                order,
                recovered,
                r,
            ),
    {
        if !recovered {
            return Err(MemoryError::OutOfMemory { requested: bytes_of(order) });
        }
        self.metrics.inc_oom_recovered();
        let again = pages.alloc_pages(order);
        let ghost outcome = again;
        assert(buddy::manager_alloc_outcome(*old(pages), *pages, order, outcome));
        match again {
            Ok(addr) => Ok(addr),
            Err(_) => Err(MemoryError::OutOfMemory { requested: bytes_of(order) }),
        }
    }

    /// Frees `2^order` pages; a failure only shows in the counters of the pages.
    pub fn free_pages(&mut self, pages: &mut BuddyManager, addr: u64, order: usize)
        requires
            old(pages).wf(),
            buddy::freeable(old(pages).inner(), addr, order),
            order < usize::BITS,
        ensures
            final(pages).wf(),
            exists|res: buddy::BuddyResult<()>|
                buddy::manager_free_outcome(*old(pages), *final(pages), addr, order, res),
            *final(self) == old(self).pages_freed(order),
    {
        buddy::free_pages(pages, addr, order);
        self.metrics.inc_free(bytes_of(order));
    }

    /// Takes an object from a cache, to be cleared by the caller.
    pub fn slab_alloc<A: Fn() -> Option<u64>, F: Fn(u64)>(
        &mut self,
        objects: &mut SlabManager<A, F>,
        name: &str,
    ) -> (r: Option<slab::Object>)
        requires
            old(objects).wf(),
            old(objects).can_serve(name@),
        ensures
            final(objects).wf(),
            object_taken(*old(objects), *final(objects), name@, r),
            *final(self) == old(self).object_asked(r is Some),
    {
        let r = slab::allocate(objects, name);
        if r.is_some() {
            self.metrics.inc_slab_alloc();
        }
        r
    }

    /// Puts an object back into a cache; a failure only shows in the counters of the
    /// objects.
    pub fn slab_free<A: Fn() -> Option<u64>, F: Fn(u64)>(
        &mut self,
        objects: &mut SlabManager<A, F>,
        name: &str,
        p: u64,
    )
        requires
            old(objects).wf(),
        ensures
            final(objects).wf(),
            object_returned(*old(objects), *final(objects), name@, p),
            *final(self) == old(self).object_freed(),
    {
        slab::free(objects, name, p);
        self.metrics.inc_slab_free();
    }

    /// With one more mapping asked for.
    pub open spec fn mapping_asked(self) -> MemoryManager {
        MemoryManager {
            metrics: MemoryMetrics {
                mmap_regions: self.metrics.mmap_regions.wrapping_add(1),
                ..self.metrics
            },
            ..self
        }
    }

    /// Maps a part of a file.
    pub fn mmap_file(
        &mut self,
        mappings: &mut MmapManager,
        tid: TaskId,
        path: &str,
        file_len: Option<usize>,
        offset: u64,
        length: usize,
        prot: u32,
        flags: u32,
        hint: u64,
    ) -> (r: MemoryResult<u64>)
        requires
            old(mappings).wf(),
            file_len matches Some(n) ==> n <= usize::MAX - 4095 && mmap::fixed_fits(
                if length < n - offset {
                    length as int
                } else {
                    n - offset
                },
                flags,
                hint,
            ),
        ensures
            final(mappings).wf(),
            *final(self) == old(self).mapping_asked(),
            exists|res: mmap::MmapResult<u64>|
                {
                    &&& #[trigger] MmapManager::mmap_file_outcome(
                        *old(mappings),
                        *final(mappings),
                        tid,
                        path@,
                        file_len,
                        offset,
                        length,
                        prot,
                        flags,
                        hint,
                        res,
                    )
                    &&& match res {
                        Ok(a) => r == Ok::<u64, MemoryError>(a),
                        Err(_) => is_mmap_error(r, "mmap_file failed"@),
                    }
                },
    {
        self.metrics.inc_mmap_region();
        match mmap::mmap_file(mappings, tid, path, file_len, offset, length, prot, flags, hint) {
            Some(a) => Ok(a),
            None => Err(MemoryError::Mmap("mmap_file failed".to_owned())),
        }
    }

    /// Maps anonymous memory. A mapping at address 0 counts as a failure.
    pub fn mmap_anon(
        &mut self,
        mappings: &mut MmapManager,
        tid: TaskId,
        length: usize,
        prot: u32,
        flags: u32,
        hint: u64,
    ) -> (r: MemoryResult<u64>)
        requires
            old(mappings).wf(),
            length <= usize::MAX - 4095,
            mmap::fixed_fits(length as int, flags, hint),
        ensures
            final(mappings).wf(),
            *final(self) == old(self).mapping_asked(),
            exists|res: mmap::MmapResult<u64>|
                {
                    &&& #[trigger] MmapManager::mmap_anon_outcome(
                        *old(mappings),
                        *final(mappings),
                        tid,
                        length,
                        prot,
                        flags,
                        hint,
                        res,
                    )
                    &&& match res {
                        Ok(a) => if a == 0 {
                            is_mmap_error(r, "mmap_anon failed"@)
                        } else {
                            r == Ok::<u64, MemoryError>(a)
                        },
                        Err(_) => is_mmap_error(r, "mmap_anon failed"@),
                    }
                },
    {
        self.metrics.inc_mmap_region();
        let addr: u64 = mmap::mmap_anon(mappings, tid, length, prot, flags, hint);
        if addr == 0 {
            Err(MemoryError::Mmap("mmap_anon failed".to_owned()))
        } else {
            Ok(addr)
        }
    }

    /// Brings in the page that holds an address.
    pub fn handle_page_fault(
        &self,
        mappings: &mut MmapManager,
        tid: TaskId,
        fault_addr: u64,
        file: Option<&Vec<u8>>,
    ) -> (r: Option<Vec<u8>>)
        requires
            old(mappings).wf(),
        ensures
            final(mappings).wf(),
            fault_outcome(*old(mappings), *final(mappings), tid, fault_addr, file, r),
    {
        mmap::handle_page_fault(mappings, tid, fault_addr, file)
    }

    /// Marks the page that holds an address dirty.
    pub fn mark_dirty(&self, mappings: &mut MmapManager, tid: TaskId, addr: u64)
        requires
            old(mappings).wf(),
        ensures
            final(mappings).wf(),
            MmapManager::mark_dirty_outcome(*old(mappings), *final(mappings), tid, addr),
    {
        mmap::mark_dirty(mappings, tid, addr);
    }

    /// Unmaps the regions within `[addr, addr + length)`; those that went are appended
    /// to `removed`, and what has to be written to `writes`.
    pub fn munmap(
        &self,
        mappings: &mut MmapManager,
        tid: TaskId,
        addr: u64,
        length: usize,
        removed: &mut Vec<MmapRegion>,
        writes: &mut Vec<PageWrite>,
    ) -> (r: MemoryResult<()>)
        requires
            old(mappings).wf(),
            addr + length <= u64::MAX,
        ensures
            final(mappings).wf(),
            exists|res: mmap::MmapResult<Vec<MmapRegion>>|
                {
                    &&& #[trigger] MmapManager::munmap_outcome(
                        *old(mappings),
                        *final(mappings),
                        tid,
                        addr,
                        length,
                        res,
                    )
                    &&& match res {
                        Ok(v) => r is Ok && final(removed)@ == old(removed)@ + v@,
                        Err(_) => is_mmap_error(r, "munmap failed"@) && final(removed)@ == old(removed)@,
                    }
                },
            mmap::write_views(final(writes)@) == mmap::write_views(old(writes)@) + old(
                mappings,
            ).range_writes(tid, addr, length),
    {
        let ok: bool = mmap::munmap(mappings, tid, addr, length, removed, writes);
        assert(old(removed)@ + Seq::<MmapRegion>::empty() =~= old(removed)@);
        if ok {
            Ok(())
        } else {
            Err(MemoryError::Mmap("munmap failed".to_owned()))
        }
    }

    /// Synchronises the shared regions within `[addr, addr + length)`; the pages to
    /// write are appended to `writes`.
    pub fn msync(
        &self,
        mappings: &mut MmapManager,
        tid: TaskId,
        addr: u64,
        length: usize,
        writes: &mut Vec<PageWrite>,
    ) -> (r: MemoryResult<()>)
        requires
            old(mappings).wf(),
            addr + length <= u64::MAX,
        ensures
            final(mappings).wf(),
            exists|res: mmap::MmapResult<Vec<PageWrite>>|
                {
                    &&& #[trigger] MmapManager::msync_outcome(
                        *old(mappings),
                        *final(mappings),
                        tid,
                        addr,
                        length,
                        res,
                    )
                    &&& match res {
                        Ok(v) => r is Ok && final(writes)@ == old(writes)@ + v@,
                        Err(_) => is_mmap_error(r, "msync failed"@) && final(writes)@ == old(writes)@,
                    }
                },
    {
        let ok: bool = mmap::msync(mappings, tid, addr, length, writes);
        assert(old(writes)@ + Seq::<PageWrite>::empty() =~= old(writes)@);
        if ok {
            Ok(())
        } else {
            Err(MemoryError::Mmap("msync failed".to_owned()))
        }
    }

    /// Removes all mappings of a task and returns them.
    pub fn cleanup_task(&self, mappings: &mut MmapManager, tid: TaskId) -> (r: Vec<MmapRegion>)
        requires
            old(mappings).wf(),
        ensures
            final(mappings).wf(),
            MmapManager::cleanup_task_outcome(*old(mappings), *final(mappings), tid, r),
    {
        mmap::cleanup_task(mappings, tid)
    }

    /// How scarce memory is, and counts it.
    pub fn memory_pressure(&mut self, pages: &BuddyManager) -> (r: MemPressure)
        ensures
            r == felt_pressure(*pages, old(self).config.pressure_thresholds),
            *final(self) == (MemoryManager {
                metrics: old(self).metrics.with_pressure(r),
                ..*old(self)
            }),
    {
        let (total, free) = buddy::stats(pages);
        let level = if total > 0 {
            pressure(free as u64, total as u64, &self.config.pressure_thresholds)
        } else {
            pressure(1, 1, &self.config.pressure_thresholds)
        };
        self.metrics.inc_pressure_event(level);
        level
    }

    /// The bytes of the whole system, from the pages, the bytes of all objects and the
    /// used slots of swap.
    pub fn get_stats(&self, pages: &BuddyManager, slab_memory: usize, used_swap: usize) -> (r:
        MemStats)
        requires
            pages.inner().spec_total_pages() * 4096 <= usize::MAX,
            pages.inner().spec_free_pages() * 4096 <= usize::MAX,
            used_swap * 4096 <= usize::MAX,
        ensures
            r == stats_of(*pages, slab_memory, used_swap),
    {
        let (total, free) = buddy::stats(pages);
        let free_memory: usize = free * FRAME_SIZE;
        let swapped: usize = used_swap * 4096;
        MemStats {
            total_memory: total * FRAME_SIZE,
            free_memory,
            kernel_memory: slab_memory,
            userspace_memory: free_memory.saturating_sub(slab_memory).saturating_sub(swapped),
            slab_memory,
            swapped_memory: swapped,
        }
    }

    pub fn metrics_snapshot(&self) -> (r: MemoryMetricsSnapshot)
        ensures
            r.total_allocations == self.metrics.total_allocations,
            r.total_frees == self.metrics.total_frees,
            r.total_bytes_allocated == self.metrics.total_bytes_allocated,
            r.total_bytes_freed == self.metrics.total_bytes_freed,
            r.oom_events == self.metrics.oom_events,
            r.oom_recovered == self.metrics.oom_recovered,
            r.pressure_normal_events == self.metrics.pressure_normal_events,
            r.pressure_moderate_events == self.metrics.pressure_moderate_events,
            r.pressure_high_events == self.metrics.pressure_high_events,
            r.pressure_critical_events == self.metrics.pressure_critical_events,
            r.slab_allocations == self.metrics.slab_allocations,
            r.slab_frees == self.metrics.slab_frees,
            r.mmap_regions == self.metrics.mmap_regions,
    {
        self.metrics.snapshot()
    }

    pub fn reset_metrics(&mut self)
        ensures
            *final(self) == (MemoryManager {
                metrics: no_events(),
                ..*old(self)
            }),
    {
        self.metrics = MemoryMetrics::default();
    }
}

/// The result is an error of a mapping, with that text.
pub open spec fn is_mmap_error<T>(r: MemoryResult<T>, text: Seq<char>) -> bool {
    r matches Err(MemoryError::Mmap(s)) && s@ == text
}

// ---------------------------------------------------------------------------
// The handler for want of memory
// ---------------------------------------------------------------------------

/// Who is asked to free memory.
#[derive(Debug)]
pub struct OomHook<H: Fn() -> bool> {
    pub handler: Option<H>,
}

impl<H: Fn() -> bool> OomHook<H> {
    pub fn new() -> (r: Self)
        ensures
            r.handler is None,
    {
        OomHook { handler: None }
    }
}

/// From now on `handler` is asked.
pub fn set_oom_handler<H: Fn() -> bool>(hook: &mut OomHook<H>, handler: H)
    ensures
        final(hook).handler == Some(handler),
{
    hook.handler = Some(handler);
}

/// Asks for memory to be freed; says whether some was.
pub fn invoke_oom_handler<H: Fn() -> bool>(hook: &OomHook<H>) -> (r: bool)
    requires
        hook.handler matches Some(h) ==> call_requires(h, ()),
    ensures
        match hook.handler {
            Some(h) => call_ensures(h, (), r),
            None => !r,
        },
{
    match &hook.handler {
        Some(h) => h(),
        None => false,
    }
}

// ---------------------------------------------------------------------------
// Kernel-wide functions
// ---------------------------------------------------------------------------

/// Sets up the manager on first use, and the allocators from a layout.
pub fn init<A: Fn() -> Option<u64>, F: Fn(u64)>(
    global: &mut Option<MemoryManager>,
    layout: &MemoryLayout,
    pages: &mut Option<BuddyManager>,
    objects: &mut Option<SlabManager<A, F>>,
    mappings: &mut Option<MmapManager>,
    alloc_page_fn: A,
    free_page_fn: F,
)
    requires
        buddy::init_fits(*old(pages), layout.usable_start, layout.frame_count),
        *old(objects) is None ==> slab::page_source_ok(alloc_page_fn, slab::PAGE_SIZE),
    ensures
        manager_ready(*old(global), *final(global)),
        buddy::init_outcome(*old(pages), *final(pages), layout.usable_start, layout.frame_count),
        objects_ready(*old(objects), *final(objects), alloc_page_fn, free_page_fn),
        mappings_ready(*old(mappings), *final(mappings)),
{
    if global.is_none() {
        *global = Some(MemoryManager::default());
    }
    match global {
        Some(m) => {
            m.init(layout, pages, objects, mappings, alloc_page_fn, free_page_fn);
        },
        None => {},
    }
}

/// Sets memory up with the default layout: 64 MiB from 4 MiB on.
pub fn init_default<A: Fn() -> Option<u64>, F: Fn(u64)>(
    global: &mut Option<MemoryManager>,
    pages: &mut Option<BuddyManager>,
    objects: &mut Option<SlabManager<A, F>>,
    mappings: &mut Option<MmapManager>,
    alloc_page_fn: A,
    free_page_fn: F,
)
    requires
        buddy::init_fits(*old(pages), 0x40_0000, 0x4000),
        *old(objects) is None ==> slab::page_source_ok(alloc_page_fn, slab::PAGE_SIZE),
    ensures
        manager_ready(*old(global), *final(global)),
        buddy::init_outcome(*old(pages), *final(pages), 0x40_0000, 0x4000),
        objects_ready(*old(objects), *final(objects), alloc_page_fn, free_page_fn),
        mappings_ready(*old(mappings), *final(mappings)),
{
    let layout = default_layout();
    init(global, &layout, pages, objects, mappings, alloc_page_fn, free_page_fn);
}

/// Tries to allocate `2^order` pages, as [`MemoryManager::alloc_pages`] does.
pub fn alloc_pages(m: &mut MemoryManager, pages: &mut BuddyManager, order: usize) -> (r: AllocStep)
    requires
        old(pages).wf(),
        order < usize::BITS,
    ensures
        final(pages).wf(),
        final(m).config == old(m).config,
        alloc_outcome(old(m).metrics, final(m).metrics, *old(pages), *final(pages), order, r),
{
    m.alloc_pages(pages, order)
}

/// Goes on after there was no memory, as [`MemoryManager::alloc_again`] does.
pub fn alloc_again(
    m: &mut MemoryManager,
    pages: &mut BuddyManager,
    order: usize,
    recovered: bool,
) -> (r: Option<u64>)
    requires
        old(pages).wf(),
        order < usize::BITS,
        old(m).config.panic_on_oom ==> recovered,
    ensures
        final(pages).wf(),
        final(m).config == old(m).config,
        exists|res: MemoryResult<u64>|
            {
                &&& #[trigger] again_outcome(
                    old(m).metrics,
                    final(m).metrics,
                    *old(pages),
                    *final(pages),
                    order,
                    recovered,
                    res,
                )
                &&& r == match res {
                    Ok(addr) => Some(addr),
                    Err(_) => None,
                }
            },
{
    match m.alloc_again(pages, order, recovered) {
        Ok(addr) => Some(addr),
        Err(_) => None,
    }
}

/// Frees `2^order` pages.
pub fn free_pages(m: &mut MemoryManager, pages: &mut BuddyManager, addr: u64, order: usize)
    requires
        old(pages).wf(),
        buddy::freeable(old(pages).inner(), addr, order),
        order < usize::BITS,
    ensures
        final(pages).wf(),
        exists|res: buddy::BuddyResult<()>|
            buddy::manager_free_outcome(*old(pages), *final(pages), addr, order, res),
        *final(m) == old(m).pages_freed(order),
{
    m.free_pages(pages, addr, order);
}

/// Takes an object from a cache, to be cleared by the caller.
pub fn slab_alloc<A: Fn() -> Option<u64>, F: Fn(u64)>(
    m: &mut MemoryManager,
    objects: &mut SlabManager<A, F>,
    name: &str,
) -> (r: Option<slab::Object>)
    requires
        old(objects).wf(),
        old(objects).can_serve(name@),
    ensures
        final(objects).wf(),
        object_taken(*old(objects), *final(objects), name@, r),
        *final(m) == old(m).object_asked(r is Some),
{
    m.slab_alloc(objects, name)
}

/// Puts an object back into a cache.
pub fn slab_free<A: Fn() -> Option<u64>, F: Fn(u64)>(
    m: &mut MemoryManager,
    objects: &mut SlabManager<A, F>,
    name: &str,
    p: u64,
)
    requires
        old(objects).wf(),
    ensures
        final(objects).wf(),
        object_returned(*old(objects), *final(objects), name@, p),
        *final(m) == old(m).object_freed(),
{
    m.slab_free(objects, name, p);
}

/// Maps a part of a file.
pub fn mmap_file(
    m: &mut MemoryManager,
    mappings: &mut MmapManager,
    tid: TaskId,
    path: &str,
    file_len: Option<usize>,
    offset: u64,
    length: usize,
    prot: u32,
    flags: u32,
    hint: u64,
) -> (r: Option<u64>)
    requires
        old(mappings).wf(),
        file_len matches Some(n) ==> n <= usize::MAX - 4095 && mmap::fixed_fits(
            if length < n - offset {
                length as int
            } else {
                n - offset
            },
            flags,
            hint,
        ),
    ensures
        final(mappings).wf(),
        *final(m) == old(m).mapping_asked(),
        exists|res: mmap::MmapResult<u64>|
            {
                &&& #[trigger] MmapManager::mmap_file_outcome(
                    *old(mappings),
                    *final(mappings),
                    tid,
                    path@,
                    file_len,
                    offset,
                    length,
                    prot,
                    flags,
                    hint,
                    res,
                )
                &&& r == match res {
                    Ok(a) => Some(a),
                    Err(_) => None,
                }
            },
{
    match m.mmap_file(mappings, tid, path, file_len, offset, length, prot, flags, hint) {
        Ok(a) => Some(a),
        Err(_) => None,
    }
}

/// Maps anonymous memory; 0 where that failed.
pub fn mmap_anon(
    m: &mut MemoryManager,
    mappings: &mut MmapManager,
    tid: TaskId,
    length: usize,
    prot: u32,
    flags: u32,
    hint: u64,
) -> (r: u64)
    requires
        old(mappings).wf(),
        length <= usize::MAX - 4095,
        mmap::fixed_fits(length as int, flags, hint),
    ensures
        final(mappings).wf(),
        *final(m) == old(m).mapping_asked(),
        exists|res: mmap::MmapResult<u64>|
            {
                &&& #[trigger] MmapManager::mmap_anon_outcome(
                    *old(mappings),
                    *final(mappings),
                    tid,
                    length,
                    prot,
                    flags,
                    hint,
                    res,
                )
                &&& r == match res {
                    Ok(a) => a,
                    Err(_) => 0,
                }
            },
{
    match m.mmap_anon(mappings, tid, length, prot, flags, hint) {
        Ok(a) => a,
        Err(_) => 0,
    }
}

/// Brings in the page that holds an address.
pub fn handle_page_fault(
    m: &MemoryManager,
    mappings: &mut MmapManager,
    tid: TaskId,
    fault_addr: u64,
    file: Option<&Vec<u8>>,
) -> (r: Option<Vec<u8>>)
    requires
        old(mappings).wf(),
    ensures
        final(mappings).wf(),
        fault_outcome(*old(mappings), *final(mappings), tid, fault_addr, file, r),
{
    m.handle_page_fault(mappings, tid, fault_addr, file)
}

/// Marks the page that holds an address dirty.
pub fn mark_dirty(m: &MemoryManager, mappings: &mut MmapManager, tid: TaskId, addr: u64)
    requires
        old(mappings).wf(),
    ensures
        final(mappings).wf(),
        MmapManager::mark_dirty_outcome(*old(mappings), *final(mappings), tid, addr),
{
    m.mark_dirty(mappings, tid, addr);
}

/// Unmaps the regions within `[addr, addr + length)`; says whether that worked.
pub fn munmap(
    m: &MemoryManager,
    mappings: &mut MmapManager,
    tid: TaskId,
    addr: u64,
    length: usize,
    removed: &mut Vec<MmapRegion>,
    writes: &mut Vec<PageWrite>,
) -> (r: bool)
    requires
        old(mappings).wf(),
        addr + length <= u64::MAX,
    ensures
        final(mappings).wf(),
        exists|res: mmap::MmapResult<Vec<MmapRegion>>|
            {
                &&& #[trigger] MmapManager::munmap_outcome(
                    *old(mappings),
                    *final(mappings),
                    tid,
                    addr,
                    length,
                    res,
                )
                &&& match res {
                    Ok(v) => r && final(removed)@ == old(removed)@ + v@,
                    Err(_) => !r && final(removed)@ == old(removed)@,
                }
            },
        mmap::write_views(final(writes)@) == mmap::write_views(old(writes)@) + old(
            mappings,
        ).range_writes(tid, addr, length),
{
    m.munmap(mappings, tid, addr, length, removed, writes).is_ok()
}

/// Synchronises the shared regions within `[addr, addr + length)`; says whether that
/// worked.
pub fn msync(
    m: &MemoryManager,
    mappings: &mut MmapManager,
    tid: TaskId,
    addr: u64,
    length: usize,
    writes: &mut Vec<PageWrite>,
) -> (r: bool)
    requires
        old(mappings).wf(),
        addr + length <= u64::MAX,
    ensures
        final(mappings).wf(),
        exists|res: mmap::MmapResult<Vec<PageWrite>>|
            {
                &&& #[trigger] MmapManager::msync_outcome(
                    *old(mappings),
                    *final(mappings),
                    tid,
                    addr,
                    length,
                    res,
                )
                &&& match res {
                    Ok(v) => r && final(writes)@ == old(writes)@ + v@,
                    Err(_) => !r && final(writes)@ == old(writes)@,
                }
            },
{
    m.msync(mappings, tid, addr, length, writes).is_ok()
}

/// Removes all mappings of a task and returns them.
pub fn cleanup_task(m: &MemoryManager, mappings: &mut MmapManager, tid: TaskId) -> (r: Vec<
    MmapRegion,
>)
    requires
        old(mappings).wf(),
    ensures
        final(mappings).wf(),
        MmapManager::cleanup_task_outcome(*old(mappings), *final(mappings), tid, r),
{
    m.cleanup_task(mappings, tid)
}

/// How scarce memory is, and counts it.
pub fn memory_pressure(m: &mut MemoryManager, pages: &BuddyManager) -> (r: MemPressure)
    ensures
        r == felt_pressure(*pages, old(m).config.pressure_thresholds),
        *final(m) == (MemoryManager { metrics: old(m).metrics.with_pressure(r), ..*old(m) }),
{
    m.memory_pressure(pages)
}

/// The bytes of the whole system.
pub fn get_memory_stats(
    m: &MemoryManager,
    pages: &BuddyManager,
    slab_memory: usize,
    used_swap: usize,
) -> (r: MemStats)
    requires
        pages.inner().spec_total_pages() * 4096 <= usize::MAX,
        pages.inner().spec_free_pages() * 4096 <= usize::MAX,
        used_swap * 4096 <= usize::MAX,
    ensures
        r == stats_of(*pages, slab_memory, used_swap),
{
    m.get_stats(pages, slab_memory, used_swap)
}

/// The pressure follows the share of free pages in hundredths of a percent: it is normal
/// above the moderate threshold, moderate above the high one, high above the critical one,
/// and critical else. What was felt is counted as one event of that level and of no other.
pub proof fn law_pressure_follows_the_free_share(
    m: &mut MemoryManager,
    pages: &BuddyManager,
    r: MemPressure,
)
    requires
        call_ensures(MemoryManager::memory_pressure, (m, pages), r),
        pages.inner().spec_total_pages() > 0,
        old(m).config.broken_rule() is None,
    ensures
        ({
            let share = pages.inner().spec_free_pages() * 10000;
            let all = pages.inner().spec_total_pages() as int;
            let t = old(m).config.pressure_thresholds;
            &&& r is Normal <==> share > t.moderate * all
            &&& r is Moderate <==> t.high * all < share <= t.moderate * all
            &&& r is High <==> t.critical * all < share <= t.high * all
            &&& r is Critical <==> share <= t.critical * all
        }),
        ({
            let (a, b) = (old(m).metrics, final(m).metrics);
            a.pressure_normal_events < u64::MAX && a.pressure_moderate_events < u64::MAX
                && a.pressure_high_events < u64::MAX && a.pressure_critical_events < u64::MAX ==> {
                &&& b.pressure_normal_events == a.pressure_normal_events + (if r is Normal {
                    1int
                } else {
                    0
                })
                &&& b.pressure_moderate_events == a.pressure_moderate_events + (if r is Moderate {
                    1int
                } else {
                    0
                })
                &&& b.pressure_high_events == a.pressure_high_events + (if r is High {
                    1int
                } else {
                    0
                })
                &&& b.pressure_critical_events == a.pressure_critical_events + (if r is Critical {
                    1int
                } else {
                    0
                })
            }
        }),
        final(m).metrics.total_allocations == old(m).metrics.total_allocations,
        final(m).config == old(m).config,
{
    let t = old(m).config.pressure_thresholds;
    let all = pages.inner().spec_total_pages() as int;
    assert(t.critical * all <= t.high * all && t.high * all <= t.moderate * all)
        by (nonlinear_arith)
        requires
            t.critical <= t.high <= t.moderate,
            all > 0,
    ;
}

/// A share told in hundredths of a percent gives the pressure of the thresholds it lies
/// between.
pub proof fn law_pressure_of_a_share(share: u64, t: &MemoryPressureThresholds, r: MemPressure)
    requires
        call_ensures(MemPressure::from_free_percent, (share, t), r),
        t.critical < t.high < t.moderate,
    ensures
        r is Normal <==> share > t.moderate,
        r is Moderate <==> t.high < share <= t.moderate,
        r is High <==> t.critical < share <= t.high,
        r is Critical <==> share <= t.critical,
{
}

/// Settings pass exactly where the thresholds fall strictly from the moderate one to the
/// critical one, which is not zero.
pub proof fn law_thresholds_fall(c: &MemoryConfig, r: Result<(), &'static str>)
    requires
        call_ensures(MemoryConfig::validate, (c,), r),
    ensures
        r is Ok <==> 0 < c.pressure_thresholds.critical < c.pressure_thresholds.high
            < c.pressure_thresholds.moderate,
        c.pressure_thresholds.moderate <= c.pressure_thresholds.high ==> r is Err && r->Err_0@
            == "moderate threshold must be > high threshold"@,
{
}

/// Memory is told in bytes of whole pages. The kernel's is what the slabs hold, and what is
/// left of the free pages without it and without the swap is told as user space, which is
/// never less than nothing.
pub proof fn law_told_memory_adds_up(
    m: &MemoryManager,
    pages: &BuddyManager,
    slab: usize,
    swap: usize,
    r: MemStats,
)
    requires
        call_ensures(MemoryManager::get_stats, (m, pages, slab, swap), r),
        pages.inner().spec_total_pages() * 4096 <= usize::MAX,
        pages.inner().spec_free_pages() * 4096 <= usize::MAX,
        swap * 4096 <= usize::MAX,
    ensures
        r.total_memory == pages.inner().spec_total_pages() * 4096,
        r.free_memory == pages.inner().spec_free_pages() * 4096,
        r.swapped_memory == swap * 4096,
        r.slab_memory == slab,
        r.kernel_memory == slab,
        slab + swap * 4096 <= r.free_memory ==> r.userspace_memory + slab + swap * 4096
            == r.free_memory,
        slab + swap * 4096 > r.free_memory ==> r.userspace_memory == 0,
{
}

/// How much is used is told in hundredths of a percent of all, rounded down: nothing where
/// all is free and ten thousand where nothing is.
pub proof fn law_used_share_is_of_all(s: &MemStats, r: u64)
    requires
        s.total_memory > 0,
        s.free_memory <= s.total_memory,
        call_ensures(MemStats::utilisation_percent, (s,), r),
    ensures
        r * s.total_memory <= (s.total_memory - s.free_memory) * 10000,
        (s.total_memory - s.free_memory) * 10000 < (r + 1) * s.total_memory,
        s.free_memory == 0 ==> r == 10000,
        s.free_memory == s.total_memory ==> r == 0,
{
    let all = s.total_memory as int;
    let used = (s.total_memory - s.free_memory) * 10000;
    vstd::arithmetic::div_mod::lemma_fundamental_div_mod(used, all);
    let q = used / all;
    let rest = used % all;
    assert(r == q);
    assert(used == all * q + rest);
    assert(all * q == q * all) by (nonlinear_arith);
    assert((q + 1) * all == q * all + all) by (nonlinear_arith);
    if s.free_memory == 0 {
        assert(used == all * 10000);
        assert(all * 10000 + 0 == used);
        vstd::arithmetic::div_mod::lemma_fundamental_div_mod_converse(used, all, 10000, 0);
    }
    if s.free_memory == s.total_memory {
        assert(used == 0);
        vstd::arithmetic::div_mod::lemma_fundamental_div_mod_converse(used, all, 0, 0);
    }
}

/// Pages that are got at once are counted with their bytes, which are a page doubled as
/// often as the order says; pages that are not are counted as one event of want, and the
/// handler is asked.
pub proof fn law_got_pages_are_counted(
    m: &mut MemoryManager,
    pages: &mut BuddyManager,
    order: usize,
    r: AllocStep,
)
    requires
        call_ensures(MemoryManager::alloc_pages, (m, pages, order), r) || call_ensures(
            alloc_pages,
            (m, pages, order),
            r,
        ),
        4096 * pow2(order as nat) <= usize::MAX,
    ensures
        ({
            let (a, b) = (old(m).metrics, final(m).metrics);
            &&& r is Done && a.total_allocations < u64::MAX ==> b.total_allocations
                == a.total_allocations + 1
            &&& r is Done && a.total_bytes_allocated + 4096 * pow2(order as nat) <= u64::MAX
                ==> b.total_bytes_allocated == a.total_bytes_allocated + 4096 * pow2(order as nat)
            &&& r is Done ==> b.oom_events == a.oom_events
            &&& r is AskHandler ==> b.total_allocations == a.total_allocations
                && b.total_bytes_allocated == a.total_bytes_allocated
            &&& r is AskHandler && a.oom_events < u64::MAX ==> b.oom_events == a.oom_events + 1
            &&& b.total_frees == a.total_frees && b.oom_recovered == a.oom_recovered
        }),
{
}

/// Pages that are given back are counted with the bytes that they were got with.
pub proof fn law_given_back_pages_are_counted(
    m: &mut MemoryManager,
    pages: &mut BuddyManager,
    addr: u64,
    order: usize,
)
    requires
        call_ensures(MemoryManager::free_pages, (m, pages, addr, order), ()) || call_ensures(
            free_pages,
            (m, pages, addr, order),
            (),
        ),
        4096 * pow2(order as nat) <= usize::MAX,
        old(m).metrics.total_frees < u64::MAX,
        old(m).metrics.total_bytes_freed + 4096 * pow2(order as nat) <= u64::MAX,
    ensures
        final(m).metrics.total_frees == old(m).metrics.total_frees + 1,
        final(m).metrics.total_bytes_freed == old(m).metrics.total_bytes_freed + 4096 * pow2(
            order as nat,
        ),
        final(m).metrics.total_allocations == old(m).metrics.total_allocations,
        final(m).metrics.total_bytes_allocated == old(m).metrics.total_bytes_allocated,
        final(m).config == old(m).config,
{
}

/// A second try comes only after something was freed, and it is counted as a recovery;
/// without that the request fails with the bytes that it asked for.
pub proof fn law_second_try_needs_a_recovery(
    m: &mut MemoryManager,
    pages: &mut BuddyManager,
    order: usize,
    recovered: bool,
    r: MemoryResult<u64>,
)
    requires
        call_ensures(MemoryManager::alloc_again, (m, pages, order, recovered), r),
        4096 * pow2(order as nat) <= usize::MAX,
    ensures
        !recovered ==> r is Err && final(m).metrics == old(m).metrics && *final(pages) == *old(
            pages),
        r matches Err(e) ==> e is OutOfMemory && e->requested == 4096 * pow2(order as nat),
        recovered && old(m).metrics.oom_recovered < u64::MAX ==> final(m).metrics.oom_recovered
            == old(m).metrics.oom_recovered + 1,
        final(m).metrics.total_frees == old(m).metrics.total_frees,
{
}

/// An object that is got is counted and one that is not is not; one that is given back is.
pub proof fn law_objects_are_counted<A: Fn() -> Option<u64>, F: Fn(u64)>(
    m: &mut MemoryManager,
    objects: &mut SlabManager<A, F>,
    name: &str,
    r: Option<slab::Object>,
    n: &mut MemoryManager,
    back: &mut SlabManager<A, F>,
    p: u64,
)
    requires
        call_ensures(MemoryManager::slab_alloc, (m, objects, name), r),
        call_ensures(MemoryManager::slab_free, (n, back, name, p), ()),
        old(m).metrics.slab_allocations < u64::MAX,
        old(n).metrics.slab_frees < u64::MAX,
    ensures
        final(m).metrics.slab_allocations == old(m).metrics.slab_allocations + (if r is Some {
            1int
        } else {
            0
        }),
        final(m).metrics.slab_frees == old(m).metrics.slab_frees,
        final(n).metrics.slab_frees == old(n).metrics.slab_frees + 1,
        final(n).metrics.slab_allocations == old(n).metrics.slab_allocations,
{
}

/// The numbers that memory management reports are those that it counted.
pub proof fn law_management_report_is_what_was_counted(m: &MemoryManager, r: MemoryMetricsSnapshot)
    requires
        call_ensures(MemoryManager::metrics_snapshot, (m,), r),
    ensures
        r.total_allocations == m.metrics.total_allocations,
        r.total_frees == m.metrics.total_frees,
        r.total_bytes_allocated == m.metrics.total_bytes_allocated,
        r.total_bytes_freed == m.metrics.total_bytes_freed,
        r.oom_events == m.metrics.oom_events,
        r.oom_recovered == m.metrics.oom_recovered,
        r.slab_allocations == m.metrics.slab_allocations,
        r.slab_frees == m.metrics.slab_frees,
        r.mmap_regions == m.metrics.mmap_regions,
{
}

/// The layout that is taken by default is a range of whole pages with as many frames as it
/// has pages, and all of it is usable.
pub proof fn law_default_layout_is_whole(r: MemoryLayout)
    requires
        call_ensures(default_layout, (), r),
    ensures
        r.usable_end - r.usable_start == r.total_usable,
        r.frame_count * 4096 == r.total_usable,
        r.usable_start as int % 4096 == 0,
{
}

/// What is told of the memory has each amount in MiB behind its name.
pub proof fn law_memory_is_told_by_name(s: &MemStats, used: &str, r: String)
    requires
        call_ensures(MemStats::summary, (s, used), r),
    ensures
        text::tells(r@, "Mem: total="@ + text::fixed(s.total_memory as int, 1048576, 2)),
        text::tells(r@, " MiB, free="@ + text::fixed(s.free_memory as int, 1048576, 2)),
        text::tells(r@, " MiB, kernel="@ + text::fixed(s.kernel_memory as int, 1048576, 2)),
        text::tells(r@, " MiB, user="@ + text::fixed(s.userspace_memory as int, 1048576, 2)),
        text::tells(r@, " MiB, swap="@ + text::fixed(s.swapped_memory as int, 1048576, 2)),
        text::tells(r@, " MiB ("@ + used@),
{
    let pieces = seq![
        "Mem: total="@,
        text::fixed(s.total_memory as int, 1048576, 2),
        " MiB, free="@,
        text::fixed(s.free_memory as int, 1048576, 2),
        " MiB, kernel="@,
        text::fixed(s.kernel_memory as int, 1048576, 2),
        " MiB, user="@,
        text::fixed(s.userspace_memory as int, 1048576, 2),
        " MiB, swap="@,
        text::fixed(s.swapped_memory as int, 1048576, 2),
        " MiB ("@,
        used@,
        "% used)"@,
    ];
    reveal_with_fuel(text::put_together, 14);
    assert(r@ == text::put_together(pieces, 13));
    text::lemma_tells(pieces, 13, 0);
    text::lemma_tells(pieces, 13, 2);
    text::lemma_tells(pieces, 13, 4);
    text::lemma_tells(pieces, 13, 6);
    text::lemma_tells(pieces, 13, 8);
    text::lemma_tells(pieces, 13, 10);
}

} // verus!
