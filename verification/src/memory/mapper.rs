//! Mapping of pages: the rules for it, and the window through which all physical
//! memory is seen.
//!
//! The page tables themselves are changed by the functions that are handed in.
use crate::memory::paging;
use vstd::prelude::*;

verus! {

/// Physical memory is seen from here on.
pub const PHYS_OFFSET: u64 = 0xFFFF_8000_0000_0000;

/// Present, writable and not executable.
pub const KERNEL_FLAGS: u64 = 0x8000_0000_0000_0003;

/// Present, writable, accessible from user mode and not executable.
pub const USER_FLAGS: u64 = 0x8000_0000_0000_0007;

/// The flag of pages that can be written.
pub const WRITABLE: u64 = 0x2;

/// The flag of pages that cannot be executed.
pub const NO_EXECUTE: u64 = 0x8000_0000_0000_0000;

/// Settings of the mapper.
#[derive(Debug, Clone, Copy, PartialEq, Eq)]
pub struct MapperConfig {
    pub physical_offset: u64,
    pub default_kernel_flags: u64,
    pub default_user_flags: u64,
    pub enforce_wx: bool,
    pub collect_metrics: bool,
    pub log_mappings: bool,
}

impl Default for MapperConfig {
    fn default() -> (r: Self)
        ensures
            r == (MapperConfig {
                physical_offset: PHYS_OFFSET,
                default_kernel_flags: KERNEL_FLAGS,
                default_user_flags: USER_FLAGS,
                enforce_wx: true,
                collect_metrics: true,
                log_mappings: false,
            }),
    {
        let kernel: u64 = paging::present_flag() | paging::writable_flag()
            | paging::no_execute_flag();
        let user: u64 = kernel | paging::user_flag();
        assert(0x1u64 | 0x2u64 | 0x8000_0000_0000_0000u64 == KERNEL_FLAGS) by (bit_vector);
        assert(KERNEL_FLAGS | 0x4u64 == USER_FLAGS) by (bit_vector);
        MapperConfig {
            physical_offset: PHYS_OFFSET,
            default_kernel_flags: kernel,
            default_user_flags: user,
            enforce_wx: true,
            collect_metrics: true,
            log_mappings: false,
        }
    }
}

impl MapperConfig {
    /// The first rule that the configuration breaks, if any.
    pub open spec fn broken_rule(&self) -> Option<Seq<char>> {
        if self.physical_offset == 0 {
            Some("physical_offset cannot be zero"@)
        } else {
            None
        }
    }

    pub fn validate(&self) -> (r: Result<(), &'static str>)
        ensures
            match r {
                Ok(_) => self.broken_rule() is None,
                Err(e) => self.broken_rule() == Some(e@),
            },
    {
        if self.physical_offset == 0 {
            return Err("physical_offset cannot be zero");
        }
        Ok(())
    }

    pub fn with_offset(self, offset: u64) -> (r: Self)
        ensures
            r == (MapperConfig { physical_offset: offset, ..self }),
    {
        MapperConfig { physical_offset: offset, ..self }
    }

    pub fn with_metrics(self) -> (r: Self)
        ensures
            r == (MapperConfig { collect_metrics: true, ..self }),
    {
        MapperConfig { collect_metrics: true, ..self }
    }

    pub fn with_logging(self) -> (r: Self)
        ensures
            r == (MapperConfig { log_mappings: true, ..self }),
    {
        MapperConfig { log_mappings: true, ..self }
    }
}

/// Errors of mapping.
#[derive(Debug, Clone, PartialEq, Eq)]
pub enum MapperError {
    WxViolation,
    MapFailed { page: u64, reason: &'static str },
    UnmapFailed { page: u64, reason: &'static str },
    AlreadyMapped { page: u64 },
    FrameAllocationFailed,
    InvalidPageTable(&'static str),
    TranslationFailed { addr: u64 },
    Config(String),
}

pub type MapperResult<T> = Result<T, MapperError>;

/// Numbers of mappings.
#[derive(Debug, Clone, Copy, PartialEq, Eq)]
pub struct MappingStats {
    pub total_pages_mapped: u64,
    pub total_pages_unmapped: u64,
    pub total_allocations: u64,
    pub total_failures: u64,
    pub current_mappings: u64,
}

impl Default for MappingStats {
    fn default() -> (r: Self)
        ensures
            r == (MappingStats {
                total_pages_mapped: 0,
                total_pages_unmapped: 0,
                total_allocations: 0,
                total_failures: 0,
                current_mappings: 0,
            }),
    {
        MappingStats {
            total_pages_mapped: 0,
            total_pages_unmapped: 0,
            total_allocations: 0,
            total_failures: 0,
            current_mappings: 0,
        }
    }
}

/// What the mapper has done.
#[derive(Debug, Clone, Copy, PartialEq, Eq)]
pub struct MapperMetrics {
    pub pages_mapped: u64,
    pub pages_unmapped: u64,
    pub failed_maps: u64,
    pub failed_unmaps: u64,
    pub wx_violations: u64,
    pub frame_allocation_failures: u64,
    pub translations: u64,
}

impl Default for MapperMetrics {
    fn default() -> (r: Self)
        ensures
            r == (MapperMetrics {
                pages_mapped: 0,
                pages_unmapped: 0,
                failed_maps: 0,
                failed_unmaps: 0,
                wx_violations: 0,
                frame_allocation_failures: 0,
                translations: 0,
            }),
    {
        MapperMetrics {
            pages_mapped: 0,
            pages_unmapped: 0,
            failed_maps: 0,
            failed_unmaps: 0,
            wx_violations: 0,
            frame_allocation_failures: 0,
            translations: 0,
        }
    }
}

impl MapperMetrics {
    pub fn inc_mapped(&mut self)
        ensures
            *final(self) == (MapperMetrics {
                pages_mapped: old(self).pages_mapped.wrapping_add(1),
                ..*old(self)
            }),
    {
        self.pages_mapped = self.pages_mapped.wrapping_add(1);
    }

    pub fn inc_unmapped(&mut self)
        ensures
            *final(self) == (MapperMetrics {
                pages_unmapped: old(self).pages_unmapped.wrapping_add(1),
                ..*old(self)
            }),
    {
        self.pages_unmapped = self.pages_unmapped.wrapping_add(1);
    }

    pub fn inc_failed_map(&mut self)
        ensures
            *final(self) == (MapperMetrics {
                failed_maps: old(self).failed_maps.wrapping_add(1),
                ..*old(self)
            }),
    {
        self.failed_maps = self.failed_maps.wrapping_add(1);
    }

    pub fn inc_failed_unmap(&mut self)
        ensures
            *final(self) == (MapperMetrics {
                failed_unmaps: old(self).failed_unmaps.wrapping_add(1),
                ..*old(self)
            }),
    {
        self.failed_unmaps = self.failed_unmaps.wrapping_add(1);
    }

    pub fn inc_wx_violation(&mut self)
        ensures
            *final(self) == (MapperMetrics {
                wx_violations: old(self).wx_violations.wrapping_add(1),
                ..*old(self)
            }),
    {
        self.wx_violations = self.wx_violations.wrapping_add(1);
    }

    pub fn inc_frame_allocation_failure(&mut self)
        ensures
            *final(self) == (MapperMetrics {
                frame_allocation_failures: old(self).frame_allocation_failures.wrapping_add(1),
                ..*old(self)
            }),
    {
        self.frame_allocation_failures = self.frame_allocation_failures.wrapping_add(1);
    }

    pub fn inc_translation(&mut self)
        ensures
            *final(self) == (MapperMetrics {
                translations: old(self).translations.wrapping_add(1),
                ..*old(self)
            }),
    {
        self.translations = self.translations.wrapping_add(1);
    }

    /// A copy of the counters.
    pub fn snapshot(&self) -> (r: MapperMetricsSnapshot)
        ensures
            r == (MapperMetricsSnapshot {
                pages_mapped: self.pages_mapped,
                pages_unmapped: self.pages_unmapped,
                failed_maps: self.failed_maps,
                failed_unmaps: self.failed_unmaps,
                wx_violations: self.wx_violations,
                frame_allocation_failures: self.frame_allocation_failures,
                translations: self.translations,
            }),
    {
        MapperMetricsSnapshot {
            pages_mapped: self.pages_mapped,
            pages_unmapped: self.pages_unmapped,
            failed_maps: self.failed_maps,
            failed_unmaps: self.failed_unmaps,
            wx_violations: self.wx_violations,
            frame_allocation_failures: self.frame_allocation_failures,
            translations: self.translations,
        }
    }
}

/// A copy of [`MapperMetrics`] at one moment.
#[derive(Debug, Clone, Copy, PartialEq, Eq)]
pub struct MapperMetricsSnapshot {
    pub pages_mapped: u64,
    pub pages_unmapped: u64,
    pub failed_maps: u64,
    pub failed_unmaps: u64,
    pub wx_violations: u64,
    pub frame_allocation_failures: u64,
    pub translations: u64,
}

/// The virtual address at which a physical address is seen.
pub fn phys_to_virt(phys: u64) -> (r: u64)
    requires
        PHYS_OFFSET + phys <= u64::MAX,
    ensures
        r == PHYS_OFFSET + phys,
{
    PHYS_OFFSET + phys
}

/// The physical address that is seen at a virtual address, if it is in the window.
pub fn virt_to_phys(virt: u64) -> (r: Option<u64>)
    ensures
        r == spec_virt_to_phys(virt),
{
    if virt >= PHYS_OFFSET {
        Some(virt - PHYS_OFFSET)
    } else {
        None
    }
}

pub open spec fn spec_virt_to_phys(virt: u64) -> Option<u64> {
    if virt >= PHYS_OFFSET {
        Some((virt - PHYS_OFFSET) as u64)
    } else {
        None
    }
}

/// Looking through the window and back gives the same address, both ways.
pub proof fn law_window_is_one_to_one(phys: u64, virt: u64)
    ensures
        PHYS_OFFSET + phys <= u64::MAX ==> spec_virt_to_phys((PHYS_OFFSET + phys) as u64) == Some(
            phys,
        ),
        spec_virt_to_phys(virt) matches Some(p) ==> PHYS_OFFSET + p == virt,
        virt < PHYS_OFFSET <==> spec_virt_to_phys(virt) is None,
{
}

// ---------------------------------------------------------------------------
// Mapping
// ---------------------------------------------------------------------------

/// A page with those flags can be written and executed.
pub open spec fn writes_and_runs(flags: u64) -> bool {
    flags & WRITABLE == WRITABLE && flags & NO_EXECUTE != NO_EXECUTE
}

/// The flags break the rule that no page is both writable and executable.
pub open spec fn breaks_wx(flags: u64, config: MapperConfig) -> bool {
    config.enforce_wx && writes_and_runs(flags)
}

/// Checks that no page is both writable and executable.
pub fn check_wx(flags: u64, config: &MapperConfig) -> (r: MapperResult<()>)
    ensures
        r == (if breaks_wx(flags, *config) {
            Err::<(), MapperError>(MapperError::WxViolation)
        } else {
            Ok(())
        }),
{
    let writable: u64 = paging::writable_flag();
    let no_execute: u64 = paging::no_execute_flag();
    if config.enforce_wx && flags & writable == writable && flags & no_execute != no_execute {
        return Err(MapperError::WxViolation);
    }
    Ok(())
}

/// Checks that no page is both writable and executable, with a text for an error.
pub fn check_wx_legacy(flags: u64, m: &MapperManager) -> (r: Result<(), &'static str>)
    ensures
        if breaks_wx(flags, m.config) {
            r matches Err(s) && s@ == "W^X violation"@
        } else {
            r is Ok
        },
{
    match m.check_wx(flags) {
        Ok(()) => Ok(()),
        Err(_) => Err("W^X violation"),
    }
}

/// What the attempt to map a page is answered: `ok` says whether the page tables took
/// it.
pub open spec fn map_answer(page: u64, ok: bool) -> MapperResult<()> {
    if ok {
        Ok(())
    } else {
        Err(MapperError::MapFailed { page, reason: "map_to failed" })
    }
}

pub open spec fn map_counted(m: MapperMetrics, ok: bool) -> MapperMetrics {
    if ok {
        MapperMetrics { pages_mapped: m.pages_mapped.wrapping_add(1), ..m }
    } else {
        MapperMetrics { failed_maps: m.failed_maps.wrapping_add(1), ..m }
    }
}

/// Maps a page to a frame. `map_to` changes the page tables, and is called only if the
/// flags are allowed.
pub fn map_page<F: Fn(u64, u64, u64) -> bool>(
    map_to: &F,
    page: u64,
    frame: u64,
    flags: u64,
    config: &MapperConfig,
    metrics: &mut MapperMetrics,
) -> (r: MapperResult<()>)
    requires
        !breaks_wx(flags, *config) ==> call_requires(*map_to, (page, frame, flags)),
    ensures
        if breaks_wx(flags, *config) {
            r == Err::<(), MapperError>(MapperError::WxViolation) && *final(metrics) == *old(metrics)
        } else {
            exists|ok: bool| #[trigger]
                call_ensures(*map_to, (page, frame, flags), ok) && r == map_answer(page, ok)
                    && *final(metrics) == map_counted(*old(metrics), ok)
        },
{
    match check_wx(flags, config) {
        Ok(()) => {},
        Err(e) => {
            return Err(e);
        },
    }
    if map_to(page, frame, flags) {
        metrics.inc_mapped();
        Ok(())
    } else {
        metrics.inc_failed_map();
        Err(MapperError::MapFailed { page, reason: "map_to failed" })
    }
}

/// Unmaps a page; the result is the frame it was mapped to. `unmap` changes the page
/// tables.
pub fn unmap_page<F: FnOnce(u64) -> Option<u64>>(
    unmap: F,
    page: u64,
    metrics: &mut MapperMetrics,
) -> (r: MapperResult<u64>)
    requires
        call_requires(unmap, (page,)),
    ensures
        exists|answer: Option<u64>|
            {
                &&& #[trigger] call_ensures(unmap, (page,), answer)
                &&& match answer {
                    Some(frame) => {
                        &&& r == Ok::<u64, MapperError>(frame)
                        &&& *final(metrics) == (MapperMetrics {
                            pages_unmapped: old(metrics).pages_unmapped.wrapping_add(1),
                            ..*old(metrics)
                        })
                    },
                    None => {
                        &&& r == Err::<u64, MapperError>(
                            MapperError::UnmapFailed { page, reason: "unmap failed" },
                        )
                        &&& *final(metrics) == (MapperMetrics {
                            failed_unmaps: old(metrics).failed_unmaps.wrapping_add(1),
                            ..*old(metrics)
                        })
                    },
                }
            },
{
    match unmap(page) {
        Some(frame) => {
            metrics.inc_unmapped();
            Ok(frame)
        },
        None => {
            metrics.inc_failed_unmap();
            Err(MapperError::UnmapFailed { page, reason: "unmap failed" })
        },
    }
}

/// The counters after the first `n` attempts.
pub open spec fn maps_counted(m: MapperMetrics, oks: Seq<bool>, n: int) -> MapperMetrics
    decreases n,
{
    if n <= 0 {
        m
    } else {
        map_counted(maps_counted(m, oks, n - 1), oks[n - 1])
    }
}

/// What mapping `count` pages is answered when the page tables gave those answers: it
/// stops at the first page that is refused.
pub open spec fn range_outcome(
    start: u64,
    count: u64,
    oks: Seq<bool>,
    pre: MapperMetrics,
    post: MapperMetrics,
    r: MapperResult<()>,
) -> bool {
    let n = oks.len() as int;
    &&& n <= count
    &&& forall|i: int| 0 <= i < n - 1 ==> #[trigger] oks[i]
    &&& n < count ==> n > 0 && !oks[n - 1]
    &&& post == maps_counted(pre, oks, n)
    &&& r == (if n > 0 && !oks[n - 1] {
        map_answer((start + (n - 1) * 4096) as u64, false)
    } else {
        Ok(())
    })
}

/// The answers are what the calls have returned, for one page and frame after the
/// other.
pub open spec fn range_answered<F: Fn(u64, u64, u64) -> bool>(
    map_to: F,
    page: u64,
    frame: u64,
    flags: u64,
    oks: Seq<bool>,
) -> bool {
    forall|i: int|
        0 <= i < oks.len() ==> call_ensures(
            map_to,
            ((page + i * 4096) as u64, (frame + i * 4096) as u64, flags),
            #[trigger] oks[i],
        )
}

proof fn lemma_maps_prefix(a: Seq<bool>, b: Seq<bool>, m: MapperMetrics, n: int)
    requires
        n <= a.len(),
        n <= b.len(),
        forall|i: int| 0 <= i < n ==> #[trigger] a[i] == b[i],
    ensures
        maps_counted(m, a, n) == maps_counted(m, b, n),
    decreases n,
{
    if n > 0 {
        lemma_maps_prefix(a, b, m, n - 1);
        assert(a[n - 1] == b[n - 1]);
    }
}

/// The pages are in one half of the address space, and the frames are physical
/// addresses.
pub open spec fn range_fits(page: u64, frame: u64, count: u64) -> bool {
    &&& page % 4096 == 0
    &&& frame % 4096 == 0
    &&& count > 0 ==> {
        let last = page + (count - 1) * 4096;
        &&& last < 0x8000_0000_0000 || page >= 0xFFFF_8000_0000_0000 && last <= u64::MAX
        &&& frame + (count - 1) * 4096 < paging::PHYS_LIMIT
    }
}

/// Maps pages in a row to frames in a row, and stops at the first that fails.
pub fn map_range<F: Fn(u64, u64, u64) -> bool>(
    map_to: &F,
    start_page: u64,
    start_frame: u64,
    count: u64,
    flags: u64,
    config: &MapperConfig,
    metrics: &mut MapperMetrics,
) -> (r: MapperResult<()>)
    requires
        range_fits(start_page, start_frame, count),
        !breaks_wx(flags, *config) ==> forall|page: u64, frame: u64| #[trigger]
            call_requires(*map_to, (page, frame, flags)),
    ensures
        if breaks_wx(flags, *config) {
            r == Err::<(), MapperError>(MapperError::WxViolation) && *final(metrics) == *old(metrics)
        } else {
            exists|oks: Seq<bool>| #[trigger]
                range_outcome(start_page, count, oks, *old(metrics), *final(metrics), r)
                    && range_answered(*map_to, start_page, start_frame, flags, oks)
        },
{
    match check_wx(flags, config) {
        Ok(()) => {},
        Err(e) => {
            return Err(e);
        },
    }
    let ghost mut oks: Seq<bool> = Seq::empty();
    let mut i: u64 = 0;
    while i < count
        invariant
            i <= count,
            range_fits(start_page, start_frame, count),
            !breaks_wx(flags, *config),
            forall|page: u64, frame: u64| #[trigger]
                call_requires(*map_to, (page, frame, flags)),
            oks.len() == i,
            forall|j: int| 0 <= j < i ==> #[trigger] oks[j],
            *metrics == maps_counted(*old(metrics), oks, i as int),
            range_answered(*map_to, start_page, start_frame, flags, oks),
        decreases count - i,
    {
        let page: u64 = paging::page_start(start_page + i * 4096);
        let frame: u64 = paging::frame_start(start_frame + i * 4096);
        let ghost before = oks;
        let one = map_page(map_to, page, frame, flags, config, metrics);
        proof {
            let ok = choose|ok: bool| #[trigger]
                call_ensures(*map_to, (page, frame, flags), ok) && one == map_answer(page, ok)
                    && *metrics == map_counted(maps_counted(*old(metrics), before, i as int), ok);
            oks = before.push(ok);
            lemma_maps_prefix(before, oks, *old(metrics), i as int);
            assert forall|j: int| 0 <= j < oks.len() implies call_ensures(
                *map_to,
                ((start_page + j * 4096) as u64, (start_frame + j * 4096) as u64, flags),
                #[trigger] oks[j],
            ) by {
                if j < i {
                    assert(oks[j] == before[j]);
                }
            }
        }
        match one {
            Ok(()) => {},
            Err(e) => {
                let r: MapperResult<()> = Err(e);
                assert(range_outcome(start_page, count, oks, *old(metrics), *metrics, r));
                return r;
            },
        }
        i += 1;
    }
    let r: MapperResult<()> = Ok(());
    assert(range_outcome(start_page, count, oks, *old(metrics), *metrics, r));
    r
}

/// The physical address of a virtual one, as `translate` finds it in the page tables.
pub fn translate_addr<F: FnOnce(u64) -> Option<u64>>(
    translate: F,
    virt: u64,
    metrics: &mut MapperMetrics,
) -> (r: Option<u64>)
    requires
        call_requires(translate, (virt,)),
    ensures
        call_ensures(translate, (virt,), r),
        *final(metrics) == (MapperMetrics {
            translations: old(metrics).translations.wrapping_add(1),
            ..*old(metrics)
        }),
{
    metrics.inc_translation();
    translate(virt)
}

/// Where the root of the page tables is seen.
pub fn table_address(config: &MapperConfig, root: u64) -> (r: u64)
    requires
        config.physical_offset + root <= u64::MAX,
    ensures
        r == config.physical_offset + root,
{
    config.physical_offset + root
}

/// A range that was mapped as a whole has all its pages mapped.
pub proof fn law_whole_range_or_error(
    start: u64,
    count: u64,
    oks: Seq<bool>,
    pre: MapperMetrics,
    post: MapperMetrics,
    r: MapperResult<()>,
)
    requires
        range_outcome(start, count, oks, pre, post, r),
    ensures
        r is Ok <==> oks.len() == count && forall|i: int| 0 <= i < count ==> #[trigger] oks[i],
{
    if r is Ok {
        assert forall|i: int| 0 <= i < count implies #[trigger] oks[i] by {}
    } else {
        assert(!oks[oks.len() - 1]);
    }
}

// ---------------------------------------------------------------------------
// The manager
// ---------------------------------------------------------------------------

/// The mapper of the kernel.
#[derive(Debug)]
pub struct MapperManager {
    pub config: MapperConfig,
    pub metrics: MapperMetrics,
}

impl MapperManager {
    pub fn new(config: MapperConfig) -> (r: Self)
        requires
            config.broken_rule() is None,
        ensures
            r.config == config,
            r.metrics == (MapperMetrics {
                pages_mapped: 0,
                pages_unmapped: 0,
                failed_maps: 0,
                failed_unmaps: 0,
                wx_violations: 0,
                frame_allocation_failures: 0,
                translations: 0,
            }),
    {
        MapperManager { config, metrics: MapperMetrics::default() }
    }

    pub fn default() -> (r: Self)
        ensures
            r.config == (MapperConfig {
                physical_offset: PHYS_OFFSET,
                default_kernel_flags: KERNEL_FLAGS,
                default_user_flags: USER_FLAGS,
                enforce_wx: true,
                collect_metrics: true,
                log_mappings: false,
            }),
            r.metrics == (MapperMetrics {
                pages_mapped: 0,
                pages_unmapped: 0,
                failed_maps: 0,
                failed_unmaps: 0,
                wx_violations: 0,
                frame_allocation_failures: 0,
                translations: 0,
            }),
    {
        MapperManager::new(MapperConfig::default())
    }

    pub fn config(&self) -> (r: &MapperConfig)
        ensures
            *r == self.config,
    {
        &self.config
    }

    pub fn metrics(&self) -> (r: &MapperMetrics)
        ensures
            *r == self.metrics,
    {
        &self.metrics
    }

    /// Maps a page to a frame.
    pub fn map_page<F: Fn(u64, u64, u64) -> bool>(
        &mut self,
        map_to: &F,
        page: u64,
        frame: u64,
        flags: u64,
    ) -> (r: MapperResult<()>)
        requires
            !breaks_wx(flags, old(self).config) ==> call_requires(*map_to, (page, frame, flags)),
        ensures
            final(self).config == old(self).config,
            if breaks_wx(flags, old(self).config) {
                r == Err::<(), MapperError>(MapperError::WxViolation) && final(self).metrics == old(self).metrics
            } else {
                exists|ok: bool| #[trigger]
                    call_ensures(*map_to, (page, frame, flags), ok) && r == map_answer(page, ok)
                        && final(self).metrics == map_counted(old(self).metrics, ok)
            },
    {
        map_page(map_to, page, frame, flags, &self.config, &mut self.metrics)
    }

    /// Unmaps a page; the result is the frame it was mapped to.
    pub fn unmap_page<F: FnOnce(u64) -> Option<u64>>(&mut self, unmap: F, page: u64) -> (r:
        MapperResult<u64>)
        requires
            call_requires(unmap, (page,)),
        ensures
            final(self).config == old(self).config,
            exists|answer: Option<u64>|
                {
                    &&& #[trigger] call_ensures(unmap, (page,), answer)
                    &&& match answer {
                        Some(frame) => {
                            &&& r == Ok::<u64, MapperError>(frame)
                            &&& final(self).metrics == (MapperMetrics {
                                pages_unmapped: old(self).metrics.pages_unmapped.wrapping_add(1),
                                ..old(self).metrics
                            })
                        },
                        None => {
                            &&& r == Err::<u64, MapperError>(
                                MapperError::UnmapFailed { page, reason: "unmap failed" },
                            )
                            &&& final(self).metrics == (MapperMetrics {
                                failed_unmaps: old(self).metrics.failed_unmaps.wrapping_add(1),
                                ..old(self).metrics
                            })
                        },
                    }
                },
    {
        unmap_page(unmap, page, &mut self.metrics)
    }

    /// Maps pages in a row to frames in a row.
    pub fn map_range<F: Fn(u64, u64, u64) -> bool>(
        &mut self,
        map_to: &F,
        start_page: u64,
        start_frame: u64,
        count: u64,
        flags: u64,
    ) -> (r: MapperResult<()>)
        requires
            range_fits(start_page, start_frame, count),
            !breaks_wx(flags, old(self).config) ==> forall|page: u64, frame: u64| #[trigger]
                call_requires(*map_to, (page, frame, flags)),
        ensures
            final(self).config == old(self).config,
            if breaks_wx(flags, old(self).config) {
                r == Err::<(), MapperError>(MapperError::WxViolation) && final(self).metrics == old(self).metrics
            } else {
                exists|oks: Seq<bool>| #[trigger]
                    range_outcome(
                        start_page,
                        count,
                        oks,
                        old(self).metrics,
                        final(self).metrics,
                        r,
                    ) && range_answered(*map_to, start_page, start_frame, flags, oks)
            },
    {
        map_range(
            map_to,
            start_page,
            start_frame,
            count,
            flags,
            &self.config,
            &mut self.metrics,
        )
    }

    /// The physical address of a virtual one.
    pub fn translate_addr<F: FnOnce(u64) -> Option<u64>>(&mut self, translate: F, virt: u64) -> (r:
        Option<u64>)
        requires
            call_requires(translate, (virt,)),
        ensures
            call_ensures(translate, (virt,), r),
            *final(self) == (MapperManager {
                metrics: MapperMetrics {
                    translations: old(self).metrics.translations.wrapping_add(1),
                    ..old(self).metrics
                },
                ..*old(self)
            }),
    {
        translate_addr(translate, virt, &mut self.metrics)
    }

    /// Checks that no page is both writable and executable.
    pub fn check_wx(&self, flags: u64) -> (r: MapperResult<()>)
        ensures
            r == (if breaks_wx(flags, self.config) {
                Err::<(), MapperError>(MapperError::WxViolation)
            } else {
                Ok(())
            }),
    {
        check_wx(flags, &self.config)
    }

    pub fn metrics_snapshot(&self) -> (r: MapperMetricsSnapshot)
        ensures
            r.pages_mapped == self.metrics.pages_mapped,
            r.pages_unmapped == self.metrics.pages_unmapped,
            r.failed_maps == self.metrics.failed_maps,
            r.failed_unmaps == self.metrics.failed_unmaps,
            r.wx_violations == self.metrics.wx_violations,
            r.frame_allocation_failures == self.metrics.frame_allocation_failures,
            r.translations == self.metrics.translations,
    {
        self.metrics.snapshot()
    }

    pub fn reset_metrics(&mut self)
        ensures
            *final(self) == (MapperManager {
                metrics: MapperMetrics {
                    pages_mapped: 0,
                    pages_unmapped: 0,
                    failed_maps: 0,
                    failed_unmaps: 0,
                    wx_violations: 0,
                    frame_allocation_failures: 0,
                    translations: 0,
                },
                ..*old(self)
            }),
    {
        self.metrics = MapperMetrics::default();
    }
}

/// Sets the mapper up, once.
pub fn init(global: &mut Option<MapperManager>)
    ensures
        match *old(global) {
            Some(m) => *final(global) == Some(m),
            None => *final(global) matches Some(m) && m.config == (MapperConfig {
                physical_offset: PHYS_OFFSET,
                default_kernel_flags: KERNEL_FLAGS,
                default_user_flags: USER_FLAGS,
                enforce_wx: true,
                collect_metrics: true,
                log_mappings: false,
            }) && m.metrics == (MapperMetrics {
                pages_mapped: 0,
                pages_unmapped: 0,
                failed_maps: 0,
                failed_unmaps: 0,
                wx_violations: 0,
                frame_allocation_failures: 0,
                translations: 0,
            }),
        },
{
    if global.is_none() {
        *global = Some(MapperManager::default());
    }
}

/// The default flags keep to the rule that no page is both writable and executable.
pub proof fn law_default_flags_are_safe()
    ensures
        !writes_and_runs(KERNEL_FLAGS),
        !writes_and_runs(USER_FLAGS),
        KERNEL_FLAGS & WRITABLE == WRITABLE,
        USER_FLAGS & WRITABLE == WRITABLE,
{
    assert(0x8000_0000_0000_0003u64 & 0x8000_0000_0000_0000u64 == 0x8000_0000_0000_0000u64
        && 0x8000_0000_0000_0007u64 & 0x8000_0000_0000_0000u64 == 0x8000_0000_0000_0000u64
        && 0x8000_0000_0000_0003u64 & 0x2u64 == 0x2u64 && 0x8000_0000_0000_0007u64 & 0x2u64
        == 0x2u64) by (bit_vector);
}

/// Physical memory is seen from its fixed offset on, byte by byte: going there and back is
/// the identity, and below the offset there is no physical memory to be seen.
pub proof fn law_window_goes_there_and_back(
    phys: u64,
    virt: u64,
    back: Option<u64>,
    other: u64,
    seen: Option<u64>,
)
    requires
        call_ensures(phys_to_virt, (phys,), virt),
        call_ensures(virt_to_phys, (virt,), back),
        call_ensures(virt_to_phys, (other,), seen),
        0xFFFF_8000_0000_0000 + phys <= u64::MAX,
    ensures
        back == Some(phys),
        virt - phys == 0xFFFF_8000_0000_0000,
        seen is None <==> other < 0xFFFF_8000_0000_0000,
        seen matches Some(p) ==> p + 0xFFFF_8000_0000_0000 == other,
{
}

/// Flags pass exactly where nothing is enforced, or the page cannot be written, or it
/// cannot be executed. All three ways to ask answer the same.
pub proof fn law_no_page_is_written_and_run(
    flags: u64,
    m: &MapperManager,
    r: MapperResult<()>,
    by_manager: MapperResult<()>,
    legacy: Result<(), &'static str>,
)
    requires
        call_ensures(check_wx, (flags, &m.config), r),
        call_ensures(MapperManager::check_wx, (m, flags), by_manager),
        call_ensures(check_wx_legacy, (flags, m), legacy),
    ensures
        r is Ok <==> !m.config.enforce_wx || flags & 0x2 == 0 || flags & 0x8000_0000_0000_0000 != 0,
        by_manager == r,
        legacy is Ok <==> r is Ok,
        r is Err ==> r->Err_0 is WxViolation,
{
    assert(flags & 0x2 == 0x2 || flags & 0x2 == 0) by (bit_vector);
    assert(flags & 0x8000_0000_0000_0000 == 0x8000_0000_0000_0000 || flags
        & 0x8000_0000_0000_0000 == 0) by (bit_vector);
}

/// A page is mapped to the very frame, with the very flags, that were asked for; success
/// is what the table has answered, and it is counted as such. A page that could be written
/// and executed is not even tried.
pub proof fn law_page_is_mapped_as_asked<F: Fn(u64, u64, u64) -> bool>(
    map_to: &F,
    page: u64,
    frame: u64,
    flags: u64,
    config: &MapperConfig,
    m: &mut MapperMetrics,
    r: MapperResult<()>,
)
    requires
        call_ensures(map_page, (map_to, page, frame, flags, config, m), r),
    ensures
        r is Ok ==> call_ensures(*map_to, (page, frame, flags), true),
        r matches Err(MapperError::MapFailed { page: p, reason }) ==> p == page && call_ensures(
            *map_to,
            (page, frame, flags),
            false,
        ),
        r matches Err(e) ==> e is MapFailed || e is WxViolation,
        r is Ok && old(m).pages_mapped < u64::MAX ==> final(m).pages_mapped == old(m).pages_mapped
            + 1,
        r is Err ==> final(m).pages_mapped == old(m).pages_mapped,
        r is Ok ==> final(m).failed_maps == old(m).failed_maps,
        r is Err && r->Err_0 is MapFailed && old(m).failed_maps < u64::MAX ==> final(
            m).failed_maps == old(m).failed_maps + 1,
        r is Err && r->Err_0 is WxViolation ==> *final(m) == *old(m) && config.enforce_wx,
        final(m).pages_unmapped == old(m).pages_unmapped,
        final(m).translations == old(m).translations,
{
}

/// A range that is mapped has each of its pages at the frame that lies as many pages
/// behind the first frame. One that is not has the pages before the one that failed
/// mapped, and that one is named.
pub proof fn law_range_is_mapped_in_step<F: Fn(u64, u64, u64) -> bool>(
    map_to: &F,
    page: u64,
    frame: u64,
    count: u64,
    flags: u64,
    config: &MapperConfig,
    m: &mut MapperMetrics,
    r: MapperResult<()>,
    i: int,
)
    requires
        range_fits(page, frame, count),
        call_ensures(map_range, (map_to, page, frame, count, flags, config, m), r),
        0 <= i < count,
    ensures
        r is Ok ==> call_ensures(
            *map_to,
            ((page + i * 4096) as u64, (frame + i * 4096) as u64, flags),
            true,
        ),
        r is Ok && old(m).pages_mapped + count <= u64::MAX ==> final(m).pages_mapped == old(
            m).pages_mapped + count,
        r is Ok ==> final(m).failed_maps == old(m).failed_maps,
        r matches Err(MapperError::MapFailed { page: p, reason }) ==> {
            &&& p >= page
            &&& (p - page) % 4096 == 0
            &&& (p - page) / 4096 < count
            &&& i < (p - page) / 4096 ==> call_ensures(
                *map_to,
                ((page + i * 4096) as u64, (frame + i * 4096) as u64, flags),
                true,
            )
        },
        r is Err && r->Err_0 is WxViolation ==> *final(m) == *old(m),
{
    if !breaks_wx(flags, *config) {
        let oks = choose|oks: Seq<bool>| #[trigger]
            range_outcome(page, count, oks, *old(m), *final(m), r) && range_answered(
                *map_to,
                page,
                frame,
                flags,
                oks,
            );
        let n = oks.len() as int;
        if i < n {
            assert(call_ensures(
                *map_to,
                ((page + i * 4096) as u64, (frame + i * 4096) as u64, flags),
                oks[i],
            ));
        }
        if r is Ok {
            assert(n == count);
            assert(oks[n - 1]);
            assert(oks[i]);
            lemma_maps_counted(*old(m), oks, n);
        } else {
            assert(page + (n - 1) * 4096 <= u64::MAX);
            if i < n - 1 {
                assert(oks[i]);
            }
        }
    }
}

proof fn lemma_maps_counted(m: MapperMetrics, oks: Seq<bool>, n: int)
    requires
        0 <= n <= oks.len(),
        forall|i: int| 0 <= i < n ==> #[trigger] oks[i],
    ensures
        m.pages_mapped + n <= u64::MAX ==> maps_counted(m, oks, n).pages_mapped == m.pages_mapped
            + n,
        maps_counted(m, oks, n).failed_maps == m.failed_maps,
    decreases n,
{
    if n > 0 {
        lemma_maps_counted(m, oks, n - 1);
        assert(oks[n - 1]);
    }
}

/// An unmapped page gives back the frame that the table has answered, and is counted.
pub proof fn law_unmapped_page_gives_its_frame<F: FnOnce(u64) -> Option<u64>>(
    unmap: F,
    page: u64,
    m: &mut MapperMetrics,
    r: MapperResult<u64>,
)
    requires
        call_ensures(unmap_page, (unmap, page, m), r),
    ensures
        r matches Ok(frame) ==> call_ensures(unmap, (page,), Some(frame)),
        r is Err ==> call_ensures(unmap, (page,), None) && r->Err_0 is UnmapFailed
            && r->Err_0->UnmapFailed_page == page,
        r is Ok && old(m).pages_unmapped < u64::MAX ==> final(m).pages_unmapped == old(
            m).pages_unmapped + 1,
        r is Err && old(m).failed_unmaps < u64::MAX ==> final(m).failed_unmaps == old(
            m).failed_unmaps + 1,
        r is Ok ==> final(m).failed_unmaps == old(m).failed_unmaps,
        r is Err ==> final(m).pages_unmapped == old(m).pages_unmapped,
        final(m).pages_mapped == old(m).pages_mapped,
{
}

/// The numbers that the mapper reports are those that it counted.
pub proof fn law_mapper_report_is_what_was_counted(m: &MapperManager, r: MapperMetricsSnapshot)
    requires
        call_ensures(MapperManager::metrics_snapshot, (m,), r),
    ensures
        r.pages_mapped == m.metrics.pages_mapped,
        r.pages_unmapped == m.metrics.pages_unmapped,
        r.failed_maps == m.metrics.failed_maps,
        r.failed_unmaps == m.metrics.failed_unmaps,
        r.wx_violations == m.metrics.wx_violations,
        r.translations == m.metrics.translations,
{
}

} // verus!
