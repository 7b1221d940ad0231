//! Kernel libc: which heap requests are granted, and the memory and string
//! functions of C on byte slices.
pub mod musl_compat;

use vstd::arithmetic::power2::is_pow2;
use vstd::layout::valid_layout;
use vstd::prelude::*;

verus! {

/// Configuration of the libc subsystem.
#[derive(Debug, Clone, Copy, PartialEq, Eq)]
pub struct LibcConfig {
    /// Alignment of allocations (a power of two).
    pub allocator_alignment: usize,
    pub track_metrics: bool,
    pub log_allocations: bool,
    /// The largest allocation in bytes.
    pub max_allocation_size: usize,
}

impl Default for LibcConfig {
    fn default() -> (r: Self)
        ensures
            r == (LibcConfig {
                allocator_alignment: 16,
                track_metrics: true,
                log_allocations: false,
                max_allocation_size: usize::MAX,
            }),
            r.broken_rule() is None,
    {
        proof {
            reveal_with_fuel(is_pow2, 6);
        }
        LibcConfig {
            allocator_alignment: 16,
            track_metrics: true,
            log_allocations: false,
            max_allocation_size: usize::MAX,
        }
    }
}

/// Whether `n` is a power of two.
fn power_of_two(n: usize) -> (r: bool)
    ensures
        r == is_pow2(n as int),
{
    proof {
        reveal(is_pow2);
    }
    if n == 0 {
        return false;
    }
    let mut m: usize = n;
    while m % 2 == 0
        invariant
            m > 0,
            is_pow2(n as int) == is_pow2(m as int),
        decreases m,
    {
        proof {
            reveal(is_pow2);
        }
        m = m / 2;
    }
    m == 1
}

impl LibcConfig {
    /// The first rule that the configuration breaks, if any.
    pub open spec fn broken_rule(&self) -> Option<Seq<char>> {
        if !is_pow2(self.allocator_alignment as int) {
            Some("allocator_alignment must be a power of two"@)
        } else if self.max_allocation_size == 0 {
            Some("max_allocation_size must be > 0"@)
        } else {
            None
        }
    }

    pub fn validate(&self) -> (r: Result<(), &'static str>)
        ensures
            match r {
                Ok(_) => self.broken_rule() is None,
                Err(e) => self.broken_rule() == Some(e@),
            },
    {
        if !power_of_two(self.allocator_alignment) {
            return Err("allocator_alignment must be a power of two");
        }
        if self.max_allocation_size == 0 {
            return Err("max_allocation_size must be > 0");
        }
        Ok(())
    }
}

/// Counters of the libc subsystem.
#[derive(Debug, Clone, Copy, PartialEq, Eq)]
pub struct LibcMetrics {
    pub allocations: u64,
    pub frees: u64,
    pub bytes_allocated: u64,
    pub bytes_freed: u64,
    pub allocation_failures: u64,
    pub free_errors: u64,
}

impl Default for LibcMetrics {
    fn default() -> (r: Self)
        ensures
            r == (LibcMetrics {
                allocations: 0,
                frees: 0,
                bytes_allocated: 0,
                bytes_freed: 0,
                allocation_failures: 0,
                free_errors: 0,
            }),
    {
        LibcMetrics {
            allocations: 0,
            frees: 0,
            bytes_allocated: 0,
            bytes_freed: 0,
            allocation_failures: 0,
            free_errors: 0,
        }
    }
}

impl LibcMetrics {
    pub fn record_alloc(&mut self, size: usize)
        ensures
            *final(self) == (LibcMetrics {
                allocations: old(self).allocations.wrapping_add(1),
                bytes_allocated: old(self).bytes_allocated.wrapping_add(size as u64),
                ..*old(self)
            }),
    {
        self.allocations = self.allocations.wrapping_add(1);
        self.bytes_allocated = self.bytes_allocated.wrapping_add(size as u64);
    }

    pub fn record_free(&mut self, size: usize)
        ensures
            *final(self) == (LibcMetrics {
                frees: old(self).frees.wrapping_add(1),
                bytes_freed: old(self).bytes_freed.wrapping_add(size as u64),
                ..*old(self)
            }),
    {
        self.frees = self.frees.wrapping_add(1);
        self.bytes_freed = self.bytes_freed.wrapping_add(size as u64);
    }

    pub fn record_failure(&mut self)
        ensures
            *final(self) == (LibcMetrics {
                allocation_failures: old(self).allocation_failures.wrapping_add(1),
                ..*old(self)
            }),
    {
        self.allocation_failures = self.allocation_failures.wrapping_add(1);
    }

    pub fn record_free_error(&mut self)
        ensures
            *final(self) == (LibcMetrics {
                free_errors: old(self).free_errors.wrapping_add(1),
                ..*old(self)
            }),
    {
        self.free_errors = self.free_errors.wrapping_add(1);
    }

    /// A copy of the counters.
    pub fn snapshot(&self) -> (r: LibcMetricsSnapshot)
        ensures
            r == (LibcMetricsSnapshot {
                allocations: self.allocations,
                frees: self.frees,
                bytes_allocated: self.bytes_allocated,
                bytes_freed: self.bytes_freed,
                allocation_failures: self.allocation_failures,
                free_errors: self.free_errors,
            }),
    {
        LibcMetricsSnapshot {
            allocations: self.allocations,
            frees: self.frees,
            bytes_allocated: self.bytes_allocated,
            bytes_freed: self.bytes_freed,
            allocation_failures: self.allocation_failures,
            free_errors: self.free_errors,
        }
    }
}

/// A copy of [`LibcMetrics`] at one moment.
#[derive(Debug, Clone, Copy, PartialEq, Eq)]
pub struct LibcMetricsSnapshot {
    pub allocations: u64,
    pub frees: u64,
    pub bytes_allocated: u64,
    pub bytes_freed: u64,
    pub allocation_failures: u64,
    pub free_errors: u64,
}

/// A block of memory to allocate or to free.
#[derive(Debug, Clone, Copy, PartialEq, Eq, Structural)]
pub struct Block {
    pub size: usize,
    pub align: usize,
}

/// `std::alloc::Layout::from_size_align` succeeds just where the alignment is a
/// power of two and the size, rounded up to a multiple of it, is at most
/// `isize::MAX`.
#[verifier::external_body]
fn layout_exists(size: usize, align: usize) -> (r: bool)
    ensures
        r == valid_layout(size, align),
{
    std::alloc::Layout::from_size_align(size, align).is_ok()
}

/// Manager of the libc subsystem.
#[derive(Debug)]
pub struct LibcManager {
    pub config: LibcConfig,
    pub metrics: LibcMetrics,
}

impl LibcManager {
    pub fn new(config: LibcConfig) -> (r: Result<Self, &'static str>)
        ensures
            match r {
                Ok(m) => config.broken_rule() is None && m.config == config && m.metrics == (
                LibcMetrics {
                    allocations: 0,
                    frees: 0,
                    bytes_allocated: 0,
                    bytes_freed: 0,
                    allocation_failures: 0,
                    free_errors: 0,
                }),
                Err(e) => config.broken_rule() == Some(e@),
            },
    {
        match config.validate() {
            Ok(()) => Ok(LibcManager { config, metrics: LibcMetrics::default() }),
            Err(e) => Err(e),
        }
    }

    /// A request of that size can be granted.
    pub open spec fn grants(&self, size: usize) -> bool {
        size <= self.config.max_allocation_size && valid_layout(
            size,
            self.config.allocator_alignment,
        )
    }

    /// The manager with its counters changed, where it counts.
    pub open spec fn counting(self, metrics: LibcMetrics) -> LibcManager {
        if self.config.track_metrics {
            LibcManager { metrics, ..self }
        } else {
            self
        }
    }

    /// The manager after a request that was not met.
    pub open spec fn after_failure(self) -> LibcManager {
        self.counting(
            LibcMetrics {
                allocation_failures: self.metrics.allocation_failures.wrapping_add(1),
                ..self.metrics
            },
        )
    }

    /// The manager after a request that was met with so many bytes.
    pub open spec fn after_alloc(self, size: usize) -> LibcManager {
        self.counting(
            LibcMetrics {
                allocations: self.metrics.allocations.wrapping_add(1),
                bytes_allocated: self.metrics.bytes_allocated.wrapping_add(size as u64),
                ..self.metrics
            },
        )
    }

    /// The manager after so many bytes were freed.
    pub open spec fn after_free(self, size: usize) -> LibcManager {
        self.counting(
            LibcMetrics {
                frees: self.metrics.frees.wrapping_add(1),
                bytes_freed: self.metrics.bytes_freed.wrapping_add(size as u64),
                ..self.metrics
            },
        )
    }

    /// The manager after a block could not be freed.
    pub open spec fn after_free_error(self) -> LibcManager {
        self.counting(
            LibcMetrics {
                free_errors: self.metrics.free_errors.wrapping_add(1),
                ..self.metrics
            },
        )
    }

    /// What a request returns and leaves behind: nothing for no bytes, the block
    /// to ask the allocator for where the request is granted, which counts only
    /// with its answer, and a failure otherwise.
    pub open spec fn allocated(
        pre: LibcManager,
        post: LibcManager,
        size: usize,
        r: Option<Block>,
    ) -> bool {
        if size == 0 {
            r is None && post == pre
        } else if pre.grants(size) {
            &&& r == Some(Block { size, align: pre.config.allocator_alignment })
            &&& post == pre
        } else {
            r is None && post == pre.after_failure()
        }
    }

    /// What the allocator's answer leaves behind, 0 where it had no memory.
    pub open spec fn answered(self, block: Block, addr: usize) -> LibcManager {
        if addr != 0 {
            self.after_alloc(block.size)
        } else {
            self.after_failure()
        }
    }

    /// The block that is to be allocated for a request, if any.
    pub fn allocate(&mut self, size: usize) -> (r: Option<Block>)
        ensures
            Self::allocated(*old(self), *final(self), size, r),
    {
        if size == 0 {
            return None;
        }
        if size > self.config.max_allocation_size || !layout_exists(
            size,
            self.config.allocator_alignment,
        ) {
            if self.config.track_metrics {
                self.metrics.record_failure();
            }
            return None;
        }
        Some(Block { size, align: self.config.allocator_alignment })
    }

    /// Takes the allocator's answer to a request for a block, 0 where it had no
    /// memory, counts it and hands it on.
    pub fn allocated_at(&mut self, block: Block, addr: usize) -> (r: usize)
        ensures
            r == addr,
            *final(self) == old(self).answered(block, addr),
    {
        if self.config.track_metrics {
            if addr != 0 {
                self.metrics.record_alloc(block.size);
            } else {
                self.metrics.record_failure();
            }
        }
        addr
    }

    /// What freeing returns and leaves behind: the block to free where the address
    /// and the size can belong to one, and an error otherwise.
    pub open spec fn freed(
        pre: LibcManager,
        post: LibcManager,
        addr: usize,
        size: usize,
        r: Option<Block>,
    ) -> bool {
        if addr != 0 && size != 0 && pre.grants(size) {
            &&& r == Some(Block { size, align: pre.config.allocator_alignment })
            &&& post == pre.after_free(size)
        } else {
            r is None && post == pre.after_free_error()
        }
    }

    /// The block that is to be freed at an address, if any.
    pub fn deallocate(&mut self, addr: usize, size: usize) -> (r: Option<Block>)
        ensures
            Self::freed(*old(self), *final(self), addr, size, r),
    {
        if addr == 0 || size == 0 || size > self.config.max_allocation_size || !layout_exists(
            size,
            self.config.allocator_alignment,
        ) {
            if self.config.track_metrics {
                self.metrics.record_free_error();
            }
            return None;
        }
        if self.config.track_metrics {
            self.metrics.record_free(size);
        }
        Some(Block { size, align: self.config.allocator_alignment })
    }

    pub fn metrics_snapshot(&self) -> (r: LibcMetricsSnapshot)
        ensures
            r.allocations == self.metrics.allocations,
            r.frees == self.metrics.frees,
            r.bytes_allocated == self.metrics.bytes_allocated,
            r.bytes_freed == self.metrics.bytes_freed,
            r.allocation_failures == self.metrics.allocation_failures,
            r.free_errors == self.metrics.free_errors,
    {
        self.metrics.snapshot()
    }

    /// Changes the configuration to a valid one.
    pub fn set_config(&mut self, config: LibcConfig) -> (r: Result<(), &'static str>)
        ensures
            match r {
                Ok(_) => config.broken_rule() is None && *final(self) == (LibcManager {
                    config,
                    ..*old(self)
                }),
                Err(e) => config.broken_rule() == Some(e@) && *final(self) == *old(self),
            },
    {
        match config.validate() {
            Ok(()) => {
                self.config = config;
                Ok(())
            },
            Err(e) => Err(e),
        }
    }
}

/// A block that the allocator gave can be freed again, and the two are counted
/// alike.
pub proof fn law_free_matches_allocation(
    m0: LibcManager,
    m1: LibcManager,
    m2: LibcManager,
    size: usize,
    addr: usize,
    block: Block,
    r: Option<Block>,
)
    requires
        addr != 0,
        LibcManager::allocated(m0, m1, size, Some(block)),
        LibcManager::freed(m1.answered(block, addr), m2, addr, size, r),
    ensures
        r == Some(block),
        m2.metrics.free_errors == m0.metrics.free_errors,
        m2.metrics.allocation_failures == m0.metrics.allocation_failures,
        m0.metrics.allocations == m0.metrics.frees && m0.metrics.bytes_allocated
            == m0.metrics.bytes_freed ==> m2.metrics.allocations == m2.metrics.frees
            && m2.metrics.bytes_allocated == m2.metrics.bytes_freed,
{
}

/// A request that the allocator had no memory for counts as one failure, and as
/// nothing else.
pub proof fn law_no_memory_is_a_failure(
    m0: LibcManager,
    m1: LibcManager,
    size: usize,
    block: Block,
)
    requires
        LibcManager::allocated(m0, m1, size, Some(block)),
    ensures
        m1.answered(block, 0) == m0.after_failure(),
{
}

/// Where metrics are not kept, no counter ever changes.
pub proof fn law_untracked_counters_stay(
    m0: LibcManager,
    m1: LibcManager,
    size: usize,
    addr: usize,
    block: Block,
    r: Option<Block>,
)
    requires
        !m0.config.track_metrics,
        LibcManager::allocated(m0, m1, size, r) || m1 == m0.answered(block, addr)
            || LibcManager::freed(m0, m1, addr, size, r),
    ensures
        m1 == m0,
{
}

// ---------------------------------------------------------------------------
// The kernel-wide manager, which its owner passes in
// ---------------------------------------------------------------------------

/// Sets up the libc subsystem, once; the configuration must be valid every time.
pub fn init_libc(global: &mut Option<LibcManager>, config: LibcConfig) -> (r: Result<
    (),
    &'static str,
>)
    ensures
        match r {
            Ok(_) => config.broken_rule() is None && match *old(global) {
                Some(_) => *final(global) == *old(global),
                None => *final(global) matches Some(m) && m.config == config
                    && m.metrics == (LibcMetrics {
                    allocations: 0,
                    frees: 0,
                    bytes_allocated: 0,
                    bytes_freed: 0,
                    allocation_failures: 0,
                    free_errors: 0,
                }),
            },
            Err(e) => config.broken_rule() == Some(e@) && *final(global) == *old(global),
        },
{
    match LibcManager::new(config) {
        Ok(m) => {
            if global.is_none() {
                *global = Some(m);
            }
            Ok(())
        },
        Err(e) => Err(e),
    }
}

/// The block to ask the allocator for, for `size` bytes, if any.
pub fn malloc(m: &mut LibcManager, size: usize) -> (r: Option<Block>)
    ensures
        LibcManager::allocated(*old(m), *final(m), size, r),
{
    m.allocate(size)
}

/// Takes the allocator's answer to a request for a block.
pub fn malloc_at(m: &mut LibcManager, block: Block, addr: usize) -> (r: usize)
    ensures
        r == addr,
        *final(m) == old(m).answered(block, addr),
{
    m.allocated_at(block, addr)
}

/// The block to free at an address, if any.
pub fn free_sized(m: &mut LibcManager, addr: usize, size: usize) -> (r: Option<Block>)
    ensures
        LibcManager::freed(*old(m), *final(m), addr, size, r),
{
    m.deallocate(addr, size)
}

/// The block to free for a string buffer with its terminator, if any.
pub fn free_str(m: &mut LibcManager, addr: usize, len_with_nul: usize) -> (r: Option<Block>)
    ensures
        LibcManager::freed(*old(m), *final(m), addr, len_with_nul, r),
{
    free_sized(m, addr, len_with_nul)
}

pub fn libc_metrics(m: &LibcManager) -> (r: LibcMetricsSnapshot)
    ensures
        r.allocations == m.metrics.allocations,
        r.frees == m.metrics.frees,
        r.bytes_allocated == m.metrics.bytes_allocated,
        r.bytes_freed == m.metrics.bytes_freed,
        r.allocation_failures == m.metrics.allocation_failures,
        r.free_errors == m.metrics.free_errors,
{
    m.metrics_snapshot()
}

/// Changes the configuration to a valid one.
pub fn set_libc_config(m: &mut LibcManager, config: LibcConfig) -> (r: Result<(), &'static str>)
    ensures
        match r {
            Ok(_) => config.broken_rule() is None && *final(m) == (LibcManager {
                config,
                ..*old(m)
            }),
            Err(e) => config.broken_rule() == Some(e@) && *final(m) == *old(m),
        },
{
    m.set_config(config)
}

/// Sets up the libc subsystem with the default configuration.
pub fn init(global: &mut Option<LibcManager>)
    ensures
        match *old(global) {
            Some(_) => *final(global) == *old(global),
            None => *final(global) matches Some(m) && m.config == (LibcConfig {
                allocator_alignment: 16,
                track_metrics: true,
                log_allocations: false,
                max_allocation_size: usize::MAX,
            }) && m.metrics == (LibcMetrics {
                allocations: 0,
                frees: 0,
                bytes_allocated: 0,
                bytes_freed: 0,
                allocation_failures: 0,
                free_errors: 0,
            }),
        },
{
    let _ = init_libc(global, LibcConfig::default());
}

// ---------------------------------------------------------------------------
// Memory functions
// ---------------------------------------------------------------------------

/// Copies the first `n` bytes of `src` to `dst`.
pub fn memcpy(dst: &mut [u8], src: &[u8], n: usize)
    requires
        n <= old(dst)@.len(),
        n <= src@.len(),
    ensures
        final(dst)@ == src@.take(n as int) + old(dst)@.skip(n as int),
{
    let ghost before = dst@;
    let mut i: usize = 0;
    while i < n
        invariant
            i <= n,
            n <= src@.len(),
            n <= before.len(),
            dst@.len() == before.len(),
            forall|k: int|
                0 <= k < before.len() ==> #[trigger] dst@[k] == (if k < i {
                    src@[k]
                } else {
                    before[k]
                }),
        decreases n - i,
    {
        dst[i] = src[i];
        i += 1;
    }
    assert(dst@ =~= src@.take(n as int) + before.skip(n as int));
}

/// The buffer after `n` bytes were moved from `src` to `dst` within it.
pub open spec fn moved(buf: Seq<u8>, dst: int, src: int, n: int) -> Seq<u8> {
    Seq::new(
        buf.len(),
        |k: int|
            if dst <= k < dst + n {
                buf[src + (k - dst)]
            } else {
                buf[k]
            },
    )
}

/// Copies `n` bytes from offset `src` of a buffer to offset `dst`; the two ranges
/// may overlap.
pub fn memmove(buf: &mut [u8], dst: usize, src: usize, n: usize)
    requires
        dst + n <= old(buf)@.len(),
        src + n <= old(buf)@.len(),
    ensures
        final(buf)@ == moved(old(buf)@, dst as int, src as int, n as int),
{
    let ghost before = buf@;
    assert(before.len() == buf.len());
    if dst <= src {
        let mut i: usize = 0;
        while i < n
            invariant
                i <= n,
                dst <= src,
                dst + n <= before.len(),
                src + n <= before.len(),
                buf@.len() == before.len(),
                before.len() <= usize::MAX,
                forall|k: int|
                    0 <= k < before.len() ==> #[trigger] buf@[k] == (if dst <= k < dst + i {
                        before[src + (k - dst)]
                    } else {
                        before[k]
                    }),
            decreases n - i,
        {
            buf[dst + i] = buf[src + i];
            i += 1;
        }
    } else {
        let mut i: usize = n;
        while i > 0
            invariant
                i <= n,
                dst > src,
                dst + n <= before.len(),
                src + n <= before.len(),
                buf@.len() == before.len(),
                before.len() <= usize::MAX,
                forall|k: int|
                    0 <= k < before.len() ==> #[trigger] buf@[k] == (if dst + i <= k < dst + n {
                        before[src + (k - dst)]
                    } else {
                        before[k]
                    }),
            decreases i,
        {
            i -= 1;
            buf[dst + i] = buf[src + i];
        }
    }
    assert(buf@ =~= moved(before, dst as int, src as int, n as int));
}

/// The lowest eight bits of a number.
pub open spec fn low_byte(val: i32) -> u8 {
    (val & 0xFF) as u8
}

/// Fills the first `n` bytes with the lowest byte of `val`.
pub fn memset(dst: &mut [u8], val: i32, n: usize)
    requires
        n <= old(dst)@.len(),
    ensures
        final(dst)@ == Seq::new(n as nat, |i: int| low_byte(val)) + old(dst)@.skip(n as int),
{
    assert(0 <= (val & 0xFF) <= 255) by (bit_vector);
    let byte: u8 = (val & 0xFF) as u8;
    let ghost before = dst@;
    let mut i: usize = 0;
    while i < n
        invariant
            i <= n,
            n <= before.len(),
            dst@.len() == before.len(),
            forall|k: int|
                0 <= k < before.len() ==> #[trigger] dst@[k] == (if k < i {
                    byte
                } else {
                    before[k]
                }),
        decreases n - i,
    {
        dst[i] = byte;
        i += 1;
    }
    assert(dst@ =~= Seq::new(n as nat, |i: int| low_byte(val)) + before.skip(n as int));
}

/// `a` minus `b`.
fn difference(a: u8, b: u8) -> (r: i32)
    ensures
        r == a - b,
{
    a as i32 - b as i32
}

/// The first index from `i` on, below `n`, at which two byte strings differ.
pub open spec fn first_difference(a: Seq<u8>, b: Seq<u8>, i: int, n: int) -> Option<int>
    decreases n - i,
{
    if i >= n {
        None
    } else if a[i] != b[i] {
        Some(i)
    } else {
        first_difference(a, b, i + 1, n)
    }
}

/// Compares the first `n` bytes: the difference of the first two that differ, or
/// 0.
pub fn memcmp(a: &[u8], b: &[u8], n: usize) -> (r: i32)
    requires
        n <= a@.len(),
        n <= b@.len(),
    ensures
        r == (match first_difference(a@, b@, 0int, n + 0) {
            Some(i) => a@[i] - b@[i],
            None => 0int,
        }),
{
    let mut i: usize = 0;
    while i < n
        invariant
            i <= n,
            n <= a@.len(),
            n <= b@.len(),
            first_difference(a@, b@, 0int, n + 0) == first_difference(a@, b@, i + 0, n + 0),
        decreases n - i,
    {
        let ca: u8 = a[i];
        let cb: u8 = b[i];
        if ca != cb {
            return difference(ca, cb);
        }
        i += 1;
    }
    0
}

// ---------------------------------------------------------------------------
// String functions
// ---------------------------------------------------------------------------

/// The bytes have a terminator.
pub open spec fn terminated(s: Seq<u8>) -> bool {
    exists|i: int| 0 <= i < s.len() && #[trigger] s[i] == 0
}

/// The index of the first terminator from `i` on, or the end.
pub open spec fn nul_from(s: Seq<u8>, i: int) -> int
    decreases s.len() - i,
{
    if i < s.len() && s[i] != 0 {
        nul_from(s, i + 1)
    } else {
        i
    }
}

proof fn lemma_nul(s: Seq<u8>, i: int)
    requires
        0 <= i <= s.len(),
    ensures
        i <= nul_from(s, i) <= s.len(),
        forall|k: int| i <= k < nul_from(s, i) ==> s[k] != 0,
        nul_from(s, i) < s.len() ==> s[nul_from(s, i)] == 0,
    decreases s.len() - i,
{
    if i < s.len() && s[i] != 0 {
        lemma_nul(s, i + 1);
    }
}

/// The length of a terminated string, without its terminator.
pub fn strlen(s: &[u8]) -> (r: usize)
    requires
        terminated(s@),
    ensures
        r == nul_from(s@, 0),
        r < s@.len(),
{
    proof {
        lemma_nul(s@, 0);
    }
    let mut n: usize = 0;
    while s[n] != 0
        invariant
            n < s@.len(),
            nul_from(s@, 0) == nul_from(s@, n as int),
            terminated(s@),
            forall|k: int| 0 <= k < n ==> s@[k] != 0,
        decreases s@.len() - n,
    {
        proof {
            let z = choose|z: int| 0 <= z < s@.len() && #[trigger] s@[z] == 0;
            assert(z > n);
        }
        n += 1;
    }
    n
}

/// Compares two terminated strings: the difference of the first two bytes that
/// differ, terminators included, or 0.
pub fn strcmp(a: &[u8], b: &[u8]) -> (r: i32)
    requires
        terminated(a@),
        terminated(b@),
    ensures
        ({
            let la = nul_from(a@, 0int);
            let lb = nul_from(b@, 0int);
            r == (match first_difference(
                a@,
                b@,
                0int,
                (if la < lb {
                    la
                } else {
                    lb
                }) + 1,
            ) {
                Some(i) => a@[i] - b@[i],
                None => 0int,
            })
        }),
{
    let ghost la = nul_from(a@, 0int);
    let ghost lb = nul_from(b@, 0int);
    let ghost n = (if la < lb {
        la
    } else {
        lb
    }) + 1;
    proof {
        lemma_nul(a@, 0int);
        lemma_nul(b@, 0int);
    }
    let mut i: usize = 0;
    loop
        invariant
            la == nul_from(a@, 0int),
            lb == nul_from(b@, 0int),
            n == (if la < lb {
                la
            } else {
                lb
            }) + 1,
            0 <= la < a@.len(),
            0 <= lb < b@.len(),
            a@[la] == 0,
            b@[lb] == 0,
            forall|k: int| 0 <= k < la ==> a@[k] != 0,
            forall|k: int| 0 <= k < lb ==> b@[k] != 0,
            i < n,
            first_difference(a@, b@, 0int, n) == first_difference(a@, b@, i + 0, n),
        decreases n - i,
    {
        let ca: u8 = a[i];
        let cb: u8 = b[i];
        if ca != cb {
            return difference(ca, cb);
        }
        if ca == 0 {
            assert(first_difference(a@, b@, i + 1, n) is None);
            return 0;
        }
        i += 1;
    }
}

/// Copies at most `n` bytes of a string; what is left of the `n` bytes after its
/// terminator is filled with zeros.
pub fn strncpy(dst: &mut [u8], src: &[u8], n: usize)
    requires
        n <= old(dst)@.len(),
        terminated(src@) || n <= src@.len(),
    ensures
        final(dst)@ == Seq::new(
            n as nat,
            |i: int|
                if i < nul_from(src@, 0) {
                    src@[i]
                } else {
                    0
                },
        ) + old(dst)@.skip(n as int),
{
    let ghost before = dst@;
    let ghost len = nul_from(src@, 0);
    proof {
        lemma_nul(src@, 0);
    }
    let mut i: usize = 0;
    let mut ended: bool = false;
    while i < n
        invariant
            i <= n,
            n <= before.len(),
            dst@.len() == before.len(),
            len == nul_from(src@, 0),
            0 <= len <= src@.len(),
            forall|k: int| 0 <= k < len ==> src@[k] != 0,
            len < src@.len() ==> src@[len] == 0,
            len < src@.len() || n <= src@.len(),
            ended ==> len < i,
            !ended ==> i <= len,
            forall|k: int|
                0 <= k < before.len() ==> #[trigger] dst@[k] == (if k < i {
                    if k < len {
                        src@[k]
                    } else {
                        0
                    }
                } else {
                    before[k]
                }),
        decreases n - i,
    {
        if ended {
            dst[i] = 0;
        } else {
            let c: u8 = src[i];
            dst[i] = c;
            if c == 0 {
                ended = true;
            }
        }
        i += 1;
    }
    assert(dst@ =~= Seq::new(
        n as nat,
        |i: int|
            if i < nul_from(src@, 0) {
                src@[i]
            } else {
                0
            },
    ) + before.skip(n as int));
}

/// Two strings compare as equal just where they are equal up to and with their
/// first terminators.
pub proof fn law_equal_strings_compare_equal(a: Seq<u8>, b: Seq<u8>)
    requires
        terminated(a),
        terminated(b),
    ensures
        ({
            let la = nul_from(a, 0);
            let lb = nul_from(b, 0);
            first_difference(
                a,
                b,
                0,
                (if la < lb {
                    la
                } else {
                    lb
                }) + 1,
            ) is None <==> a.take(la) == b.take(lb)
        }),
{
    let la = nul_from(a, 0);
    let lb = nul_from(b, 0);
    lemma_nul(a, 0);
    lemma_nul(b, 0);
    let n = (if la < lb {
        la
    } else {
        lb
    }) + 1;
    lemma_first_difference(a, b, 0, n);
    if a.take(la) == b.take(lb) {
        assert(a.take(la).len() == b.take(lb).len());
        assert forall|k: int| 0 <= k < n implies a[k] == b[k] by {
            if k < la {
                assert(a.take(la)[k] == b.take(lb)[k]);
            }
        }
    }
    if first_difference(a, b, 0, n) is None {
        assert(a[n - 1] == b[n - 1]);
        assert(la == lb);
        assert(a.take(la) =~= b.take(lb));
    }
}

proof fn lemma_first_difference(a: Seq<u8>, b: Seq<u8>, i: int, n: int)
    ensures
        match first_difference(a, b, i, n) {
            Some(k) => i <= k < n && a[k] != b[k] && forall|j: int|
                i <= j < k ==> #[trigger] a[j] == b[j],
            None => forall|j: int| i <= j < n ==> #[trigger] a[j] == b[j],
        },
    decreases n - i,
{
    if i < n && a[i] == b[i] {
        lemma_first_difference(a, b, i + 1, n);
    }
}

/// Copying takes as many bytes as it is told from the start of the one to the start of the
/// other and leaves what is behind; setting puts the low byte of a number there.
pub proof fn law_copied_bytes_are_the_same(
    dst: &mut [u8],
    src: &[u8],
    n: usize,
    other: &mut [u8],
    val: i32,
    i: int,
)
    requires
        n <= old(dst)@.len(),
        n <= src@.len(),
        call_ensures(memcpy, (dst, src, n), ()),
        n <= old(other)@.len(),
        call_ensures(memset, (other, val, n), ()),
        0 <= i,
    ensures
        final(dst)@.len() == old(dst)@.len(),
        i < n ==> final(dst)@[i] == src@[i],
        n <= i < old(dst)@.len() ==> final(dst)@[i] == old(dst)@[i],
        final(other)@.len() == old(other)@.len(),
        i < n && 0 <= val ==> final(other)@[i] == val as int % 256,
        n <= i < old(other)@.len() ==> final(other)@[i] == old(other)@[i],
{
    assert(val >= 0 ==> (val & 0xFF) as u8 == val % 256) by (bit_vector);
}

/// Moving within a buffer leaves at the goal the bytes that were at the source before, even
/// where the two overlap, and nothing else changes.
pub proof fn law_moved_bytes_are_as_before(
    buf: &mut [u8],
    dst: usize,
    src: usize,
    n: usize,
    i: int,
)
    requires
        dst + n <= old(buf)@.len(),
        src + n <= old(buf)@.len(),
        call_ensures(memmove, (buf, dst, src, n), ()),
        0 <= i,
    ensures
        final(buf)@.len() == old(buf)@.len(),
        i < n ==> final(buf)@[dst + i] == old(buf)@[src + i],
        i < old(buf)@.len() && (i < dst || i >= dst + n) ==> final(buf)@[i] == old(buf)@[i],
{
}

proof fn lemma_difference(a: Seq<u8>, b: Seq<u8>, i: int, n: int)
    requires
        0 <= i,
    ensures
        match first_difference(a, b, i, n) {
            Some(k) => i <= k < n && a[k] != b[k] && forall|j: int|
                i <= j < k ==> #[trigger] a[j] == b[j],
            None => forall|j: int| i <= j < n ==> #[trigger] a[j] == b[j],
        },
        first_difference(b, a, i, n) == first_difference(a, b, i, n),
    decreases n - i,
{
    if i < n && a[i] == b[i] {
        lemma_difference(a, b, i + 1, n);
    }
}

/// Bytes compare as their first difference does: equal where there is none, less where the
/// lesser byte is in the first; the other way round the answer has the other sign.
pub proof fn law_first_difference_decides(
    a: &[u8],
    b: &[u8],
    n: usize,
    r: i32,
    back: i32,
    k: int,
)
    requires
        n <= a@.len(),
        n <= b@.len(),
        call_ensures(memcmp, (a, b, n), r),
        call_ensures(memcmp, (b, a, n), back),
        0 <= k < n,
        forall|i: int| 0 <= i < k ==> #[trigger] a@[i] == b@[i],
    ensures
        a@[k] < b@[k] ==> r < 0,
        a@[k] > b@[k] ==> r > 0,
        a@[k] != b@[k] ==> r == a@[k] - b@[k],
        r == 0 ==> a@[k] == b@[k],
        back == -r,
{
    lemma_difference(a@, b@, 0, n + 0);
    if let Some(d) = first_difference(a@, b@, 0, n + 0) {
        if a@[k] != b@[k] {
            assert(d >= k);
            assert(d <= k);
        }
    } else {
        assert(a@[k] == b@[k]);
    }
}

/// Bytes that are the same compare equal.
pub proof fn law_same_bytes_compare_equal(a: &[u8], b: &[u8], n: usize, r: i32)
    requires
        n <= a@.len(),
        n <= b@.len(),
        call_ensures(memcmp, (a, b, n), r),
    ensures
        r == 0 <==> a@.take(n + 0) == b@.take(n + 0),
{
    lemma_difference(a@, b@, 0, n + 0);
    if r == 0 {
        assert(a@.take(n + 0) =~= b@.take(n + 0));
    } else if a@.take(n + 0) == b@.take(n + 0) {
        let d = first_difference(a@, b@, 0, n + 0)->0;
        assert(a@.take(n + 0)[d] == b@.take(n + 0)[d]);
    }
}

/// The length of a string is where its first zero is.
pub proof fn law_length_is_where_the_zero_is(s: &[u8], r: usize, i: int)
    requires
        terminated(s@),
        call_ensures(strlen, (s,), r),
        0 <= i < r,
    ensures
        r < s@.len(),
        s@[r as int] == 0,
        s@[i] != 0,
{
    lemma_nul(s@, 0);
}

/// Strings compare equal exactly where they have the same bytes up to their zeros; else as
/// the first bytes that differ, where a string that ends counts as less.
pub proof fn law_strings_compare_by_bytes(a: &[u8], b: &[u8], r: i32, back: i32, la: usize, lb: usize)
    requires
        terminated(a@),
        terminated(b@),
        call_ensures(strcmp, (a, b), r),
        call_ensures(strcmp, (b, a), back),
        call_ensures(strlen, (a,), la),
        call_ensures(strlen, (b,), lb),
    ensures
        r == 0 <==> a@.take(la + 0) == b@.take(lb + 0),
        back == -r,
        forall|k: int|
            0 <= k <= la && k <= lb && (forall|j: int| 0 <= j < k ==> #[trigger] a@[j] == b@[j])
                && #[trigger] a@[k] != b@[k] ==> r == a@[k] - b@[k],
{
    lemma_nul(a@, 0);
    lemma_nul(b@, 0);
    let n = (if la < lb {
        la + 0
    } else {
        lb + 0
    }) + 1;
    lemma_difference(a@, b@, 0, n);
    let (x, y) = (a@.take(la + 0), b@.take(lb + 0));
    if r == 0 {
        assert(a@[n - 1] == b@[n - 1]);
        assert(la == lb);
        assert(x =~= y);
    } else if x == y {
        let d = first_difference(a@, b@, 0, n)->0;
        assert(x.len() == y.len());
        if d < la {
            assert(x[d] == y[d]);
        }
    }
    assert forall|k: int|
        0 <= k <= la && k <= lb && (forall|j: int| 0 <= j < k ==> #[trigger] a@[j] == b@[j])
            && #[trigger] a@[k] != b@[k] implies r == a@[k] - b@[k] by {
        match first_difference(a@, b@, 0, n) {
            Some(d) => {
                assert(d >= k);
                assert(d <= k);
            },
            None => {
                assert(a@[k] == b@[k]);
            },
        }
    }
}

/// A bounded copy takes the bytes of a string up to its zero and fills the rest with zeros,
/// but no more than it is told.
pub proof fn law_bounded_copy_is_filled_with_zeros(
    dst: &mut [u8],
    src: &[u8],
    n: usize,
    len: usize,
    i: int,
)
    requires
        n <= old(dst)@.len(),
        terminated(src@),
        call_ensures(strncpy, (dst, src, n), ()),
        call_ensures(strlen, (src,), len),
        0 <= i < old(dst)@.len(),
    ensures
        final(dst)@.len() == old(dst)@.len(),
        final(dst)@[i] == (if i >= n {
            old(dst)@[i]
        } else if i < len {
            src@[i]
        } else {
            0u8
        }),
{
}

/// Memory is granted exactly for at least one byte and no more than is allowed, where a
/// block of that size and alignment can be; what is refused but for its lack of bytes is
/// counted as a failure.
pub proof fn law_memory_is_granted_as_allowed(
    m: &mut LibcManager,
    size: usize,
    r: Option<Block>,
    by_name: Option<Block>,
    n: &mut LibcManager,
)
    requires
        call_ensures(LibcManager::allocate, (m, size), r),
        *old(n) == *old(m),
        call_ensures(malloc, (n, size), by_name),
    ensures
        r is Some <==> 0 < size <= old(m).config.max_allocation_size && valid_layout(
            size,
            old(m).config.allocator_alignment,
        ),
        r matches Some(b) ==> b.size == size && b.align == old(m).config.allocator_alignment
            && *final(m) == *old(m),
        r is None && size > 0 && old(m).config.track_metrics && old(m).metrics.allocation_failures
            < u64::MAX ==> final(m).metrics.allocation_failures == old(
            m).metrics.allocation_failures + 1,
        size == 0 ==> *final(m) == *old(m),
        by_name == r,
        *final(n) == *final(m),
{
}

/// A block that was got is counted with its bytes, and one that was not as a failure; the
/// address is handed on as it came.
pub proof fn law_got_block_is_counted(m: &mut LibcManager, block: Block, addr: usize, r: usize)
    requires
        call_ensures(LibcManager::allocated_at, (m, block, addr), r),
        old(m).config.track_metrics,
    ensures
        r == addr,
        addr != 0 && old(m).metrics.allocations < u64::MAX ==> final(m).metrics.allocations == old(
            m).metrics.allocations + 1,
        addr != 0 && old(m).metrics.bytes_allocated + block.size <= u64::MAX ==> final(
            m).metrics.bytes_allocated == old(m).metrics.bytes_allocated + block.size,
        addr == 0 ==> final(m).metrics.allocations == old(m).metrics.allocations && final(
            m).metrics.bytes_allocated == old(m).metrics.bytes_allocated,
        addr == 0 && old(m).metrics.allocation_failures < u64::MAX ==> final(
            m).metrics.allocation_failures == old(m).metrics.allocation_failures + 1,
        final(m).metrics.frees == old(m).metrics.frees,
{
}

/// A block is given back with the size it was got with, and counted with its bytes; without
/// an address or a size that could have been granted it is an error, and counted as one.
pub proof fn law_given_back_block_is_counted(
    m: &mut LibcManager,
    addr: usize,
    size: usize,
    r: Option<Block>,
)
    requires
        call_ensures(LibcManager::deallocate, (m, addr, size), r) || call_ensures(
            free_sized,
            (m, addr, size),
            r,
        ) || call_ensures(free_str, (m, addr, size), r),
        old(m).config.track_metrics,
    ensures
        r is Some <==> addr != 0 && 0 < size <= old(m).config.max_allocation_size && valid_layout(
            size,
            old(m).config.allocator_alignment,
        ),
        r matches Some(b) ==> b.size == size && b.align == old(m).config.allocator_alignment,
        r is Some && old(m).metrics.frees < u64::MAX ==> final(m).metrics.frees == old(
            m).metrics.frees + 1,
        r is Some && old(m).metrics.bytes_freed + size <= u64::MAX ==> final(m).metrics.bytes_freed
            == old(m).metrics.bytes_freed + size,
        r is None ==> final(m).metrics.frees == old(m).metrics.frees && final(
            m).metrics.bytes_freed == old(m).metrics.bytes_freed,
        r is None && old(m).metrics.free_errors < u64::MAX ==> final(m).metrics.free_errors == old(
            m).metrics.free_errors + 1,
        final(m).metrics.allocations == old(m).metrics.allocations,
{
}

} // verus!
