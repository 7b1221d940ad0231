//! Physical frame allocator: a bitmap of frames with reference counts for
//! copy-on-write sharing.
//!
//! Reference counts are kept once the kernel heap is ready; before that a frame
//! is simply handed out and freed.
use crate::bits;
use crate::memory::paging;
use crate::memory::refcount;
use crate::memory::refcount::RefCounts;
use crate::text;
use vstd::prelude::*;
use vstd::string::*;

verus! {

/// Frame size in bytes.
pub const PAGE_SIZE: usize = 4096;

/// Most frames that are managed: 2 GiB of memory.
pub const MAX_FRAMES: usize = 524288;

/// Words of the bitmap.
pub const BITMAP_SIZE: usize = 8192;

/// Default for the number of frames.
pub const DEFAULT_MAX_FRAMES: usize = 524288;

/// Frames in the first MiB.
pub const FIRST_MIB_FRAMES: usize = 256;

/// Number of a frame.
pub type FrameIndex = usize;

/// Configuration of the frame allocator.
#[derive(Debug, Clone, Copy, PartialEq, Eq)]
pub struct FrameConfig {
    pub max_frames: usize,
    pub enable_refcounting: bool,
    pub collect_metrics: bool,
    pub log_allocations: bool,
    pub log_frees: bool,
    pub reserve_first_mib: bool,
}

impl Default for FrameConfig {
    fn default() -> (r: Self)
        ensures
            r == (FrameConfig {
                max_frames: DEFAULT_MAX_FRAMES,
                enable_refcounting: true,
                collect_metrics: true,
                log_allocations: false,
                log_frees: false,
                reserve_first_mib: true,
            }),
    {
        FrameConfig {
            max_frames: DEFAULT_MAX_FRAMES,
            enable_refcounting: true,
            collect_metrics: true,
            log_allocations: false,
            log_frees: false,
            reserve_first_mib: true,
        }
    }
}

impl FrameConfig {
    /// The first rule that the configuration breaks, if any.
    pub open spec fn broken_rule(&self) -> Option<Seq<char>> {
        if self.max_frames == 0 {
            Some("max_frames must be > 0"@)
        } else {
            None
        }
    }

    pub fn validate(&self) -> (r: Result<(), &'static str>)
        ensures
            match r {
                Ok(_) => self.broken_rule() is None,
                Err(e) => self.broken_rule() == Some(e@),
            },
    {
        if self.max_frames == 0 {
            return Err("max_frames must be > 0");
        }
        Ok(())
    }

    pub fn with_metrics(self) -> (r: Self)
        ensures
            r == (FrameConfig { collect_metrics: true, ..self }),
    {
        FrameConfig { collect_metrics: true, ..self }
    }

    pub fn with_logging(self) -> (r: Self)
        ensures
            r == (FrameConfig { log_allocations: true, log_frees: true, ..self }),
    {
        FrameConfig { log_allocations: true, log_frees: true, ..self }
    }
}

/// A physical frame, known by the address of its first byte.
#[derive(Debug, Clone, Copy, PartialEq, Eq, Structural)]
pub struct PhysFrame {
    pub start: u64,
}

impl PhysFrame {
    /// The number of the frame.
    pub open spec fn index(&self) -> int {
        self.start as int / 4096
    }
}

/// Errors of the frame allocator.
#[derive(Debug, Clone, PartialEq, Eq)]
pub enum FrameError {
    OutOfFrames,
    InvalidFrameIndex { index: usize, max: usize },
    AlreadyFree,
    RefcountUnderflow { frame: PhysFrame },
    NotInitialised,
    Config(String),
}

pub type FrameResult<T> = Result<T, FrameError>;

/// Kind of a region of the memory map.
#[derive(Debug, Clone, Copy, PartialEq, Eq, Structural)]
pub enum MemoryRegionKind {
    Usable,
    Bootloader,
    Reserved,
    UnknownUefi(u32),
    UnknownBios(u32),
}

/// A region `[start, end)` of the memory map.
#[derive(Debug, Clone, Copy, PartialEq, Eq, Structural)]
pub struct MemoryRegion {
    pub start: u64,
    pub end: u64,
    pub kind: MemoryRegionKind,
}

/// The frame with number `idx`.
pub fn phys_frame_from_index(idx: FrameIndex) -> (r: PhysFrame)
    requires
        idx * 4096 < paging::PHYS_LIMIT,
    ensures
        r.start == idx * 4096,
        r.index() == idx,
{
    PhysFrame { start: paging::frame_start(idx as u64 * 4096) }
}

/// The number of a frame.
pub fn phys_frame_to_index(frame: PhysFrame) -> (r: FrameIndex)
    requires
        frame.index() <= usize::MAX,
    ensures
        r == frame.index(),
{
    (frame.start / 4096) as usize
}

/// Word and bit of a frame in the bitmap.
pub fn frame_to_word_bit(frame: FrameIndex) -> (r: (usize, usize))
    ensures
        r.0 == frame / 64,
        r.1 == frame % 64,
{
    (frame / 64, frame % 64)
}

/// Statistics of the frame allocator.
#[derive(Debug, Clone, Copy, PartialEq, Eq)]
pub struct FrameStats {
    pub total_frames: usize,
    pub free_frames: usize,
    pub used_frames: usize,
    pub refcounted_frames: usize,
    pub total_allocations: u64,
    pub total_frees: u64,
}

impl FrameStats {
    /// The numbers as lines of text.
    pub fn describe(&self) -> (r: String)
        ensures
            r@ == "Frame Allocator Statistics:\n  Total frames: "@ + text::decimal(
                self.total_frames as nat,
            ) + "\n  Free frames: "@ + text::decimal(self.free_frames as nat)
                + "\n  Used frames: "@ + text::decimal(self.used_frames as nat)
                + "\n  Refcounted frames: "@ + text::decimal(self.refcounted_frames as nat)
                + "\n  Total allocations: "@ + text::decimal(self.total_allocations as nat)
                + "\n  Total frees: "@ + text::decimal(self.total_frees as nat) + "\n"@,
    {
        let mut out = "Frame Allocator Statistics:\n  Total frames: ".to_owned();
        text::push_decimal(&mut out, self.total_frames as u64);
        out.append("\n  Free frames: ");
        text::push_decimal(&mut out, self.free_frames as u64);
        out.append("\n  Used frames: ");
        text::push_decimal(&mut out, self.used_frames as u64);
        out.append("\n  Refcounted frames: ");
        text::push_decimal(&mut out, self.refcounted_frames as u64);
        out.append("\n  Total allocations: ");
        text::push_decimal(&mut out, self.total_allocations);
        out.append("\n  Total frees: ");
        text::push_decimal(&mut out, self.total_frees);
        out.append("\n");
        out
    }
}

// ---------------------------------------------------------------------------
// The bitmap
// ---------------------------------------------------------------------------

/// How many of the first `n` entries are true.
pub open spec fn count_true(s: Seq<bool>, n: int) -> int
    decreases n,
{
    if n <= 0 {
        0
    } else {
        count_true(s, n - 1) + if s[n - 1] {
            1int
        } else {
            0int
        }
    }
}

pub(crate) proof fn lemma_count_bounds(s: Seq<bool>, n: int)
    requires
        0 <= n <= s.len(),
    ensures
        0 <= count_true(s, n) <= n,
    decreases n,
{
    if n > 0 {
        lemma_count_bounds(s, n - 1);
    }
}

proof fn lemma_count_update(s: Seq<bool>, i: int, b: bool, n: int)
    requires
        0 <= i < s.len(),
        0 <= n <= s.len(),
    ensures
        count_true(s.update(i, b), n) == count_true(s, n) + (if i < n {
            (if b {
                1int
            } else {
                0int
            }) - (if s[i] {
                1int
            } else {
                0int
            })
        } else {
            0int
        }),
    decreases n,
{
    if n > 0 {
        lemma_count_update(s, i, b, n - 1);
    }
}

/// A usable region holds frame `i`.
pub open spec fn usable(regions: Seq<MemoryRegion>, i: int) -> bool {
    exists|k: int|
        0 <= k < regions.len() && (#[trigger] regions[k]).kind == MemoryRegionKind::Usable
            && regions[k].start / 4096 <= i < regions[k].end / 4096
}

/// Frames below `max` in a region.
pub open spec fn frames_in(region: MemoryRegion, max: int) -> int {
    let lo = region.start as int / 4096;
    let hi = if region.end as int / 4096 < max {
        region.end as int / 4096
    } else {
        max
    };
    if region.kind == MemoryRegionKind::Usable && lo < hi {
        hi - lo
    } else {
        0
    }
}

/// Frames below `max` in the first `n` regions.
pub open spec fn frames_in_all(regions: Seq<MemoryRegion>, max: int, n: int) -> int
    decreases n,
{
    if n <= 0 {
        0
    } else {
        frames_in_all(regions, max, n - 1) + frames_in(regions[n - 1], max)
    }
}

/// Bitmap of frames: a set bit stands for a frame in use.
#[derive(Debug)]
pub struct RawBitmapAllocator {
    pub bitmap: Vec<u64>,
    pub next_hint: usize,
    pub total_frames: usize,
    pub used_frames: usize,
    pub max_frames: usize,
    pub phys_offset: u64,
}

impl RawBitmapAllocator {
    /// For each frame whether it is in use.
    pub open spec fn in_use(&self) -> Seq<bool> {
        Seq::new(
            MAX_FRAMES as nat,
            |i: int| bits::bit(self.bitmap@[i / 64], i % 64),
        )
    }

    /// Frame `i` can be handed out.
    pub open spec fn free_at(&self, i: int) -> bool {
        0 <= i < self.max_frames && !self.in_use()[i]
    }

    /// The bitmap has all its words, and no more frames count as used than are in
    /// use.
    pub open spec fn wf(&self) -> bool {
        &&& self.bitmap@.len() == BITMAP_SIZE
        &&& self.max_frames <= MAX_FRAMES
        &&& self.used_frames <= count_true(self.in_use(), MAX_FRAMES as int)
    }

    /// Only the bitmap and the count of used frames may differ from `pre`.
    pub open spec fn same_setup(&self, pre: RawBitmapAllocator) -> bool {
        &&& self.total_frames == pre.total_frames
        &&& self.max_frames == pre.max_frames
        &&& self.phys_offset == pre.phys_offset
    }

    /// An allocator with no memory: every frame counts as in use.
    pub fn new() -> (r: Self)
        ensures
            r.wf(),
            r.in_use() == Seq::new(MAX_FRAMES as nat, |i: int| true),
            r.next_hint == 0,
            r.total_frames == 0,
            r.used_frames == 0,
            r.max_frames == MAX_FRAMES,
            r.phys_offset == 0,
    {
        let r = RawBitmapAllocator {
            bitmap: vec![u64::MAX; 8192],
            next_hint: 0,
            total_frames: 0,
            used_frames: 0,
            max_frames: MAX_FRAMES,
            phys_offset: 0,
        };
        proof {
            r.lemma_all_used();
        }
        r
    }

    proof fn lemma_all_used(&self)
        requires
            self.bitmap@.len() == BITMAP_SIZE,
            forall|w: int| 0 <= w < BITMAP_SIZE ==> #[trigger] self.bitmap@[w] == u64::MAX,
        ensures
            self.in_use() == Seq::new(MAX_FRAMES as nat, |i: int| true),
            count_true(self.in_use(), MAX_FRAMES as int) >= 0,
    {
        assert forall|i: int| 0 <= i < MAX_FRAMES implies self.in_use()[i] by {
            assert(self.bitmap@[i / 64] == u64::MAX);
            bits::lemma_ones_and_zeros((i % 64) as u64);
        }
        assert(self.in_use() =~= Seq::new(MAX_FRAMES as nat, |i: int| true));
        lemma_count_bounds(self.in_use(), MAX_FRAMES as int);
    }

    /// An allocator with a limit on the number of frames.
    pub fn with_max_frames(max_frames: usize) -> (r: Self)
        ensures
            r.wf(),
            r.in_use() == Seq::new(MAX_FRAMES as nat, |i: int| true),
            r.next_hint == 0,
            r.total_frames == 0,
            r.used_frames == 0,
            r.max_frames == (if max_frames < MAX_FRAMES {
                max_frames
            } else {
                MAX_FRAMES
            }),
            r.phys_offset == 0,
    {
        let mut this = Self::new();
        let ghost before = this.in_use();
        this.max_frames = if max_frames < MAX_FRAMES {
            max_frames
        } else {
            MAX_FRAMES
        };
        assert(this.in_use() =~= before);
        this
    }

    /// Sets or clears the bit of a frame.
    fn put(&mut self, frame: FrameIndex, used: bool)
        requires
            old(self).bitmap@.len() == BITMAP_SIZE,
            frame < MAX_FRAMES,
        ensures
            *final(self) == (RawBitmapAllocator { bitmap: final(self).bitmap, ..*old(self) }),
            final(self).bitmap@.len() == BITMAP_SIZE,
            final(self).in_use() == old(self).in_use().update(frame as int, used),
            count_true(final(self).in_use(), MAX_FRAMES as int) == count_true(
                old(self).in_use(),
                MAX_FRAMES as int,
            ) + (if used {
                1int
            } else {
                0int
            }) - (if old(self).in_use()[frame as int] {
                1int
            } else {
                0int
            }),
    {
        let (word, bit) = frame_to_word_bit(frame);
        let b: u64 = bit as u64;
        let was: u64 = self.bitmap[word];
        let now: u64 = if used {
            was | (1u64 << b)
        } else {
            was & !(1u64 << b)
        };
        self.bitmap.set(word, now);
        proof {
            let next = old(self).in_use().update(frame as int, used);
            assert forall|i: int| 0 <= i < MAX_FRAMES implies self.in_use()[i] == next[i] by {
                bits::lemma_set(was, b, (i % 64) as u64);
                bits::lemma_clear(was, b, (i % 64) as u64);
                if i / 64 == word && i % 64 == bit {
                    assert(i == frame);
                }
            }
            assert(self.in_use() =~= next);
            lemma_count_update(old(self).in_use(), frame as int, used, MAX_FRAMES as int);
        }
    }

    /// Marks a frame as free; a frame that was in use no longer counts as used.
    pub fn mark_free(&mut self, frame: FrameIndex)
        requires
            old(self).wf(),
        ensures
            final(self).wf(),
            final(self).same_setup(*old(self)),
            final(self).next_hint == old(self).next_hint,
            if frame < old(self).max_frames {
                &&& final(self).in_use() == old(self).in_use().update(frame as int, false)
                &&& final(self).used_frames == (if old(self).in_use()[frame as int] && old(self).used_frames > 0 {
                    old(self).used_frames - 1
                } else {
                    old(self).used_frames as int
                })
            } else {
                *final(self) == *old(self)
            },
    {
        if frame >= self.max_frames {
            return;
        }
        if !self.is_free(frame) {
            self.put(frame, false);
            if self.used_frames > 0 {
                self.used_frames -= 1;
            }
            proof {
                lemma_count_bounds(self.in_use(), MAX_FRAMES as int);
            }
        } else {
            assert(self.in_use().update(frame as int, false) =~= self.in_use());
        }
    }

    /// Marks a frame as in use; a frame that was free then counts as used.
    pub fn mark_used(&mut self, frame: FrameIndex)
        requires
            old(self).wf(),
        ensures
            final(self).wf(),
            final(self).same_setup(*old(self)),
            final(self).next_hint == old(self).next_hint,
            if frame < old(self).max_frames {
                &&& final(self).in_use() == old(self).in_use().update(frame as int, true)
                &&& final(self).used_frames == (if !old(self).in_use()[frame as int] {
                    old(self).used_frames + 1
                } else {
                    old(self).used_frames as int
                })
            } else {
                *final(self) == *old(self)
            },
    {
        if frame >= self.max_frames {
            return;
        }
        if self.is_free(frame) {
            self.put(frame, true);
            proof {
                lemma_count_bounds(self.in_use(), MAX_FRAMES as int);
            }
            self.used_frames += 1;
        } else {
            assert(self.in_use().update(frame as int, true) =~= self.in_use());
        }
    }

    /// Whether a frame can be handed out.
    pub fn is_free(&self, frame: FrameIndex) -> (r: bool)
        requires
            self.wf(),
        ensures
            r == self.free_at(frame as int),
    {
        if frame >= self.max_frames {
            return false;
        }
        let (word, bit) = frame_to_word_bit(frame);
        (self.bitmap[word] >> (bit as u64)) & 1 == 0
    }

    /// Frame `i` is the next to be handed out: the first free one from the hint
    /// up, or from 0 up to the hint where there is none.
    pub open spec fn is_next(&self, i: int) -> bool {
        &&& self.free_at(i)
        &&& if self.next_hint <= i {
            &&& forall|j: int| self.next_hint <= j < i ==> !#[trigger] self.free_at(j)
        } else {
            &&& forall|j: int|
                self.next_hint <= j < self.max_frames ==> !#[trigger] self.free_at(j)
            &&& forall|j: int| 0 <= j < i ==> !#[trigger] self.free_at(j)
        }
    }

    /// No frame can be handed out.
    pub open spec fn exhausted(&self) -> bool {
        forall|j: int| 0 <= j < self.max_frames ==> !#[trigger] self.free_at(j)
    }

    /// `post` is `pre` with frame `i` handed out.
    pub open spec fn taken(pre: RawBitmapAllocator, post: RawBitmapAllocator, i: int) -> bool {
        &&& post.same_setup(pre)
        &&& post.in_use() == pre.in_use().update(i, true)
        &&& post.used_frames == pre.used_frames + 1
        &&& post.next_hint == i + 1
    }

    /// What an allocation returns and leaves behind.
    pub open spec fn alloc_outcome(
        pre: RawBitmapAllocator,
        post: RawBitmapAllocator,
        r: Option<PhysFrame>,
    ) -> bool {
        match r {
            Some(frame) => {
                &&& frame.start == frame.index() * 4096
                &&& pre.is_next(frame.index())
                &&& RawBitmapAllocator::taken(pre, post, frame.index())
            },
            None => pre.exhausted() && post == pre,
        }
    }

    fn find_free(&self, from: usize, to: usize) -> (r: Option<usize>)
        requires
            self.wf(),
        ensures
            match r {
                Some(i) => from <= i < to && self.free_at(i as int) && forall|j: int|
                    from <= j < i ==> !#[trigger] self.free_at(j),
                None => forall|j: int| from <= j < to ==> !#[trigger] self.free_at(j),
            },
    {
        let mut i: usize = from;
        while i < to
            invariant
                self.wf(),
                from <= i,
                i <= to || i == from,
                forall|j: int| from <= j < i ==> !#[trigger] self.free_at(j),
            decreases to - i,
        {
            if self.is_free(i) {
                return Some(i);
            }
            i += 1;
        }
        None
    }

    /// Hands out a frame.
    pub fn alloc_frame(&mut self) -> (r: Option<PhysFrame>)
        requires
            old(self).wf(),
        ensures
            final(self).wf(),
            RawBitmapAllocator::alloc_outcome(*old(self), *final(self), r),
    {
        let found: Option<usize> = match self.find_free(self.next_hint, self.max_frames) {
            Some(i) => Some(i),
            None => self.find_free(0, self.next_hint),
        };
        match found {
            Some(i) => {
                assert(self.is_next(i as int));
                self.mark_used(i);
                let ghost before = self.in_use();
                self.next_hint = i + 1;
                assert(self.in_use() =~= before);
                assert(RawBitmapAllocator::taken(*old(self), *self, i as int));
                Some(phys_frame_from_index(i))
            },
            None => None,
        }
    }

    /// `post` is `pre` with a frame given back: the hint moves back to it, so that
    /// it is handed out again at once.
    pub open spec fn released(
        pre: RawBitmapAllocator,
        post: RawBitmapAllocator,
        frame: PhysFrame,
    ) -> bool {
        let i = frame.index();
        if i < pre.max_frames {
            &&& post.same_setup(pre)
            &&& post.in_use() == pre.in_use().update(i, false)
            &&& post.used_frames == (if pre.used_frames > 0 {
                pre.used_frames - 1
            } else {
                0
            })
            &&& post.next_hint == (if i < pre.next_hint {
                i
            } else {
                pre.next_hint as int
            })
        } else {
            post == pre
        }
    }

    /// Gives a frame back.
    pub fn free_frame(&mut self, frame: PhysFrame)
        requires
            old(self).wf(),
        ensures
            final(self).wf(),
            RawBitmapAllocator::released(*old(self), *final(self), frame),
    {
        let number: u64 = frame.start / 4096;
        if number >= self.max_frames as u64 {
            return;
        }
        let idx: usize = number as usize;
        self.put(idx, false);
        if self.used_frames > 0 {
            self.used_frames -= 1;
        }
        if idx < self.next_hint {
            self.next_hint = idx;
        }
        proof {
            assert(self.in_use() =~= old(self).in_use().update(idx as int, false));
            lemma_count_bounds(self.in_use(), MAX_FRAMES as int);
        }
    }

    /// Total and used frames.
    pub fn stats(&self) -> (r: (usize, usize))
        ensures
            r == (self.total_frames, self.used_frames),
    {
        (self.total_frames, self.used_frames)
    }

    pub fn total_frames(&self) -> (r: usize)
        ensures
            r == self.total_frames,
    {
        self.total_frames
    }

    pub fn used_frames(&self) -> (r: usize)
        ensures
            r == self.used_frames,
    {
        self.used_frames
    }

    pub open spec fn spec_free_frames(&self) -> int {
        if self.total_frames >= self.used_frames {
            self.total_frames - self.used_frames
        } else {
            0
        }
    }

    pub fn free_frames(&self) -> (r: usize)
        ensures
            r == self.spec_free_frames(),
    {
        self.total_frames.saturating_sub(self.used_frames)
    }

    pub fn max_frames(&self) -> (r: usize)
        ensures
            r == self.max_frames,
    {
        self.max_frames
    }

    /// Forgets all memory.
    pub fn reset(&mut self)
        requires
            old(self).wf(),
        ensures
            final(self).wf(),
            final(self).in_use() == Seq::new(MAX_FRAMES as nat, |i: int| true),
            final(self).total_frames == 0,
            final(self).used_frames == 0,
            final(self).next_hint == 0,
            final(self).max_frames == old(self).max_frames,
            final(self).phys_offset == old(self).phys_offset,
    {
        self.bitmap = vec![u64::MAX; 8192];
        self.total_frames = 0;
        self.used_frames = 0;
        self.next_hint = 0;
        proof {
            self.lemma_all_used();
        }
    }

    /// Set up from a memory map: the usable frames below `max` are free, but for those
    /// of the first MiB where they are reserved.
    pub open spec fn set_up(
        self,
        max: usize,
        phys_offset: u64,
        regions: Seq<MemoryRegion>,
        reserve: bool,
    ) -> bool {
        &&& self.max_frames == max
        &&& self.phys_offset == phys_offset
        &&& self.total_frames == frames_in_all(regions, max as int, regions.len() as int)
        &&& self.next_hint == (if reserve {
            FIRST_MIB_FRAMES
        } else {
            0
        })
        &&& forall|i: int|
            0 <= i < MAX_FRAMES ==> (#[trigger] self.in_use()[i] <==> !(i < max && usable(
                regions,
                i,
            ) && !(reserve && i < FIRST_MIB_FRAMES)))
        &&& self.used_frames == (if reserve {
            count_true(
                Seq::new(MAX_FRAMES as nat, |i: int| i < max && usable(regions, i)),
                if max < FIRST_MIB_FRAMES {
                    max as int
                } else {
                    FIRST_MIB_FRAMES as int
                },
            )
        } else {
            0
        })
    }

    /// Sets the bitmap up from the memory map: the frames of usable regions are
    /// free, but for the first MiB where that is reserved.
    pub fn init(&mut self, phys_offset: u64, regions: &Vec<MemoryRegion>, config: &FrameConfig)
        requires
            old(self).wf(),
            frames_in_all(
                regions@,
                old(self).max_frames as int,
                regions@.len() as int,
            ) <= usize::MAX,
        ensures
            final(self).wf(),
            final(self).set_up(
                old(self).max_frames,
                phys_offset,
                regions@,
                config.reserve_first_mib,
            ),
    {
        let ghost max = self.max_frames as int;
        self.reset();
        self.phys_offset = phys_offset;
        assert(self.in_use() =~= Seq::new(MAX_FRAMES as nat, |i: int| true));
        let mut total: usize = 0;
        let mut k: usize = 0;
        while k < regions.len()
            invariant
                self.wf(),
                self.max_frames == max,
                max == old(self).max_frames,
                self.phys_offset == phys_offset,
                self.used_frames == 0,
                k <= regions@.len(),
                total == frames_in_all(regions@, max, k as int),
                frames_in_all(regions@, max, regions@.len() as int) <= usize::MAX,
                forall|i: int|
                    0 <= i < MAX_FRAMES ==> (#[trigger] self.in_use()[i] <==> !(i < max && usable(
                        regions@.take(k as int),
                        i,
                    ))),
            decreases regions@.len() - k,
        {
            proof {
                lemma_frames_grow(regions@, max, k + 1, regions@.len() as int);
                lemma_usable_step(regions@, k as int);
            }
            let region = regions[k];
            if region.kind == MemoryRegionKind::Usable {
                let lo: u64 = region.start / 4096;
                let end: u64 = region.end / 4096;
                let hi: u64 = if end < self.max_frames as u64 {
                    end
                } else {
                    self.max_frames as u64
                };
                if lo < hi {
                    let mut i: usize = lo as usize;
                    let stop: usize = hi as usize;
                    while i < stop
                        invariant
                            self.wf(),
                            self.max_frames == max,
                            self.phys_offset == phys_offset,
                            self.used_frames == 0,
                            lo <= i <= stop <= max,
                            stop == hi,
                            forall|f: int|
                                0 <= f < MAX_FRAMES ==> (#[trigger] self.in_use()[f] <==> !(f < max
                                    && (usable(regions@.take(k as int), f) || lo <= f < i))),
                        decreases stop - i,
                    {
                        self.mark_free(i);
                        i += 1;
                    }
                    total += stop - lo as usize;
                }
            }
            k += 1;
        }
        assert(regions@.take(regions@.len() as int) =~= regions@);
        let ghost avail = Seq::new(
            MAX_FRAMES as nat,
            |i: int| i < max && usable(regions@, i),
        );
        if config.reserve_first_mib {
            let mut i: usize = 0;
            while i < FIRST_MIB_FRAMES
                invariant
                    self.wf(),
                    self.max_frames == max,
                    self.phys_offset == phys_offset,
                    i <= FIRST_MIB_FRAMES,
                    avail == Seq::new(MAX_FRAMES as nat, |i: int| i < max && usable(regions@, i)),
                    forall|f: int|
                        0 <= f < MAX_FRAMES ==> (#[trigger] self.in_use()[f] <==> !(avail[f] && !(f
                            < i))),
                    self.used_frames == count_true(
                        avail,
                        if max < i {
                            max
                        } else {
                            i as int
                        },
                    ),
                decreases FIRST_MIB_FRAMES - i,
            {
                let ghost was = self.in_use()[i as int];
                if i < self.max_frames {
                    self.mark_used(i);
                    assert(was == !avail[i as int]);
                    assert(count_true(avail, i + 1) == count_true(avail, i as int) + if avail[i as int] {
                        1int
                    } else {
                        0int
                    });
                }
                i += 1;
            }
        }
        let ghost before = self.in_use();
        self.total_frames = total;
        self.next_hint = if config.reserve_first_mib {
            FIRST_MIB_FRAMES
        } else {
            0
        };
        assert(self.in_use() =~= before);
    }
}

proof fn lemma_frames_grow(regions: Seq<MemoryRegion>, max: int, i: int, n: int)
    requires
        0 <= i <= n <= regions.len(),
    ensures
        frames_in_all(regions, max, i) <= frames_in_all(regions, max, n),
    decreases n - i,
{
    if i < n {
        lemma_frames_grow(regions, max, i, n - 1);
    }
}

/// One more region of the map.
proof fn lemma_usable_step(regions: Seq<MemoryRegion>, k: int)
    requires
        0 <= k < regions.len(),
    ensures
        forall|i: int| #[trigger]
            usable(regions.take(k + 1), i) <==> usable(regions.take(k), i) || (regions[k].kind
                == MemoryRegionKind::Usable && regions[k].start / 4096 <= i < regions[k].end
                / 4096),
{
    let a = regions.take(k);
    let b = regions.take(k + 1);
    assert forall|i: int| #[trigger]
        usable(b, i) <==> usable(a, i) || (regions[k].kind == MemoryRegionKind::Usable
            && regions[k].start / 4096 <= i < regions[k].end / 4096) by {
        if usable(a, i) {
            let j = choose|j: int|
                0 <= j < a.len() && (#[trigger] a[j]).kind == MemoryRegionKind::Usable && a[j].start
                    / 4096 <= i < a[j].end / 4096;
            assert(b[j] == a[j]);
        }
        if usable(b, i) {
            let j = choose|j: int|
                0 <= j < b.len() && (#[trigger] b[j]).kind == MemoryRegionKind::Usable && b[j].start
                    / 4096 <= i < b[j].end / 4096;
            if j < k {
                assert(a[j] == b[j]);
            }
        }
        assert(b[k] == regions[k]);
    }
}

impl RawBitmapAllocator {
    /// The allocator in words.
    pub fn describe(&self) -> (r: String)
        requires
            self.wf(),
        ensures
            r@ == "RawBitmapAllocator: "@ + text::decimal(self.total_frames as nat) + " total, "@
                + text::decimal(self.used_frames as nat) + " used, "@ + text::decimal(
                self.spec_free_frames() as nat,
            ) + " free"@,
    {
        let mut out = "RawBitmapAllocator: ".to_owned();
        text::push_decimal(&mut out, self.total_frames as u64);
        out.append(" total, ");
        text::push_decimal(&mut out, self.used_frames as u64);
        out.append(" used, ");
        text::push_decimal(&mut out, self.free_frames() as u64);
        out.append(" free");
        out
    }
}

impl Default for RawBitmapAllocator {
    fn default() -> (r: Self)
        ensures
            r.wf(),
            r.in_use() == Seq::new(MAX_FRAMES as nat, |i: int| true),
            r.total_frames == 0,
            r.used_frames == 0,
            r.max_frames == MAX_FRAMES,
    {
        Self::new()
    }
}

/// Counters of the frame allocator.
#[derive(Debug, Clone, Copy, PartialEq, Eq)]
pub struct FrameMetrics {
    pub allocations: u64,
    pub frees: u64,
    pub allocation_failures: u64,
    pub refcount_incs: u64,
    pub refcount_decs: u64,
    pub oom_events: u64,
    pub total_frames: usize,
    pub free_frames: usize,
}

impl Default for FrameMetrics {
    fn default() -> (r: Self)
        ensures
            r == (FrameMetrics {
                allocations: 0,
                frees: 0,
                allocation_failures: 0,
                refcount_incs: 0,
                refcount_decs: 0,
                oom_events: 0,
                total_frames: 0,
                free_frames: 0,
            }),
    {
        FrameMetrics {
            allocations: 0,
            frees: 0,
            allocation_failures: 0,
            refcount_incs: 0,
            refcount_decs: 0,
            oom_events: 0,
            total_frames: 0,
            free_frames: 0,
        }
    }
}

impl FrameMetrics {
    pub fn inc_alloc(&mut self)
        ensures
            *final(self) == (FrameMetrics {
                allocations: old(self).allocations.wrapping_add(1),
                ..*old(self)
            }),
    {
        self.allocations = self.allocations.wrapping_add(1);
    }

    pub fn inc_free(&mut self)
        ensures
            *final(self) == (FrameMetrics {
                frees: old(self).frees.wrapping_add(1),
                ..*old(self)
            }),
    {
        self.frees = self.frees.wrapping_add(1);
    }

    pub fn inc_alloc_failure(&mut self)
        ensures
            *final(self) == (FrameMetrics {
                allocation_failures: old(self).allocation_failures.wrapping_add(1),
                ..*old(self)
            }),
    {
        self.allocation_failures = self.allocation_failures.wrapping_add(1);
    }

    pub fn inc_refcount_inc(&mut self)
        ensures
            *final(self) == (FrameMetrics {
                refcount_incs: old(self).refcount_incs.wrapping_add(1),
                ..*old(self)
            }),
    {
        self.refcount_incs = self.refcount_incs.wrapping_add(1);
    }

    pub fn inc_refcount_dec(&mut self)
        ensures
            *final(self) == (FrameMetrics {
                refcount_decs: old(self).refcount_decs.wrapping_add(1),
                ..*old(self)
            }),
    {
        self.refcount_decs = self.refcount_decs.wrapping_add(1);
    }

    pub fn inc_oom(&mut self)
        ensures
            *final(self) == (FrameMetrics {
                oom_events: old(self).oom_events.wrapping_add(1),
                ..*old(self)
            }),
    {
        self.oom_events = self.oom_events.wrapping_add(1);
    }

    pub fn set_total_frames(&mut self, n: usize)
        ensures
            *final(self) == (FrameMetrics {
                total_frames: n,
                ..*old(self)
            }),
    {
        self.total_frames = n;
    }

    pub fn set_free_frames(&mut self, n: usize)
        ensures
            *final(self) == (FrameMetrics {
                free_frames: n,
                ..*old(self)
            }),
    {
        self.free_frames = n;
    }

    /// A copy of the counters.
    pub fn snapshot(&self) -> (r: FrameMetricsSnapshot)
        ensures
            r == (FrameMetricsSnapshot {
                allocations: self.allocations,
                frees: self.frees,
                allocation_failures: self.allocation_failures,
                refcount_incs: self.refcount_incs,
                refcount_decs: self.refcount_decs,
                oom_events: self.oom_events,
                total_frames: self.total_frames,
                free_frames: self.free_frames,
            }),
    {
        FrameMetricsSnapshot {
            allocations: self.allocations,
            frees: self.frees,
            allocation_failures: self.allocation_failures,
            refcount_incs: self.refcount_incs,
            refcount_decs: self.refcount_decs,
            oom_events: self.oom_events,
            total_frames: self.total_frames,
            free_frames: self.free_frames,
        }
    }
}

/// A copy of [`FrameMetrics`] at one moment.
#[derive(Debug, Clone, Copy, PartialEq, Eq)]
pub struct FrameMetricsSnapshot {
    pub allocations: u64,
    pub frees: u64,
    pub allocation_failures: u64,
    pub refcount_incs: u64,
    pub refcount_decs: u64,
    pub oom_events: u64,
    pub total_frames: usize,
    pub free_frames: usize,
}

// ---------------------------------------------------------------------------
// The allocator
// ---------------------------------------------------------------------------

/// Frame allocator with reference counts and counters.
#[derive(Debug)]
pub struct FrameAllocator {
    pub bitmap: RawBitmapAllocator,
    pub config: FrameConfig,
    pub metrics: FrameMetrics,
    pub initialised: bool,
    pub refs: RefCounts,
}

impl FrameAllocator {
    pub open spec fn wf(&self) -> bool {
        self.bitmap.wf()
    }

    /// Creates an allocator with no memory; the configuration must be valid.
    pub fn new(config: FrameConfig) -> (r: Self)
        requires
            config.broken_rule() is None,
        ensures
            r.wf(),
            r.config == config,
            r.bitmap.in_use() == Seq::new(MAX_FRAMES as nat, |i: int| true),
            r.bitmap.max_frames == (if config.max_frames < MAX_FRAMES {
                config.max_frames
            } else {
                MAX_FRAMES
            }),
            r.bitmap.total_frames == 0,
            r.bitmap.used_frames == 0,
            r.bitmap.next_hint == 0,
            !r.initialised,
            !r.refs.ready,
            r.metrics == (FrameMetrics {
                allocations: 0,
                frees: 0,
                allocation_failures: 0,
                refcount_incs: 0,
                refcount_decs: 0,
                oom_events: 0,
                total_frames: 0,
                free_frames: 0,
            }),
    {
        FrameAllocator {
            bitmap: RawBitmapAllocator::with_max_frames(config.max_frames),
            config,
            metrics: FrameMetrics::default(),
            initialised: false,
            refs: RefCounts::new(),
        }
    }

    /// Creates an allocator with the default configuration.
    pub fn default() -> (r: Self)
        ensures
            r.wf(),
            r.config == (FrameConfig {
                max_frames: DEFAULT_MAX_FRAMES,
                enable_refcounting: true,
                collect_metrics: true,
                log_allocations: false,
                log_frees: false,
                reserve_first_mib: true,
            }),
            r.bitmap.in_use() == Seq::new(MAX_FRAMES as nat, |i: int| true),
            r.bitmap.max_frames == MAX_FRAMES,
            r.bitmap.total_frames == 0,
            r.bitmap.used_frames == 0,
            r.bitmap.next_hint == 0,
            !r.initialised,
            !r.refs.ready,
            r.metrics == (FrameMetrics {
                allocations: 0,
                frees: 0,
                allocation_failures: 0,
                refcount_incs: 0,
                refcount_decs: 0,
                oom_events: 0,
                total_frames: 0,
                free_frames: 0,
            }),
    {
        Self::new(FrameConfig::default())
    }

    pub fn metrics(&self) -> (r: &FrameMetrics)
        ensures
            *r == self.metrics,
    {
        &self.metrics
    }

    pub fn config(&self) -> (r: &FrameConfig)
        ensures
            *r == self.config,
    {
        &self.config
    }

    /// Sets the allocator up from the memory map.
    pub fn init(&mut self, phys_offset: u64, regions: &Vec<MemoryRegion>)
        requires
            old(self).wf(),
            frames_in_all(
                regions@,
                old(self).bitmap.max_frames as int,
                regions@.len() as int,
            ) <= usize::MAX,
        ensures
            final(self).wf(),
            final(self).initialised,
            final(self).config == old(self).config,
            final(self).refs == old(self).refs,
            final(self).bitmap.set_up(
                old(self).bitmap.max_frames,
                phys_offset,
                regions@,
                old(self).config.reserve_first_mib,
            ),
            final(self).metrics == (FrameMetrics {
                total_frames: final(self).bitmap.total_frames,
                free_frames: final(self).bitmap.spec_free_frames() as usize,
                ..old(self).metrics
            }),
    {
        self.bitmap.init(phys_offset, regions, &self.config);
        self.initialised = true;
        let total: usize = self.bitmap.total_frames();
        let free: usize = self.bitmap.free_frames();
        self.metrics.set_total_frames(total);
        self.metrics.set_free_frames(free);
    }

    /// Starts to keep reference counts.
    pub fn mark_heap_ready(&mut self)
        ensures
            *final(self) == (FrameAllocator { refs: final(self).refs, ..*old(self) }),
            final(self).refs.ready,
            final(self).refs.counts@ == Seq::new(
                (if old(self).bitmap.max_frames < MAX_FRAMES {
                    old(self).bitmap.max_frames
                } else {
                    MAX_FRAMES
                }) as nat,
                |i: int| 0u32,
            ),
    {
        refcount::mark_heap_ready(&mut self.refs, self.bitmap.max_frames());
    }

    /// What an allocation returns and leaves behind.
    pub open spec fn alloc_outcome(
        pre: FrameAllocator,
        post: FrameAllocator,
        r: FrameResult<PhysFrame>,
    ) -> bool {
        &&& post.config == pre.config
        &&& post.initialised == pre.initialised
        &&& match r {
            Ok(frame) => {
                let counted = pre.refs.ready && pre.refs.covers(frame);
                &&& pre.initialised
                &&& RawBitmapAllocator::alloc_outcome(pre.bitmap, post.bitmap, Some(frame))
                &&& post.refs.ready == pre.refs.ready
                &&& post.refs.counts@ == if counted {
                    pre.refs.counts@.update(frame.index(), 1)
                } else {
                    pre.refs.counts@
                }
                &&& post.metrics == (FrameMetrics {
                    allocations: pre.metrics.allocations.wrapping_add(1),
                    refcount_incs: if counted {
                        pre.metrics.refcount_incs.wrapping_add(1)
                    } else {
                        pre.metrics.refcount_incs
                    },
                    ..pre.metrics
                })
            },
            Err(e) => {
                &&& post.bitmap == pre.bitmap
                &&& post.refs == pre.refs
                &&& if !pre.initialised {
                    e == FrameError::NotInitialised && post.metrics == pre.metrics
                } else {
                    &&& pre.bitmap.exhausted()
                    &&& e == FrameError::OutOfFrames
                    &&& post.metrics == (FrameMetrics {
                        allocation_failures: pre.metrics.allocation_failures.wrapping_add(1),
                        oom_events: pre.metrics.oom_events.wrapping_add(1),
                        ..pre.metrics
                    })
                }
            },
        }
    }

    /// Hands out a frame, with one reference where counts are kept.
    pub fn allocate_one(&mut self) -> (r: FrameResult<PhysFrame>)
        requires
            old(self).wf(),
        ensures
            final(self).wf(),
            FrameAllocator::alloc_outcome(*old(self), *final(self), r),
    {
        if !self.initialised {
            return Err(FrameError::NotInitialised);
        }
        let frame: PhysFrame = match self.bitmap.alloc_frame() {
            Some(frame) => frame,
            None => {
                self.metrics.inc_alloc_failure();
                self.metrics.inc_oom();
                return Err(FrameError::OutOfFrames);
            },
        };
        self.metrics.inc_alloc();
        if self.refs.ready {
            let idx: usize = phys_frame_to_index(frame);
            if idx < self.refs.counts.len() {
                self.refs.counts.set(idx, 1);
                self.metrics.inc_refcount_inc();
            }
        }
        Ok(frame)
    }

    /// What giving a frame back returns and leaves behind.
    pub open spec fn free_outcome(
        pre: FrameAllocator,
        post: FrameAllocator,
        frame: PhysFrame,
        r: FrameResult<()>,
    ) -> bool {
        &&& post.config == pre.config
        &&& post.initialised == pre.initialised
        &&& if !pre.initialised {
            &&& r == Err::<(), FrameError>(FrameError::NotInitialised)
            &&& post == pre
        } else {
            &&& refcount::dec_outcome(pre.refs, post.refs, pre.bitmap, post.bitmap, frame, r)
            &&& post.metrics == (FrameMetrics {
                frees: pre.metrics.frees.wrapping_add(1),
                ..pre.metrics
            })
        }
    }

    /// Drops a reference to a frame, which is freed with the last one.
    pub fn free_frame(&mut self, frame: PhysFrame) -> (r: FrameResult<()>)
        requires
            old(self).wf(),
            frame.index() <= usize::MAX,
        ensures
            final(self).wf(),
            FrameAllocator::free_outcome(*old(self), *final(self), frame, r),
    {
        if !self.initialised {
            return Err(FrameError::NotInitialised);
        }
        self.metrics.inc_free();
        refcount::dec_ref(&mut self.refs, frame, &mut self.bitmap)
    }

    /// Adds a reference to a frame.
    pub fn inc_ref(&mut self, frame: PhysFrame) -> (r: FrameResult<()>)
        requires
            frame.index() <= usize::MAX,
            old(self).refs.count(frame) < u32::MAX,
        ensures
            final(self).bitmap == old(self).bitmap,
            final(self).config == old(self).config,
            final(self).initialised == old(self).initialised,
            refcount::inc_outcome(old(self).refs, final(self).refs, frame, r),
            final(self).metrics == (if r is Ok {
                FrameMetrics {
                    refcount_incs: old(self).metrics.refcount_incs.wrapping_add(1),
                    ..old(self).metrics
                }
            } else {
                old(self).metrics
            }),
    {
        match refcount::inc_ref(&mut self.refs, frame) {
            Ok(()) => {
                self.metrics.inc_refcount_inc();
                Ok(())
            },
            Err(e) => Err(e),
        }
    }

    /// The reference count of a frame.
    pub fn get_ref(&self, frame: PhysFrame) -> (r: u32)
        ensures
            r == self.refs.count(frame),
    {
        refcount::get_ref(&self.refs, frame)
    }

    pub open spec fn spec_stats(&self) -> FrameStats {
        FrameStats {
            total_frames: self.bitmap.total_frames,
            free_frames: self.bitmap.spec_free_frames() as usize,
            used_frames: self.bitmap.used_frames,
            refcounted_frames: if self.refs.ready {
                refcount::counted(self.refs.counts@, self.refs.counts@.len() as int) as usize
            } else {
                0
            },
            total_allocations: self.metrics.allocations,
            total_frees: self.metrics.frees,
        }
    }

    /// Statistics.
    pub fn stats(&self) -> (r: FrameStats)
        ensures
            r == self.spec_stats(),
    {
        FrameStats {
            total_frames: self.bitmap.total_frames(),
            free_frames: self.bitmap.free_frames(),
            used_frames: self.bitmap.used_frames(),
            refcounted_frames: refcount::counted_frames(&self.refs),
            total_allocations: self.metrics.allocations,
            total_frees: self.metrics.frees,
        }
    }

    pub fn total_frames(&self) -> (r: usize)
        ensures
            r == self.bitmap.total_frames,
    {
        self.bitmap.total_frames()
    }

    pub fn free_frames(&self) -> (r: usize)
        ensures
            r == self.bitmap.spec_free_frames(),
    {
        self.bitmap.free_frames()
    }

    pub fn is_initialised(&self) -> (r: bool)
        ensures
            r == self.initialised,
    {
        self.initialised
    }

    /// Forgets all memory and all reference counts; the counters stay.
    pub fn reset(&mut self)
        requires
            old(self).wf(),
        ensures
            final(self).wf(),
            !final(self).initialised,
            !final(self).refs.ready,
            final(self).refs.counts@.len() == 0,
            final(self).bitmap.in_use() == Seq::new(MAX_FRAMES as nat, |i: int| true),
            final(self).bitmap.total_frames == 0,
            final(self).bitmap.used_frames == 0,
            final(self).bitmap.next_hint == 0,
            final(self).bitmap.max_frames == old(self).bitmap.max_frames,
            final(self).bitmap.phys_offset == old(self).bitmap.phys_offset,
            final(self).config == old(self).config,
            final(self).metrics == old(self).metrics,
    {
        self.bitmap.reset();
        self.initialised = false;
        refcount::reset_refcounts(&mut self.refs);
    }
}

// ---------------------------------------------------------------------------
// The kernel-wide instance, which its owner passes in
// ---------------------------------------------------------------------------

/// The frames of a memory map can be counted.
pub open spec fn init_fits(global: Option<FrameAllocator>, regions: Seq<MemoryRegion>) -> bool {
    match global {
        Some(a) => a.wf() && frames_in_all(
            regions,
            a.bitmap.max_frames as int,
            regions.len() as int,
        ) <= usize::MAX,
        None => frames_in_all(regions, MAX_FRAMES as int, regions.len() as int) <= usize::MAX,
    }
}

/// What setting the frames up leaves behind.
pub open spec fn init_outcome(
    pre: Option<FrameAllocator>,
    post: Option<FrameAllocator>,
    phys_offset: u64,
    regions: Seq<MemoryRegion>,
) -> bool {
    let max = match pre {
        Some(a) => a.bitmap.max_frames,
        None => MAX_FRAMES,
    };
    let reserve = match pre {
        Some(a) => a.config.reserve_first_mib,
        None => true,
    };
    &&& post matches Some(a)
    &&& a.wf()
    &&& a.initialised
    &&& a.bitmap.set_up(max, phys_offset, regions, reserve)
    &&& a.metrics.total_frames == a.bitmap.total_frames
    &&& a.metrics.free_frames == a.bitmap.spec_free_frames()
    &&& pre matches Some(b) ==> a.config == b.config && a.refs == b.refs
}

/// Sets up the instance on first use and initialises it from the memory map.
pub fn init(global: &mut Option<FrameAllocator>, phys_offset: u64, regions: &Vec<MemoryRegion>)
    requires
        init_fits(*old(global), regions@),
    ensures
        init_outcome(*old(global), *final(global), phys_offset, regions@),
{
    match global {
        Some(a) => {
            a.init(phys_offset, regions);
        },
        None => {
            let mut a = FrameAllocator::default();
            a.init(phys_offset, regions);
            *global = Some(a);
        },
    }
}

/// Starts to keep reference counts.
pub fn mark_heap_ready(a: &mut FrameAllocator)
    ensures
        *final(a) == (FrameAllocator { refs: final(a).refs, ..*old(a) }),
        final(a).refs.ready,
        final(a).refs.counts@ == Seq::new(
            (if old(a).bitmap.max_frames < MAX_FRAMES {
                old(a).bitmap.max_frames
            } else {
                MAX_FRAMES
            }) as nat,
            |i: int| 0u32,
        ),
{
    a.mark_heap_ready();
}

/// Hands out a frame.
pub fn allocate_one(a: &mut FrameAllocator) -> (r: Option<PhysFrame>)
    requires
        old(a).wf(),
    ensures
        final(a).wf(),
        match r {
            Some(frame) => FrameAllocator::alloc_outcome(*old(a), *final(a), Ok(frame)),
            None => exists|e: FrameError| #[trigger]
                FrameAllocator::alloc_outcome(*old(a), *final(a), Err(e)),
        },
{
    match a.allocate_one() {
        Ok(frame) => Some(frame),
        Err(_) => None,
    }
}

/// Hands out a frame with one reference.
pub fn alloc_frame_and_ref(a: &mut FrameAllocator) -> (r: Option<PhysFrame>)
    requires
        old(a).wf(),
    ensures
        final(a).wf(),
        match r {
            Some(frame) => FrameAllocator::alloc_outcome(*old(a), *final(a), Ok(frame)),
            None => exists|e: FrameError| #[trigger]
                FrameAllocator::alloc_outcome(*old(a), *final(a), Err(e)),
        },
{
    allocate_one(a)
}

/// Adds a reference; a failure is ignored.
pub fn inc_ref(a: &mut FrameAllocator, frame: PhysFrame)
    requires
        frame.index() <= usize::MAX,
        old(a).refs.count(frame) < u32::MAX,
    ensures
        final(a).bitmap == old(a).bitmap,
        final(a).config == old(a).config,
        final(a).initialised == old(a).initialised,
        exists|r: FrameResult<()>| #[trigger]
            refcount::inc_outcome(old(a).refs, final(a).refs, frame, r) && final(a).metrics == (
            if r is Ok {
                FrameMetrics {
                    refcount_incs: old(a).metrics.refcount_incs.wrapping_add(1),
                    ..old(a).metrics
                }
            } else {
                old(a).metrics
            }),
{
    let r = a.inc_ref(frame);
    assert(refcount::inc_outcome(old(a).refs, a.refs, frame, r));
}

/// Drops a reference and frees the frame with the last one; a failure is
/// ignored.
pub fn dec_ref(a: &mut FrameAllocator, frame: PhysFrame)
    requires
        old(a).wf(),
        frame.index() <= usize::MAX,
    ensures
        final(a).wf(),
        exists|r: FrameResult<()>| #[trigger]
            FrameAllocator::free_outcome(*old(a), *final(a), frame, r),
{
    let r = a.free_frame(frame);
    assert(FrameAllocator::free_outcome(*old(a), *a, frame, r));
}

/// Gives a frame back.
pub fn free_frame(a: &mut FrameAllocator, frame: PhysFrame)
    requires
        old(a).wf(),
        frame.index() <= usize::MAX,
    ensures
        final(a).wf(),
        exists|r: FrameResult<()>| #[trigger]
            FrameAllocator::free_outcome(*old(a), *final(a), frame, r),
{
    dec_ref(a, frame);
}

/// The reference count of a frame.
pub fn get_ref(a: &FrameAllocator, frame: PhysFrame) -> (r: u32)
    ensures
        r == a.refs.count(frame),
{
    a.get_ref(frame)
}

/// Total and used frames.
pub fn stats(a: &FrameAllocator) -> (r: (usize, usize))
    ensures
        r == (a.bitmap.total_frames, a.bitmap.used_frames),
{
    let s = a.stats();
    (s.total_frames, s.used_frames)
}

/// Total and used frames.
pub fn frame_stats(a: &FrameAllocator) -> (r: (u64, u64))
    ensures
        r == (a.bitmap.total_frames as u64, a.bitmap.used_frames as u64),
{
    let s = a.stats();
    (s.total_frames as u64, s.used_frames as u64)
}

/// Resets the instance, where there is one.
pub fn reset_global(global: &mut Option<FrameAllocator>)
    requires
        *old(global) matches Some(a) ==> a.wf(),
    ensures
        match *old(global) {
            Some(pre) => *final(global) matches Some(a) && {
                &&& a.wf()
                &&& !a.initialised
                &&& !a.refs.ready
                &&& a.refs.counts@.len() == 0
                &&& a.bitmap.in_use() == Seq::new(MAX_FRAMES as nat, |i: int| true)
                &&& a.bitmap.total_frames == 0
                &&& a.bitmap.used_frames == 0
                &&& a.bitmap.next_hint == 0
                &&& a.bitmap.max_frames == pre.bitmap.max_frames
                &&& a.bitmap.phys_offset == pre.bitmap.phys_offset
                &&& a.config == pre.config
                &&& a.metrics == pre.metrics
            },
            None => *final(global) == *old(global),
        },
{
    match global {
        Some(a) => {
            a.reset();
        },
        None => {},
    }
}

// ---------------------------------------------------------------------------
// Laws
// ---------------------------------------------------------------------------

/// A frame that was handed out is not handed out again before it is freed: two
/// allocations in a row give different frames.
pub proof fn law_allocations_differ(
    s0: RawBitmapAllocator,
    s1: RawBitmapAllocator,
    s2: RawBitmapAllocator,
    f1: PhysFrame,
    f2: PhysFrame,
)
    requires
        s0.wf(),
        RawBitmapAllocator::alloc_outcome(s0, s1, Some(f1)),
        RawBitmapAllocator::alloc_outcome(s1, s2, Some(f2)),
    ensures
        f1.index() != f2.index(),
        f1.start != f2.start,
{
    assert(s0.free_at(f1.index()));
    assert(s1.in_use()[f1.index()]);
}

/// A frame that is freed is the next to be handed out where it is below the hint or
/// below every other free frame.
pub proof fn law_freed_frame_comes_next(
    s0: RawBitmapAllocator,
    s1: RawBitmapAllocator,
    s2: RawBitmapAllocator,
    frame: PhysFrame,
    next: PhysFrame,
)
    requires
        s0.wf(),
        frame.index() < s0.max_frames,
        frame.index() < s0.next_hint || forall|j: int|
            0 <= j < frame.index() ==> !#[trigger] s0.free_at(j),
        RawBitmapAllocator::released(s0, s1, frame),
        RawBitmapAllocator::alloc_outcome(s1, s2, Some(next)),
    ensures
        next.index() == frame.index(),
{
    assert(s1.free_at(frame.index()));
    if next.index() > frame.index() {
        assert(!s1.free_at(frame.index()));
    }
    if next.index() < frame.index() {
        assert(s0.free_at(next.index()));
        assert(frame.index() < s0.next_hint ==> !s1.free_at(frame.index()));
    }
}

/// Allocating a frame and giving it back leaves every frame, the count of used
/// frames and the reference counts of all other frames as they were.
pub proof fn law_free_undoes_alloc(
    s0: FrameAllocator,
    s1: FrameAllocator,
    s2: FrameAllocator,
    frame: PhysFrame,
    r: FrameResult<()>,
)
    requires
        s0.wf(),
        FrameAllocator::alloc_outcome(s0, s1, Ok(frame)),
        FrameAllocator::free_outcome(s1, s2, frame, r),
        s0.refs.ready ==> s0.refs.covers(frame),
    ensures
        r is Ok,
        s2.bitmap.in_use() == s0.bitmap.in_use(),
        s2.bitmap.used_frames == s0.bitmap.used_frames,
        s2.refs.count(frame) == 0,
        forall|f: PhysFrame|
            f.index() != frame.index() ==> #[trigger] s2.refs.count(f) == s0.refs.count(f),
{
    assert(s0.bitmap.free_at(frame.index()));
    assert(s2.bitmap.in_use() =~= s0.bitmap.in_use());
}

/// A frame with `n` references is freed by the `n`-th drop and not before: each
/// drop takes one reference away, and only the last gives the frame back.
pub proof fn law_last_reference_frees(
    s0: FrameAllocator,
    s1: FrameAllocator,
    frame: PhysFrame,
    r: FrameResult<()>,
)
    requires
        s0.initialised,
        s0.refs.ready,
        s0.refs.count(frame) > 0,
        FrameAllocator::free_outcome(s0, s1, frame, r),
    ensures
        r is Ok,
        s1.refs.count(frame) == s0.refs.count(frame) - 1,
        s0.refs.count(frame) > 1 ==> s1.bitmap == s0.bitmap,
        s0.refs.count(frame) == 1 ==> RawBitmapAllocator::released(s0.bitmap, s1.bitmap, frame),
{
}

/// A frame's index counts frames of 4096 bytes from address zero, and its place in the
/// bitmap is the one bit that its word and bit numbers make up.
pub proof fn law_index_is_the_place(
    idx: usize,
    frame: PhysFrame,
    back: usize,
    place: (usize, usize),
)
    requires
        call_ensures(phys_frame_from_index, (idx,), frame),
        call_ensures(phys_frame_to_index, (frame,), back),
        call_ensures(frame_to_word_bit, (idx,), place),
    ensures
        frame.start == idx * 4096,
        back == idx,
        place.0 * 64 + place.1 == idx,
        place.1 < 64,
{
}

/// After set-up, a frame that lies wholly in usable memory is free, unless it lies in the
/// first MiB and that is reserved. A frame that is free ends in usable memory, and none
/// beyond the limit is free.
pub proof fn law_usable_memory_is_free_at_first(
    a: &mut FrameAllocator,
    offset: u64,
    regions: &Vec<MemoryRegion>,
    i: int,
    k: int,
)
    requires
        old(a).wf(),
        call_ensures(FrameAllocator::init, (a, offset, regions), ()),
        0 <= i < MAX_FRAMES,
        0 <= k < regions@.len(),
    ensures
        final(a).initialised,
        ({
            let free = !final(a).bitmap.in_use()[i];
            let region = regions@[k];
            let reserved = old(a).config.reserve_first_mib && i * 4096 < 0x10_0000;
            &&& region.kind == MemoryRegionKind::Usable && region.start <= i * 4096 && (i + 1)
                * 4096 <= region.end && i < old(a).bitmap.max_frames && !reserved ==> free
            &&& reserved ==> !free
            &&& i >= old(a).bitmap.max_frames ==> !free
            &&& free ==> exists|j: int|
                0 <= j < regions@.len() && (#[trigger] regions@[j]).kind == MemoryRegionKind::Usable
                    && regions@[j].start < (i + 1) * 4096 && (i + 1) * 4096 <= regions@[j].end
        }),
        final(a).metrics.total_frames == final(a).bitmap.total_frames,
        final(a).bitmap.total_frames == frames_in_all(
            regions@,
            old(a).bitmap.max_frames as int,
            regions@.len() as int,
        ),
        !old(a).config.reserve_first_mib ==> final(a).bitmap.used_frames == 0,
        final(a).refs == old(a).refs,
{
    let max = old(a).bitmap.max_frames;
    let region = regions@[k];
    assert(final(a).bitmap.in_use()[i] <==> !(i < max && usable(regions@, i) && !(old(
        a).config.reserve_first_mib && i < FIRST_MIB_FRAMES)));
    if region.kind == MemoryRegionKind::Usable && region.start <= i * 4096 && (i + 1) * 4096
        <= region.end {
        assert(region.start / 4096 <= i < region.end / 4096);
    }
    if usable(regions@, i) {
        let j = choose|j: int|
            0 <= j < regions@.len() && (#[trigger] regions@[j]).kind == MemoryRegionKind::Usable
                && regions@[j].start / 4096 <= i < regions@[j].end / 4096;
        assert(regions@[j].start < (i + 1) * 4096 && (i + 1) * 4096 <= regions@[j].end);
    }
}

/// A usable region of whole frames below the limit has as many frames as its bytes fill,
/// and a region of any other kind has none.
pub proof fn law_region_has_its_frames(region: MemoryRegion, max: int)
    requires
        region.start as int % 4096 == 0,
        region.end as int % 4096 == 0,
        region.start <= region.end,
        region.end as int <= max * 4096,
    ensures
        region.kind == MemoryRegionKind::Usable ==> frames_in(region, max) * 4096 == region.end
            - region.start,
        region.kind != MemoryRegionKind::Usable ==> frames_in(region, max) == 0,
        forall|all: Seq<MemoryRegion>|
            frames_in_all(#[trigger] all.push(region), max, (all.len() + 1) as int) == frames_in_all(
                all,
                max,
                all.len() as int,
            ) + frames_in(region, max),
        frames_in_all(Seq::empty(), max, 0) == 0,
{
    assert forall|all: Seq<MemoryRegion>|
        frames_in_all(#[trigger] all.push(region), max, (all.len() + 1) as int) == frames_in_all(
            all,
            max,
            all.len() as int,
        ) + frames_in(region, max) by {
        lemma_frames_prefix(all.push(region), all, max, all.len() as int);
    }
}

proof fn lemma_frames_prefix(a: Seq<MemoryRegion>, b: Seq<MemoryRegion>, max: int, n: int)
    requires
        0 <= n <= a.len(),
        n <= b.len(),
        forall|i: int| 0 <= i < n ==> #[trigger] a[i] == b[i],
    ensures
        frames_in_all(a, max, n) == frames_in_all(b, max, n),
    decreases n,
{
    if n > 0 {
        lemma_frames_prefix(a, b, max, n - 1);
        assert(a[n - 1] == b[n - 1]);
    }
}

/// A frame that is handed out starts at a frame boundary, was free and is in use
/// afterwards, with one reference where references are counted. Every other frame is as
/// before. None is handed out exactly where none is free or nothing is set up.
pub proof fn law_handed_out_frame_was_free(
    a: &mut FrameAllocator,
    r: FrameResult<PhysFrame>,
    i: int,
)
    requires
        old(a).wf(),
        call_ensures(FrameAllocator::allocate_one, (a,), r),
        0 <= i < MAX_FRAMES,
    ensures
        r matches Ok(frame) ==> {
            let k = frame.start as int / 4096;
            &&& frame.start as int % 4096 == 0
            &&& k < old(a).bitmap.max_frames
            &&& !old(a).bitmap.in_use()[k]
            &&& final(a).bitmap.in_use()[k]
            &&& i != k ==> final(a).bitmap.in_use()[i] == old(a).bitmap.in_use()[i]
            &&& final(a).bitmap.used_frames == old(a).bitmap.used_frames + 1
            &&& final(a).refs.counts@.len() == old(a).refs.counts@.len()
            &&& old(a).refs.ready && k < old(a).refs.counts@.len() ==> final(a).refs.counts@[k] == 1
            &&& 0 <= i < old(a).refs.counts@.len() && i != k ==> final(a).refs.counts@[i] == old(
                a).refs.counts@[i]
            &&& old(a).metrics.allocations < u64::MAX ==> final(a).metrics.allocations == old(
                a).metrics.allocations + 1
            &&& final(a).metrics.frees == old(a).metrics.frees
        },
        r is Ok <==> old(a).initialised && exists|j: int|
            0 <= j < old(a).bitmap.max_frames && !#[trigger] old(a).bitmap.in_use()[j],
        r is Err ==> final(a).bitmap == old(a).bitmap && final(a).metrics.allocations == old(
            a).metrics.allocations,
        r is Err && old(a).initialised && old(a).metrics.oom_events < u64::MAX ==> final(
            a).metrics.oom_events == old(a).metrics.oom_events + 1,
{
    if r is Err && old(a).initialised {
        assert forall|j: int| 0 <= j < old(a).bitmap.max_frames implies #[trigger] old(
            a).bitmap.in_use()[j] by {
            assert(!old(a).bitmap.free_at(j));
        }
    }
    if let Ok(frame) = r {
        assert(old(a).bitmap.free_at(frame.index()));
        assert(!old(a).bitmap.in_use()[frame.index()]);
    }
}

/// A frame that is given back with its last reference, or without references being
/// counted, is free; with more references it stays in use with one less. Every other frame
/// and count is as before. A frame that has no reference, or no count, is refused.
pub proof fn law_given_back_frame_is_free(
    a: &mut FrameAllocator,
    frame: PhysFrame,
    r: FrameResult<()>,
    i: int,
)
    requires
        old(a).wf(),
        call_ensures(FrameAllocator::free_frame, (a, frame), r),
        0 <= i < MAX_FRAMES,
    ensures
        ({
            let k = frame.start as int / 4096;
            let counted = old(a).refs.ready && k < old(a).refs.counts@.len();
            let n = old(a).refs.counts@[k];
            let gone = old(a).initialised && (!old(a).refs.ready || (counted && n == 1));
            &&& r is Ok <==> old(a).initialised && (!old(a).refs.ready || (counted && n > 0))
            &&& gone && k < old(a).bitmap.max_frames ==> !final(a).bitmap.in_use()[k]
            &&& gone && k < old(a).bitmap.max_frames && old(a).bitmap.used_frames > 0 ==> final(
                a).bitmap.used_frames == old(a).bitmap.used_frames - 1
            &&& !gone ==> final(a).bitmap == old(a).bitmap
            &&& i != k ==> final(a).bitmap.in_use()[i] == old(a).bitmap.in_use()[i]
            &&& counted && r is Ok ==> final(a).refs.counts@[k] == n - 1
            &&& i < old(a).refs.counts@.len() && i != k ==> final(a).refs.counts@[i] == old(
                a).refs.counts@[i]
            &&& r is Err ==> final(a).refs.counts@ == old(a).refs.counts@
        }),
{
}

/// Another reference to a frame adds one to its count and to no other.
pub proof fn law_reference_is_added(
    a: &mut FrameAllocator,
    frame: PhysFrame,
    r: FrameResult<()>,
    before: u32,
    after: u32,
    i: int,
)
    requires
        old(a).refs.count(frame) < u32::MAX,
        call_ensures(FrameAllocator::inc_ref, (a, frame), r),
        call_ensures(FrameAllocator::get_ref, (&*old(a), frame), before),
        call_ensures(FrameAllocator::get_ref, (&*final(a), frame), after),
        old(a).refs.ready,
    ensures
        r is Ok <==> frame.start as int / 4096 < old(a).refs.counts@.len(),
        r is Ok ==> after == before + 1,
        0 <= i < old(a).refs.counts@.len() && i != frame.start as int / 4096 ==> final(
            a).refs.counts@[i] == old(a).refs.counts@[i],
        final(a).bitmap == old(a).bitmap,
{
}

/// What is free and what is used make up the frames there are, wherever there are as many
/// as are used; the numbers told are those.
pub proof fn law_free_and_used_make_up_all(a: &FrameAllocator, s: FrameStats, free: usize, told: (u64, u64))
    requires
        call_ensures(FrameAllocator::stats, (a,), s),
        call_ensures(FrameAllocator::free_frames, (a,), free),
        call_ensures(frame_stats, (a,), told),
    ensures
        s.used_frames <= s.total_frames ==> s.free_frames + s.used_frames == s.total_frames,
        s.used_frames > s.total_frames ==> s.free_frames == 0,
        free == s.free_frames,
        s.total_frames == a.bitmap.total_frames,
        s.used_frames == a.bitmap.used_frames,
        told.0 == s.total_frames && told.1 == s.used_frames,
        s.total_allocations == a.metrics.allocations,
        s.total_frees == a.metrics.frees,
        !a.refs.ready ==> s.refcounted_frames == 0,
{
}

/// Marking a frame free or used changes that frame only; the count of used frames follows
/// where the frame was the other way.
pub proof fn law_mark_changes_one_frame(
    f: &mut RawBitmapAllocator,
    u: &mut RawBitmapAllocator,
    frame: usize,
    i: int,
)
    requires
        old(f).wf(),
        old(u).wf(),
        call_ensures(RawBitmapAllocator::mark_free, (f, frame), ()),
        call_ensures(RawBitmapAllocator::mark_used, (u, frame), ()),
        0 <= i < MAX_FRAMES,
        frame < old(f).max_frames,
        frame < old(u).max_frames,
    ensures
        !final(f).in_use()[frame as int],
        final(u).in_use()[frame as int],
        i != frame ==> final(f).in_use()[i] == old(f).in_use()[i] && final(u).in_use()[i] == old(
            u).in_use()[i],
        old(f).in_use()[frame as int] && old(f).used_frames > 0 ==> final(f).used_frames + 1 == old(
            f).used_frames,
        !old(f).in_use()[frame as int] ==> final(f).used_frames == old(f).used_frames,
        !old(u).in_use()[frame as int] ==> final(u).used_frames == old(u).used_frames + 1,
        old(u).in_use()[frame as int] ==> final(u).used_frames == old(u).used_frames,
        final(f).total_frames == old(f).total_frames,
        final(u).total_frames == old(u).total_frames,
{
}

/// What is told of the frames has each number on a line behind its name.
pub proof fn law_frames_are_told_by_name(s: &FrameStats, r: String)
    requires
        call_ensures(FrameStats::describe, (s,), r),
    ensures
        text::tells(r@, "Frame Allocator Statistics:\n  Total frames: "@ + text::decimal(s.total_frames as nat)),
        text::tells(r@, "\n  Free frames: "@ + text::decimal(s.free_frames as nat)),
        text::tells(r@, "\n  Used frames: "@ + text::decimal(s.used_frames as nat)),
        text::tells(r@, "\n  Refcounted frames: "@ + text::decimal(s.refcounted_frames as nat)),
        text::tells(r@, "\n  Total allocations: "@ + text::decimal(s.total_allocations as nat)),
        text::tells(r@, "\n  Total frees: "@ + text::decimal(s.total_frees as nat)),
{
    let pieces = seq![
        "Frame Allocator Statistics:\n  Total frames: "@,
        text::decimal(s.total_frames as nat),
        "\n  Free frames: "@,
        text::decimal(s.free_frames as nat),
        "\n  Used frames: "@,
        text::decimal(s.used_frames as nat),
        "\n  Refcounted frames: "@,
        text::decimal(s.refcounted_frames as nat),
        "\n  Total allocations: "@,
        text::decimal(s.total_allocations as nat),
        "\n  Total frees: "@,
        text::decimal(s.total_frees as nat),
        "\n"@,
    ];
    reveal_with_fuel(text::put_together, 14);
    assert(r@ == text::put_together(pieces, 13));
    text::lemma_tells(pieces, 13, 0);
    text::lemma_tells(pieces, 13, 2);
    text::lemma_tells(pieces, 13, 4);
    text::lemma_tells(pieces, 13, 6);
    text::lemma_tells(pieces, 13, 8);
    text::lemma_tells(pieces, 13, 10);
}

} // verus!
