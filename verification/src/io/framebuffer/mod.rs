//! Framebuffer with a back buffer and a list of dirty rectangles: all drawing
//! goes to the back buffer, and presenting copies only what was marked dirty.
pub mod draw;

use crate::io::framebuffer::draw::pack_rgb;
use crate::text;
use vstd::prelude::*;
use vstd::string::*;
use vstd::utf8::*;

verus! {

pub const DEFAULT_MAX_DIRTY_RECTS: usize = 32;

pub const DEFAULT_CURSOR_W: usize = 14;

pub const DEFAULT_CURSOR_H: usize = 22;

pub const CURSOR_W: usize = 14;

pub const CURSOR_H: usize = 22;

/// Width of a character in pixels.
pub const FONT_WIDTH: usize = 8;

/// Height of a character in pixels.
pub const FONT_HEIGHT: usize = 16;

/// Configuration of the framebuffer.
#[derive(Debug, Clone, Copy, PartialEq, Eq)]
pub struct FramebufferConfig {
    pub max_dirty_rects: usize,
    pub double_buffer_enabled: bool,
    pub collect_metrics: bool,
    pub log_operations: bool,
    pub default_bg_rgb: u32,
}

impl Default for FramebufferConfig {
    fn default() -> (r: Self)
        ensures
            r == (FramebufferConfig {
                max_dirty_rects: 32,
                double_buffer_enabled: true,
                collect_metrics: true,
                log_operations: false,
                default_bg_rgb: 0x0A0E1A,
            }),
    {
        FramebufferConfig {
            max_dirty_rects: 32,
            double_buffer_enabled: true,
            collect_metrics: true,
            log_operations: false,
            default_bg_rgb: 0x0A0E1A,
        }
    }
}

impl FramebufferConfig {
    /// The first rule that the configuration breaks, if any.
    pub open spec fn broken_rule(&self) -> Option<Seq<char>> {
        if self.max_dirty_rects == 0 {
            Some("max_dirty_rects must be > 0"@)
        } else {
            None
        }
    }

    pub fn validate(&self) -> (r: Result<(), &'static str>)
        ensures
            match r {
                Ok(_) => self.broken_rule() is None,
                Err(e) => self.broken_rule() == Some(e@),
            },
    {
        if self.max_dirty_rects == 0 {
            return Err("max_dirty_rects must be > 0");
        }
        Ok(())
    }

    pub fn with_metrics(self) -> (r: Self)
        ensures
            r == (FramebufferConfig { collect_metrics: true, ..self }),
    {
        FramebufferConfig { collect_metrics: true, ..self }
    }
}

/// Order of the colour channels in video memory.
#[derive(Clone, Copy, Debug, PartialEq, Eq, Structural)]
pub enum PixelFormat {
    Rgb,
    Bgr,
    /// Any other; drawn like `Bgr`, without an alpha byte.
    Other,
}

#[derive(Debug, PartialEq, Eq)]
pub enum FramebufferError {
    NotInitialised,
    InvalidDimensions { w: usize, h: usize },
    UnsupportedPixelFormat(PixelFormat),
    Config(String),
    Io(String),
}

pub type FramebufferResult<T> = Result<T, FramebufferError>;

/// Counters of the framebuffer.
#[derive(Debug, Clone, Copy, PartialEq, Eq)]
pub struct FramebufferMetrics {
    pub frames_presented: u64,
    pub full_blits: u64,
    pub partial_blits: u64,
    pub dirty_rects_processed: u64,
    pub bytes_copied: u64,
    pub draw_calls: u64,
    pub merged_rects: u64,
}

impl Default for FramebufferMetrics {
    fn default() -> (r: Self)
        ensures
            r == (FramebufferMetrics {
                frames_presented: 0,
                full_blits: 0,
                partial_blits: 0,
                dirty_rects_processed: 0,
                bytes_copied: 0,
                draw_calls: 0,
                merged_rects: 0,
            }),
    {
        FramebufferMetrics {
            frames_presented: 0,
            full_blits: 0,
            partial_blits: 0,
            dirty_rects_processed: 0,
            bytes_copied: 0,
            draw_calls: 0,
            merged_rects: 0,
        }
    }
}

impl FramebufferMetrics {
    /// The counters after a blit.
    pub open spec fn after_frame(self, is_full: bool, rect_count: usize, bytes: usize) -> Self {
        FramebufferMetrics {
            frames_presented: self.frames_presented.wrapping_add(1),
            full_blits: if is_full {
                self.full_blits.wrapping_add(1)
            } else {
                self.full_blits
            },
            partial_blits: if is_full {
                self.partial_blits
            } else {
                self.partial_blits.wrapping_add(1)
            },
            dirty_rects_processed: self.dirty_rects_processed.wrapping_add(rect_count as u64),
            bytes_copied: self.bytes_copied.wrapping_add(bytes as u64),
            ..self
        }
    }

    /// Counts a blit.
    pub fn inc_frame(&mut self, is_full: bool, rect_count: usize, bytes: usize)
        ensures
            *final(self) == old(self).after_frame(is_full, rect_count, bytes),
    {
        self.frames_presented = self.frames_presented.wrapping_add(1);
        if is_full {
            self.full_blits = self.full_blits.wrapping_add(1);
        } else {
            self.partial_blits = self.partial_blits.wrapping_add(1);
        }
        self.dirty_rects_processed = self.dirty_rects_processed.wrapping_add(rect_count as u64);
        self.bytes_copied = self.bytes_copied.wrapping_add(bytes as u64);
    }

    pub fn inc_draw(&mut self)
        ensures
            *final(self) == (FramebufferMetrics {
                draw_calls: old(self).draw_calls.wrapping_add(1),
                ..*old(self)
            }),
    {
        self.draw_calls = self.draw_calls.wrapping_add(1);
    }

    pub fn inc_merged(&mut self)
        ensures
            *final(self) == (FramebufferMetrics {
                merged_rects: old(self).merged_rects.wrapping_add(1),
                ..*old(self)
            }),
    {
        self.merged_rects = self.merged_rects.wrapping_add(1);
    }

    /// A copy of the counters.
    pub fn snapshot(&self) -> (r: FramebufferMetricsSnapshot)
        ensures
            r == (FramebufferMetricsSnapshot {
                frames_presented: self.frames_presented,
                full_blits: self.full_blits,
                partial_blits: self.partial_blits,
                dirty_rects_processed: self.dirty_rects_processed,
                bytes_copied: self.bytes_copied,
                draw_calls: self.draw_calls,
                merged_rects: self.merged_rects,
            }),
    {
        FramebufferMetricsSnapshot {
            frames_presented: self.frames_presented,
            full_blits: self.full_blits,
            partial_blits: self.partial_blits,
            dirty_rects_processed: self.dirty_rects_processed,
            bytes_copied: self.bytes_copied,
            draw_calls: self.draw_calls,
            merged_rects: self.merged_rects,
        }
    }
}

/// A copy of [`FramebufferMetrics`] at one moment.
#[derive(Debug, Clone, Copy, PartialEq, Eq)]
pub struct FramebufferMetricsSnapshot {
    pub frames_presented: u64,
    pub full_blits: u64,
    pub partial_blits: u64,
    pub dirty_rects_processed: u64,
    pub bytes_copied: u64,
    pub draw_calls: u64,
    pub merged_rects: u64,
}

// ---------------------------------------------------------------------------
// Dirty rectangles
// ---------------------------------------------------------------------------

/// A dirty rectangle.
#[derive(Clone, Copy, Debug, PartialEq, Eq, Structural)]
pub struct DirtyRect {
    pub x: usize,
    pub y: usize,
    pub w: usize,
    pub h: usize,
}

pub open spec fn least(a: int, b: int) -> int {
    if a <= b {
        a
    } else {
        b
    }
}

pub open spec fn greatest(a: int, b: int) -> int {
    if a >= b {
        a
    } else {
        b
    }
}

impl DirtyRect {
    /// Its right and bottom edges are machine integers.
    pub open spec fn wf(self) -> bool {
        &&& self.x + self.w <= usize::MAX
        &&& self.y + self.h <= usize::MAX
    }

    /// It has pixels, all of them on a screen of that size.
    pub open spec fn on_screen(self, screen_w: usize, screen_h: usize) -> bool {
        &&& self.w > 0
        &&& self.h > 0
        &&& self.x + self.w <= screen_w
        &&& self.y + self.h <= screen_h
    }

    /// The pixel is in the rectangle.
    pub open spec fn contains(self, px: int, py: int) -> bool {
        self.x <= px < self.x + self.w && self.y <= py < self.y + self.h
    }

    /// The rectangles overlap or touch.
    pub open spec fn touches(self, o: DirtyRect) -> bool {
        &&& self.x <= o.x + o.w
        &&& o.x <= self.x + self.w
        &&& self.y <= o.y + o.h
        &&& o.y <= self.y + self.h
    }

    /// The smallest rectangle around both.
    pub open spec fn around(self, o: DirtyRect) -> DirtyRect {
        let x = least(self.x as int, o.x as int);
        let y = least(self.y as int, o.y as int);
        DirtyRect {
            x: x as usize,
            y: y as usize,
            w: (greatest(self.x + self.w, o.x + o.w) - x) as usize,
            h: (greatest(self.y + self.h, o.y + o.h) - y) as usize,
        }
    }

    /// The part of the rectangle on a screen of that size; `None` where it is
    /// empty.
    pub open spec fn clipped(self, screen_w: usize, screen_h: usize) -> Option<DirtyRect> {
        if self.x >= screen_w || self.y >= screen_h || self.w == 0 || self.h == 0 {
            None
        } else {
            Some(
                DirtyRect {
                    w: least(self.w as int, screen_w - self.x) as usize,
                    h: least(self.h as int, screen_h - self.y) as usize,
                    ..self
                },
            )
        }
    }

    pub fn right(&self) -> (r: usize)
        requires
            self.wf(),
        ensures
            r == self.x + self.w,
    {
        self.x + self.w
    }

    pub fn bottom(&self) -> (r: usize)
        requires
            self.wf(),
        ensures
            r == self.y + self.h,
    {
        self.y + self.h
    }

    /// Whether the rectangles overlap or touch.
    pub fn overlaps_or_adjacent(&self, o: &DirtyRect) -> (r: bool)
        requires
            self.wf(),
            o.wf(),
        ensures
            r == self.touches(*o),
    {
        self.x <= o.right() && o.x <= self.right() && self.y <= o.bottom() && o.y <= self.bottom()
    }

    /// The bounding box of both.
    pub fn merge(&self, o: &DirtyRect) -> (r: DirtyRect)
        requires
            self.wf(),
            o.wf(),
        ensures
            r == self.around(*o),
            r.wf(),
    {
        let x1: usize = if self.x <= o.x {
            self.x
        } else {
            o.x
        };
        let y1: usize = if self.y <= o.y {
            self.y
        } else {
            o.y
        };
        let x2: usize = if self.right() >= o.right() {
            self.right()
        } else {
            o.right()
        };
        let y2: usize = if self.bottom() >= o.bottom() {
            self.bottom()
        } else {
            o.bottom()
        };
        DirtyRect { x: x1, y: y1, w: x2 - x1, h: y2 - y1 }
    }
}

/// What is marked dirty, and how often rectangles were merged.
#[verifier::ext_equal]
pub struct Marks {
    pub rects: Seq<DirtyRect>,
    pub max: usize,
    pub full: bool,
    pub merged: u64,
}

/// The sequence without the element at `j`, into whose place the last one goes.
pub open spec fn swapped_out(s: Seq<DirtyRect>, j: int) -> Seq<DirtyRect> {
    if j == s.len() - 1 {
        s.drop_last()
    } else {
        s.update(j, s.last()).drop_last()
    }
}

/// The first rectangle from `i` on that touches `r`.
pub open spec fn first_touching(rects: Seq<DirtyRect>, r: DirtyRect, i: int) -> Option<int>
    decreases rects.len() - i,
{
    if i >= rects.len() {
        None
    } else if rects[i].touches(r) {
        Some(i)
    } else {
        first_touching(rects, r, i + 1)
    }
}

/// The rectangle at `i` grown around each rectangle from `j` on that touches
/// `m`; those leave the sequence. With it, how many of them there were.
pub open spec fn absorbed(
    rects: Seq<DirtyRect>,
    i: int,
    m: DirtyRect,
    j: int,
) -> (Seq<DirtyRect>, nat)
    decreases rects.len() - j,
{
    if j >= rects.len() || j < 0 || i < 0 || i >= rects.len() {
        (rects, 0)
    } else if j != i && rects[j].touches(m) {
        let grown = rects.update(i, rects[i].around(rects[j]));
        let (s, n) = absorbed(
            swapped_out(grown, j),
            if i == rects.len() - 1 {
                j
            } else {
                i
            },
            m,
            j,
        );
        (s, n + 1)
    } else {
        absorbed(rects, i, m, j + 1)
    }
}

impl Marks {
    /// A rectangle marked on a screen of that size: clipped to it, merged with the
    /// rectangles it touches, or added; where the list is full, everything is
    /// dirty.
    pub open spec fn marked(self, r: DirtyRect, screen_w: usize, screen_h: usize) -> Marks {
        if self.full {
            self
        } else {
            match r.clipped(screen_w, screen_h) {
                None => self,
                Some(c) => self.with_rect(c),
            }
        }
    }

    pub open spec fn with_rect(self, c: DirtyRect) -> Marks {
        match first_touching(self.rects, c, 0) {
            Some(i) => {
                let m = self.rects[i].around(c);
                let (rects, n) = absorbed(self.rects.update(i, m), i, m, 0);
                Marks { rects, merged: counted(self.merged, n + 1), ..self }
            },
            None => if self.rects.len() < self.max {
                Marks { rects: self.rects.push(c), ..self }
            } else {
                self.all()
            },
        }
    }

    /// Everything is dirty.
    pub open spec fn all(self) -> Marks {
        Marks { rects: Seq::empty(), full: true, ..self }
    }

    /// Nothing is dirty.
    pub open spec fn none(self) -> Marks {
        Marks { rects: Seq::empty(), full: false, ..self }
    }

    /// The edges of all rectangles are machine integers.
    pub open spec fn wf(self) -> bool {
        forall|i: int| 0 <= i < self.rects.len() ==> (#[trigger] self.rects[i]).wf()
    }

    /// Every rectangle has pixels, all of them on a screen of that size.
    pub open spec fn on_screen(self, screen_w: usize, screen_h: usize) -> bool {
        forall|i: int|
            0 <= i < self.rects.len() ==> (#[trigger] self.rects[i]).on_screen(
                screen_w,
                screen_h,
            )
    }

    /// The pixel will be presented.
    pub open spec fn covers(self, px: int, py: int) -> bool {
        self.full || some_contains(self.rects, px, py)
    }
}

/// One of the rectangles contains the pixel.
pub open spec fn some_contains(rects: Seq<DirtyRect>, px: int, py: int) -> bool {
    exists|i: int| 0 <= i < rects.len() && (#[trigger] rects[i]).contains(px, py)
}

/// A counter after `n` more events.
pub open spec fn counted(c: u64, n: nat) -> u64 {
    ((c + n) % (u64::MAX + 1)) as u64
}

/// List of dirty rectangles with a fixed maximum.
#[derive(Debug)]
pub struct DirtyList {
    pub rects: Vec<DirtyRect>,
    pub max: usize,
    /// The next presentation is of the full screen.
    pub full: bool,
}

impl DirtyList {
    pub open spec fn marks(&self, metrics: FramebufferMetrics) -> Marks {
        Marks {
            rects: self.rects@,
            max: self.max,
            full: self.full,
            merged: metrics.merged_rects,
        }
    }

    pub open spec fn wf(&self) -> bool {
        forall|i: int| 0 <= i < self.rects@.len() ==> (#[trigger] self.rects@[i]).wf()
    }

    /// A list that starts with a full presentation.
    pub fn new(config: &FramebufferConfig) -> (r: Self)
        ensures
            r.wf(),
            r.rects@.len() == 0,
            r.max == config.max_dirty_rects,
            r.full,
    {
        DirtyList { rects: Vec::new(), max: config.max_dirty_rects, full: true }
    }

    pub fn clear(&mut self)
        ensures
            final(self).rects@ == Seq::<DirtyRect>::empty(),
            !final(self).full,
            final(self).max == old(self).max,
            final(self).wf(),
    {
        self.rects.clear();
        self.full = false;
    }

    /// Marks a rectangle.
    pub fn push(
        &mut self,
        r: DirtyRect,
        screen_w: usize,
        screen_h: usize,
        metrics: &mut FramebufferMetrics,
    )
        requires
            old(self).wf(),
        ensures
            final(self).wf(),
            final(self).marks(*final(metrics)) == old(self).marks(*old(metrics)).marked(
                r,
                screen_w,
                screen_h,
            ),
            *final(metrics) == (FramebufferMetrics {
                merged_rects: final(metrics).merged_rects,
                ..*old(metrics)
            }),
    {
        if self.full {
            return;
        }
        if r.x >= screen_w || r.y >= screen_h {
            return;
        }
        let c = DirtyRect {
            x: r.x,
            y: r.y,
            w: if r.w <= screen_w - r.x {
                r.w
            } else {
                screen_w - r.x
            },
            h: if r.h <= screen_h - r.y {
                r.h
            } else {
                screen_h - r.y
            },
        };
        if c.w == 0 || c.h == 0 {
            return;
        }
        let ghost pre = self.marks(*metrics);
        assert(r.clipped(screen_w, screen_h) == Some(c));
        let mut i: usize = 0;
        while i < self.rects.len()
            invariant
                i <= self.rects@.len(),
                self.wf(),
                *self == *old(self),
                *metrics == *old(metrics),
                pre == self.marks(*metrics),
                !self.full,
                c.wf(),
                r.clipped(screen_w, screen_h) == Some(c),
                first_touching(self.rects@, c, 0) == first_touching(self.rects@, c, i as int),
            decreases self.rects@.len() - i,
        {
            if self.rects[i].overlaps_or_adjacent(&c) {
                self.absorb(i, &c, metrics);
                assert(self.marks(*metrics) =~= pre.with_rect(c));
                return;
            }
            i += 1;
        }
        if self.rects.len() < self.max {
            self.rects.push(c);
        } else {
            self.set_full();
        }
        assert(self.marks(*metrics) =~= pre.with_rect(c));
    }

    /// Grows the rectangle at `at` around `c`, and then around those that the
    /// result touches.
    fn absorb(&mut self, at: usize, c: &DirtyRect, metrics: &mut FramebufferMetrics)
        requires
            old(self).wf(),
            at < old(self).rects@.len(),
            c.wf(),
        ensures
            final(self).wf(),
            final(self).max == old(self).max,
            final(self).full == old(self).full,
            ({
                let m = old(self).rects@[at as int].around(*c);
                let (rects, n) = absorbed(old(self).rects@.update(at as int, m), at as int, m, 0);
                &&& final(self).rects@ == rects
                &&& *final(metrics) == (FramebufferMetrics {
                    merged_rects: counted(old(metrics).merged_rects, n + 1),
                    ..*old(metrics)
                })
            }),
    {
        let merged = self.rects[at].merge(c);
        self.rects.set(at, merged);
        metrics.inc_merged();
        let ghost start = self.rects@;
        let ghost goal = absorbed(start, at as int, merged, 0);
        let mut i: usize = at;
        let mut j: usize = 0;
        let ghost mut done: nat = 0;
        while j < self.rects.len()
            invariant
                self.wf(),
                self.max == old(self).max,
                self.full == old(self).full,
                i < self.rects@.len(),
                j <= self.rects@.len(),
                merged.wf(),
                goal == absorbed(start, at as int, merged, 0),
                goal.0 == absorbed(self.rects@, i as int, merged, j as int).0,
                goal.1 == done + absorbed(self.rects@, i as int, merged, j as int).1,
                *metrics == (FramebufferMetrics {
                    merged_rects: counted(old(metrics).merged_rects, done + 1),
                    ..*old(metrics)
                }),
            decreases self.rects@.len() - j,
        {
            if j != i && self.rects[j].overlaps_or_adjacent(&merged) {
                let ghost before = self.rects@;
                let last: usize = self.rects.len() - 1;
                let grown = self.rects[i].merge(&self.rects[j]);
                self.rects.set(i, grown);
                let _ = self.rects.swap_remove(j);
                metrics.inc_merged();
                proof {
                    let g = before.update(i as int, grown);
                    assert(self.rects@ =~= swapped_out(g, j as int));
                    lemma_counted_step(old(metrics).merged_rects, done + 1);
                    done = done + 1;
                }
                if i == last {
                    i = j;
                }
            } else {
                j += 1;
            }
        }
    }

    pub fn is_dirty(&self) -> (r: bool)
        ensures
            r == (self.full || self.rects@.len() > 0),
    {
        self.full || self.rects.len() > 0
    }

    pub fn rects(&self) -> (r: &Vec<DirtyRect>)
        ensures
            *r == self.rects,
    {
        &self.rects
    }

    pub fn is_full(&self) -> (r: bool)
        ensures
            r == self.full,
    {
        self.full
    }

    /// Marks everything.
    pub fn set_full(&mut self)
        ensures
            final(self).rects@ == Seq::<DirtyRect>::empty(),
            final(self).full,
            final(self).max == old(self).max,
            final(self).wf(),
    {
        self.full = true;
        self.rects.clear();
    }

    pub fn count(&self) -> (r: usize)
        ensures
            r == self.rects@.len(),
    {
        self.rects.len()
    }
}

proof fn lemma_counted_step(c: u64, n: nat)
    ensures
        counted(c, n + 1) == counted(c, n).wrapping_add(1),
{
}

/// Growing one rectangle around others loses no pixel, and makes the sequence no
/// longer.
proof fn lemma_absorbed_covers(
    rects: Seq<DirtyRect>,
    i: int,
    m: DirtyRect,
    j: int,
    px: int,
    py: int,
)
    requires
        0 <= i < rects.len(),
        0 <= j,
        forall|k: int| 0 <= k < rects.len() ==> (#[trigger] rects[k]).wf(),
        some_contains(rects, px, py),
    ensures
        some_contains(absorbed(rects, i, m, j).0, px, py),
        absorbed(rects, i, m, j).0.len() <= rects.len(),
    decreases rects.len() - j,
{
    if j >= rects.len() {
    } else if j != i && rects[j].touches(m) {
        let grown = rects.update(i, rects[i].around(rects[j]));
        let s = swapped_out(grown, j);
        let i2 = if i == rects.len() - 1 {
            j
        } else {
            i
        };
        assert(s[i2] == rects[i].around(rects[j]));
        assert forall|k: int| 0 <= k < s.len() implies (#[trigger] s[k]).wf() by {
            if k != i2 && k == j {
                assert(s[k] == rects[rects.len() - 1]);
            } else if k != i2 {
                assert(s[k] == rects[k]);
            }
        }
        let k = choose|k: int| 0 <= k < rects.len() && (#[trigger] rects[k]).contains(px, py);
        if k == i || k == j {
            assert(s[i2].contains(px, py));
        } else if k == rects.len() - 1 {
            assert(s[j] == rects[k]);
            assert(s[j].contains(px, py));
        } else {
            assert(s[k] == rects[k]);
            assert(s[k].contains(px, py));
        }
        assert(some_contains(s, px, py));
        lemma_absorbed_covers(s, i2, m, j, px, py);
        assert(absorbed(rects, i, m, j).0 == absorbed(s, i2, m, j).0);
    } else {
        lemma_absorbed_covers(rects, i, m, j + 1, px, py);
    }
}

proof fn lemma_first_touching(rects: Seq<DirtyRect>, r: DirtyRect, i: int)
    requires
        0 <= i,
    ensures
        first_touching(rects, r, i) matches Some(k) ==> i <= k < rects.len() && rects[k].touches(r),
    decreases rects.len() - i,
{
    if i < rects.len() && !rects[i].touches(r) {
        lemma_first_touching(rects, r, i + 1);
    }
}

/// Marking loses nothing: what was to be presented still is, every pixel of the
/// new rectangle that is on the screen is too, and the list does not grow beyond
/// its maximum.
pub proof fn law_marked_is_presented(
    m: Marks,
    r: DirtyRect,
    screen_w: usize,
    screen_h: usize,
    px: int,
    py: int,
)
    requires
        m.wf(),
        m.rects.len() <= m.max,
        m.covers(px, py) || (r.contains(px, py) && px < screen_w && py < screen_h),
    ensures
        m.marked(r, screen_w, screen_h).covers(px, py),
        m.marked(r, screen_w, screen_h).rects.len() <= m.max,
{
    if !m.full && r.clipped(screen_w, screen_h) is Some {
        let c = r.clipped(screen_w, screen_h)->0;
        lemma_first_touching(m.rects, c, 0);
        match first_touching(m.rects, c, 0) {
            Some(i) => {
                let b = m.rects[i].around(c);
                let s = m.rects.update(i, b);
                if c.contains(px, py) {
                    assert(s[i].contains(px, py));
                } else {
                    let k = choose|k: int|
                        0 <= k < m.rects.len() && (#[trigger] m.rects[k]).contains(px, py);
                    assert(s[k].contains(px, py));
                }
                assert(some_contains(s, px, py));
                lemma_absorbed_covers(s, i, b, 0, px, py);
            },
            None => {
                if m.rects.len() < m.max {
                    let s = m.rects.push(c);
                    if c.contains(px, py) {
                        assert(s[m.rects.len() as int].contains(px, py));
                    } else {
                        let k = choose|k: int|
                            0 <= k < m.rects.len() && (#[trigger] m.rects[k]).contains(px, py);
                        assert(s[k].contains(px, py));
                    }
                    assert(some_contains(s, px, py));
                }
            },
        }
    }
}

/// Growing a rectangle around others on the screen keeps all of them there.
proof fn lemma_absorbed_on_screen(
    rects: Seq<DirtyRect>,
    i: int,
    m: DirtyRect,
    j: int,
    screen_w: usize,
    screen_h: usize,
)
    requires
        0 <= i < rects.len(),
        0 <= j,
        forall|k: int|
            0 <= k < rects.len() ==> (#[trigger] rects[k]).on_screen(screen_w, screen_h),
    ensures
        forall|k: int|
            0 <= k < absorbed(rects, i, m, j).0.len() ==> (#[trigger] absorbed(
                rects,
                i,
                m,
                j,
            ).0[k]).on_screen(screen_w, screen_h),
    decreases rects.len() - j,
{
    if j >= rects.len() {
        assert(absorbed(rects, i, m, j).0 == rects);
    } else if j != i && rects[j].touches(m) {
        let grown = rects.update(i, rects[i].around(rects[j]));
        let s = swapped_out(grown, j);
        let i2 = if i == rects.len() - 1 {
            j
        } else {
            i
        };
        assert forall|k: int| 0 <= k < s.len() implies (#[trigger] s[k]).on_screen(
            screen_w,
            screen_h,
        ) by {
            let from = if k == j {
                rects.len() - 1
            } else {
                k
            };
            assert(s[k] == grown[from]);
            assert(rects[from].on_screen(screen_w, screen_h));
            assert(rects[j].on_screen(screen_w, screen_h));
        }
        lemma_absorbed_on_screen(s, i2, m, j, screen_w, screen_h);
        assert(absorbed(rects, i, m, j).0 == absorbed(s, i2, m, j).0);
    } else {
        lemma_absorbed_on_screen(rects, i, m, j + 1, screen_w, screen_h);
        assert(absorbed(rects, i, m, j) == absorbed(rects, i, m, j + 1));
    }
}

/// However the screen is marked, each rectangle in the list has pixels, and all of
/// them are on the screen. The list starts out empty, and so does every list that
/// was presented or is full.
pub proof fn law_marks_stay_on_screen(
    m: Marks,
    r: DirtyRect,
    screen_w: usize,
    screen_h: usize,
)
    requires
        m.on_screen(screen_w, screen_h),
    ensures
        m.marked(r, screen_w, screen_h).on_screen(screen_w, screen_h),
        m.all().on_screen(screen_w, screen_h),
        m.none().on_screen(screen_w, screen_h),
{
    if !m.full && r.clipped(screen_w, screen_h) is Some {
        let c = r.clipped(screen_w, screen_h)->0;
        assert(c.on_screen(screen_w, screen_h));
        lemma_first_touching(m.rects, c, 0);
        match first_touching(m.rects, c, 0) {
            Some(i) => {
                let b = m.rects[i].around(c);
                assert(m.rects[i].on_screen(screen_w, screen_h));
                lemma_absorbed_on_screen(m.rects.update(i, b), i, b, 0, screen_w, screen_h);
            },
            None => {},
        }
    }
}

/// The bounding box covers both rectangles, and is no larger than it has to be.
pub proof fn law_merge_is_bounding_box(a: DirtyRect, b: DirtyRect, px: int, py: int)
    requires
        a.wf(),
        b.wf(),
    ensures
        a.contains(px, py) || b.contains(px, py) ==> a.around(b).contains(px, py),
        a.around(b) == b.around(a),
        a.around(b).x == a.x || a.around(b).x == b.x,
        a.around(b).y == a.y || a.around(b).y == b.y,
        a.around(b).x + a.around(b).w == a.x + a.w || a.around(b).x + a.around(b).w == b.x + b.w,
        a.around(b).y + a.around(b).h == a.y + a.h || a.around(b).y + a.around(b).h == b.y + b.h,
{
}

// ---------------------------------------------------------------------------
// The back buffer
// ---------------------------------------------------------------------------

/// Back buffer: `height` rows of `width` pixels.
#[derive(Debug)]
pub struct BackBuffer {
    pub pixels: Vec<u32>,
    pub width: usize,
    pub height: usize,
}

impl BackBuffer {
    pub open spec fn wf(&self) -> bool {
        self.pixels@.len() == self.width * self.height
    }

    /// The pixel is in the buffer.
    pub open spec fn inside(&self, x: int, y: int) -> bool {
        0 <= x < self.width && 0 <= y < self.height
    }

    /// The colour at a place in the buffer.
    pub open spec fn pixel(&self, x: int, y: int) -> u32 {
        self.pixels@[y * self.width + x]
    }

    /// The buffer has changed just where `paint` gives a colour, to that colour.
    pub open spec fn repainted(
        pre: BackBuffer,
        post: BackBuffer,
        paint: spec_fn(int, int) -> Option<u32>,
    ) -> bool {
        &&& post.wf()
        &&& post.width == pre.width
        &&& post.height == pre.height
        &&& forall|x: int, y: int|
            pre.inside(x, y) ==> #[trigger] post.pixel(x, y) == (match paint(x, y) {
                Some(color) => color,
                None => pre.pixel(x, y),
            })
    }

    pub fn new(width: usize, height: usize) -> (r: Self)
        requires
            width * height <= usize::MAX,
        ensures
            r.wf(),
            r.width == width,
            r.height == height,
            forall|i: int| 0 <= i < r.pixels@.len() ==> r.pixels@[i] == 0,
    {
        BackBuffer { pixels: vec![0u32; width * height], width, height }
    }

    /// Changes the size; the pixels keep their position in memory, and new ones
    /// are 0.
    pub fn resize(&mut self, width: usize, height: usize)
        requires
            width * height <= usize::MAX,
        ensures
            final(self).wf(),
            final(self).width == width,
            final(self).height == height,
            forall|i: int|
                0 <= i < width * height ==> #[trigger] final(self).pixels@[i] == (if i
                    < old(self).pixels@.len() {
                    old(self).pixels@[i]
                } else {
                    0
                }),
    {
        self.width = width;
        self.height = height;
        self.pixels.resize(width * height, 0);
    }

    /// Gives every pixel the same colour.
    pub fn clear(&mut self, color: u32)
        requires
            old(self).wf(),
        ensures
            Self::repainted(*old(self), *final(self), |x: int, y: int| Some(color)),
    {
        let n: usize = self.pixels.len();
        let mut i: usize = 0;
        while i < n
            invariant
                i <= n,
                n == self.pixels@.len(),
                self.width == old(self).width,
                self.height == old(self).height,
                n == self.width * self.height,
                forall|j: int| 0 <= j < i ==> self.pixels@[j] == color,
            decreases n - i,
        {
            self.pixels.set(i, color);
            i += 1;
        }
        assert forall|x: int, y: int| old(self).inside(x, y) implies #[trigger] self.pixel(x, y)
            == color by {
            lemma_place(self.width as int, self.height as int, x, y);
        }
    }

    /// Sets a pixel of the buffer; others are ignored.
    pub fn set_pixel(&mut self, x: usize, y: usize, color: u32)
        requires
            old(self).wf(),
        ensures
            Self::repainted(
                *old(self),
                *final(self),
                |px: int, py: int|
                    if px == x && py == y {
                        Some(color)
                    } else {
                        None
                    },
            ),
    {
        if x < self.width && y < self.height {
            proof {
                lemma_place(self.width as int, self.height as int, x as int, y as int);
                assert(self.pixels@.len() == self.pixels.len());
            }
            let row: usize = y * self.width;
            self.pixels.set(row + x, color);
            assert forall|px: int, py: int| old(self).inside(px, py) implies #[trigger] self.pixel(
                px,
                py,
            ) == (if px == x && py == y {
                color
            } else {
                old(self).pixel(px, py)
            }) by {
                lemma_place(self.width as int, self.height as int, px, py);
                lemma_places_differ(self.width as int, x as int, y as int, px, py);
            }
        }
    }

    /// The colour of a pixel, 0 outside the buffer.
    pub fn get_pixel(&self, x: usize, y: usize) -> (r: u32)
        requires
            self.wf(),
        ensures
            r == (if self.inside(x as int, y as int) {
                self.pixel(x as int, y as int)
            } else {
                0
            }),
    {
        if x < self.width && y < self.height {
            proof {
                lemma_place(self.width as int, self.height as int, x as int, y as int);
                assert(self.pixels@.len() == self.pixels.len());
            }
            self.pixels[y * self.width + x]
        } else {
            0
        }
    }
}

/// A pixel has a place in the buffer.
proof fn lemma_place(w: int, h: int, x: int, y: int)
    requires
        0 <= x < w,
        0 <= y < h,
    ensures
        0 <= y * w,
        y * w + x < w * h,
{
    assert(0 <= y * w && y * w + x < w * h) by (nonlinear_arith)
        requires
            0 <= x < w,
            0 <= y < h,
    ;
}

/// Different pixels have different places.
proof fn lemma_places_differ(w: int, x: int, y: int, px: int, py: int)
    requires
        0 <= x < w,
        0 <= px < w,
    ensures
        y * w + x == py * w + px <==> x == px && y == py,
{
    if y < py {
        assert(y * w + w <= py * w) by (nonlinear_arith)
            requires
                y + 1 <= py,
                0 < w,
        ;
    } else if py < y {
        assert(py * w + w <= y * w) by (nonlinear_arith)
            requires
                py + 1 <= y,
                0 < w,
        ;
    }
}

/// A glyph of a font: one byte per row, the highest bit leftmost.
#[derive(Debug)]
pub struct Glyph {
    pub ch: char,
    pub rows: Vec<u8>,
}

/// A bitmap font.
#[derive(Debug)]
pub struct Font {
    pub glyphs: Vec<Glyph>,
}

impl Font {
    /// Each glyph has all its rows.
    pub open spec fn wf(&self) -> bool {
        forall|i: int|
            0 <= i < self.glyphs@.len() ==> (#[trigger] self.glyphs@[i]).rows@.len() == FONT_HEIGHT
    }

    /// The rows of the first glyph from `i` on for a character.
    pub open spec fn rows_from(&self, ch: char, i: int) -> Option<Seq<u8>>
        decreases self.glyphs@.len() - i,
    {
        if i >= self.glyphs@.len() {
            None
        } else if self.glyphs@[i].ch == ch {
            Some(self.glyphs@[i].rows@)
        } else {
            self.rows_from(ch, i + 1)
        }
    }

    /// The rows of the glyph for a character.
    pub fn get_glyph(&self, ch: char) -> (r: Option<&Vec<u8>>)
        requires
            self.wf(),
        ensures
            match r {
                Some(rows) => self.rows_from(ch, 0) == Some(rows@) && rows@.len() == FONT_HEIGHT,
                None => self.rows_from(ch, 0) is None,
            },
    {
        let mut i: usize = 0;
        while i < self.glyphs.len()
            invariant
                self.wf(),
                i <= self.glyphs@.len(),
                self.rows_from(ch, 0) == self.rows_from(ch, i as int),
            decreases self.glyphs@.len() - i,
        {
            if self.glyphs[i].ch == ch {
                return Some(&self.glyphs[i].rows);
            }
            i += 1;
        }
        None
    }
}

/// A colour of its red, green and blue parts.
pub open spec fn rgb(r: u8, g: u8, b: u8) -> u32 {
    ((r as u32) << 16) | ((g as u32) << 8) | (b as u32)
}

pub open spec fn red(px: u32) -> u8 {
    ((px >> 16) & 0xFF) as u8
}

pub open spec fn green(px: u32) -> u8 {
    ((px >> 8) & 0xFF) as u8
}

pub open spec fn blue(px: u32) -> u8 {
    (px & 0xFF) as u8
}

/// A packed colour gives its parts back.
pub proof fn law_parts_of_packed(r: u8, g: u8, b: u8)
    ensures
        red(rgb(r, g, b)) == r,
        green(rgb(r, g, b)) == g,
        blue(rgb(r, g, b)) == b,
{
    let px = rgb(r, g, b);
    assert(px == ((r as u32) << 16) | ((g as u32) << 8) | (b as u32));
    assert(((px >> 16) & 0xFF) as u8 == r && ((px >> 8) & 0xFF) as u8 == g && (px & 0xFF) as u8
        == b) by (bit_vector)
        requires
            px == ((r as u32) << 16) | ((g as u32) << 8) | (b as u32),
    ;
}

// ---------------------------------------------------------------------------
// Video memory
// ---------------------------------------------------------------------------

/// Layout of the video memory: `height` lines of `stride` pixels of `bpp` bytes,
/// of which the first `width` pixels are on the screen.
#[derive(Clone, Copy, Debug, PartialEq, Eq)]
pub struct HardwareFb {
    pub width: usize,
    pub height: usize,
    pub stride: usize,
    pub bpp: usize,
    pub format: PixelFormat,
}

impl HardwareFb {
    /// A pixel has room for its colour, a line for its pixels, and the memory of
    /// `len` bytes for all lines.
    pub open spec fn wf(self, len: nat) -> bool {
        &&& 3 <= self.bpp
        &&& self.width <= self.stride
        &&& self.height * self.stride * self.bpp <= len
        &&& len <= usize::MAX
    }

    /// Where the bytes of a pixel begin.
    pub open spec fn offset(self, x: int, y: int) -> int {
        (y * self.stride + x) * self.bpp
    }

    /// How many bytes of a pixel are written.
    pub open spec fn written(self) -> int {
        if self.bpp >= 4 && self.format != PixelFormat::Other {
            4
        } else {
            3
        }
    }
}

/// Byte `b` of a pixel in video memory.
pub open spec fn pixel_byte(px: u32, format: PixelFormat, b: int) -> u8 {
    if b == 0 {
        if format == PixelFormat::Rgb {
            red(px)
        } else {
            blue(px)
        }
    } else if b == 1 {
        green(px)
    } else if b == 2 {
        if format == PixelFormat::Rgb {
            blue(px)
        } else {
            red(px)
        }
    } else {
        0xFF
    }
}

/// Writes the bytes of a pixel at an offset.
fn write_pixel_to_vram(
    vram: &mut [u8],
    offset: usize,
    hw: &HardwareFb,
    px: u32,
)
    requires
        3 <= hw.bpp,
        offset + hw.bpp <= old(vram)@.len(),
    ensures
        final(vram)@.len() == old(vram)@.len(),
        forall|k: int|
            0 <= k < old(vram)@.len() ==> #[trigger] final(vram)@[k] == (if offset <= k < offset
                + hw.written() {
                pixel_byte(px, hw.format, k - offset)
            } else {
                old(vram)@[k]
            }),
{
    let r: u8 = ((px >> 16) & 0xFF) as u8;
    let g: u8 = ((px >> 8) & 0xFF) as u8;
    let b: u8 = (px & 0xFF) as u8;
    match hw.format {
        PixelFormat::Rgb => {
            vram[offset] = r;
            vram[offset + 1] = g;
            vram[offset + 2] = b;
            if hw.bpp >= 4 {
                vram[offset + 3] = 0xFF;
            }
        },
        PixelFormat::Bgr => {
            vram[offset] = b;
            vram[offset + 1] = g;
            vram[offset + 2] = r;
            if hw.bpp >= 4 {
                vram[offset + 3] = 0xFF;
            }
        },
        PixelFormat::Other => {
            vram[offset] = b;
            vram[offset + 1] = g;
            vram[offset + 2] = r;
        },
    }
}

/// The part of a rectangle that is both on the screen and in the back buffer.
pub open spec fn visible(hw: HardwareFb, back: BackBuffer, rect: DirtyRect, x: int, y: int) -> bool {
    &&& rect.contains(x, y)
    &&& x < hw.width && x < back.width
    &&& y < hw.height && y < back.height
}

/// Byte `k` of the video memory after a rectangle was copied to it.
pub open spec fn blitted_byte(
    hw: HardwareFb,
    back: BackBuffer,
    rect: DirtyRect,
    vram: Seq<u8>,
    k: int,
) -> u8 {
    let b = k % hw.bpp as int;
    let x = k / hw.bpp as int % hw.stride as int;
    let y = k / hw.bpp as int / hw.stride as int;
    if visible(hw, back, rect, x, y) && b < hw.written() {
        pixel_byte(back.pixel(x, y), hw.format, b)
    } else {
        vram[k]
    }
}

/// The video memory after a rectangle was copied to it.
pub open spec fn blitted(
    hw: HardwareFb,
    back: BackBuffer,
    rect: DirtyRect,
    vram: Seq<u8>,
) -> Seq<u8> {
    Seq::new(vram.len(), |k: int| blitted_byte(hw, back, rect, vram, k))
}

/// The video memory after several rectangles were copied to it.
pub open spec fn blitted_all(
    hw: HardwareFb,
    back: BackBuffer,
    rects: Seq<DirtyRect>,
    vram: Seq<u8>,
) -> Seq<u8>
    decreases rects.len(),
{
    if rects.len() == 0 {
        vram
    } else {
        blitted(hw, back, rects.last(), blitted_all(hw, back, rects.drop_last(), vram))
    }
}

/// How many bytes of video memory a rectangle covers.
pub open spec fn blit_size(hw: HardwareFb, back: BackBuffer, rect: DirtyRect) -> int {
    let x2 = least(rect.x + rect.w, least(hw.width as int, back.width as int));
    let y2 = least(rect.y + rect.h, least(hw.height as int, back.height as int));
    if rect.x >= x2 || rect.y >= y2 {
        0
    } else {
        (y2 - rect.y) * ((x2 - rect.x) * hw.bpp)
    }
}

/// The counters after a rectangle was copied; an empty one is not counted.
pub open spec fn blit_counted(
    m: FramebufferMetrics,
    hw: HardwareFb,
    back: BackBuffer,
    rect: DirtyRect,
) -> FramebufferMetrics {
    let n = blit_size(hw, back, rect);
    if n == 0 {
        m
    } else {
        m.after_frame(false, 1, n as usize)
    }
}

/// The counters after several rectangles were copied.
pub open spec fn blits_counted(
    m: FramebufferMetrics,
    hw: HardwareFb,
    back: BackBuffer,
    rects: Seq<DirtyRect>,
) -> FramebufferMetrics
    decreases rects.len(),
{
    if rects.len() == 0 {
        m
    } else {
        blit_counted(blits_counted(m, hw, back, rects.drop_last()), hw, back, rects.last())
    }
}

/// The bytes of a pixel lie in the memory, and no other pixel has them.
proof fn lemma_offset(hw: HardwareFb, len: nat, x: int, y: int)
    requires
        hw.wf(len),
        0 <= x < hw.stride,
        0 <= y < hw.height,
    ensures
        0 <= y * hw.stride,
        y * hw.stride + x < hw.height * hw.stride,
        0 <= hw.offset(x, y),
        hw.offset(x, y) + hw.bpp <= hw.height * hw.stride * hw.bpp,
        hw.height * hw.stride <= len,
{
    let s = hw.stride as int;
    let h = hw.height as int;
    let b = hw.bpp as int;
    assert(0 <= y * s && y * s + s <= h * s) by (nonlinear_arith)
        requires
            0 <= y,
            y + 1 <= h,
            0 <= s,
    ;
    let p = y * s + x;
    assert(0 <= p * b && p * b + b <= h * s * b) by (nonlinear_arith)
        requires
            0 <= p,
            p + 1 <= h * s,
            0 <= b,
    ;
    assert(h * s <= h * s * b) by (nonlinear_arith)
        requires
            0 <= h * s,
            1 <= b,
    ;
}

/// A byte belongs to just one pixel.
proof fn lemma_byte_owner(hw: HardwareFb, x: int, y: int, k: int)
    requires
        3 <= hw.bpp,
        0 <= x < hw.stride,
        0 <= y,
        0 <= k,
    ensures
        hw.offset(x, y) <= k < hw.offset(x, y) + hw.bpp <==> (k / hw.bpp as int % hw.stride as int
            == x && k / hw.bpp as int / hw.stride as int == y),
        hw.offset(x, y) <= k < hw.offset(x, y) + hw.bpp ==> k - hw.offset(x, y) == k
            % hw.bpp as int,
{
    let b = hw.bpp as int;
    let s = hw.stride as int;
    let p = y * s + x;
    let q = k / b;
    assert(k == q * b + k % b && 0 <= k % b < b && 0 <= q) by (nonlinear_arith)
        requires
            0 <= k,
            b > 0,
            q == k / b,
    ;
    assert(q == (q / s) * s + q % s && 0 <= q % s < s && 0 <= q / s) by (nonlinear_arith)
        requires
            0 <= q,
            s > 0,
    ;
    lemma_places_differ(s, x, y, q % s, q / s);
    if p * b <= k < p * b + b {
        assert(q == p) by (nonlinear_arith)
            requires
                p * b <= k < p * b + b,
                k == q * b + k % b,
                0 <= k % b < b,
        ;
    }
}

/// Copies the visible part of a rectangle from the back buffer to the video
/// memory and returns its size in bytes.
pub fn blit_region(
    hw: &HardwareFb,
    back: &BackBuffer,
    rect: DirtyRect,
    vram: &mut [u8],
    metrics: &mut FramebufferMetrics,
) -> (r: FramebufferResult<usize>)
    requires
        back.wf(),
        rect.wf(),
        hw.wf(old(vram)@.len()),
    ensures
        r == Ok::<usize, FramebufferError>(blit_size(*hw, *back, rect) as usize),
        final(vram)@ == blitted(*hw, *back, rect, old(vram)@),
        *final(metrics) == blit_counted(*old(metrics), *hw, *back, rect),
        0 <= blit_size(*hw, *back, rect) <= old(vram)@.len(),
{
    let x: usize = rect.x;
    let y: usize = rect.y;
    let mut x2: usize = rect.right();
    if x2 > hw.width {
        x2 = hw.width;
    }
    if x2 > back.width {
        x2 = back.width;
    }
    let mut y2: usize = rect.bottom();
    if y2 > hw.height {
        y2 = hw.height;
    }
    if y2 > back.height {
        y2 = back.height;
    }
    let ghost start = vram@;
    if x >= x2 || y >= y2 {
        assert(vram@ =~= blitted(*hw, *back, rect, start));
        return Ok(0);
    }
    let cols: usize = x2 - x;
    let rows: usize = y2 - y;
    proof {
        let b = hw.bpp as int;
        let s = hw.stride as int;
        let h = hw.height as int;
        lemma_offset(*hw, start.len(), x as int, y as int);
        assert(cols * b <= s * b && rows * (cols * b) <= h * s * b && 0 <= cols * b && cols * b
            <= rows * (cols * b) && cols * b > 0 && rows * (cols * b) > 0) by (nonlinear_arith)
            requires
                0 < cols <= s,
                0 < rows <= h,
                0 < b,
        ;
    }
    let bytes_per_row: usize = cols * hw.bpp;
    let bytes_copied: usize = rows * bytes_per_row;
    let mut row: usize = y;
    while row < y2
        invariant
            back.wf(),
            hw.wf(start.len()),
            x == rect.x,
            y == rect.y,
            x < x2,
            x2 <= rect.x + rect.w,
            y2 <= rect.y + rect.h,
            x2 <= hw.width && x2 <= back.width,
            y2 <= hw.height && y2 <= back.height,
            y <= row <= y2,
            cols == x2 - x,
            vram@.len() == start.len(),
            forall|k: int|
                0 <= k < start.len() ==> #[trigger] vram@[k] == (if part_visible(
                    *hw,
                    rect,
                    x2 as int,
                    row as int,
                    0,
                    k,
                ) {
                    blitted_byte(*hw, *back, rect, start, k)
                } else {
                    start[k]
                }),
        decreases y2 - row,
    {
        let mut col: usize = 0;
        while col < cols
            invariant
                back.wf(),
                hw.wf(start.len()),
                x == rect.x,
                y == rect.y,
                x < x2,
                x2 <= rect.x + rect.w,
                y2 <= rect.y + rect.h,
                x2 <= hw.width && x2 <= back.width,
                y2 <= hw.height && y2 <= back.height,
                y <= row < y2,
                cols == x2 - x,
                col <= cols,
                vram@.len() == start.len(),
                forall|k: int|
                    0 <= k < start.len() ==> #[trigger] vram@[k] == (if part_visible(
                        *hw,
                        rect,
                        x2 as int,
                        row as int,
                        col as int,
                        k,
                    ) {
                        blitted_byte(*hw, *back, rect, start, k)
                    } else {
                        start[k]
                    }),
            decreases cols - col,
        {
            proof {
                lemma_offset(*hw, start.len(), x + col, row as int);
                lemma_place(back.width as int, back.height as int, x + col, row as int);
            }
            let px: u32 = back.get_pixel(x + col, row);
            let place: usize = row * hw.stride + (x + col);
            let offset: usize = place * hw.bpp;
            let ghost mid = vram@;
            write_pixel_to_vram(vram, offset, hw, px);
            proof {
                assert forall|k: int| 0 <= k < start.len() implies #[trigger] vram@[k] == (
                if part_visible(*hw, rect, x2 as int, row as int, col + 1, k) {
                    blitted_byte(*hw, *back, rect, start, k)
                } else {
                    start[k]
                }) by {
                    lemma_byte_owner(*hw, x + col, row as int, k);
                    let _ = mid[k];
                }
            }
            col += 1;
        }
        row += 1;
    }
    metrics.inc_frame(false, 1, bytes_copied);
    proof {
        assert forall|k: int| 0 <= k < start.len() implies vram@[k] == blitted_byte(
            *hw,
            *back,
            rect,
            start,
            k,
        ) by {
            let q = k / hw.bpp as int;
            assert(0 <= q) by (nonlinear_arith)
                requires
                    q == k / hw.bpp as int,
                    k >= 0,
                    hw.bpp > 0,
            ;
            assert(q / hw.stride as int >= 0 && q % hw.stride as int >= 0) by (nonlinear_arith)
                requires
                    q >= 0,
                    hw.stride > 0,
            ;
        }
        assert(vram@ =~= blitted(*hw, *back, rect, start));
    }
    Ok(bytes_copied)
}

/// Byte `k` belongs to a pixel of the rectangle above `row`, or in that row among
/// the first `cols`.
spec fn part_visible(
    hw: HardwareFb,
    rect: DirtyRect,
    x2: int,
    row: int,
    cols: int,
    k: int,
) -> bool {
    let x = k / hw.bpp as int % hw.stride as int;
    let y = k / hw.bpp as int / hw.stride as int;
    &&& rect.x <= x < x2
    &&& rect.y <= y
    &&& y < row || (y == row && x < rect.x + cols)
}

/// Copies the whole screen.
pub fn blit_full(
    hw: &HardwareFb,
    back: &BackBuffer,
    vram: &mut [u8],
    metrics: &mut FramebufferMetrics,
) -> (r: FramebufferResult<usize>)
    requires
        back.wf(),
        hw.wf(old(vram)@.len()),
    ensures
        ({
            let rect = DirtyRect { x: 0, y: 0, w: hw.width, h: hw.height };
            &&& r == Ok::<usize, FramebufferError>(blit_size(*hw, *back, rect) as usize)
            &&& final(vram)@ == blitted(*hw, *back, rect, old(vram)@)
            &&& *final(metrics) == full_counted(*old(metrics), *hw, *back)
        }),
{
    let rect = DirtyRect { x: 0, y: 0, w: hw.width, h: hw.height };
    let bytes: usize = match blit_region(hw, back, rect, vram, metrics) {
        Ok(n) => n,
        Err(e) => {
            return Err(e);
        },
    };
    metrics.inc_frame(true, 0, bytes);
    Ok(bytes)
}

/// The counters after the whole screen was copied: once as a region, once as a
/// full presentation.
pub open spec fn full_counted(
    m: FramebufferMetrics,
    hw: HardwareFb,
    back: BackBuffer,
) -> FramebufferMetrics {
    let rect = DirtyRect { x: 0, y: 0, w: hw.width, h: hw.height };
    blit_counted(m, hw, back, rect).after_frame(true, 0, blit_size(hw, back, rect) as usize)
}

// ---------------------------------------------------------------------------
// The presenter
// ---------------------------------------------------------------------------

/// Back buffer, dirty list and screen.
#[derive(Debug)]
pub struct FramebufferPresenter {
    pub config: FramebufferConfig,
    pub metrics: FramebufferMetrics,
    pub hw: Option<HardwareFb>,
    pub back: BackBuffer,
    pub dirty: DirtyList,
}

/// All of several rectangles marked, one after the other.
pub open spec fn marked_all(
    m: Marks,
    rects: Seq<DirtyRect>,
    screen_w: usize,
    screen_h: usize,
) -> Marks
    decreases rects.len(),
{
    if rects.len() == 0 {
        m
    } else {
        marked_all(m, rects.drop_last(), screen_w, screen_h).marked(
            rects.last(),
            screen_w,
            screen_h,
        )
    }
}

impl FramebufferPresenter {
    pub open spec fn wf(&self) -> bool {
        &&& self.back.wf()
        &&& self.dirty.wf()
    }

    pub open spec fn marks(&self) -> Marks {
        self.dirty.marks(self.metrics)
    }

    /// The back buffer was repainted and the rectangles were marked; nothing else
    /// has changed.
    pub open spec fn drew(
        pre: FramebufferPresenter,
        post: FramebufferPresenter,
        paint: spec_fn(int, int) -> Option<u32>,
        rects: Seq<DirtyRect>,
    ) -> bool {
        &&& post.wf()
        &&& BackBuffer::repainted(pre.back, post.back, paint)
        &&& post.marks() == marked_all(pre.marks(), rects, pre.back.width, pre.back.height)
        &&& post.config == pre.config
        &&& post.hw == pre.hw
        &&& post.metrics == (FramebufferMetrics {
            merged_rects: post.metrics.merged_rects,
            ..pre.metrics
        })
    }

    pub fn new(config: FramebufferConfig) -> (r: Self)
        requires
            config.broken_rule() is None,
        ensures
            r.wf(),
            r.config == config,
            r.hw is None,
            r.back.width == 0,
            r.back.height == 0,
            r.dirty.full,
            r.dirty.rects@.len() == 0,
            r.dirty.max == config.max_dirty_rects,
            r.metrics == (FramebufferMetrics {
                frames_presented: 0,
                full_blits: 0,
                partial_blits: 0,
                dirty_rects_processed: 0,
                bytes_copied: 0,
                draw_calls: 0,
                merged_rects: 0,
            }),
    {
        let dirty = DirtyList::new(&config);
        FramebufferPresenter {
            config,
            metrics: FramebufferMetrics::default(),
            hw: None,
            back: BackBuffer::new(0, 0),
            dirty,
        }
    }

    /// Takes on a screen: the back buffer gets its size, and everything is dirty.
    pub fn init(&mut self, hw: HardwareFb) -> (r: FramebufferResult<()>)
        requires
            hw.width * hw.height <= usize::MAX,
        ensures
            final(self).wf(),
            r is Ok,
            final(self).config == old(self).config,
            final(self).metrics == old(self).metrics,
            final(self).hw == Some(hw),
            final(self).back.width == hw.width,
            final(self).back.height == hw.height,
            forall|i: int|
                0 <= i < hw.width * hw.height ==> #[trigger] final(self).back.pixels@[i] == (if i
                    < old(self).back.pixels@.len() {
                    old(self).back.pixels@[i]
                } else {
                    0
                }),
            final(self).marks() == old(self).marks().all(),
    {
        self.hw = Some(hw);
        self.back.resize(hw.width, hw.height);
        self.dirty.set_full();
        Ok(())
    }

    pub fn width(&self) -> (r: usize)
        ensures
            r == self.back.width,
    {
        self.back.width
    }

    pub fn height(&self) -> (r: usize)
        ensures
            r == self.back.height,
    {
        self.back.height
    }

    pub fn metrics(&self) -> (r: &FramebufferMetrics)
        ensures
            *r == self.metrics,
    {
        &self.metrics
    }

    /// Marks a region.
    pub fn mark_dirty(&mut self, x: usize, y: usize, w: usize, h: usize)
        requires
            old(self).wf(),
        ensures
            final(self).back == old(self).back,
            Self::drew(
                *old(self),
                *final(self),
                |px: int, py: int| None,
                seq![DirtyRect { x, y, w, h }],
            ),
    {
        let r = DirtyRect { x, y, w, h };
        self.dirty.push(r, self.back.width, self.back.height, &mut self.metrics);
        proof {
            let one = seq![r];
            assert(one.drop_last() =~= Seq::<DirtyRect>::empty());
            reveal_with_fuel(marked_all, 2);
        }
    }

    /// Marks the whole screen.
    pub fn mark_all_dirty(&mut self)
        requires
            old(self).wf(),
        ensures
            final(self).wf(),
            final(self).marks() == old(self).marks().all(),
            final(self).back == old(self).back,
            final(self).config == old(self).config,
            final(self).hw == old(self).hw,
            final(self).metrics == old(self).metrics,
    {
        self.dirty.set_full();
    }

    /// What presenting returns and leaves behind: where something is dirty and
    /// there is a screen with pixels, all dirty regions are copied to it and
    /// nothing is dirty any more.
    pub open spec fn presented(
        pre: FramebufferPresenter,
        post: FramebufferPresenter,
        vram: Seq<u8>,
        shown: Seq<u8>,
        r: FramebufferResult<()>,
    ) -> bool {
        if !pre.dirty.full && pre.dirty.rects@.len() == 0 {
            r is Ok && post == pre && shown == vram
        } else if pre.hw is None {
            r == Err::<(), FramebufferError>(FramebufferError::NotInitialised) && post == pre
                && shown == vram
        } else if pre.back.pixels@.len() == 0 {
            r is Ok && post == pre && shown == vram
        } else {
            let hw = pre.hw->0;
            &&& r is Ok
            &&& post.wf()
            &&& post.config == pre.config
            &&& post.hw == pre.hw
            &&& post.back == pre.back
            &&& post.marks() == Marks { merged: post.metrics.merged_rects, ..pre.marks().none() }
            &&& if pre.dirty.full {
                &&& shown == blitted(
                    hw,
                    pre.back,
                    DirtyRect { x: 0, y: 0, w: hw.width, h: hw.height },
                    vram,
                )
                &&& post.metrics == full_counted(pre.metrics, hw, pre.back)
            } else {
                &&& shown == blitted_all(hw, pre.back, pre.dirty.rects@, vram)
                &&& post.metrics == blits_counted(pre.metrics, hw, pre.back, pre.dirty.rects@)
            }
        }
    }

    /// Copies what is dirty to the video memory.
    pub fn present(&mut self, vram: &mut [u8]) -> (r: FramebufferResult<()>)
        requires
            old(self).wf(),
            old(self).hw matches Some(hw) ==> hw.wf(old(vram)@.len()),
        ensures
            final(self).wf(),
            final(vram)@.len() == old(vram)@.len(),
            Self::presented(*old(self), *final(self), old(vram)@, final(vram)@, r),
    {
        if !self.dirty.is_dirty() {
            return Ok(());
        }
        let hw = match self.hw {
            Some(hw) => hw,
            None => {
                return Err(FramebufferError::NotInitialised);
            },
        };
        if self.back.pixels.len() == 0 {
            return Ok(());
        }
        if self.dirty.is_full() {
            let _ = blit_full(&hw, &self.back, vram, &mut self.metrics);
        } else {
            let ghost start = vram@;
            let ghost rects = self.dirty.rects@;
            let mut i: usize = 0;
            proof {
                assert(rects.take(0) =~= Seq::<DirtyRect>::empty());
            }
            while i < self.dirty.rects.len()
                invariant
                    self.wf(),
                    i <= self.dirty.rects@.len(),
                    hw.wf(start.len()),
                    vram@.len() == start.len(),
                    rects == self.dirty.rects@,
                    self.dirty == old(self).dirty,
                    self.back == old(self).back,
                    self.config == old(self).config,
                    self.hw == old(self).hw,
                    vram@ == blitted_all(hw, self.back, rects.take(i as int), start),
                    self.metrics == blits_counted(
                        old(self).metrics,
                        hw,
                        self.back,
                        rects.take(i as int),
                    ),
                decreases self.dirty.rects@.len() - i,
            {
                proof {
                    assert(rects.take(i + 1).drop_last() =~= rects.take(i as int));
                    assert(rects.take(i + 1).last() == rects[i as int]);
                }
                let _ = blit_region(&hw, &self.back, self.dirty.rects[i], vram, &mut self.metrics);
                i += 1;
            }
            assert(rects.take(i as int) =~= rects);
        }
        self.dirty.clear();
        Ok(())
    }

    /// Copies the whole screen.
    pub fn present_full(&mut self, vram: &mut [u8]) -> (r: FramebufferResult<()>)
        requires
            old(self).wf(),
            old(self).hw matches Some(hw) ==> hw.wf(old(vram)@.len()),
        ensures
            final(self).wf(),
            final(vram)@.len() == old(vram)@.len(),
            exists|mid: FramebufferPresenter|
                mid.marks() == old(self).marks().all() && mid.back == old(self).back && mid.config
                    == old(self).config && mid.hw == old(self).hw && mid.metrics
                    == old(self).metrics && #[trigger] Self::presented(
                    mid,
                    *final(self),
                    old(vram)@,
                    final(vram)@,
                    r,
                ),
    {
        self.dirty.set_full();
        let ghost mid = *self;
        let r = self.present(vram);
        assert(Self::presented(mid, *self, old(vram)@, vram@, r));
        r
    }

    /// The back buffer, to draw on.
    pub fn back_buffer_mut(&mut self) -> (r: &mut BackBuffer)
        ensures
            *r == old(self).back,
            *final(self) == (FramebufferPresenter { back: *final(r), ..*old(self) }),
    {
        &mut self.back
    }

    pub fn back_buffer(&self) -> (r: &BackBuffer)
        ensures
            *r == self.back,
    {
        &self.back
    }
}

/// Drawing twice is drawing once, with the second painting over the first and all
/// rectangles marked in their order.
proof fn lemma_drew_twice(
    pre: FramebufferPresenter,
    mid: FramebufferPresenter,
    post: FramebufferPresenter,
    f: spec_fn(int, int) -> Option<u32>,
    g: spec_fn(int, int) -> Option<u32>,
    h: spec_fn(int, int) -> Option<u32>,
    first: Seq<DirtyRect>,
    second: Seq<DirtyRect>,
)
    requires
        FramebufferPresenter::drew(pre, mid, f, first),
        FramebufferPresenter::drew(mid, post, g, second),
        forall|x: int, y: int|
            pre.back.inside(x, y) ==> #[trigger] h(x, y) == (if g(x, y) is Some {
                g(x, y)
            } else {
                f(x, y)
            }),
    ensures
        FramebufferPresenter::drew(pre, post, h, first + second),
{
    draw::lemma_repaint(pre.back, mid.back, post.back, f, g, h);
    lemma_marked_concat(pre.marks(), first, second, pre.back.width, pre.back.height);
}

proof fn lemma_marked_concat(
    m: Marks,
    first: Seq<DirtyRect>,
    second: Seq<DirtyRect>,
    w: usize,
    h: usize,
)
    ensures
        marked_all(m, first + second, w, h) == marked_all(marked_all(m, first, w, h), second, w, h),
    decreases second.len(),
{
    if second.len() == 0 {
        assert(first + second =~= first);
    } else {
        lemma_marked_concat(m, first, second.drop_last(), w, h);
        assert((first + second).drop_last() =~= first + second.drop_last());
    }
}

/// Only the back buffer was repainted.
proof fn lemma_drew_unmarked(
    pre: FramebufferPresenter,
    post: FramebufferPresenter,
    paint: spec_fn(int, int) -> Option<u32>,
)
    requires
        pre.wf(),
        BackBuffer::repainted(pre.back, post.back, paint),
        post == (FramebufferPresenter { back: post.back, ..pre }),
    ensures
        FramebufferPresenter::drew(pre, post, paint, Seq::empty()),
{
}

/// Painted, then marked.
proof fn lemma_drew_marked(
    pre: FramebufferPresenter,
    mid: FramebufferPresenter,
    post: FramebufferPresenter,
    paint: spec_fn(int, int) -> Option<u32>,
    r: DirtyRect,
)
    requires
        pre.wf(),
        BackBuffer::repainted(pre.back, mid.back, paint),
        mid == (FramebufferPresenter { back: mid.back, ..pre }),
        FramebufferPresenter::drew(mid, post, |px: int, py: int| None, seq![r]),
    ensures
        FramebufferPresenter::drew(pre, post, paint, seq![r]),
{
    lemma_drew_unmarked(pre, mid, paint);
    lemma_drew_twice(
        pre,
        mid,
        post,
        paint,
        |px: int, py: int| None,
        paint,
        Seq::empty(),
        seq![r],
    );
    assert(Seq::<DirtyRect>::empty() + seq![r] =~= seq![r]);
}

/// A picture at rest costs nothing: where nothing is drawn between two presentations,
/// the second one copies no byte and counts nothing.
pub proof fn law_picture_at_rest_is_not_copied(
    p0: FramebufferPresenter,
    p1: FramebufferPresenter,
    p2: FramebufferPresenter,
    v0: Seq<u8>,
    v1: Seq<u8>,
    v2: Seq<u8>,
    r1: FramebufferResult<()>,
    r2: FramebufferResult<()>,
)
    requires
        FramebufferPresenter::presented(p0, p1, v0, v1, r1),
        FramebufferPresenter::presented(p1, p2, v1, v2, r2),
    ensures
        v2 == v1,
        p2 == p1,
        r2 is Ok == r1 is Ok,
{
}

/// After a presentation, the screen shows the back buffer at every pixel that was
/// dirty and is visible.
pub proof fn law_presented_pixels_are_shown(
    hw: HardwareFb,
    back: BackBuffer,
    rects: Seq<DirtyRect>,
    vram: Seq<u8>,
    x: int,
    y: int,
    b: int,
)
    requires
        hw.wf(vram.len()),
        0 <= x < hw.width,
        0 <= y < hw.height,
        back.inside(x, y),
        some_contains(rects, x, y),
        0 <= b < hw.written(),
    ensures
        blitted_all(hw, back, rects, vram)[hw.offset(x, y) + b] == pixel_byte(
            back.pixel(x, y),
            hw.format,
            b,
        ),
        blitted_all(hw, back, rects, vram).len() == vram.len(),
    decreases rects.len(),
{
    let k = hw.offset(x, y) + b;
    lemma_offset(hw, vram.len(), x, y);
    lemma_byte_owner(hw, x, y, k);
    lemma_blitted_len(hw, back, rects, vram);
    lemma_blitted_len(hw, back, rects.drop_last(), vram);
    let before = blitted_all(hw, back, rects.drop_last(), vram);
    if rects.last().contains(x, y) {
        assert(blitted_byte(hw, back, rects.last(), before, k) == pixel_byte(
            back.pixel(x, y),
            hw.format,
            b,
        ));
    } else {
        let i = choose|i: int| 0 <= i < rects.len() && (#[trigger] rects[i]).contains(x, y);
        assert(rects.drop_last()[i].contains(x, y));
        law_presented_pixels_are_shown(hw, back, rects.drop_last(), vram, x, y, b);
    }
}

proof fn lemma_blitted_len(hw: HardwareFb, back: BackBuffer, rects: Seq<DirtyRect>, vram: Seq<u8>)
    ensures
        blitted_all(hw, back, rects, vram).len() == vram.len(),
    decreases rects.len(),
{
    if rects.len() > 0 {
        lemma_blitted_len(hw, back, rects.drop_last(), vram);
    }
}

/// A presentation changes no pixel that was not dirty.
pub proof fn law_clean_pixels_are_left(
    hw: HardwareFb,
    back: BackBuffer,
    rects: Seq<DirtyRect>,
    vram: Seq<u8>,
    x: int,
    y: int,
    b: int,
)
    requires
        hw.wf(vram.len()),
        0 <= x < hw.stride,
        0 <= y < hw.height,
        !some_contains(rects, x, y),
        0 <= b < hw.bpp,
    ensures
        blitted_all(hw, back, rects, vram)[hw.offset(x, y) + b] == vram[hw.offset(x, y) + b],
    decreases rects.len(),
{
    let k = hw.offset(x, y) + b;
    lemma_offset(hw, vram.len(), x, y);
    lemma_byte_owner(hw, x, y, k);
    lemma_blitted_len(hw, back, rects, vram);
    if rects.len() > 0 {
        lemma_blitted_len(hw, back, rects.drop_last(), vram);
        assert(!rects[rects.len() - 1].contains(x, y));
        assert forall|i: int| 0 <= i < rects.len() - 1 implies !(
        #[trigger] rects.drop_last()[i]).contains(x, y) by {
            assert(!rects[i].contains(x, y));
        }
        law_clean_pixels_are_left(hw, back, rects.drop_last(), vram, x, y, b);
    }
}

// ---------------------------------------------------------------------------
// Drawing on the screen that its owner passes in
// ---------------------------------------------------------------------------

/// A presenter for a screen, with the default configuration.
pub fn init(hw: HardwareFb) -> (r: FramebufferPresenter)
    requires
        hw.width * hw.height <= usize::MAX,
    ensures
        r.wf(),
        r.hw == Some(hw),
        r.back.width == hw.width,
        r.back.height == hw.height,
        forall|i: int| 0 <= i < r.back.pixels@.len() ==> r.back.pixels@[i] == 0,
        r.config == (FramebufferConfig {
            max_dirty_rects: 32,
            double_buffer_enabled: true,
            collect_metrics: true,
            log_operations: false,
            default_bg_rgb: 0x0A0E1A,
        }),
        r.dirty.full,
        r.dirty.rects@.len() == 0,
        r.dirty.max == DEFAULT_MAX_DIRTY_RECTS,
        r.metrics == (FramebufferMetrics {
            frames_presented: 0,
            full_blits: 0,
            partial_blits: 0,
            dirty_rects_processed: 0,
            bytes_copied: 0,
            draw_calls: 0,
            merged_rects: 0,
        }),
{
    let mut p = FramebufferPresenter::new(FramebufferConfig::default());
    let _ = p.init(hw);
    p
}

/// Marks a region.
pub fn mark_dirty(p: &mut FramebufferPresenter, x: usize, y: usize, w: usize, h: usize)
    requires
        old(p).wf(),
    ensures
        final(p).back == old(p).back,
        FramebufferPresenter::drew(
            *old(p),
            *final(p),
            |px: int, py: int| None,
            seq![DirtyRect { x, y, w, h }],
        ),
{
    p.mark_dirty(x, y, w, h);
}

/// Marks the whole screen.
pub fn mark_all_dirty(p: &mut FramebufferPresenter)
    requires
        old(p).wf(),
    ensures
        final(p).wf(),
        final(p).marks() == old(p).marks().all(),
        final(p).back == old(p).back,
        final(p).config == old(p).config,
        final(p).hw == old(p).hw,
        final(p).metrics == old(p).metrics,
{
    p.mark_all_dirty();
}

/// Copies what is dirty to the video memory; a failure is ignored.
pub fn present(p: &mut FramebufferPresenter, vram: &mut [u8])
    requires
        old(p).wf(),
        old(p).hw matches Some(hw) ==> hw.wf(old(vram)@.len()),
    ensures
        final(p).wf(),
        final(vram)@.len() == old(vram)@.len(),
        exists|r: FramebufferResult<()>| #[trigger]
            FramebufferPresenter::presented(*old(p), *final(p), old(vram)@, final(vram)@, r),
{
    let r = p.present(vram);
    assert(FramebufferPresenter::presented(*old(p), *p, old(vram)@, vram@, r));
}

/// Copies the whole screen to the video memory; a failure is ignored.
pub fn present_full(p: &mut FramebufferPresenter, vram: &mut [u8])
    requires
        old(p).wf(),
        old(p).hw matches Some(hw) ==> hw.wf(old(vram)@.len()),
    ensures
        final(p).wf(),
        final(vram)@.len() == old(vram)@.len(),
        exists|mid: FramebufferPresenter, r: FramebufferResult<()>|
            mid.marks() == old(p).marks().all() && mid.back == old(p).back && mid.config
                == old(p).config && mid.hw == old(p).hw && mid.metrics == old(p).metrics
                && #[trigger] FramebufferPresenter::presented(
                mid,
                *final(p),
                old(vram)@,
                final(vram)@,
                r,
            ),
{
    let _ = p.present_full(vram);
}

pub fn width(p: &FramebufferPresenter) -> (r: usize)
    ensures
        r == p.back.width,
{
    p.width()
}

pub fn height(p: &FramebufferPresenter) -> (r: usize)
    ensures
        r == p.back.height,
{
    p.height()
}

pub fn size(p: &FramebufferPresenter) -> (r: (usize, usize))
    ensures
        r == (p.back.width, p.back.height),
{
    (p.width(), p.height())
}

/// Sets a pixel.
pub fn set_pixel(p: &mut FramebufferPresenter, x: usize, y: usize, r: u8, g: u8, b: u8)
    requires
        old(p).wf(),
    ensures
        FramebufferPresenter::drew(
            *old(p),
            *final(p),
            draw::pixel_paint(x as int, y as int, rgb(r, g, b)),
            seq![DirtyRect { x, y, w: 1, h: 1 }],
        ),
{
    let color: u32 = pack_rgb(r, g, b);
    draw::set_pixel(&mut p.back, x, y, color);
    let ghost mid = *p;
    p.mark_dirty(x, y, 1, 1);
    proof {
        lemma_drew_marked(
            *old(p),
            mid,
            *p,
            draw::pixel_paint(x as int, y as int, color),
            DirtyRect { x, y, w: 1, h: 1 },
        );
    }
}

/// Fills a rectangle.
pub fn fill_rect(
    p: &mut FramebufferPresenter,
    x: usize,
    y: usize,
    w: usize,
    h: usize,
    r: u8,
    g: u8,
    b: u8,
)
    requires
        old(p).wf(),
        x + w <= usize::MAX,
        y + h <= usize::MAX,
    ensures
        FramebufferPresenter::drew(
            *old(p),
            *final(p),
            draw::rect_paint(x as int, y as int, w as int, h as int, rgb(r, g, b)),
            seq![DirtyRect { x, y, w, h }],
        ),
{
    let color: u32 = pack_rgb(r, g, b);
    draw::fill_rect(&mut p.back, x, y, w, h, color);
    let ghost mid = *p;
    p.mark_dirty(x, y, w, h);
    proof {
        lemma_drew_marked(
            *old(p),
            mid,
            *p,
            draw::rect_paint(x as int, y as int, w as int, h as int, color),
            DirtyRect { x, y, w, h },
        );
    }
}

/// Gives the whole screen one colour.
pub fn clear(p: &mut FramebufferPresenter, rgb_val: u32)
    requires
        old(p).wf(),
    ensures
        final(p).wf(),
        BackBuffer::repainted(old(p).back, final(p).back, |x: int, y: int| Some(rgb_val)),
        final(p).marks() == old(p).marks().all(),
        final(p).config == old(p).config,
        final(p).hw == old(p).hw,
        final(p).metrics == old(p).metrics,
{
    draw::clear(&mut p.back, rgb_val);
    p.mark_all_dirty();
}

/// Blends a colour over a pixel.
pub fn blend_pixel(
    p: &mut FramebufferPresenter,
    x: usize,
    y: usize,
    r: u8,
    g: u8,
    b: u8,
    alpha: u8,
)
    requires
        old(p).wf(),
    ensures
        FramebufferPresenter::drew(
            *old(p),
            *final(p),
            draw::blend_paint(old(p).back, x, y, r, g, b, alpha),
            seq![DirtyRect { x, y, w: 1, h: 1 }],
        ),
{
    draw::blend_pixel(&mut p.back, x, y, r, g, b, alpha);
    let ghost mid = *p;
    p.mark_dirty(x, y, 1, 1);
    proof {
        lemma_drew_marked(
            *old(p),
            mid,
            *p,
            draw::blend_paint(old(p).back, x, y, r, g, b, alpha),
            DirtyRect { x, y, w: 1, h: 1 },
        );
    }
}

/// The area marked for text: eight pixels for each byte.
pub open spec fn text_area(x: usize, y: usize, text: Seq<char>) -> DirtyRect {
    DirtyRect { x, y, w: (encode_utf8(text).len() * 8) as usize, h: FONT_HEIGHT }
}

/// Draws text in a colour.
pub fn draw_text_col(
    p: &mut FramebufferPresenter,
    font: &Font,
    x: usize,
    y: usize,
    text: &str,
    r: u8,
    g: u8,
    b: u8,
)
    requires
        old(p).wf(),
        font.wf(),
        2 * x + FONT_WIDTH * text@.len() <= usize::MAX,
        y + FONT_HEIGHT <= usize::MAX,
        encode_utf8(text@).len() * 8 <= usize::MAX,
    ensures
        FramebufferPresenter::drew(
            *old(p),
            *final(p),
            draw::text_paint(*font, text@, 2 * x, y as int, rgb(r, g, b)),
            seq![text_area(x, y, text@)],
        ),
{
    let color: u32 = pack_rgb(r, g, b);
    draw::draw_text(&mut p.back, font, x, y, text, color);
    let ghost mid = *p;
    let w: usize = text.len() * 8;
    p.mark_dirty(x, y, w, FONT_HEIGHT);
    proof {
        lemma_drew_marked(
            *old(p),
            mid,
            *p,
            draw::text_paint(*font, text@, 2 * x, y as int, color),
            text_area(x, y, text@),
        );
    }
}

/// The colour on the edge of a rectangle.
pub open spec fn outline_paint(
    x: int,
    y: int,
    w: int,
    h: int,
    color: u32,
) -> spec_fn(int, int) -> Option<u32> {
    |px: int, py: int|
        if x <= px < x + w && y <= py < y + h && (px == x || px == x + w - 1 || py == y || py == y
            + h - 1) {
            Some(color)
        } else {
            None
        }
}

/// The areas marked for the edge of a rectangle: its four sides and the whole.
pub open spec fn outline_areas(x: usize, y: usize, w: usize, h: usize) -> Seq<DirtyRect> {
    seq![
        DirtyRect { x, y, w, h: 1 },
        DirtyRect { x, y: (y + h - 1) as usize, w, h: 1 },
        DirtyRect { x, y, w: 1, h },
        DirtyRect { x: (x + w - 1) as usize, y, w: 1, h },
        DirtyRect { x, y, w, h },
    ]
}

/// Draws the edge of a rectangle; an empty one has none.
#[verifier::spinoff_prover]
#[verifier::rlimit(60)]
pub fn draw_rect(
    p: &mut FramebufferPresenter,
    x: usize,
    y: usize,
    w: usize,
    h: usize,
    r: u8,
    g: u8,
    b: u8,
)
    requires
        old(p).wf(),
        w > 0 && h > 0 ==> x + w <= usize::MAX && y + h <= usize::MAX,
    ensures
        w == 0 || h == 0 ==> *final(p) == *old(p),
        w > 0 && h > 0 ==> FramebufferPresenter::drew(
            *old(p),
            *final(p),
            outline_paint(x as int, y as int, w as int, h as int, rgb(r, g, b)),
            outline_areas(x, y, w, h),
        ),
{
    if w == 0 || h == 0 {
        return;
    }
    let ghost c = rgb(r, g, b);
    let ghost (xi, yi, wi, hi) = (x as int, y as int, w as int, h as int);
    fill_rect(p, x, y, w, 1, r, g, b);
    let ghost s1 = *p;
    fill_rect(p, x, y + h - 1, w, 1, r, g, b);
    let ghost s2 = *p;
    fill_rect(p, x, y, 1, h, r, g, b);
    let ghost s3 = *p;
    fill_rect(p, x + w - 1, y, 1, h, r, g, b);
    let ghost s4 = *p;
    p.mark_dirty(x, y, w, h);
    proof {
        let all = outline_areas(x, y, w, h);
        let f1 = draw::rect_paint(xi, yi, wi, 1, c);
        let g2 = draw::rect_paint(xi, yi + hi - 1, wi, 1, c);
        let g3 = draw::rect_paint(xi, yi, 1, hi, c);
        let g4 = draw::rect_paint(xi + wi - 1, yi, 1, hi, c);
        let f2 = |px: int, py: int|
            if g2(px, py) is Some {
                g2(px, py)
            } else {
                f1(px, py)
            };
        let f3 = |px: int, py: int|
            if g3(px, py) is Some {
                g3(px, py)
            } else {
                f2(px, py)
            };
        let f4 = outline_paint(xi, yi, wi, hi, c);
        lemma_drew_twice(*old(p), s1, s2, f1, g2, f2, seq![all[0]], seq![all[1]]);
        lemma_drew_twice(
            *old(p),
            s2,
            s3,
            f2,
            g3,
            f3,
            seq![all[0]] + seq![all[1]],
            seq![all[2]],
        );
        lemma_drew_twice(
            *old(p),
            s3,
            s4,
            f3,
            g4,
            f4,
            seq![all[0]] + seq![all[1]] + seq![all[2]],
            seq![all[3]],
        );
        lemma_drew_twice(
            *old(p),
            s4,
            *p,
            f4,
            |px: int, py: int| None,
            f4,
            seq![all[0]] + seq![all[1]] + seq![all[2]] + seq![all[3]],
            seq![all[4]],
        );
        assert(seq![all[0]] + seq![all[1]] + seq![all[2]] + seq![all[3]] + seq![all[4]] =~= all);
    }
}

/// Draws a horizontal line.
pub fn hline(p: &mut FramebufferPresenter, x: usize, y: usize, w: usize, r: u8, g: u8, b: u8)
    requires
        old(p).wf(),
        x + w <= usize::MAX,
        y < usize::MAX,
    ensures
        FramebufferPresenter::drew(
            *old(p),
            *final(p),
            draw::rect_paint(x as int, y as int, w as int, 1, rgb(r, g, b)),
            seq![DirtyRect { x, y, w, h: 1 }],
        ),
{
    fill_rect(p, x, y, w, 1, r, g, b);
}

/// Draws a vertical line.
pub fn vline(p: &mut FramebufferPresenter, x: usize, y: usize, h: usize, r: u8, g: u8, b: u8)
    requires
        old(p).wf(),
        x < usize::MAX,
        y + h <= usize::MAX,
    ensures
        FramebufferPresenter::drew(
            *old(p),
            *final(p),
            draw::rect_paint(x as int, y as int, 1, h as int, rgb(r, g, b)),
            seq![DirtyRect { x, y, w: 1, h }],
        ),
{
    fill_rect(p, x, y, 1, h, r, g, b);
}

/// The bytes in a row of a mask.
pub open spec fn mask_stride(w: usize) -> int {
    (w + 7) / 8
}

/// Draws the set bits of a mask whose rows are padded to whole bytes.
pub fn blit_mask(
    p: &mut FramebufferPresenter,
    px: usize,
    py: usize,
    w: usize,
    h: usize,
    mask: &[u8],
    r: u8,
    g: u8,
    b: u8,
)
    requires
        old(p).wf(),
        px + w <= usize::MAX,
        w + 7 <= usize::MAX,
        h * mask_stride(w) + w <= usize::MAX,
    ensures
        FramebufferPresenter::drew(
            *old(p),
            *final(p),
            draw::mask_paint(
                mask@,
                mask_stride(w),
                px as int,
                py as int,
                w as int,
                h as int,
                rgb(r, g, b),
            ),
            seq![DirtyRect { x: px, y: py, w, h }],
        ),
{
    let color: u32 = pack_rgb(r, g, b);
    draw::blit_mask(&mut p.back, px, py, w, h, mask, color, (w + 7) / 8);
    let ghost mid = *p;
    p.mark_dirty(px, py, w, h);
    proof {
        lemma_drew_marked(
            *old(p),
            mid,
            *p,
            draw::mask_paint(
                mask@,
                mask_stride(w),
                px as int,
                py as int,
                w as int,
                h as int,
                color,
            ),
            DirtyRect { x: px, y: py, w, h },
        );
    }
}

/// Copies a rectangle of pixels.
pub fn blit_pixels(
    p: &mut FramebufferPresenter,
    dx: usize,
    dy: usize,
    w: usize,
    h: usize,
    pixels: &[u32],
    stride: usize,
)
    requires
        old(p).wf(),
        dx + w <= usize::MAX,
        dy + h <= usize::MAX,
        h * stride + w <= usize::MAX,
    ensures
        FramebufferPresenter::drew(
            *old(p),
            *final(p),
            draw::pixels_paint(pixels@, stride as int, dx as int, dy as int, w as int, h as int),
            seq![DirtyRect { x: dx, y: dy, w, h }],
        ),
{
    draw::blit_pixels(&mut p.back, dx, dy, w, h, pixels, stride);
    let ghost mid = *p;
    p.mark_dirty(dx, dy, w, h);
    proof {
        lemma_drew_marked(
            *old(p),
            mid,
            *p,
            draw::pixels_paint(pixels@, stride as int, dx as int, dy as int, w as int, h as int),
            DirtyRect { x: dx, y: dy, w, h },
        );
    }
}

/// A cursor at `x`, `y`: its shape in white, the outline of it in black over
/// that, and below both a dark shadow, one pixel to the right and down.
pub open spec fn cursor_paint(
    mask: Seq<u8>,
    outline: Seq<u8>,
    x: int,
    y: int,
) -> spec_fn(int, int) -> Option<u32> {
    let stride = mask_stride(CURSOR_W);
    let (w, h) = (CURSOR_W as int, CURSOR_H as int);
    let shadow = draw::mask_paint(mask, stride, x + 1, y + 1, w, h, rgb(30, 30, 30));
    let shape = draw::mask_paint(mask, stride, x, y, w, h, rgb(255, 255, 255));
    let edge = draw::mask_paint(outline, stride, x, y, w, h, rgb(0, 0, 0));
    |px: int, py: int|
        if edge(px, py) is Some {
            edge(px, py)
        } else if shape(px, py) is Some {
            shape(px, py)
        } else {
            shadow(px, py)
        }
}

/// The areas marked for a cursor.
pub open spec fn cursor_areas(x: usize, y: usize) -> Seq<DirtyRect> {
    seq![
        DirtyRect { x: (x + 1) as usize, y: (y + 1) as usize, w: CURSOR_W, h: CURSOR_H },
        DirtyRect { x, y, w: CURSOR_W, h: CURSOR_H },
        DirtyRect { x, y, w: CURSOR_W, h: CURSOR_H },
        DirtyRect { x, y, w: (CURSOR_W + 2) as usize, h: (CURSOR_H + 2) as usize },
    ]
}

/// Draws the cursor.
pub fn draw_cursor(p: &mut FramebufferPresenter, x: usize, y: usize, mask: &[u8], outline: &[u8])
    requires
        old(p).wf(),
        x + CURSOR_W + 2 <= usize::MAX,
        y + CURSOR_H + 2 <= usize::MAX,
    ensures
        FramebufferPresenter::drew(
            *old(p),
            *final(p),
            cursor_paint(mask@, outline@, x as int, y as int),
            cursor_areas(x, y),
        ),
{
    blit_mask(p, x + 1, y + 1, CURSOR_W, CURSOR_H, mask, 30, 30, 30);
    let ghost s1 = *p;
    blit_mask(p, x, y, CURSOR_W, CURSOR_H, mask, 255, 255, 255);
    let ghost s2 = *p;
    blit_mask(p, x, y, CURSOR_W, CURSOR_H, outline, 0, 0, 0);
    let ghost s3 = *p;
    p.mark_dirty(x, y, CURSOR_W + 2, CURSOR_H + 2);
    proof {
        let all = cursor_areas(x, y);
        let stride = mask_stride(CURSOR_W);
        let (w, h) = (CURSOR_W as int, CURSOR_H as int);
        let shadow = draw::mask_paint(mask@, stride, x + 1, y + 1, w, h, rgb(30, 30, 30));
        let shape = draw::mask_paint(mask@, stride, x as int, y as int, w, h, rgb(255, 255, 255));
        let edge = draw::mask_paint(outline@, stride, x as int, y as int, w, h, rgb(0, 0, 0));
        let two = |px: int, py: int|
            if shape(px, py) is Some {
                shape(px, py)
            } else {
                shadow(px, py)
            };
        let full = cursor_paint(mask@, outline@, x as int, y as int);
        lemma_drew_twice(*old(p), s1, s2, shadow, shape, two, seq![all[0]], seq![all[1]]);
        lemma_drew_twice(
            *old(p),
            s2,
            s3,
            two,
            edge,
            full,
            seq![all[0]] + seq![all[1]],
            seq![all[2]],
        );
        lemma_drew_twice(
            *old(p),
            s3,
            *p,
            full,
            |px: int, py: int| None,
            full,
            seq![all[0]] + seq![all[1]] + seq![all[2]],
            seq![all[3]],
        );
        assert(seq![all[0]] + seq![all[1]] + seq![all[2]] + seq![all[3]] =~= all);
    }
}

/// Paints over the cursor with the background.
pub fn erase_cursor(p: &mut FramebufferPresenter, x: usize, y: usize, bg_rgb: u32)
    requires
        old(p).wf(),
        x + CURSOR_W + 2 <= usize::MAX,
        y + CURSOR_H + 2 <= usize::MAX,
    ensures
        ({
            let area = DirtyRect {
                x,
                y,
                w: (CURSOR_W + 2) as usize,
                h: (CURSOR_H + 2) as usize,
            };
            FramebufferPresenter::drew(
                *old(p),
                *final(p),
                draw::rect_paint(
                    x as int,
                    y as int,
                    CURSOR_W + 2,
                    CURSOR_H + 2,
                    rgb(red(bg_rgb), green(bg_rgb), blue(bg_rgb)),
                ),
                seq![area, area],
            )
        }),
{
    let r: u8 = ((bg_rgb >> 16) & 0xFF) as u8;
    let g: u8 = ((bg_rgb >> 8) & 0xFF) as u8;
    let b: u8 = (bg_rgb & 0xFF) as u8;
    fill_rect(p, x, y, CURSOR_W + 2, CURSOR_H + 2, r, g, b);
    let ghost mid = *p;
    p.mark_dirty(x, y, CURSOR_W + 2, CURSOR_H + 2);
    proof {
        let area = DirtyRect { x, y, w: (CURSOR_W + 2) as usize, h: (CURSOR_H + 2) as usize };
        let f = draw::rect_paint(
            x as int,
            y as int,
            CURSOR_W + 2,
            CURSOR_H + 2,
            rgb(red(bg_rgb), green(bg_rgb), blue(bg_rgb)),
        );
        lemma_drew_twice(
            *old(p),
            mid,
            *p,
            f,
            |px: int, py: int| None,
            f,
            seq![area],
            seq![area],
        );
        assert(seq![area] + seq![area] =~= seq![area, area]);
    }
}

pub open spec fn splash_logo() -> Seq<char> {
    "IONA OS"@
}

pub open spec fn splash_line() -> Seq<char> {
    "v0.6.0 \u{2014} Booting..."@
}

/// Where a text starts that is centred in `w` pixels, eight to a byte.
pub open spec fn centred(w: usize, text: Seq<char>) -> int {
    let tw = encode_utf8(text).len() * 8;
    if w > tw {
        (w - tw) / 2
    } else {
        0
    }
}

/// The splash screen: a dark background with two lines of text, each painted at twice
/// the place at which it would be centred.
pub open spec fn splash_paint(font: Font, w: usize, h: usize) -> spec_fn(int, int) -> Option<u32> {
    let top = h as int / 2 - 20;
    let ground = draw::rect_paint(0, 0, w as int, h as int, rgb(0x0A, 0x0E, 0x1A));
    let logo = draw::text_paint(
        font,
        splash_logo(),
        2 * centred(w, splash_logo()),
        top,
        rgb(0x4A, 0x9E, 0xFF),
    );
    let line = draw::text_paint(
        font,
        splash_line(),
        2 * centred(w, splash_line()),
        top + 20,
        rgb(0x80, 0x80, 0xA0),
    );
    |px: int, py: int|
        if line(px, py) is Some {
            line(px, py)
        } else if logo(px, py) is Some {
            logo(px, py)
        } else {
            ground(px, py)
        }
}

/// The areas marked for the splash screen.
pub open spec fn splash_areas(w: usize, h: usize) -> Seq<DirtyRect> {
    let top = h as int / 2 - 20;
    seq![
        DirtyRect { x: 0, y: 0, w, h },
        text_area(centred(w, splash_logo()) as usize, top as usize, splash_logo()),
        text_area(centred(w, splash_line()) as usize, (top + 20) as usize, splash_line()),
    ]
}

/// Draws the splash screen.
fn draw_splash(p: &mut FramebufferPresenter, font: &Font)
    requires
        old(p).wf(),
        font.wf(),
        old(p).back.width > 0,
        old(p).back.height >= 40,
        old(p).back.width + 1000 <= usize::MAX,
        old(p).back.height + 1000 <= usize::MAX,
    ensures
        FramebufferPresenter::drew(
            *old(p),
            *final(p),
            splash_paint(*font, old(p).back.width, old(p).back.height),
            splash_areas(old(p).back.width, old(p).back.height),
        ),
{
    let w: usize = p.width();
    let h: usize = p.height();
    let logo: &str = "IONA OS";
    let sub: &str = "v0.6.0 \u{2014} Booting...";
    proof {
        reveal_strlit("IONA OS");
        reveal_strlit("v0.6.0 \u{2014} Booting...");
        assert(logo@.len() <= 20 && sub@.len() <= 20);
        text::lemma_encoded_len(splash_logo());
        text::lemma_encoded_len(splash_line());
    }
    let ghost s0 = *p;
    fill_rect(p, 0, 0, w, h, 0x0A, 0x0E, 0x1A);
    let ghost s1 = *p;
    let lx: usize = w.saturating_sub(logo.len() * 8) / 2;
    let ly: usize = h / 2 - 20;
    assert(lx == centred(w, splash_logo()));
    draw_text_col(p, font, lx, ly, logo, 0x4A, 0x9E, 0xFF);
    let ghost s2 = *p;
    let sx: usize = w.saturating_sub(sub.len() * 8) / 2;
    assert(sx == centred(w, splash_line()));
    draw_text_col(p, font, sx, ly + 20, sub, 0x80, 0x80, 0xA0);
    proof {
        lemma_splash(s0, s1, s2, *p, *font, w, h);
    }
}

/// The background and the two lines make up the splash screen.
proof fn lemma_splash(
    s0: FramebufferPresenter,
    s1: FramebufferPresenter,
    s2: FramebufferPresenter,
    s3: FramebufferPresenter,
    font: Font,
    w: usize,
    h: usize,
)
    requires
        FramebufferPresenter::drew(
            s0,
            s1,
            draw::rect_paint(0, 0, w as int, h as int, rgb(0x0A, 0x0E, 0x1A)),
            seq![DirtyRect { x: 0, y: 0, w, h }],
        ),
        FramebufferPresenter::drew(
            s1,
            s2,
            draw::text_paint(
                font,
                splash_logo(),
                2 * centred(w, splash_logo()),
                h as int / 2 - 20,
                rgb(0x4A, 0x9E, 0xFF),
            ),
            seq![
                text_area(
                    centred(w, splash_logo()) as usize,
                    (h as int / 2 - 20) as usize,
                    splash_logo(),
                ),
            ],
        ),
        FramebufferPresenter::drew(
            s2,
            s3,
            draw::text_paint(
                font,
                splash_line(),
                2 * centred(w, splash_line()),
                h as int / 2 - 20 + 20,
                rgb(0x80, 0x80, 0xA0),
            ),
            seq![
                text_area(
                    centred(w, splash_line()) as usize,
                    (h as int / 2 - 20 + 20) as usize,
                    splash_line(),
                ),
            ],
        ),
    ensures
        FramebufferPresenter::drew(s0, s3, splash_paint(font, w, h), splash_areas(w, h)),
{
    let all = splash_areas(w, h);
    let top = h as int / 2 - 20;
    let ground = draw::rect_paint(0, 0, w as int, h as int, rgb(0x0A, 0x0E, 0x1A));
    let logo = draw::text_paint(
        font,
        splash_logo(),
        2 * centred(w, splash_logo()),
        top,
        rgb(0x4A, 0x9E, 0xFF),
    );
    let line = draw::text_paint(
        font,
        splash_line(),
        2 * centred(w, splash_line()),
        top + 20,
        rgb(0x80, 0x80, 0xA0),
    );
    let two = |px: int, py: int|
        if logo(px, py) is Some {
            logo(px, py)
        } else {
            ground(px, py)
        };
    lemma_drew_twice(s0, s1, s2, ground, logo, two, seq![all[0]], seq![all[1]]);
    lemma_drew_twice(
        s0,
        s2,
        s3,
        two,
        line,
        splash_paint(font, w, h),
        seq![all[0]] + seq![all[1]],
        seq![all[2]],
    );
    assert(seq![all[0]] + seq![all[1]] + seq![all[2]] =~= all);
}

/// Draws and presents the boot splash; a screen without pixels shows none.
pub fn draw_boot_splash(p: &mut FramebufferPresenter, font: &Font, vram: &mut [u8])
    requires
        old(p).wf(),
        font.wf(),
        old(p).hw matches Some(hw) ==> hw.wf(old(vram)@.len()),
        old(p).back.width > 0 ==> old(p).back.height == 0 || old(p).back.height >= 40,
        old(p).back.width + 1000 <= usize::MAX,
        old(p).back.height + 1000 <= usize::MAX,
    ensures
        final(p).wf(),
        final(vram)@.len() == old(vram)@.len(),
        old(p).back.width == 0 || old(p).back.height == 0 ==> *final(p) == *old(p) && final(vram)@
            == old(vram)@,
        old(p).back.width > 0 && old(p).back.height > 0 ==> exists|
            mid: FramebufferPresenter,
            r: FramebufferResult<()>,
        |
            FramebufferPresenter::drew(
                *old(p),
                mid,
                splash_paint(*font, old(p).back.width, old(p).back.height),
                splash_areas(old(p).back.width, old(p).back.height),
            ) && #[trigger] FramebufferPresenter::presented(
                mid,
                *final(p),
                old(vram)@,
                final(vram)@,
                r,
            ),
{
    if p.width() == 0 || p.height() == 0 {
        return;
    }
    draw_splash(p, font);
    present(p, vram);
}

/// Draws and presents the boot splash.
pub fn draw_logo(p: &mut FramebufferPresenter, font: &Font, vram: &mut [u8])
    requires
        old(p).wf(),
        font.wf(),
        old(p).hw matches Some(hw) ==> hw.wf(old(vram)@.len()),
        old(p).back.width > 0 ==> old(p).back.height == 0 || old(p).back.height >= 40,
        old(p).back.width + 1000 <= usize::MAX,
        old(p).back.height + 1000 <= usize::MAX,
    ensures
        final(p).wf(),
        final(vram)@.len() == old(vram)@.len(),
        old(p).back.width == 0 || old(p).back.height == 0 ==> *final(p) == *old(p) && final(vram)@
            == old(vram)@,
        old(p).back.width > 0 && old(p).back.height > 0 ==> exists|
            mid: FramebufferPresenter,
            r: FramebufferResult<()>,
        |
            FramebufferPresenter::drew(
                *old(p),
                mid,
                splash_paint(*font, old(p).back.width, old(p).back.height),
                splash_areas(old(p).back.width, old(p).back.height),
            ) && #[trigger] FramebufferPresenter::presented(
                mid,
                *final(p),
                old(vram)@,
                final(vram)@,
                r,
            ),
{
    draw_boot_splash(p, font, vram);
}

// ---------------------------------------------------------------------------
// Laws
// ---------------------------------------------------------------------------

proof fn lemma_marked_one(m: Marks, r: DirtyRect, w: usize, h: usize)
    ensures
        marked_all(m, seq![r], w, h) == m.marked(r, w, h),
{
    let s = seq![r];
    assert(s.drop_last() =~= Seq::<DirtyRect>::empty());
    assert(marked_all(m, s.drop_last(), w, h) == m);
}

/// The parts of a packed colour are its third, second and first byte.
proof fn lemma_parts(px: u32)
    ensures
        red(px) == (px / 65536) % 256,
        green(px) == (px / 256) % 256,
        blue(px) == px % 256,
{
    assert(((px >> 16) & 0xFF) as u8 == (px / 65536) % 256 && ((px >> 8) & 0xFF) as u8 == (px / 256)
        % 256 && (px & 0xFF) as u8 == px % 256) by (bit_vector);
}

/// After a presentation, each pixel that was dirty and is on the screen lies in video
/// memory where its row and its column are, in the order of bytes that the hardware has:
/// red, green and blue, or blue, green and red, and then a byte of ones where there is a
/// fourth that it knows. Nothing is dirty any more, and the picture itself is unchanged.
pub proof fn law_screen_shows_the_colours(
    p: &mut FramebufferPresenter,
    vram: &mut [u8],
    r: FramebufferResult<()>,
    i: int,
    x: int,
    y: int,
)
    requires
        old(p).wf(),
        old(p).hw matches Some(hw) && hw.wf(old(vram)@.len()) && x < hw.width && y < hw.height,
        call_ensures(FramebufferPresenter::present, (p, vram), r),
        0 <= x < old(p).back.width,
        0 <= y < old(p).back.height,
        old(p).dirty.full || (0 <= i < old(p).dirty.rects@.len() && old(p).dirty.rects@[i].x <= x
            && x < old(p).dirty.rects@[i].x + old(p).dirty.rects@[i].w && old(p).dirty.rects@[i].y
            <= y && y < old(p).dirty.rects@[i].y + old(p).dirty.rects@[i].h),
    ensures
        ({
            let hw = old(p).hw->0;
            let px = old(p).back.pixels@[y * old(p).back.width + x] as int;
            let at = (y * hw.stride + x) * hw.bpp;
            let shown = final(vram)@;
            let (high, middle, low) = ((px / 65536) % 256, (px / 256) % 256, px % 256);
            &&& r is Ok
            &&& hw.format == PixelFormat::Rgb ==> shown[at] == high && shown[at + 1] == middle
                && shown[at + 2] == low
            &&& hw.format != PixelFormat::Rgb ==> shown[at] == low && shown[at + 1] == middle
                && shown[at + 2] == high
            &&& hw.bpp >= 4 && hw.format != PixelFormat::Other ==> shown[at + 3] == 255
            &&& final(vram)@.len() == old(vram)@.len()
            &&& !final(p).dirty.full && final(p).dirty.rects@.len() == 0
            &&& final(p).back == old(p).back
        }),
{
    let hw = old(p).hw->0;
    let back = old(p).back;
    let px = back.pixel(x, y);
    lemma_parts(px);
    let whole = DirtyRect { x: 0, y: 0, w: hw.width, h: hw.height };
    let rects = if old(p).dirty.full {
        seq![whole]
    } else {
        old(p).dirty.rects@
    };
    if old(p).dirty.full {
        assert(rects.drop_last() =~= Seq::<DirtyRect>::empty());
        assert(blitted_all(hw, back, rects.drop_last(), old(vram)@) == old(vram)@);
        assert(rects[0].contains(x, y));
    } else {
        assert(rects[i].contains(x, y));
    }
    assert(some_contains(rects, x, y));
    let (w, h) = (back.width as int, back.height as int);
    assert(w * h > 0) by (nonlinear_arith)
        requires
            w > 0,
            h > 0,
    ;
    assert(back.pixels@.len() > 0);
    assert(back.inside(x, y));
    law_presented_pixels_are_shown(hw, back, rects, old(vram)@, x, y, 0);
    law_presented_pixels_are_shown(hw, back, rects, old(vram)@, x, y, 1);
    law_presented_pixels_are_shown(hw, back, rects, old(vram)@, x, y, 2);
    if hw.written() == 4 {
        law_presented_pixels_are_shown(hw, back, rects, old(vram)@, x, y, 3);
    }
    assert(final(vram)@ == blitted_all(hw, back, rects, old(vram)@));
    assert(final(p).dirty.rects@ == final(p).marks().rects);
    assert(final(p).dirty.full == final(p).marks().full);
}

/// Copying a rectangle that is on the screen copies as many bytes as its pixels have, and
/// says so; they are counted with one rectangle.
pub proof fn law_copied_bytes_are_counted(
    hw: &HardwareFb,
    back: &BackBuffer,
    rect: DirtyRect,
    vram: &mut [u8],
    m: &mut FramebufferMetrics,
    r: FramebufferResult<usize>,
)
    requires
        hw.wf(old(vram)@.len()),
        rect.w > 0,
        rect.h > 0,
        rect.x + rect.w <= hw.width,
        rect.x + rect.w <= back.width,
        rect.y + rect.h <= hw.height,
        rect.y + rect.h <= back.height,
        call_ensures(blit_region, (hw, back, rect, vram, m), r),
    ensures
        r is Ok,
        r->Ok_0 == rect.w * rect.h * hw.bpp,
        old(m).dirty_rects_processed < u64::MAX ==> final(m).dirty_rects_processed == old(
            m).dirty_rects_processed + 1,
        old(m).bytes_copied + rect.w * rect.h * hw.bpp <= u64::MAX ==> final(m).bytes_copied == old(
            m).bytes_copied + rect.w * rect.h * hw.bpp,
        old(m).partial_blits < u64::MAX ==> final(m).partial_blits == old(m).partial_blits + 1,
        final(m).full_blits == old(m).full_blits,
        old(m).frames_presented < u64::MAX ==> final(m).frames_presented == old(m).frames_presented
            + 1,
{
    let (w, h, b) = (rect.w as int, rect.h as int, hw.bpp as int);
    assert(h * (w * b) == w * h * b && h * (w * b) > 0) by (nonlinear_arith)
        requires
            w > 0,
            h > 0,
            b > 0,
    ;
}

/// Two rectangles are taken together exactly where no column and no row of pixels lies
/// between them.
pub proof fn law_rectangles_touch_without_a_gap(a: &DirtyRect, b: &DirtyRect, r: bool)
    requires
        call_ensures(DirtyRect::overlaps_or_adjacent, (a, b), r),
    ensures
        r <==> !(a.x + a.w < b.x || b.x + b.w < a.x || a.y + a.h < b.y || b.y + b.h < a.y),
{
}

/// What two rectangles are taken together to holds both and no more rows and columns than
/// it takes.
pub proof fn law_merged_holds_both(a: &DirtyRect, b: &DirtyRect, r: DirtyRect, x: int, y: int)
    requires
        a.wf(),
        b.wf(),
        call_ensures(DirtyRect::merge, (a, b), r),
    ensures
        r.x <= a.x && r.x <= b.x && (r.x == a.x || r.x == b.x),
        r.y <= a.y && r.y <= b.y && (r.y == a.y || r.y == b.y),
        a.x + a.w <= r.x + r.w && b.x + b.w <= r.x + r.w,
        r.x + r.w == a.x + a.w || r.x + r.w == b.x + b.w,
        a.y + a.h <= r.y + r.h && b.y + b.h <= r.y + r.h,
        r.y + r.h == a.y + a.h || r.y + r.h == b.y + b.h,
{
}

/// A pixel and a filled rectangle are painted in the colour that was named, nothing else
/// is, and every pixel that was painted is marked for the next presentation.
pub proof fn law_filled_is_painted_and_marked(
    a: &mut FramebufferPresenter,
    x: usize,
    y: usize,
    w: usize,
    h: usize,
    r: u8,
    g: u8,
    b: u8,
    c: &mut FramebufferPresenter,
    qx: int,
    qy: int,
)
    requires
        old(a).wf(),
        old(a).dirty.rects@.len() <= old(a).dirty.max,
        call_ensures(fill_rect, (a, x, y, w, h, r, g, b), ()),
        *old(c) == *old(a),
        call_ensures(set_pixel, (c, x, y, r, g, b), ()),
        0 <= qx < old(a).back.width,
        0 <= qy < old(a).back.height,
    ensures
        ({
            let color = (r * 65536 + g * 256 + b) as u32;
            let inside = x <= qx && qx < x + w && y <= qy && qy < y + h;
            let here = qx == x && qy == y;
            &&& inside ==> draw::at(final(a).back, qx, qy) == color && final(a).marks().covers(
                qx,
                qy,
            )
            &&& !inside ==> draw::at(final(a).back, qx, qy) == draw::at(old(a).back, qx, qy)
            &&& here ==> draw::at(final(c).back, qx, qy) == color && final(c).marks().covers(qx, qy)
            &&& !here ==> draw::at(final(c).back, qx, qy) == draw::at(old(c).back, qx, qy)
            &&& old(a).marks().covers(qx, qy) ==> final(a).marks().covers(qx, qy) && final(
                c).marks().covers(qx, qy)
        }),
{
    lemma_packed(r, g, b);
    assert(old(a).back.inside(qx, qy));
    assert(final(a).back.pixel(qx, qy) == draw::at(final(a).back, qx, qy));
    assert(final(c).back.pixel(qx, qy) == draw::at(final(c).back, qx, qy));
    let (sw, sh) = (old(a).back.width, old(a).back.height);
    let area = DirtyRect { x, y, w, h };
    let one = DirtyRect { x, y, w: 1, h: 1 };
    lemma_marked_one(old(a).marks(), area, sw, sh);
    lemma_marked_one(old(a).marks(), one, sw, sh);
    if old(a).marks().covers(qx, qy) || area.contains(qx, qy) {
        law_marked_is_presented(old(a).marks(), area, sw, sh, qx, qy);
    }
    if old(a).marks().covers(qx, qy) || one.contains(qx, qy) {
        law_marked_is_presented(old(a).marks(), one, sw, sh, qx, qy);
    }
}

proof fn lemma_packed(r: u8, g: u8, b: u8)
    ensures
        rgb(r, g, b) == r * 65536 + g * 256 + b,
{
    assert((((r as u32) << 16) | ((g as u32) << 8) | (b as u32)) == r * 65536 + g * 256 + b)
        by (bit_vector);
}

/// A line is one pixel thick and runs right or down from its start; a frame is the four
/// lines along the inside of its rectangle. No other pixel is painted.
pub proof fn law_lines_are_one_pixel_thick(
    a: &mut FramebufferPresenter,
    c: &mut FramebufferPresenter,
    d: &mut FramebufferPresenter,
    x: usize,
    y: usize,
    w: usize,
    h: usize,
    r: u8,
    g: u8,
    b: u8,
    qx: int,
    qy: int,
)
    requires
        old(a).wf(),
        w > 0,
        h > 0,
        call_ensures(hline, (a, x, y, w, r, g, b), ()),
        *old(c) == *old(a),
        call_ensures(vline, (c, x, y, h, r, g, b), ()),
        *old(d) == *old(a),
        call_ensures(draw_rect, (d, x, y, w, h, r, g, b), ()),
        0 <= qx < old(a).back.width,
        0 <= qy < old(a).back.height,
    ensures
        ({
            let color = (r * 65536 + g * 256 + b) as u32;
            let was = draw::at(old(a).back, qx, qy);
            let across = qy == y && x <= qx && qx < x + w;
            let down = qx == x && y <= qy && qy < y + h;
            let bottom = qy == y + h - 1 && x <= qx && qx < x + w;
            let right = qx == x + w - 1 && y <= qy && qy < y + h;
            &&& draw::at(final(a).back, qx, qy) == (if across {
                color
            } else {
                was
            })
            &&& draw::at(final(c).back, qx, qy) == (if down {
                color
            } else {
                was
            })
            &&& draw::at(final(d).back, qx, qy) == (if across || down || bottom || right {
                color
            } else {
                was
            })
        }),
{
    lemma_packed(r, g, b);
    assert(old(a).back.inside(qx, qy));
    assert(final(a).back.pixel(qx, qy) == draw::at(final(a).back, qx, qy));
    assert(final(c).back.pixel(qx, qy) == draw::at(final(c).back, qx, qy));
    assert(final(d).back.pixel(qx, qy) == draw::at(final(d).back, qx, qy));
}

/// A mask's rows are whole bytes: as many as its pixels need and no more.
pub proof fn law_mask_rows_are_whole_bytes(w: usize)
    ensures
        8 * mask_stride(w) >= w,
        w > 0 ==> 8 * (mask_stride(w) - 1) < w,
{
}

/// A picture that is copied to the screen, or a mask that is painted, is what the drawing
/// on the buffer paints, and its rectangle is marked.
pub proof fn law_copied_picture_is_marked(
    a: &mut FramebufferPresenter,
    dx: usize,
    dy: usize,
    w: usize,
    h: usize,
    pixels: &[u32],
    stride: usize,
    qx: int,
    qy: int,
)
    requires
        old(a).wf(),
        old(a).dirty.rects@.len() <= old(a).dirty.max,
        call_ensures(blit_pixels, (a, dx, dy, w, h, pixels, stride), ()),
        w <= stride,
        pixels@.len() == h * stride,
        0 <= qx < old(a).back.width,
        0 <= qy < old(a).back.height,
    ensures
        ({
            let inside = dx <= qx && qx < dx + w && dy <= qy && qy < dy + h;
            &&& inside ==> draw::at(final(a).back, qx, qy) == pixels@[(qy - dy) * stride + (qx
                - dx)]
            &&& inside ==> final(a).marks().covers(qx, qy)
            &&& !inside ==> draw::at(final(a).back, qx, qy) == draw::at(old(a).back, qx, qy)
        }),
{
    assert(old(a).back.inside(qx, qy));
    assert(final(a).back.pixel(qx, qy) == draw::at(final(a).back, qx, qy));
    let (sw, sh) = (old(a).back.width, old(a).back.height);
    let area = DirtyRect { x: dx, y: dy, w, h };
    lemma_marked_one(old(a).marks(), area, sw, sh);
    if area.contains(qx, qy) {
        law_marked_is_presented(old(a).marks(), area, sw, sh, qx, qy);
        let (row, col, n, s) = (qy - dy, qx - dx, h as int, stride as int);
        assert(row * s + col < n * s) by (nonlinear_arith)
            requires
                0 <= row < n,
                0 <= col < s,
        ;
    }
}

/// Erasing the cursor paints the background over the place of the cursor and its shadow,
/// and nothing else.
pub proof fn law_erased_cursor_is_background(
    a: &mut FramebufferPresenter,
    x: usize,
    y: usize,
    bg: u32,
    qx: int,
    qy: int,
)
    requires
        old(a).wf(),
        bg < 0x100_0000,
        call_ensures(erase_cursor, (a, x, y, bg), ()),
        0 <= qx < old(a).back.width,
        0 <= qy < old(a).back.height,
    ensures
        draw::at(final(a).back, qx, qy) == (if x <= qx && qx < x + 16 && y <= qy && qy < y + 24 {
            bg
        } else {
            draw::at(old(a).back, qx, qy)
        }),
{
    assert(old(a).back.inside(qx, qy));
    assert(final(a).back.pixel(qx, qy) == draw::at(final(a).back, qx, qy));
    lemma_parts(bg);
    lemma_packed(red(bg), green(bg), blue(bg));
}

/// The cursor is a white shape with a black edge over it and a dark shadow one pixel right
/// and below; what none of them covers stays.
pub proof fn law_cursor_has_edge_shape_and_shadow(
    a: &mut FramebufferPresenter,
    x: usize,
    y: usize,
    mask: &[u8],
    outline: &[u8],
    qx: int,
    qy: int,
)
    requires
        old(a).wf(),
        call_ensures(draw_cursor, (a, x, y, mask, outline), ()),
        0 <= qx < old(a).back.width,
        0 <= qy < old(a).back.height,
    ensures
        ({
            let (col, row) = (qx - x, qy - y);
            let inside = 0 <= col < 14 && 0 <= row < 22;
            let edge = inside && draw::mask_bit(outline@, 2, col, row);
            let shape = inside && draw::mask_bit(mask@, 2, col, row);
            let shadow = 1 <= col < 15 && 1 <= row < 23 && draw::mask_bit(
                mask@,
                2,
                col - 1,
                row - 1,
            );
            draw::at(final(a).back, qx, qy) == (if edge {
                0
            } else if shape {
                0xFFFFFF
            } else if shadow {
                0x1E1E1E
            } else {
                draw::at(old(a).back, qx, qy)
            })
        }),
{
    assert(old(a).back.inside(qx, qy));
    assert(final(a).back.pixel(qx, qy) == draw::at(final(a).back, qx, qy));
    lemma_packed(30, 30, 30);
    lemma_packed(255, 255, 255);
    lemma_packed(0, 0, 0);
}

/// A text that is narrower than the screen is put in its middle, but for one pixel.
pub proof fn law_centred_is_in_the_middle(w: usize, text: Seq<char>)
    ensures
        encode_utf8(text).len() * 8 < w ==> 0 <= w - (2 * centred(w, text) + encode_utf8(text).len()
            * 8) <= 1,
        encode_utf8(text).len() * 8 >= w ==> centred(w, text) == 0,
{
}

/// A picture is read where its pixels are: the one that was set last, and nothing beyond
/// its edges.
pub proof fn law_set_pixel_is_read(
    a: &mut BackBuffer,
    x: usize,
    y: usize,
    color: u32,
    qx: usize,
    qy: usize,
    before: u32,
    after: u32,
)
    requires
        old(a).wf(),
        call_ensures(BackBuffer::set_pixel, (a, x, y, color), ()),
        call_ensures(BackBuffer::get_pixel, (&*old(a), qx, qy), before),
        call_ensures(BackBuffer::get_pixel, (&*final(a), qx, qy), after),
    ensures
        qx == x && qy == y && qx < old(a).width && qy < old(a).height ==> after == color,
        !(qx == x && qy == y) ==> after == before,
        qx >= old(a).width || qy >= old(a).height ==> after == 0,
{
    if qx < old(a).width && qy < old(a).height {
        assert(old(a).inside(qx as int, qy as int));
        assert(final(a).pixel(qx as int, qy as int) == after);
    }
}

/// Settings pass exactly where at least one rectangle can be kept.
pub proof fn law_framebuffer_settings_keep_a_mark(
    c: &FramebufferConfig,
    r: Result<(), &'static str>,
)
    requires
        call_ensures(FramebufferConfig::validate, (c,), r),
    ensures
        r is Ok <==> c.max_dirty_rects > 0,
        r is Err ==> r->Err_0@ == "max_dirty_rects must be > 0"@,
{
}

} // verus!
