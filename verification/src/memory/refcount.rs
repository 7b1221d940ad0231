//! Reference counts of frames: 0 for a free frame, 1 for an owned one, more for
//! a frame that is shared copy-on-write.
use crate::memory::frame_alloc::{FrameError, FrameResult, PhysFrame, RawBitmapAllocator, MAX_FRAMES};
use vstd::prelude::*;

verus! {

/// The counts, and whether they are kept yet.
#[derive(Debug)]
pub struct RefCounts {
    pub counts: Vec<u32>,
    pub ready: bool,
}

impl RefCounts {
    pub fn new() -> (r: Self)
        ensures
            r.counts@.len() == 0,
            !r.ready,
    {
        RefCounts { counts: Vec::new(), ready: false }
    }

    /// The count of a frame; 0 where none is kept.
    pub open spec fn count(&self, frame: PhysFrame) -> u32 {
        if self.ready && frame.index() < self.counts@.len() {
            self.counts@[frame.index()]
        } else {
            0
        }
    }

    /// The frame has a count.
    pub open spec fn covers(&self, frame: PhysFrame) -> bool {
        frame.index() < self.counts@.len()
    }
}

/// Starts to keep counts for up to `max_frames` frames, all of them 0.
pub fn mark_heap_ready(table: &mut RefCounts, max_frames: usize)
    ensures
        final(table).ready,
        final(table).counts@ == Seq::new(
            (if max_frames < MAX_FRAMES {
                max_frames
            } else {
                MAX_FRAMES
            }) as nat,
            |i: int| 0u32,
        ),
{
    let n: usize = if max_frames < MAX_FRAMES {
        max_frames
    } else {
        MAX_FRAMES
    };
    table.counts = vec![0u32; n];
    table.ready = true;
    assert(table.counts@ =~= Seq::new(n as nat, |i: int| 0u32));
}

pub fn is_refcounting_enabled(table: &RefCounts) -> (r: bool)
    ensures
        r == table.ready,
{
    table.ready
}

/// What adding a reference returns and leaves behind.
pub open spec fn inc_outcome(
    pre: RefCounts,
    post: RefCounts,
    frame: PhysFrame,
    r: FrameResult<()>,
) -> bool {
    &&& post.ready == pre.ready
    &&& if !pre.ready {
        r is Ok && post.counts@ == pre.counts@
    } else if !pre.covers(frame) {
        &&& r == Err::<(), FrameError>(
            FrameError::InvalidFrameIndex {
                index: frame.index() as usize,
                max: pre.counts@.len() as usize,
            },
        )
        &&& post.counts@ == pre.counts@
    } else {
        &&& r is Ok
        &&& post.counts@ == pre.counts@.update(
            frame.index(),
            (pre.counts@[frame.index()] + 1) as u32,
        )
    }
}

/// Adds a reference to a frame.
pub fn inc_ref(table: &mut RefCounts, frame: PhysFrame) -> (r: FrameResult<()>)
    requires
        frame.index() <= usize::MAX,
        old(table).count(frame) < u32::MAX,
    ensures
        inc_outcome(*old(table), *final(table), frame, r),
{
    if !table.ready {
        return Ok(());
    }
    let idx: usize = (frame.start / 4096) as usize;
    if idx >= table.counts.len() {
        return Err(FrameError::InvalidFrameIndex { index: idx, max: table.counts.len() });
    }
    let n: u32 = table.counts[idx] + 1;
    table.counts.set(idx, n);
    Ok(())
}

/// What dropping a reference returns and leaves behind.
pub open spec fn dec_outcome(
    pre: RefCounts,
    post: RefCounts,
    b0: RawBitmapAllocator,
    b1: RawBitmapAllocator,
    frame: PhysFrame,
    r: FrameResult<()>,
) -> bool {
    &&& post.ready == pre.ready
    &&& if !pre.ready {
        &&& r is Ok
        &&& post.counts@ == pre.counts@
        &&& RawBitmapAllocator::released(b0, b1, frame)
    } else if !pre.covers(frame) {
        &&& r == Err::<(), FrameError>(
            FrameError::InvalidFrameIndex {
                index: frame.index() as usize,
                max: pre.counts@.len() as usize,
            },
        )
        &&& post.counts@ == pre.counts@
        &&& b1 == b0
    } else if pre.counts@[frame.index()] == 0 {
        &&& r == Err::<(), FrameError>(FrameError::RefcountUnderflow { frame })
        &&& post.counts@ == pre.counts@
        &&& b1 == b0
    } else {
        let n = (pre.counts@[frame.index()] - 1) as u32;
        &&& r is Ok
        &&& post.counts@ == pre.counts@.update(frame.index(), n)
        &&& if n == 0 {
            RawBitmapAllocator::released(b0, b1, frame)
        } else {
            b1 == b0
        }
    }
}

/// Drops a reference to a frame, which is freed with the last one. Before counts
/// are kept the frame is freed at once.
pub fn dec_ref(table: &mut RefCounts, frame: PhysFrame, bitmap: &mut RawBitmapAllocator) -> (r:
    FrameResult<()>)
    requires
        old(bitmap).wf(),
        frame.index() <= usize::MAX,
    ensures
        final(bitmap).wf(),
        dec_outcome(*old(table), *final(table), *old(bitmap), *final(bitmap), frame, r),
{
    if !table.ready {
        bitmap.free_frame(frame);
        return Ok(());
    }
    let idx: usize = (frame.start / 4096) as usize;
    if idx >= table.counts.len() {
        return Err(FrameError::InvalidFrameIndex { index: idx, max: table.counts.len() });
    }
    if table.counts[idx] == 0 {
        return Err(FrameError::RefcountUnderflow { frame });
    }
    let n: u32 = table.counts[idx] - 1;
    table.counts.set(idx, n);
    if n == 0 {
        bitmap.free_frame(frame);
    }
    Ok(())
}

/// The count of a frame; 0 where none is kept.
pub fn get_ref(table: &RefCounts, frame: PhysFrame) -> (r: u32)
    ensures
        r == table.count(frame),
{
    if !table.ready {
        return 0;
    }
    let number: u64 = frame.start / 4096;
    if number < table.counts.len() as u64 {
        table.counts[number as usize]
    } else {
        0
    }
}

/// Forgets the counts.
pub fn reset_refcounts(table: &mut RefCounts)
    ensures
        final(table).counts@.len() == 0,
        !final(table).ready,
{
    table.counts = Vec::new();
    table.ready = false;
}

/// How many of the first `n` counts are above 0.
pub open spec fn counted(counts: Seq<u32>, n: int) -> int
    decreases n,
{
    if n <= 0 {
        0
    } else {
        counted(counts, n - 1) + if counts[n - 1] > 0 {
            1int
        } else {
            0int
        }
    }
}

/// Number of frames with a count above 0; 0 where no counts are kept.
pub fn counted_frames(table: &RefCounts) -> (r: usize)
    ensures
        r == (if table.ready {
            counted(table.counts@, table.counts@.len() as int)
        } else {
            0
        }),
{
    if !table.ready {
        return 0;
    }
    let mut n: usize = 0;
    let mut i: usize = 0;
    while i < table.counts.len()
        invariant
            i <= table.counts@.len(),
            n <= i,
            n == counted(table.counts@, i as int),
        decreases table.counts@.len() - i,
    {
        if table.counts[i] > 0 {
            n += 1;
        }
        i += 1;
    }
    n
}

proof fn lemma_counted_update(counts: Seq<u32>, k: int, v: u32, n: int)
    requires
        0 <= k < counts.len(),
        0 <= n <= counts.len(),
    ensures
        counted(counts.update(k, v), n) == counted(counts, n) + (if k < n {
            (if v > 0 {
                1int
            } else {
                0
            }) - (if counts[k] > 0 {
                1int
            } else {
                0
            })
        } else {
            0
        }),
    decreases n,
{
    if n > 0 {
        lemma_counted_update(counts, k, v, n - 1);
    }
}

/// The frames that are counted are those with a reference: a first reference to a frame
/// adds one to them, and another reference adds none.
pub proof fn law_first_reference_counts_the_frame(
    t: &mut RefCounts,
    frame: PhysFrame,
    r: FrameResult<()>,
    before: usize,
    after: usize,
)
    requires
        old(t).ready,
        old(t).covers(frame),
        old(t).count(frame) < u32::MAX,
        call_ensures(inc_ref, (t, frame), r),
        call_ensures(counted_frames, (&*old(t),), before),
        call_ensures(counted_frames, (&*final(t),), after),
    ensures
        r is Ok,
        old(t).counts@[frame.start as int / 4096] == 0 ==> after == before + 1,
        old(t).counts@[frame.start as int / 4096] > 0 ==> after == before,
{
    let k = frame.index();
    lemma_counted_update(
        old(t).counts@,
        k,
        (old(t).counts@[k] + 1) as u32,
        old(t).counts@.len() as int,
    );
}

/// A table that is made ready has a count for each frame up to the limit, at zero, and so
/// counts none; one that is reset counts nothing.
pub proof fn law_counts_start_at_zero(
    t: &mut RefCounts,
    max: usize,
    n: usize,
    gone: &mut RefCounts,
    frame: PhysFrame,
    left: u32,
)
    requires
        call_ensures(mark_heap_ready, (t, max), ()),
        call_ensures(counted_frames, (&*final(t),), n),
        call_ensures(reset_refcounts, (gone,), ()),
        call_ensures(get_ref, (&*final(gone), frame), left),
    ensures
        n == 0,
        max <= MAX_FRAMES ==> final(t).counts@.len() == max,
        left == 0,
{
    lemma_none_counted(final(t).counts@, final(t).counts@.len() as int);
}

proof fn lemma_none_counted(counts: Seq<u32>, n: int)
    requires
        0 <= n <= counts.len(),
        forall|i: int| 0 <= i < counts.len() ==> #[trigger] counts[i] == 0,
    ensures
        counted(counts, n) == 0,
    decreases n,
{
    if n > 0 {
        lemma_none_counted(counts, n - 1);
        assert(counts[n - 1] == 0);
    }
}

} // verus!
