//! Shared memory between processes: segments of physical frames that are created
//! under a key, attached, detached and removed.
use crate::memory::frame_alloc;
use crate::memory::frame_alloc::{FrameAllocator, FrameError, FrameResult, PhysFrame, MAX_FRAMES};
use crate::mm::shm::table::{Attached, Registry, Seg, ShmTable};
use crate::text;
use vstd::prelude::*;

pub mod table;

verus! {

/// Create the segment if there is none.
pub const IPC_CREAT: u32 = 0o1000;

/// Fail if there is one.
pub const IPC_EXCL: u32 = 0o2000;

/// The key of a segment that gets a key of its own.
pub const IPC_PRIVATE: u64 = 0;

/// Remove a segment.
pub const IPC_RMID: u32 = 0;

/// Read the permissions of a segment.
pub const IPC_STAT: u32 = 1;

/// Set the permissions of a segment.
pub const IPC_SET: u32 = 2;

/// Permission to read.
pub const SHM_R: u32 = 0o400;

/// Permission to write.
pub const SHM_W: u32 = 0o200;

/// Keep a segment in memory.
pub const SHM_LOCK: u32 = 3;

pub const SHM_UNLOCK: u32 = 4;

/// Attach for reading only.
pub const SHM_RDONLY: u32 = 0o10000;

pub const SHM_REMAP: u32 = 0o20000;

/// How large a segment may be by default: 64 MiB.
pub const SHMMAX: usize = 0x400_0000;

/// How many segments a process may attach by default.
pub const SHMSEG_MAX: usize = 32;

/// The first key of a private segment.
pub const PRIVATE_KEYS: u64 = 0x8000_0000_0000_0000;

/// Where segments are attached that are given no address.
pub const ATTACH_BASE: u64 = 0x8000_0000_0000;

/// Distance of the addresses of two such segments with keys that differ by one.
pub const ATTACH_STEP: u64 = 0x10_0000;

/// Where segments are attached that are given no address and would not fit at the place
/// of their key.
pub const HIGH_ATTACH_BASE: u64 = 0xC000_0000_0000_0000;

/// How many of those keys have addresses of their own.
pub const HIGH_KEYS: u64 = 0x0200_0000_0000;

pub type Key = u64;

pub type Address = u64;

pub type Pid = u32;

/// Settings of shared memory.
#[derive(Debug, Clone, Copy, PartialEq, Eq)]
pub struct ShmConfig {
    pub max_segment_size: usize,
    pub max_segments_per_process: usize,
    pub collect_metrics: bool,
    pub log_operations: bool,
    pub default_perm_mode: u32,
}

impl Default for ShmConfig {
    fn default() -> (r: Self)
        ensures
            r == (ShmConfig {
                max_segment_size: SHMMAX,
                max_segments_per_process: SHMSEG_MAX,
                collect_metrics: true,
                log_operations: false,
                default_perm_mode: 0o600,
            }),
    {
        ShmConfig {
            max_segment_size: SHMMAX,
            max_segments_per_process: SHMSEG_MAX,
            collect_metrics: true,
            log_operations: false,
            default_perm_mode: 0o600,
        }
    }
}

impl ShmConfig {
    /// The first rule that the configuration breaks, if any.
    pub open spec fn broken_rule(&self) -> Option<Seq<char>> {
        if self.max_segment_size == 0 {
            Some("max_segment_size must be > 0"@)
        } else if self.max_segments_per_process == 0 {
            Some("max_segments_per_process must be > 0"@)
        } else {
            None
        }
    }

    pub fn validate(&self) -> (r: Result<(), &'static str>)
        ensures
            match r {
                Ok(_) => self.broken_rule() is None,
                Err(e) => self.broken_rule() == Some(e@),
            },
    {
        if self.max_segment_size == 0 {
            return Err("max_segment_size must be > 0");
        }
        if self.max_segments_per_process == 0 {
            return Err("max_segments_per_process must be > 0");
        }
        Ok(())
    }

    pub fn with_metrics(self) -> (r: Self)
        ensures
            r == (ShmConfig { collect_metrics: true, ..self }),
    {
        ShmConfig { collect_metrics: true, ..self }
    }
}

/// Errors of shared memory.
#[derive(Debug, Clone, PartialEq, Eq)]
pub enum ShmError {
    NotFound { key: Key },
    AlreadyExists { key: Key },
    SizeTooLarge { size: usize, max: usize },
    ZeroSize,
    OutOfMemory,
    PermissionDenied,
    TooManyAttachments { pid: Pid, max: usize },
    InvalidAddress { addr: Address },
    InvalidCommand { cmd: u32 },
    Config(String),
}

pub type ShmResult<T> = Result<T, ShmError>;

/// Owner and permissions of a segment.
#[derive(Debug, Clone, Copy, PartialEq, Eq)]
pub struct ShmPerm {
    pub uid: u32,
    pub gid: u32,
    pub cuid: u32,
    pub cgid: u32,
    pub mode: u32,
}

impl Default for ShmPerm {
    fn default() -> (r: Self)
        ensures
            r == (ShmPerm { uid: 0, gid: 0, cuid: 0, cgid: 0, mode: 0o600 }),
    {
        ShmPerm { uid: 0, gid: 0, cuid: 0, cgid: 0, mode: 0o600 }
    }
}

/// A shared memory segment.
#[derive(Debug)]
pub struct ShmSegment {
    pub key: Key,
    pub size: usize,
    /// Start addresses of its frames.
    pub phys_frames: Vec<u64>,
    /// How often it is attached.
    pub ref_count: u32,
    pub perm: ShmPerm,
    pub flags: u32,
    pub creator_pid: u32,
    pub last_attach_pid: u32,
    pub last_detach_pid: u32,
    pub attach_time: u64,
    pub detach_time: u64,
    pub mod_time: u64,
    pub locked: bool,
    /// It goes away with its last attachment.
    pub doomed: bool,
}

impl ShmSegment {
    pub fn is_attached(&self) -> (r: bool)
        ensures
            r == (self.ref_count > 0),
    {
        self.ref_count > 0
    }

    pub fn attach_count(&self) -> (r: u32)
        ensures
            r == self.ref_count,
    {
        self.ref_count
    }

    pub fn page_count(&self) -> (r: usize)
        ensures
            r == self.phys_frames@.len(),
    {
        self.phys_frames.len()
    }
}

impl Clone for ShmSegment {
    fn clone(&self) -> (r: Self)
        ensures
            r@ == self@,
    {
        let mut frames: Vec<u64> = Vec::new();
        let mut i: usize = 0;
        while i < self.phys_frames.len()
            invariant
                i <= self.phys_frames@.len(),
                frames@ == self.phys_frames@.take(i as int),
            decreases self.phys_frames@.len() - i,
        {
            frames.push(self.phys_frames[i]);
            i += 1;
            assert(frames@ =~= self.phys_frames@.take(i as int));
        }
        assert(frames@ =~= self.phys_frames@);
        ShmSegment {
            key: self.key,
            size: self.size,
            phys_frames: frames,
            ref_count: self.ref_count,
            perm: self.perm,
            flags: self.flags,
            creator_pid: self.creator_pid,
            last_attach_pid: self.last_attach_pid,
            last_detach_pid: self.last_detach_pid,
            attach_time: self.attach_time,
            detach_time: self.detach_time,
            mod_time: self.mod_time,
            locked: self.locked,
            doomed: self.doomed,
        }
    }
}

/// A segment attached at an address.
#[derive(Debug, Clone, Copy, PartialEq, Eq)]
pub struct ProcessAttachment {
    pub key: Key,
    pub virt_addr: Address,
    pub flags: u32,
}

/// Numbers of segments, bytes and attachments.
#[derive(Debug, Clone, Copy, PartialEq, Eq)]
pub struct ShmStats {
    pub active_segments: usize,
    pub total_bytes: usize,
    pub used_bytes: usize,
    pub attached_processes: usize,
}

impl Default for ShmStats {
    fn default() -> (r: Self)
        ensures
            r == (ShmStats {
                active_segments: 0,
                total_bytes: 0,
                used_bytes: 0,
                attached_processes: 0,
            }),
    {
        ShmStats { active_segments: 0, total_bytes: 0, used_bytes: 0, attached_processes: 0 }
    }
}

impl ShmStats {
    /// The numbers in one line.
    pub fn summary(&self) -> (r: String)
        ensures
            r@ == "SHM: "@ + text::decimal(self.active_segments as nat) + " segments, "@
                + text::fixed(self.total_bytes as int, 1048576, 2) + " MiB total, "@ + text::fixed(
                self.used_bytes as int,
                1048576,
                2,
            ) + " MiB used, "@ + text::decimal(self.attached_processes as nat)
                + " processes attached"@,
    {
        let mut out = "SHM: ".to_owned();
        text::push_decimal(&mut out, self.active_segments as u64);
        out.append(" segments, ");
        text::push_fixed(&mut out, self.total_bytes as u128, 1048576, 2);
        out.append(" MiB total, ");
        text::push_fixed(&mut out, self.used_bytes as u128, 1048576, 2);
        out.append(" MiB used, ");
        text::push_decimal(&mut out, self.attached_processes as u64);
        out.append(" processes attached");
        out
    }
}

/// What shared memory has done.
#[derive(Debug, Clone, Copy, PartialEq, Eq)]
pub struct ShmMetrics {
    pub segments_created: u64,
    pub segments_removed: u64,
    pub attaches: u64,
    pub detaches: u64,
    pub oom_events: u64,
    pub permission_denied: u64,
    pub not_found: u64,
    pub total_bytes_allocated: u64,
}

impl Default for ShmMetrics {
    fn default() -> (r: Self)
        ensures
            r == (ShmMetrics {
                segments_created: 0,
                segments_removed: 0,
                attaches: 0,
                detaches: 0,
                oom_events: 0,
                permission_denied: 0,
                not_found: 0,
                total_bytes_allocated: 0,
            }),
    {
        ShmMetrics {
            segments_created: 0,
            segments_removed: 0,
            attaches: 0,
            detaches: 0,
            oom_events: 0,
            permission_denied: 0,
            not_found: 0,
            total_bytes_allocated: 0,
        }
    }
}

impl ShmMetrics {
    pub fn inc_created(&mut self, bytes: usize)
        ensures
            *final(self) == (ShmMetrics {
                segments_created: old(self).segments_created.wrapping_add(1),
                total_bytes_allocated: old(self).total_bytes_allocated.wrapping_add(bytes as u64),
                ..*old(self)
            }),
    {
        self.segments_created = self.segments_created.wrapping_add(1);
        self.total_bytes_allocated = self.total_bytes_allocated.wrapping_add(bytes as u64);
    }

    pub fn inc_removed(&mut self)
        ensures
            *final(self) == (ShmMetrics {
                segments_removed: old(self).segments_removed.wrapping_add(1),
                ..*old(self)
            }),
    {
        self.segments_removed = self.segments_removed.wrapping_add(1);
    }

    pub fn inc_attach(&mut self)
        ensures
            *final(self) == (ShmMetrics {
                attaches: old(self).attaches.wrapping_add(1),
                ..*old(self)
            }),
    {
        self.attaches = self.attaches.wrapping_add(1);
    }

    pub fn inc_detach(&mut self)
        ensures
            *final(self) == (ShmMetrics {
                detaches: old(self).detaches.wrapping_add(1),
                ..*old(self)
            }),
    {
        self.detaches = self.detaches.wrapping_add(1);
    }

    pub fn inc_oom(&mut self)
        ensures
            *final(self) == (ShmMetrics {
                oom_events: old(self).oom_events.wrapping_add(1),
                ..*old(self)
            }),
    {
        self.oom_events = self.oom_events.wrapping_add(1);
    }

    pub fn inc_permission_denied(&mut self)
        ensures
            *final(self) == (ShmMetrics {
                permission_denied: old(self).permission_denied.wrapping_add(1),
                ..*old(self)
            }),
    {
        self.permission_denied = self.permission_denied.wrapping_add(1);
    }

    pub fn inc_not_found(&mut self)
        ensures
            *final(self) == (ShmMetrics {
                not_found: old(self).not_found.wrapping_add(1),
                ..*old(self)
            }),
    {
        self.not_found = self.not_found.wrapping_add(1);
    }

    /// A copy of the counters.
    pub fn snapshot(&self) -> (r: ShmMetricsSnapshot)
        ensures
            r == (ShmMetricsSnapshot {
                segments_created: self.segments_created,
                segments_removed: self.segments_removed,
                attaches: self.attaches,
                detaches: self.detaches,
                oom_events: self.oom_events,
                permission_denied: self.permission_denied,
                not_found: self.not_found,
                total_bytes_allocated: self.total_bytes_allocated,
            }),
    {
        ShmMetricsSnapshot {
            segments_created: self.segments_created,
            segments_removed: self.segments_removed,
            attaches: self.attaches,
            detaches: self.detaches,
            oom_events: self.oom_events,
            permission_denied: self.permission_denied,
            not_found: self.not_found,
            total_bytes_allocated: self.total_bytes_allocated,
        }
    }
}

/// A copy of [`ShmMetrics`] at one moment.
#[derive(Debug, Clone, Copy, PartialEq, Eq)]
pub struct ShmMetricsSnapshot {
    pub segments_created: u64,
    pub segments_removed: u64,
    pub attaches: u64,
    pub detaches: u64,
    pub oom_events: u64,
    pub permission_denied: u64,
    pub not_found: u64,
    pub total_bytes_allocated: u64,
}

// ---------------------------------------------------------------------------
// Frames of segments
// ---------------------------------------------------------------------------

/// A frame was handed out.
pub open spec fn handed_out(pre: FrameAllocator, post: FrameAllocator, start: u64) -> bool {
    FrameAllocator::alloc_outcome(pre, post, Ok(PhysFrame { start }))
}

/// Frames that were handed out one after the other, from `pre` to `post`.
pub open spec fn allocated(pre: FrameAllocator, post: FrameAllocator, frames: Seq<u64>) -> bool
    decreases frames.len(),
{
    if frames.len() == 0 {
        post == pre
    } else {
        exists|mid: FrameAllocator|
            allocated(pre, mid, frames.drop_last()) && #[trigger] handed_out(
                mid,
                post,
                frames.last(),
            )
    }
}

/// No frame was to be had.
pub open spec fn refused(pre: FrameAllocator, post: FrameAllocator) -> bool {
    exists|e: FrameError| #[trigger] FrameAllocator::alloc_outcome(pre, post, Err(e))
}

/// A frame was given back.
pub open spec fn gave_back(pre: FrameAllocator, post: FrameAllocator, start: u64) -> bool {
    exists|r: FrameResult<()>| #[trigger]
        FrameAllocator::free_outcome(pre, post, PhysFrame { start }, r)
}

/// Frames that were given back one after the other, from `pre` to `post`.
pub open spec fn freed(pre: FrameAllocator, post: FrameAllocator, frames: Seq<u64>) -> bool
    decreases frames.len(),
{
    if frames.len() == 0 {
        post == pre
    } else {
        exists|mid: FrameAllocator|
            freed(pre, mid, frames.drop_last()) && #[trigger] gave_back(mid, post, frames.last())
    }
}

/// The attempt failed after some frames, which were given back.
pub open spec fn failed(pre: FrameAllocator, post: FrameAllocator, pages: int) -> bool {
    exists|frames: Seq<u64>, m1: FrameAllocator, m2: FrameAllocator|
        #![trigger allocated(pre, m1, frames), freed(m2, post, frames)]
        frames.len() < pages && allocated(pre, m1, frames) && refused(m1, m2) && freed(
            m2,
            post,
            frames,
        )
}

/// Gives frames back.
fn give_back(frames: &mut FrameAllocator, list: &Vec<u64>)
    requires
        old(frames).wf(),
        forall|i: int| 0 <= i < list@.len() ==> (#[trigger] list@[i]) / 4096 <= usize::MAX,
    ensures
        final(frames).wf(),
        freed(*old(frames), *final(frames), list@),
{
    let mut i: usize = 0;
    assert(list@.take(0) =~= Seq::<u64>::empty());
    while i < list.len()
        invariant
            i <= list@.len(),
            frames.wf(),
            freed(*old(frames), *frames, list@.take(i as int)),
            forall|i: int| 0 <= i < list@.len() ==> (#[trigger] list@[i]) / 4096 <= usize::MAX,
        decreases list@.len() - i,
    {
        let ghost mid = *frames;
        assert(list@[i as int] / 4096 <= usize::MAX);
        frame_alloc::free_frame(frames, PhysFrame { start: list[i] });
        proof {
            let next = list@.take(i + 1);
            assert(next.drop_last() =~= list@.take(i as int));
            assert(gave_back(mid, *frames, next.last()));
        }
        i += 1;
    }
    assert(list@.take(i as int) =~= list@);
}

/// Takes that many frames, or none.
fn take_frames(frames: &mut FrameAllocator, pages: usize) -> (r: Option<Vec<u64>>)
    requires
        old(frames).wf(),
    ensures
        final(frames).wf(),
        match r {
            Some(list) => list@.len() == pages && pages <= MAX_FRAMES && allocated(
                *old(frames),
                *final(frames),
                list@,
            ) && forall|i: int|
                0 <= i < pages ==> (#[trigger] list@[i]) % 4096 == 0 && list@[i] / 4096
                    <= usize::MAX,
            None => failed(*old(frames), *final(frames), pages as int),
        },
{
    let mut list: Vec<u64> = Vec::new();
    while list.len() < pages
        invariant
            list@.len() <= pages,
            frames.wf(),
            allocated(*old(frames), *frames, list@),
            list@.len() <= MAX_FRAMES,
            list@.len() > 0 ==> list@.len() <= frames.bitmap.used_frames,
            forall|i: int|
                0 <= i < list@.len() ==> (#[trigger] list@[i]) % 4096 == 0 && list@[i] / 4096
                    <= usize::MAX,
        decreases pages - list@.len(),
    {
        let ghost mid = *frames;
        let ghost before = list@;
        match frame_alloc::allocate_one(frames) {
            Some(frame) => {
                list.push(frame.start);
                proof {
                    assert(list@.drop_last() =~= before);
                    assert(handed_out(mid, *frames, list@.last()));
                    assert(mid.bitmap.free_at(frame.index()));
                    frame_alloc::lemma_count_bounds(
                        frames.bitmap.in_use(),
                        MAX_FRAMES as int,
                    );
                }
            },
            None => {
                let ghost m2 = *frames;
                give_back(frames, &list);
                proof {
                    assert(refused(mid, m2));
                    assert(allocated(*old(frames), mid, list@));
                }
                return None;
            },
        }
    }
    Some(list)
}

// ---------------------------------------------------------------------------
// The manager
// ---------------------------------------------------------------------------

/// Shared memory of the system.
#[derive(Debug)]
pub struct ShmManager {
    pub config: ShmConfig,
    pub metrics: ShmMetrics,
    /// The next key of a private segment.
    pub private_key_base: u64,
    pub table: ShmTable,
}

/// The state of shared memory.
#[verifier::ext_equal]
pub struct ShmState {
    pub config: ShmConfig,
    pub metrics: ShmMetrics,
    pub next_private: u64,
    pub registry: Registry,
}

impl View for ShmManager {
    type V = ShmState;

    open spec fn view(&self) -> ShmState {
        ShmState {
            config: self.config,
            metrics: self.metrics,
            next_private: self.private_key_base,
            registry: self.table@,
        }
    }
}

/// The size of a segment: whole frames.
pub open spec fn rounded(size: int) -> int {
    (size + 4095) / 4096 * 4096
}

/// A segment of so many frames at `a` can be addressed.
pub open spec fn attachable(a: int, frames: int) -> bool {
    a <= u64::MAX && a + (frames - 1) * 4096 <= u64::MAX
}

/// Where a segment of so many frames is attached: at the address if one is given, else
/// at the place of its key, or, where it cannot be addressed there, at one higher up.
pub open spec fn attach_addr(key: Key, virt: Address, frames: int) -> int {
    if virt != 0 {
        virt as int
    } else if attachable(ATTACH_BASE + key * ATTACH_STEP, frames) {
        ATTACH_BASE + key * ATTACH_STEP
    } else {
        HIGH_ATTACH_BASE + key % HIGH_KEYS * ATTACH_STEP
    }
}

/// A segment that is given no address can be addressed where it is attached. Two
/// segments that fit at the places of their keys are attached at different addresses,
/// and so are two that do not and have neighbouring keys.
pub proof fn law_attach_addresses_fit(a: Key, b: Key, m: int, n: int)
    requires
        a < b,
        0 <= m <= MAX_FRAMES,
        0 <= n <= MAX_FRAMES,
    ensures
        attach_addr(a, 0, m) != 0,
        attachable(attach_addr(a, 0, m), m),
        attachable(attach_addr(b, 0, n), n),
        attachable(ATTACH_BASE + a * ATTACH_STEP, m) && attachable(
            ATTACH_BASE + b * ATTACH_STEP,
            n,
        ) ==> attach_addr(a, 0, m) != attach_addr(b, 0, n),
        !attachable(ATTACH_BASE + a * ATTACH_STEP, m) && !attachable(
            ATTACH_BASE + b * ATTACH_STEP,
            n,
        ) && b - a < HIGH_KEYS ==> attach_addr(a, 0, m) != attach_addr(b, 0, n),
{
}

/// Whether the mode of a segment allows it to be attached with those flags: reading
/// always has to be allowed, and writing unless it is attached for reading only.
pub open spec fn may_attach(mode: u32, flags: u32) -> bool {
    mode & SHM_R != 0 && (flags & SHM_RDONLY == 0 ==> mode & SHM_W != 0)
}

/// A segment as it is created.
pub open spec fn new_segment(
    key: Key,
    size: int,
    frames: Seq<u64>,
    flags: u32,
    pid: Pid,
    now: u64,
) -> Seg {
    Seg {
        key,
        size: rounded(size) as usize,
        frames,
        refs: 0,
        perm: ShmPerm { uid: 0, gid: 0, cuid: 0, cgid: 0, mode: flags & (SHM_R | SHM_W) },
        flags,
        creator_pid: pid,
        last_attach_pid: 0,
        last_detach_pid: 0,
        attach_time: 0,
        detach_time: 0,
        mod_time: now,
        locked: false,
        doomed: false,
    }
}

impl ShmState {
    pub open spec fn wf(self) -> bool {
        self.registry.wf()
    }

    /// No segment has the key, and it can be asked for.
    pub open spec fn unused(self, key: Key) -> bool {
        key != IPC_PRIVATE && self.registry.get(key) is None
    }

    /// The lowest unused key from `from` up.
    pub open spec fn lowest_unused(self, from: Key, key: Key) -> bool {
        &&& from <= key
        &&& self.unused(key)
        &&& forall|k: Key| from <= k < key ==> !#[trigger] self.unused(k)
    }

    /// The key of the next private segment: the first unused one from the next private
    /// key up, or from the lowest key up where there is none.
    pub open spec fn private_key(self) -> Option<Key> {
        if exists|k: Key| self.lowest_unused(self.next_private, k) {
            Some(choose|k: Key| self.lowest_unused(self.next_private, k))
        } else if exists|k: Key| self.lowest_unused(0, k) {
            Some(choose|k: Key| self.lowest_unused(0, k))
        } else {
            None
        }
    }

    /// There is a key for a segment that is created under `key`.
    pub open spec fn has_key_for(self, key: Key) -> bool {
        key == IPC_PRIVATE ==> self.private_key() is Some
    }

    /// The key that a segment created under `key` gets.
    pub open spec fn key_for(self, key: Key) -> Key {
        if key == IPC_PRIVATE {
            self.private_key()->0
        } else {
            key
        }
    }

    /// The next private key after a segment was created under `key`.
    pub open spec fn next_after(self, key: Key) -> u64 {
        if key == IPC_PRIVATE {
            self.key_for(key).wrapping_add(1)
        } else {
            self.next_private
        }
    }

    /// Whether the request for a segment leads to a new one: always, if it is for a
    /// private one.
    pub open spec fn creates(self, key: Key, size: usize, flags: u32) -> bool {
        &&& 0 < size <= self.config.max_segment_size
        &&& key == IPC_PRIVATE || self.registry.get(key) is None && flags & IPC_CREAT != 0
    }

    /// What a request that creates nothing is answered.
    pub open spec fn answer(self, key: Key, size: usize, flags: u32) -> ShmResult<Key> {
        if size == 0 {
            Err(ShmError::ZeroSize)
        } else if size > self.config.max_segment_size {
            Err(ShmError::SizeTooLarge { size, max: self.config.max_segment_size })
        } else {
            match self.registry.get(key) {
                Some(seg) => if flags & IPC_EXCL != 0 {
                    Err(ShmError::AlreadyExists { key })
                } else if seg.size < rounded(size as int) {
                    Err(ShmError::SizeTooLarge { size: rounded(size as int) as usize, max: seg.size })
                } else {
                    Ok(key)
                },
                None => Err(ShmError::NotFound { key }),
            }
        }
    }

    /// The counters after a request that creates nothing.
    pub open spec fn metrics_after_answer(self, key: Key, size: usize, flags: u32) -> ShmMetrics {
        if size == 0 || size > self.config.max_segment_size {
            self.metrics
        } else if self.registry.get(key) is None {
            ShmMetrics { not_found: self.metrics.not_found.wrapping_add(1), ..self.metrics }
        } else if flags & IPC_EXCL != 0 {
            ShmMetrics {
                permission_denied: self.metrics.permission_denied.wrapping_add(1),
                ..self.metrics
            }
        } else {
            self.metrics
        }
    }

    /// The state after a segment was created with those frames.
    pub open spec fn created(
        self,
        key: Key,
        size: usize,
        flags: u32,
        pid: Pid,
        now: u64,
        frames: Seq<u64>,
    ) -> ShmState {
        ShmState {
            next_private: self.next_after(key),
            registry: self.registry.inserted(
                new_segment(self.key_for(key), size as int, frames, flags, pid, now),
            ),
            metrics: ShmMetrics {
                segments_created: self.metrics.segments_created.wrapping_add(1),
                total_bytes_allocated: self.metrics.total_bytes_allocated.wrapping_add(
                    rounded(size as int) as u64,
                ),
                ..self.metrics
            },
            ..self
        }
    }

    /// What attaching is answered.
    pub open spec fn attach_answer(
        self,
        key: Key,
        virt: Address,
        flags: u32,
        pid: Pid,
    ) -> ShmResult<Address> {
        match self.registry.get(key) {
            None => Err(ShmError::NotFound { key }),
            Some(seg) => if !may_attach(seg.perm.mode, flags) {
                Err(ShmError::PermissionDenied)
            } else if table::links_of(self.registry.links, pid).len()
                >= self.config.max_segments_per_process {
                Err(
                    ShmError::TooManyAttachments { pid, max: self.config.max_segments_per_process },
                )
            } else {
                Ok(attach_addr(key, virt, seg.frames.len() as int) as u64)
            },
        }
    }

    /// The state after attaching.
    pub open spec fn attached(
        self,
        key: Key,
        virt: Address,
        flags: u32,
        pid: Pid,
        now: u64,
    ) -> ShmState {
        let seg = self.registry.get(key)->0;
        match self.attach_answer(key, virt, flags, pid) {
            Ok(addr) => ShmState {
                registry: self.registry.replaced(
                    Seg {
                        refs: seg.refs.wrapping_add(1),
                        last_attach_pid: pid,
                        attach_time: now,
                        ..seg
                    },
                ).linked(
                    Attached {
                        pid,
                        attachment: ProcessAttachment { key, virt_addr: addr, flags },
                    },
                ),
                metrics: ShmMetrics {
                    attaches: self.metrics.attaches.wrapping_add(1),
                    ..self.metrics
                },
                ..self
            },
            Err(ShmError::PermissionDenied) => ShmState {
                metrics: ShmMetrics {
                    permission_denied: self.metrics.permission_denied.wrapping_add(1),
                    ..self.metrics
                },
                ..self
            },
            Err(_) => self,
        }
    }

    /// A segment with one attachment less.
    pub open spec fn released(seg: Seg, pid: Pid, now: u64) -> Seg {
        if seg.refs > 0 {
            Seg { refs: (seg.refs - 1) as u32, last_detach_pid: pid, detach_time: now, ..seg }
        } else {
            seg
        }
    }

    /// The frames that go when an attachment to the segment goes: those of a doomed
    /// segment with its last attachment.
    pub open spec fn frames_lost(self, key: Key) -> Seq<u64> {
        match self.registry.get(key) {
            Some(seg) => if seg.doomed && seg.refs <= 1 {
                seg.frames
            } else {
                Seq::empty()
            },
            None => Seq::empty(),
        }
    }

    /// The state after an attachment to the segment has gone.
    pub open spec fn let_go(self, key: Key, pid: Pid, now: u64) -> ShmState {
        match self.registry.get(key) {
            None => self,
            Some(seg) => {
                let after = ShmState {
                    registry: self.registry.replaced(ShmState::released(seg, pid, now)),
                    metrics: ShmMetrics {
                        detaches: self.metrics.detaches.wrapping_add(1),
                        ..self.metrics
                    },
                    ..self
                };
                if seg.doomed && seg.refs <= 1 {
                    after.dropped(key)
                } else {
                    after
                }
            },
        }
    }

    /// The state after the segment was removed.
    pub open spec fn dropped(self, key: Key) -> ShmState {
        ShmState {
            registry: self.registry.removed(key),
            metrics: ShmMetrics {
                segments_removed: self.metrics.segments_removed.wrapping_add(1),
                ..self.metrics
            },
            ..self
        }
    }

    /// The attachment of the process at the address.
    pub open spec fn attachment_at(self, addr: Address, pid: Pid) -> Option<ProcessAttachment> {
        match table::link_from(self.registry.links, pid, addr, 0) {
            Some(i) => Some(self.registry.links[i].attachment),
            None => None,
        }
    }

    pub open spec fn without_link(self, addr: Address, pid: Pid) -> ShmState {
        ShmState { registry: self.registry.unlinked(pid, addr), ..self }
    }

    /// What detaching is answered.
    pub open spec fn detach_answer(self, addr: Address, pid: Pid) -> ShmResult<()> {
        match self.attachment_at(addr, pid) {
            None => Err(ShmError::InvalidAddress { addr }),
            Some(a) => if self.registry.get(a.key) is None {
                Err(ShmError::NotFound { key: a.key })
            } else {
                Ok(())
            },
        }
    }

    /// The state after detaching.
    pub open spec fn detached(self, addr: Address, pid: Pid, now: u64) -> ShmState {
        match self.attachment_at(addr, pid) {
            None => self,
            Some(a) => self.without_link(addr, pid).let_go(a.key, pid, now),
        }
    }

    /// The frames that detaching gives back.
    pub open spec fn detach_frees(self, addr: Address, pid: Pid) -> Seq<u64> {
        match self.attachment_at(addr, pid) {
            None => Seq::empty(),
            Some(a) => self.frames_lost(a.key),
        }
    }

    /// What a control operation is answered: what the caller's buffer holds then.
    pub open spec fn control_answer(self, key: Key, cmd: u32, buf: Option<ShmPerm>) -> ShmResult<
        Option<ShmPerm>,
    > {
        match self.registry.get(key) {
            None => Err(ShmError::NotFound { key }),
            Some(seg) => if cmd == IPC_STAT {
                Ok(
                    match buf {
                        Some(_) => Some(seg.perm),
                        None => None,
                    },
                )
            } else if cmd <= SHM_UNLOCK {
                Ok(buf)
            } else {
                Err(ShmError::InvalidCommand { cmd })
            },
        }
    }

    /// The state after a control operation.
    pub open spec fn controlled(
        self,
        key: Key,
        cmd: u32,
        buf: Option<ShmPerm>,
        now: u64,
    ) -> ShmState {
        match self.registry.get(key) {
            None => self,
            Some(seg) => if cmd == IPC_RMID {
                if seg.refs == 0 {
                    self.dropped(key)
                } else {
                    ShmState {
                        registry: self.registry.replaced(Seg { doomed: true, ..seg }),
                        ..self
                    }
                }
            } else if cmd == IPC_SET {
                match buf {
                    Some(perm) => ShmState {
                        registry: self.registry.replaced(Seg { perm, mod_time: now, ..seg }),
                        ..self
                    },
                    None => self,
                }
            } else if cmd == SHM_LOCK || cmd == SHM_UNLOCK {
                ShmState {
                    registry: self.registry.replaced(Seg { locked: cmd == SHM_LOCK, ..seg }),
                    ..self
                }
            } else {
                self
            },
        }
    }

    /// The frames that a control operation gives back.
    pub open spec fn control_frees(self, key: Key, cmd: u32) -> Seq<u64> {
        match self.registry.get(key) {
            Some(seg) => if cmd == IPC_RMID && seg.refs == 0 {
                seg.frames
            } else {
                Seq::empty()
            },
            None => Seq::empty(),
        }
    }

    /// The state after the first `n` attachments of a list have gone.
    pub open spec fn let_all_go(
        self,
        list: Seq<ProcessAttachment>,
        pid: Pid,
        now: u64,
        n: int,
    ) -> ShmState
        decreases n,
    {
        if n <= 0 {
            self
        } else {
            self.let_all_go(list, pid, now, n - 1).let_go(list[n - 1].key, pid, now)
        }
    }

    /// The frames that go with the first `n` attachments of a list.
    pub open spec fn all_frees(
        self,
        list: Seq<ProcessAttachment>,
        pid: Pid,
        now: u64,
        n: int,
    ) -> Seq<u64>
        decreases n,
    {
        if n <= 0 {
            Seq::empty()
        } else {
            self.all_frees(list, pid, now, n - 1) + self.let_all_go(
                list,
                pid,
                now,
                n - 1,
            ).frames_lost(list[n - 1].key)
        }
    }

    /// The state after a process has gone.
    pub open spec fn cleaned(self, pid: Pid, now: u64) -> ShmState {
        let list = table::links_of(self.registry.links, pid);
        ShmState { registry: self.registry.cleared(pid), ..self }.let_all_go(
            list,
            pid,
            now,
            list.len() as int,
        )
    }

    /// The frames that go with a process.
    pub open spec fn clean_frees(self, pid: Pid, now: u64) -> Seq<u64> {
        let list = table::links_of(self.registry.links, pid);
        ShmState { registry: self.registry.cleared(pid), ..self }.all_frees(
            list,
            pid,
            now,
            list.len() as int,
        )
    }
}

/// There is one lowest key.
proof fn lemma_one_lowest(s: ShmState, from: Key, a: Key, b: Key)
    requires
        s.lowest_unused(from, a),
        s.lowest_unused(from, b),
    ensures
        a == b,
{
    if a < b {
        assert(!s.unused(a));
    }
    if b < a {
        assert(!s.unused(b));
    }
}

/// The key of a private segment is unused.
proof fn lemma_private_key(s: ShmState)
    ensures
        s.private_key() matches Some(k) ==> s.unused(k),
        s.private_key() is None ==> forall|k: Key| !#[trigger] s.unused(k),
{
    if s.private_key() is None {
        assert forall|k: Key| !#[trigger] s.unused(k) by {
            if s.unused(k) {
                lemma_lowest_key(s, 0, k);
            }
        }
    }
}

/// Where a key is unused, there is a lowest one.
proof fn lemma_lowest_key(s: ShmState, from: Key, k: Key)
    requires
        from <= k,
        s.unused(k),
    ensures
        exists|a: Key| s.lowest_unused(from, a),
    decreases k - from,
{
    if exists|c: Key| from <= c < k && s.unused(c) {
        let c = choose|c: Key| from <= c < k && s.unused(c);
        lemma_lowest_key(s, from, c);
    } else {
        assert(s.lowest_unused(from, k));
    }
}

/// Frames given back in two goes.
proof fn lemma_freed_concat(
    f0: FrameAllocator,
    f1: FrameAllocator,
    f2: FrameAllocator,
    a: Seq<u64>,
    b: Seq<u64>,
)
    requires
        freed(f0, f1, a),
        freed(f1, f2, b),
    ensures
        freed(f0, f2, a + b),
    decreases b.len(),
{
    if b.len() == 0 {
        assert(a + b =~= a);
    } else {
        let mid = choose|mid: FrameAllocator|
            freed(f1, mid, b.drop_last()) && #[trigger] gave_back(mid, f2, b.last());
        lemma_freed_concat(f0, f1, mid, a, b.drop_last());
        assert((a + b).drop_last() =~= a + b.drop_last());
        assert((a + b).last() == b.last());
        assert(gave_back(mid, f2, (a + b).last()));
    }
}

/// Every step keeps the registry well formed.
proof fn lemma_let_go_wf(s: ShmState, key: Key, pid: Pid, now: u64)
    requires
        s.wf(),
    ensures
        s.let_go(key, pid, now).wf(),
{
    if let Some(seg) = s.registry.get(key) {
        table::lemma_index(s.registry.segs, key, 0);
        let next = ShmState::released(seg, pid, now);
        assert(seg.sound());
        assert(next.frames == seg.frames);
        table::law_replaced_is_found(s.registry, next);
        table::law_removed_is_gone(s.registry.replaced(next), key);
    }
}

impl ShmManager {
    /// Shared memory without segments; the configuration must be valid.
    pub fn new(config: ShmConfig) -> (r: Self)
        requires
            config.broken_rule() is None,
        ensures
            r@.wf(),
            r.config == config,
            r.private_key_base == PRIVATE_KEYS,
            r.table@.segs.len() == 0,
            r.table@.links.len() == 0,
            r.metrics == (ShmMetrics {
                segments_created: 0,
                segments_removed: 0,
                attaches: 0,
                detaches: 0,
                oom_events: 0,
                permission_denied: 0,
                not_found: 0,
                total_bytes_allocated: 0,
            }),
    {
        ShmManager {
            config,
            metrics: ShmMetrics::default(),
            private_key_base: PRIVATE_KEYS,
            table: ShmTable::new(),
        }
    }

    /// With the default settings, no segment and no event counted.
    pub open spec fn is_default(self) -> bool {
        &&& self@.wf()
        &&& self.config == (ShmConfig {
            max_segment_size: SHMMAX,
            max_segments_per_process: SHMSEG_MAX,
            collect_metrics: true,
            log_operations: false,
            default_perm_mode: 0o600,
        })
        &&& self.private_key_base == PRIVATE_KEYS
        &&& self.table@.segs.len() == 0
        &&& self.table@.links.len() == 0
        &&& self.metrics == (ShmMetrics {
            segments_created: 0,
            segments_removed: 0,
            attaches: 0,
            detaches: 0,
            oom_events: 0,
            permission_denied: 0,
            not_found: 0,
            total_bytes_allocated: 0,
        })
    }

    /// Shared memory with the default settings.
    pub fn default() -> (r: Self)
        ensures
            r.is_default(),
    {
        ShmManager::new(ShmConfig::default())
    }

    pub fn config(&self) -> (r: &ShmConfig)
        ensures
            *r == self.config,
    {
        &self.config
    }

    pub fn metrics(&self) -> (r: &ShmMetrics)
        ensures
            *r == self.metrics,
    {
        &self.metrics
    }

    /// The lowest unused key from `from` up.
    fn unused_from(&self, from: Key) -> (r: Option<Key>)
        ensures
            match r {
                Some(k) => self@.lowest_unused(from, k),
                None => forall|k: Key| from <= k ==> !#[trigger] self@.unused(k),
            },
    {
        let mut k: Key = from;
        loop
            invariant
                from <= k,
                forall|j: Key| from <= j < k ==> !#[trigger] self@.unused(j),
            decreases u64::MAX - k,
        {
            if k != IPC_PRIVATE && !table::segment_exists(&self.table, k) {
                return Some(k);
            }
            assert(!self@.unused(k));
            if k == u64::MAX {
                return None;
            }
            k += 1;
        }
    }

    /// The key of the next private segment.
    fn free_private_key(&self) -> (r: Option<Key>)
        ensures
            r == self@.private_key(),
    {
        let above: Option<Key> = self.unused_from(self.private_key_base);
        let ghost from = self@.next_private;
        if let Some(k) = above {
            proof {
                assert(self@.lowest_unused(from, k));
                let c = choose|c: Key| self@.lowest_unused(from, c);
                assert(self@.lowest_unused(from, c));
                lemma_one_lowest(self@, from, k, c);
            }
            return Some(k);
        }
        let any: Option<Key> = self.unused_from(0);
        proof {
            if exists|c: Key| self@.lowest_unused(from, c) {
                let c = choose|c: Key| self@.lowest_unused(from, c);
                assert(!self@.unused(c));
            }
            match any {
                Some(k) => {
                    let c = choose|c: Key| self@.lowest_unused(0, c);
                    assert(self@.lowest_unused(0, c));
                    lemma_one_lowest(self@, 0, k, c);
                },
                None => {
                    if exists|c: Key| self@.lowest_unused(0, c) {
                        let c = choose|c: Key| self@.lowest_unused(0, c);
                        assert(!self@.unused(c));
                    }
                },
            }
        }
        any
    }

    /// Creates a segment under a key, or finds it there.
    pub fn shmget(
        &mut self,
        frames: &mut FrameAllocator,
        key: Key,
        size: usize,
        flags: u32,
        pid: Pid,
        now: u64,
    ) -> (r: ShmResult<Key>)
        requires
            old(self)@.wf(),
            old(frames).wf(),
            size <= old(self).config.max_segment_size ==> size + 4095 <= usize::MAX,
        ensures
            final(self)@.wf(),
            final(frames).wf(),
            ShmManager::shmget_outcome(
                old(self)@,
                final(self)@,
                *old(frames),
                *final(frames),
                key,
                size,
                flags,
                pid,
                now,
                r,
            ),
    {
        if size == 0 {
            return Err(ShmError::ZeroSize);
        }
        if size > self.config.max_segment_size {
            return Err(ShmError::SizeTooLarge { size, max: self.config.max_segment_size });
        }
        let pages: usize = (size + 4095) / 4096;
        let aligned: usize = pages * 4096;
        let to: Key = if key == IPC_PRIVATE {
            match self.free_private_key() {
                Some(k) => k,
                None => {
                    self.metrics.inc_oom();
                    return Err(ShmError::OutOfMemory);
                },
            }
        } else {
            match table::get_segment(&self.table, key) {
                Some(seg) => {
                    if flags & IPC_EXCL != 0 {
                        self.metrics.inc_permission_denied();
                        return Err(ShmError::AlreadyExists { key });
                    }
                    if seg.size < aligned {
                        return Err(ShmError::SizeTooLarge { size: aligned, max: seg.size });
                    }
                    return Ok(key);
                },
                None => {},
            }
            if flags & IPC_CREAT == 0 {
                self.metrics.inc_not_found();
                return Err(ShmError::NotFound { key });
            }
            key
        };
        let list: Vec<u64> = match take_frames(frames, pages) {
            Some(list) => list,
            None => {
                self.metrics.inc_oom();
                return Err(ShmError::OutOfMemory);
            },
        };
        if key == IPC_PRIVATE {
            self.private_key_base = to.wrapping_add(1);
        }
        let ghost taken = list@;
        let seg = ShmSegment {
            key: to,
            size: aligned,
            phys_frames: list,
            ref_count: 0,
            perm: ShmPerm { uid: 0, gid: 0, cuid: 0, cgid: 0, mode: flags & (SHM_R | SHM_W) },
            flags,
            creator_pid: pid,
            last_attach_pid: 0,
            last_detach_pid: 0,
            attach_time: 0,
            detach_time: 0,
            mod_time: now,
            locked: false,
            doomed: false,
        };
        assert(seg@ =~= new_segment(to, size as int, taken, flags, pid, now));
        assert(allocated(*old(frames), *frames, taken));
        let done = table::insert_segment(&mut self.table, seg);
        match done {
            Ok(_) => {
                self.metrics.inc_created(aligned);
                assert(self@ =~= old(self)@.created(key, size, flags, pid, now, taken));
                Ok(to)
            },
            Err(e) => {
                assert(self@ =~= old(self)@.created(key, size, flags, pid, now, taken));
                Err(e)
            },
        }
    }

    /// What a request for a segment returns and leaves behind.
    pub open spec fn shmget_outcome(
        pre: ShmState,
        post: ShmState,
        f0: FrameAllocator,
        f1: FrameAllocator,
        key: Key,
        size: usize,
        flags: u32,
        pid: Pid,
        now: u64,
        r: ShmResult<Key>,
    ) -> bool {
        if !pre.creates(key, size, flags) {
            &&& r == pre.answer(key, size, flags)
            &&& post == (ShmState {
                metrics: pre.metrics_after_answer(key, size, flags),
                ..pre
            })
            &&& f1 == f0
        } else if !pre.has_key_for(key) {
            &&& r == Err::<Key, ShmError>(ShmError::OutOfMemory)
            &&& post == (ShmState {
                metrics: ShmMetrics {
                    oom_events: pre.metrics.oom_events.wrapping_add(1),
                    ..pre.metrics
                },
                ..pre
            })
            &&& f1 == f0
        } else if r == Err::<Key, ShmError>(ShmError::OutOfMemory) {
            &&& failed(f0, f1, rounded(size as int) / 4096)
            &&& post == (ShmState {
                metrics: ShmMetrics {
                    oom_events: pre.metrics.oom_events.wrapping_add(1),
                    ..pre.metrics
                },
                ..pre
            })
        } else {
            &&& exists|frames: Seq<u64>| #[trigger]
                allocated(f0, f1, frames) && frames.len() == rounded(size as int) / 4096 && post
                    == pre.created(key, size, flags, pid, now, frames)
            &&& r == Ok::<Key, ShmError>(pre.key_for(key))
        }
    }

    /// Where segment `i` is attached that is given no address.
    fn own_place(&self, i: usize) -> (r: Address)
        requires
            i < self.table.segments@.len(),
            self.table.segments@[i as int]@.frames.len() <= MAX_FRAMES,
        ensures
            ({
                let seg = self.table.segments@[i as int]@;
                r == attach_addr(seg.key, 0, seg.frames.len() as int)
            }),
    {
        let key: Key = self.table.segments[i].key;
        let frames: usize = self.table.segments[i].phys_frames.len();
        let place: u128 = 0x8000_0000_0000 + key as u128 * 0x10_0000;
        assert(place == ATTACH_BASE + key * ATTACH_STEP);
        let last: u128 = if frames > 0 {
            (frames - 1) as u128 * 4096
        } else {
            0
        };
        if place + last <= u64::MAX as u128 {
            place as u64
        } else {
            HIGH_ATTACH_BASE + key % HIGH_KEYS * ATTACH_STEP
        }
    }

    /// Attaches a segment, at the address if one is given.
    pub fn shmat(
        &mut self,
        key: Key,
        virt_addr: Address,
        flags: u32,
        pid: Pid,
        now: u64,
    ) -> (r: ShmResult<Address>)
        requires
            old(self)@.wf(),
            old(self)@.registry.get(key) matches Some(seg) ==> attachable(
                virt_addr as int,
                seg.frames.len() as int,
            ),
        ensures
            final(self)@.wf(),
            r == old(self)@.attach_answer(key, virt_addr, flags, pid),
            final(self)@ == old(self)@.attached(key, virt_addr, flags, pid, now),
    {
        let i: usize = match self.table.find(key) {
            Some(i) => i,
            None => {
                return Err(ShmError::NotFound { key });
            },
        };
        let ghost seg = self.table.segments@[i as int]@;
        proof {
            table::lemma_index(self.table@.segs, key, 0);
            assert(self.table@.segs[i as int].sound());
        }
        let mode: u32 = self.table.segments[i].perm.mode;
        if mode & SHM_R == 0 {
            self.metrics.inc_permission_denied();
            return Err(ShmError::PermissionDenied);
        }
        if flags & SHM_RDONLY == 0 && mode & SHM_W == 0 {
            self.metrics.inc_permission_denied();
            return Err(ShmError::PermissionDenied);
        }
        let have = table::get_attachments(&self.table, pid);
        if have.len() >= self.config.max_segments_per_process {
            return Err(
                ShmError::TooManyAttachments { pid, max: self.config.max_segments_per_process },
            );
        }
        let addr: Address = if virt_addr != 0 {
            virt_addr
        } else {
            self.own_place(i)
        };
        self.table.segments[i].ref_count = self.table.segments[i].ref_count.wrapping_add(1);
        self.table.segments[i].last_attach_pid = pid;
        self.table.segments[i].attach_time = now;
        let ghost next = Seg {
            refs: seg.refs.wrapping_add(1),
            last_attach_pid: pid,
            attach_time: now,
            ..seg
        };
        proof {
            assert(self.table.segments@[i as int]@ =~= next);
            assert(self.table@.segs =~= old(self).table@.replaced(next).segs);
            table::law_replaced_is_found(old(self).table@, next);
        }
        let attachment = ProcessAttachment { key, virt_addr: addr, flags };
        let ghost mid = self.table@;
        match table::add_attachment(&mut self.table, pid, attachment, &self.config) {
            Ok(_) => {},
            Err(e) => {
                return Err(e);
            },
        }
        self.metrics.inc_attach();
        proof {
            assert(self.table@.segs == mid.segs);
            assert(self@ =~= old(self)@.attached(key, virt_addr, flags, pid, now));
        }
        Ok(addr)
    }

    /// Removes a segment and gives its frames back.
    fn remove_segment_internal(&mut self, frames: &mut FrameAllocator, key: Key) -> (r: ShmResult<
        (),
    >)
        requires
            old(self)@.wf(),
            old(frames).wf(),
            old(self)@.registry.get(key) is Some,
        ensures
            final(self)@.wf(),
            final(frames).wf(),
            r == Ok::<(), ShmError>(()),
            final(self)@ == old(self)@.dropped(key),
            freed(*old(frames), *final(frames), old(self)@.registry.get(key)->0.frames),
    {
        proof {
            table::lemma_index(self.table@.segs, key, 0);
        }
        match table::remove_segment(&mut self.table, key) {
            Some(seg) => {
                assert(seg@.sound());
                proof {
                    assert forall|i: int| 0 <= i < seg.phys_frames@.len() implies (
                    #[trigger] seg.phys_frames@[i]) / 4096 <= usize::MAX by {
                        assert(seg@.frames[i] / 4096 <= usize::MAX);
                    }
                }
                give_back(frames, &seg.phys_frames);
                self.metrics.inc_removed();
                assert(self@ =~= old(self)@.dropped(key));
                Ok(())
            },
            None => Err(ShmError::NotFound { key }),
        }
    }

    /// One attachment to the segment has gone.
    fn release(&mut self, frames: &mut FrameAllocator, key: Key, pid: Pid, now: u64) -> (r:
        ShmResult<()>)
        requires
            old(self)@.wf(),
            old(frames).wf(),
        ensures
            final(self)@.wf(),
            final(frames).wf(),
            r == (if old(self)@.registry.get(key) is None {
                Err::<(), ShmError>(ShmError::NotFound { key })
            } else {
                Ok(())
            }),
            final(self)@ == old(self)@.let_go(key, pid, now),
            freed(*old(frames), *final(frames), old(self)@.frames_lost(key)),
    {
        proof {
            lemma_let_go_wf(self@, key, pid, now);
        }
        let i: usize = match self.table.find(key) {
            Some(i) => i,
            None => {
                return Err(ShmError::NotFound { key });
            },
        };
        let ghost seg = self.table.segments@[i as int]@;
        let ghost next = ShmState::released(seg, pid, now);
        proof {
            table::lemma_index(self.table@.segs, key, 0);
            assert(self.table@.segs[i as int].sound());
        }
        if self.table.segments[i].ref_count > 0 {
            self.table.segments[i].ref_count = self.table.segments[i].ref_count - 1;
            self.table.segments[i].last_detach_pid = pid;
            self.table.segments[i].detach_time = now;
        }
        self.metrics.inc_detach();
        proof {
            assert(self.table.segments@[i as int]@ =~= next);
            assert(self.table@.segs =~= old(self).table@.replaced(next).segs);
            assert(next.frames == seg.frames);
            table::law_replaced_is_found(old(self).table@, next);
        }
        if self.table.segments[i].doomed && self.table.segments[i].ref_count == 0 {
            return self.remove_segment_internal(frames, key);
        }
        assert(self@ =~= old(self)@.let_go(key, pid, now));
        Ok(())
    }

    /// Detaches what the process has attached at the address.
    pub fn shmdt(&mut self, frames: &mut FrameAllocator, addr: Address, pid: Pid, now: u64) -> (r:
        ShmResult<()>)
        requires
            old(self)@.wf(),
            old(frames).wf(),
        ensures
            final(self)@.wf(),
            final(frames).wf(),
            r == old(self)@.detach_answer(addr, pid),
            final(self)@ == old(self)@.detached(addr, pid, now),
            freed(*old(frames), *final(frames), old(self)@.detach_frees(addr, pid)),
    {
        let attachment = match table::remove_attachment(&mut self.table, pid, addr) {
            Some(a) => a,
            None => {
                return Err(ShmError::InvalidAddress { addr });
            },
        };
        assert(self@ =~= old(self)@.without_link(addr, pid));
        self.release(frames, attachment.key, pid, now)
    }

    /// Controls a segment: removes it, reads or sets its permissions, or locks it.
    /// The result is what the caller's buffer holds afterwards.
    pub fn shmctl(
        &mut self,
        frames: &mut FrameAllocator,
        key: Key,
        cmd: u32,
        buf: Option<ShmPerm>,
        now: u64,
    ) -> (r: ShmResult<Option<ShmPerm>>)
        requires
            old(self)@.wf(),
            old(frames).wf(),
        ensures
            final(self)@.wf(),
            final(frames).wf(),
            r == old(self)@.control_answer(key, cmd, buf),
            final(self)@ == old(self)@.controlled(key, cmd, buf, now),
            freed(*old(frames), *final(frames), old(self)@.control_frees(key, cmd)),
    {
        let i: usize = match self.table.find(key) {
            Some(i) => i,
            None => {
                return Err(ShmError::NotFound { key });
            },
        };
        let ghost seg = self.table.segments@[i as int]@;
        proof {
            table::lemma_index(self.table@.segs, key, 0);
            assert(self.table@.segs[i as int].sound());
        }
        if cmd == IPC_RMID {
            if self.table.segments[i].ref_count == 0 {
                let _ = self.remove_segment_internal(frames, key);
                return Ok(buf);
            }
            self.table.segments[i].doomed = true;
        } else if cmd == IPC_STAT {
            let perm = self.table.segments[i].perm;
            return match buf {
                Some(_) => Ok(Some(perm)),
                None => Ok(None),
            };
        } else if cmd == IPC_SET {
            match buf {
                Some(perm) => {
                    self.table.segments[i].perm = perm;
                    self.table.segments[i].mod_time = now;
                },
                None => {
                    return Ok(buf);
                },
            }
        } else if cmd == SHM_LOCK {
            self.table.segments[i].locked = true;
        } else if cmd == SHM_UNLOCK {
            self.table.segments[i].locked = false;
        } else {
            return Err(ShmError::InvalidCommand { cmd });
        }
        proof {
            let next = self.table.segments@[i as int]@;
            assert(next.frames == seg.frames);
            assert(self.table@.segs =~= old(self).table@.replaced(next).segs);
            table::law_replaced_is_found(old(self).table@, next);
            assert(self@ =~= old(self)@.controlled(key, cmd, buf, now));
        }
        Ok(buf)
    }

    /// Detaches everything that a process has attached.
    pub fn cleanup_process(&mut self, frames: &mut FrameAllocator, pid: Pid, now: u64)
        requires
            old(self)@.wf(),
            old(frames).wf(),
        ensures
            final(self)@.wf(),
            final(frames).wf(),
            final(self)@ == old(self)@.cleaned(pid, now),
            freed(*old(frames), *final(frames), old(self)@.clean_frees(pid, now)),
    {
        let list = table::clear_attachments(&mut self.table, pid);
        let ghost start = self@;
        assert(start =~= ShmState { registry: old(self)@.registry.cleared(pid), ..old(self)@ });
        let mut i: usize = 0;
        while i < list.len()
            invariant
                i <= list@.len(),
                self@.wf(),
                frames.wf(),
                self@ == start.let_all_go(list@, pid, now, i as int),
                freed(*old(frames), *frames, start.all_frees(list@, pid, now, i as int)),
            decreases list@.len() - i,
        {
            let ghost mid = *frames;
            let ghost before = self@;
            let _ = self.release(frames, list[i].key, pid, now);
            proof {
                lemma_freed_concat(
                    *old(frames),
                    mid,
                    *frames,
                    start.all_frees(list@, pid, now, i as int),
                    before.frames_lost(list@[i as int].key),
                );
            }
            i += 1;
        }
    }

    /// The numbers of shared memory.
    pub fn stats(&self) -> (r: ShmStats)
        requires
            self.table@.bytes(false) <= usize::MAX,
            self.table@.refs() <= usize::MAX,
        ensures
            r.active_segments == self.table@.segs.len(),
            r.total_bytes == self.table@.bytes(false),
            r.used_bytes == self.table@.bytes(true),
            r.attached_processes == self.table@.refs(),
    {
        table::stats(&self.table)
    }

    pub fn metrics_snapshot(&self) -> (r: ShmMetricsSnapshot)
        ensures
            r.segments_created == self.metrics.segments_created,
            r.segments_removed == self.metrics.segments_removed,
            r.attaches == self.metrics.attaches,
            r.detaches == self.metrics.detaches,
            r.oom_events == self.metrics.oom_events,
            r.permission_denied == self.metrics.permission_denied,
            r.not_found == self.metrics.not_found,
            r.total_bytes_allocated == self.metrics.total_bytes_allocated,
    {
        self.metrics.snapshot()
    }

    pub fn reset_metrics(&mut self)
        ensures
            final(self)@ == (ShmState {
                metrics: ShmMetrics {
                    segments_created: 0,
                    segments_removed: 0,
                    attaches: 0,
                    detaches: 0,
                    oom_events: 0,
                    permission_denied: 0,
                    not_found: 0,
                    total_bytes_allocated: 0,
                },
                ..old(self)@
            }),
    {
        self.metrics = ShmMetrics::default();
    }
}

// ---------------------------------------------------------------------------
// Kernel-wide functions
// ---------------------------------------------------------------------------

/// Sets shared memory up, once.
pub fn init(global: &mut Option<ShmManager>)
    ensures
        match *old(global) {
            Some(m) => *final(global) == Some(m),
            None => *final(global) matches Some(m) && m.is_default(),
        },
{
    if global.is_none() {
        *global = Some(ShmManager::default());
    }
}

/// The text for an error of a request for a segment.
pub open spec fn get_text(e: ShmError) -> Seq<char> {
    match e {
        ShmError::NotFound { .. } => "SHM key not found"@,
        ShmError::AlreadyExists { .. } => "SHM segment already exists"@,
        ShmError::SizeTooLarge { .. } => "SHM size too large"@,
        ShmError::ZeroSize => "SHM size must be > 0"@,
        ShmError::OutOfMemory => "OOM for SHM segment"@,
        ShmError::PermissionDenied => "SHM permission denied"@,
        ShmError::TooManyAttachments { .. } => "too many SHM segments attached"@,
        _ => "SHM error"@,
    }
}

/// Creates a segment under a key, or finds it there.
pub fn shmget(
    m: &mut ShmManager,
    frames: &mut FrameAllocator,
    key: u64,
    size: usize,
    flags: u32,
    current_pid: u32,
    now: u64,
) -> (r: Result<u64, &'static str>)
    requires
        old(m)@.wf(),
        old(frames).wf(),
        size <= old(m).config.max_segment_size ==> size + 4095 <= usize::MAX,
    ensures
        final(m)@.wf(),
        final(frames).wf(),
        exists|full: ShmResult<Key>|
            {
                &&& #[trigger] ShmManager::shmget_outcome(
                    old(m)@,
                    final(m)@,
                    *old(frames),
                    *final(frames),
                    key,
                    size,
                    flags,
                    current_pid,
                    now,
                    full,
                )
                &&& match full {
                    Ok(k) => r == Ok::<u64, &'static str>(k),
                    Err(e) => r matches Err(s) && s@ == get_text(e),
                }
            },
{
    let full = m.shmget(frames, key, size, flags, current_pid, now);
    let ghost g = full;
    assert(ShmManager::shmget_outcome(
        old(m)@,
        m@,
        *old(frames),
        *frames,
        key,
        size,
        flags,
        current_pid,
        now,
        g,
    ));
    match full {
        Ok(k) => Ok(k),
        Err(e) => Err(
            match e {
                ShmError::NotFound { .. } => "SHM key not found",
                ShmError::AlreadyExists { .. } => "SHM segment already exists",
                ShmError::SizeTooLarge { .. } => "SHM size too large",
                ShmError::ZeroSize => "SHM size must be > 0",
                ShmError::OutOfMemory => "OOM for SHM segment",
                ShmError::PermissionDenied => "SHM permission denied",
                ShmError::TooManyAttachments { .. } => "too many SHM segments attached",
                _ => "SHM error",
            },
        ),
    }
}

/// The text for an error of attaching.
pub open spec fn attach_text(e: ShmError) -> Seq<char> {
    match e {
        ShmError::NotFound { .. } => "SHM key not found"@,
        ShmError::PermissionDenied => "SHM permission denied"@,
        ShmError::TooManyAttachments { .. } => "too many SHM segments attached"@,
        ShmError::InvalidAddress { .. } => "invalid address"@,
        _ => "SHM error"@,
    }
}

/// Attaches a segment.
pub fn shmat(m: &mut ShmManager, key: u64, virt_addr: u64, flags: u32, pid: u32, now: u64) -> (r:
    Result<u64, &'static str>)
    requires
        old(m)@.wf(),
        old(m)@.registry.get(key) matches Some(seg) ==> attachable(
            virt_addr as int,
            seg.frames.len() as int,
        ),
    ensures
        final(m)@.wf(),
        final(m)@ == old(m)@.attached(key, virt_addr, flags, pid, now),
        match old(m)@.attach_answer(key, virt_addr, flags, pid) {
            Ok(a) => r == Ok::<u64, &'static str>(a),
            Err(e) => r matches Err(s) && s@ == attach_text(e),
        },
{
    match m.shmat(key, virt_addr, flags, pid, now) {
        Ok(a) => Ok(a),
        Err(e) => Err(
            match e {
                ShmError::NotFound { .. } => "SHM key not found",
                ShmError::PermissionDenied => "SHM permission denied",
                ShmError::TooManyAttachments { .. } => "too many SHM segments attached",
                ShmError::InvalidAddress { .. } => "invalid address",
                _ => "SHM error",
            },
        ),
    }
}

/// Detaches a segment; says whether that succeeded.
pub fn shmdt(m: &mut ShmManager, frames: &mut FrameAllocator, addr: u64, pid: u32, now: u64) -> (r:
    bool)
    requires
        old(m)@.wf(),
        old(frames).wf(),
    ensures
        final(m)@.wf(),
        final(frames).wf(),
        r == (old(m)@.detach_answer(addr, pid) is Ok),
        final(m)@ == old(m)@.detached(addr, pid, now),
        freed(*old(frames), *final(frames), old(m)@.detach_frees(addr, pid)),
{
    m.shmdt(frames, addr, pid, now).is_ok()
}

/// The text for an error of a control operation.
pub open spec fn control_text(e: ShmError) -> Seq<char> {
    match e {
        ShmError::NotFound { .. } => "SHM key not found"@,
        ShmError::InvalidCommand { .. } => "invalid SHM command"@,
        _ => "SHM error"@,
    }
}

/// Controls a segment.
pub fn shmctl(
    m: &mut ShmManager,
    frames: &mut FrameAllocator,
    key: u64,
    cmd: u32,
    buf: Option<ShmPerm>,
    now: u64,
) -> (r: Result<Option<ShmPerm>, &'static str>)
    requires
        old(m)@.wf(),
        old(frames).wf(),
    ensures
        final(m)@.wf(),
        final(frames).wf(),
        final(m)@ == old(m)@.controlled(key, cmd, buf, now),
        freed(*old(frames), *final(frames), old(m)@.control_frees(key, cmd)),
        match old(m)@.control_answer(key, cmd, buf) {
            Ok(b) => r == Ok::<Option<ShmPerm>, &'static str>(b),
            Err(e) => r matches Err(s) && s@ == control_text(e),
        },
{
    match m.shmctl(frames, key, cmd, buf, now) {
        Ok(b) => Ok(b),
        Err(e) => Err(
            match e {
                ShmError::NotFound { .. } => "SHM key not found",
                ShmError::InvalidCommand { .. } => "invalid SHM command",
                _ => "SHM error",
            },
        ),
    }
}

/// Detaches everything that a process has attached.
pub fn cleanup_process(m: &mut ShmManager, frames: &mut FrameAllocator, pid: u32, now: u64)
    requires
        old(m)@.wf(),
        old(frames).wf(),
    ensures
        final(m)@.wf(),
        final(frames).wf(),
        final(m)@ == old(m)@.cleaned(pid, now),
        freed(*old(frames), *final(frames), old(m)@.clean_frees(pid, now)),
{
    m.cleanup_process(frames, pid, now);
}

/// The numbers of shared memory.
pub fn shm_stats(m: &ShmManager) -> (r: ShmStats)
    requires
        m.table@.bytes(false) <= usize::MAX,
        m.table@.refs() <= usize::MAX,
    ensures
        r.active_segments == m.table@.segs.len(),
        r.total_bytes == m.table@.bytes(false),
        r.used_bytes == m.table@.bytes(true),
        r.attached_processes == m.table@.refs(),
{
    m.stats()
}

/// Is there a segment with that key?
pub fn shm_exists(m: &ShmManager, key: u64) -> (r: bool)
    ensures
        r == (m@.registry.get(key) is Some),
{
    table::segment_exists(&m.table, key)
}

/// A copy of the segment with that key.
pub fn shm_info(m: &ShmManager, key: u64) -> (r: Option<ShmSegment>)
    ensures
        match r {
            Some(s) => m@.registry.get(key) == Some(s@),
            None => m@.registry.get(key) is None,
        },
{
    match table::get_segment(&m.table, key) {
        Some(s) => Some(s.clone()),
        None => None,
    }
}

// ---------------------------------------------------------------------------
// Laws: frames
// ---------------------------------------------------------------------------

/// The frames of a new segment were free, are in use now, and are all different; no
/// other frame changes.
pub proof fn law_segment_frames_are_fresh(
    pre: FrameAllocator,
    post: FrameAllocator,
    frames: Seq<u64>,
)
    requires
        pre.wf(),
        allocated(pre, post, frames),
    ensures
        forall|i: int|
            0 <= i < frames.len() ==> #[trigger] pre.bitmap.free_at(frames[i] as int / 4096)
                && frames[i] % 4096 == 0 && post.bitmap.in_use()[frames[i] as int / 4096],
        forall|i: int, j: int|
            0 <= i < j < frames.len() ==> #[trigger] frames[i] != #[trigger] frames[j],
        forall|k: int|
            0 <= k < frame_alloc::MAX_FRAMES && (forall|i: int|
                0 <= i < frames.len() ==> #[trigger] frames[i] as int / 4096 != k)
                ==> #[trigger] post.bitmap.in_use()[k] == pre.bitmap.in_use()[k],
        post.bitmap.used_frames == pre.bitmap.used_frames + frames.len(),
        post.bitmap.max_frames == pre.bitmap.max_frames,
    decreases frames.len(),
{
    if frames.len() > 0 {
        let rest = frames.drop_last();
        let mid = choose|mid: FrameAllocator|
            allocated(pre, mid, rest) && #[trigger] handed_out(mid, post, frames.last());
        law_segment_frames_are_fresh(pre, mid, rest);
        let f = PhysFrame { start: frames.last() };
        let n = f.index();
        assert(mid.bitmap.free_at(n));
        assert forall|i: int| 0 <= i < rest.len() implies #[trigger] frames[i] == rest[i] by {}
        assert forall|i: int| 0 <= i < rest.len() implies (#[trigger] rest[i]) as int / 4096
            != n by {
            assert(pre.bitmap.free_at(rest[i] as int / 4096));
        }
        assert(pre.bitmap.in_use()[n] == mid.bitmap.in_use()[n]);
        assert forall|i: int| 0 <= i < frames.len() implies #[trigger] pre.bitmap.free_at(
            frames[i] as int / 4096,
        ) && frames[i] % 4096 == 0 && post.bitmap.in_use()[frames[i] as int / 4096] by {
            if i < rest.len() {
                assert(pre.bitmap.free_at(rest[i] as int / 4096));
            }
        }
        assert forall|k: int|
            0 <= k < frame_alloc::MAX_FRAMES && (forall|i: int|
                0 <= i < frames.len() ==> #[trigger] frames[i] as int / 4096
                    != k) implies #[trigger] post.bitmap.in_use()[k] == pre.bitmap.in_use()[k] by {
            assert(frames[frames.len() - 1] as int / 4096 != k);
            assert forall|i: int| 0 <= i < rest.len() implies #[trigger] rest[i] as int / 4096
                != k by {
                assert(frames[i] as int / 4096 != k);
            }
            assert(mid.bitmap.in_use()[k] == pre.bitmap.in_use()[k]);
        }
    }
}

/// Where counts are kept, each frame that was handed out has one reference.
proof fn lemma_allocated_counts(pre: FrameAllocator, post: FrameAllocator, frames: Seq<u64>)
    requires
        pre.wf(),
        allocated(pre, post, frames),
    ensures
        post.refs.ready == pre.refs.ready,
        post.refs.counts@.len() == pre.refs.counts@.len(),
        post.initialised == pre.initialised,
        frames.len() > 0 ==> pre.initialised,
        forall|i: int|
            0 <= i < frames.len() && pre.refs.ready && (#[trigger] frames[i]) as int / 4096
                < pre.refs.counts@.len() ==> post.refs.counts@[frames[i] as int / 4096] == 1,
    decreases frames.len(),
{
    if frames.len() > 0 {
        let rest = frames.drop_last();
        let mid = choose|mid: FrameAllocator|
            allocated(pre, mid, rest) && #[trigger] handed_out(mid, post, frames.last());
        lemma_allocated_counts(pre, mid, rest);
        law_segment_frames_are_fresh(pre, post, frames);
        assert forall|i: int|
            0 <= i < frames.len() && pre.refs.ready && (#[trigger] frames[i]) as int / 4096
                < pre.refs.counts@.len() implies post.refs.counts@[frames[i] as int / 4096]
            == 1 by {
            if i < rest.len() {
                assert(frames[i] == rest[i]);
            }
        }
    }
}

/// Frames with one reference each are all free after they were given back; no other
/// frame changes.
proof fn lemma_freed_all(pre: FrameAllocator, post: FrameAllocator, frames: Seq<u64>)
    requires
        freed(pre, post, frames),
        pre.initialised,
        forall|i: int|
            0 <= i < frames.len() ==> 0 <= (#[trigger] frames[i]) as int / 4096
                < pre.bitmap.max_frames && frames[i] % 4096 == 0,
        forall|i: int, j: int|
            0 <= i < j < frames.len() ==> #[trigger] frames[i] != #[trigger] frames[j],
        pre.refs.ready ==> forall|i: int|
            0 <= i < frames.len() ==> (#[trigger] frames[i]) as int / 4096 < pre.refs.counts@.len()
                && pre.refs.counts@[frames[i] as int / 4096] == 1,
        frames.len() <= pre.bitmap.used_frames,
        pre.bitmap.max_frames <= frame_alloc::MAX_FRAMES,
    ensures
        post.initialised,
        post.refs.ready == pre.refs.ready,
        post.refs.counts@.len() == pre.refs.counts@.len(),
        post.bitmap.max_frames == pre.bitmap.max_frames,
        post.bitmap.used_frames == pre.bitmap.used_frames - frames.len(),
        forall|k: int|
            (forall|i: int| 0 <= i < frames.len() ==> #[trigger] frames[i] as int / 4096 != k)
                && 0 <= k < pre.refs.counts@.len() ==> #[trigger] post.refs.counts@[k]
                == pre.refs.counts@[k],
        forall|k: int|
            0 <= k < frame_alloc::MAX_FRAMES ==> #[trigger] post.bitmap.in_use()[k] == (
            pre.bitmap.in_use()[k] && (forall|i: int|
                0 <= i < frames.len() ==> #[trigger] frames[i] as int / 4096 != k)),
    decreases frames.len(),
{
    if frames.len() > 0 {
        let rest = frames.drop_last();
        let last = frames.last();
        let mid = choose|mid: FrameAllocator|
            freed(pre, mid, rest) && #[trigger] gave_back(mid, post, last);
        assert forall|i: int| 0 <= i < rest.len() implies #[trigger] rest[i] == frames[i] by {}
        lemma_freed_all(pre, mid, rest);
        let n = last as int / 4096;
        assert(frames[frames.len() - 1] == last);
        assert forall|i: int| 0 <= i < rest.len() implies #[trigger] rest[i] as int / 4096
            != n by {
            assert(frames[i] != last);
        }
        if pre.refs.ready {
            assert(mid.refs.counts@[n] == 1);
        }
        assert forall|k: int| 0 <= k < frame_alloc::MAX_FRAMES implies #[trigger] post.bitmap.in_use()[k]
            == (pre.bitmap.in_use()[k] && (forall|i: int|
            0 <= i < frames.len() ==> #[trigger] frames[i] as int / 4096 != k)) by {
            assert(mid.bitmap.in_use()[k] == (pre.bitmap.in_use()[k] && (forall|i: int|
                0 <= i < rest.len() ==> #[trigger] rest[i] as int / 4096 != k)));
            if forall|i: int| 0 <= i < rest.len() ==> #[trigger] rest[i] as int / 4096 != k {
                if k != n {
                    assert forall|i: int| 0 <= i < frames.len() implies #[trigger] frames[i] as int
                        / 4096 != k by {
                        if i < rest.len() {
                            assert(rest[i] as int / 4096 != k);
                        }
                    }
                }
            } else {
                let i = choose|i: int|
                    0 <= i < rest.len() && !(#[trigger] rest[i] as int / 4096 != k);
                assert(frames[i] as int / 4096 == k);
            }
        }
        assert forall|k: int|
            (forall|i: int| 0 <= i < frames.len() ==> #[trigger] frames[i] as int / 4096 != k)
                && 0 <= k < pre.refs.counts@.len() implies #[trigger] post.refs.counts@[k]
            == pre.refs.counts@[k] by {
            assert forall|i: int| 0 <= i < rest.len() implies #[trigger] rest[i] as int / 4096
                != k by {
                assert(frames[i] as int / 4096 != k);
            }
            assert(mid.refs.counts@[k] == pre.refs.counts@[k]);
        }
    }
}

/// A request that fails for want of memory keeps no frame: every frame is in use
/// exactly if it was before. (Where references are counted, they are counted for
/// every frame.)
pub proof fn law_failed_request_keeps_no_frame(f0: FrameAllocator, f1: FrameAllocator, pages: int)
    requires
        f0.wf(),
        f0.initialised,
        f0.refs.ready ==> f0.bitmap.max_frames <= f0.refs.counts@.len(),
        failed(f0, f1, pages),
    ensures
        f1.bitmap.in_use() == f0.bitmap.in_use(),
        f1.bitmap.used_frames == f0.bitmap.used_frames,
{
    let (frames, m1, m2) = choose|frames: Seq<u64>, m1: FrameAllocator, m2: FrameAllocator|
        #![trigger allocated(f0, m1, frames), freed(m2, f1, frames)]
        frames.len() < pages && allocated(f0, m1, frames) && refused(m1, m2) && freed(
            m2,
            f1,
            frames,
        );
    law_segment_frames_are_fresh(f0, m1, frames);
    lemma_allocated_counts(f0, m1, frames);
    assert forall|i: int| 0 <= i < frames.len() implies 0 <= (#[trigger] frames[i]) as int / 4096
        < m2.bitmap.max_frames && frames[i] % 4096 == 0 by {
        assert(f0.bitmap.free_at(frames[i] as int / 4096));
    }
    lemma_freed_all(m2, f1, frames);
    assert forall|k: int| 0 <= k < frame_alloc::MAX_FRAMES implies #[trigger] f1.bitmap.in_use()[k]
        == f0.bitmap.in_use()[k] by {
        if forall|i: int| 0 <= i < frames.len() ==> #[trigger] frames[i] as int / 4096 != k {
            assert(m1.bitmap.in_use()[k] == f0.bitmap.in_use()[k]);
        } else {
            let i = choose|i: int|
                0 <= i < frames.len() && !(#[trigger] frames[i] as int / 4096 != k);
            assert(f0.bitmap.free_at(frames[i] as int / 4096));
        }
    }
    assert(f1.bitmap.in_use() =~= f0.bitmap.in_use());
}

// ---------------------------------------------------------------------------
// Laws: attachments
// ---------------------------------------------------------------------------

/// How many attachments are to the segment.
pub open spec fn key_links(links: Seq<Attached>, key: Key) -> int
    decreases links.len(),
{
    if links.len() == 0 {
        0
    } else {
        key_links(links.drop_last(), key) + (if links.last().attachment.key == key {
            1int
        } else {
            0
        })
    }
}

/// How many of a list of attachments are to the segment.
pub open spec fn key_atts(list: Seq<ProcessAttachment>, key: Key) -> int
    decreases list.len(),
{
    if list.len() == 0 {
        0
    } else {
        key_atts(list.drop_first(), key) + (if list[0].key == key {
            1int
        } else {
            0
        })
    }
}

/// Each segment counts the attachments to it, those in the registry and those of
/// `pending`, and there are none to what is no segment.
pub open spec fn balanced(r: Registry, pending: Seq<ProcessAttachment>) -> bool {
    forall|key: Key|
        match #[trigger] r.get(key) {
            Some(seg) => seg.refs == key_links(r.links, key) + key_atts(pending, key),
            None => key_links(r.links, key) + key_atts(pending, key) == 0,
        }
}

/// Each segment counts the attachments to it.
pub open spec fn counted(s: ShmState) -> bool {
    balanced(s.registry, Seq::empty())
}

proof fn lemma_key_links_bounds(links: Seq<Attached>, key: Key)
    ensures
        0 <= key_links(links, key) <= links.len(),
    decreases links.len(),
{
    if links.len() > 0 {
        lemma_key_links_bounds(links.drop_last(), key);
    }
}

proof fn lemma_key_atts_bounds(list: Seq<ProcessAttachment>, key: Key)
    ensures
        0 <= key_atts(list, key) <= list.len(),
    decreases list.len(),
{
    if list.len() > 0 {
        lemma_key_atts_bounds(list.drop_first(), key);
    }
}

proof fn lemma_key_atts_push(list: Seq<ProcessAttachment>, a: ProcessAttachment, key: Key)
    ensures
        key_atts(list.push(a), key) == key_atts(list, key) + (if a.key == key {
            1int
        } else {
            0
        }),
    decreases list.len(),
{
    reveal_with_fuel(key_atts, 2);
    if list.len() > 0 {
        lemma_key_atts_push(list.drop_first(), a, key);
        assert(list.push(a).drop_first() =~= list.drop_first().push(a));
    } else {
        assert(list.push(a).drop_first() =~= Seq::<ProcessAttachment>::empty());
    }
}

proof fn lemma_key_links_remove(links: Seq<Attached>, i: int, key: Key)
    requires
        0 <= i < links.len(),
    ensures
        key_links(links.remove(i), key) == key_links(links, key) - (if links[i].attachment.key
            == key {
            1int
        } else {
            0
        }),
    decreases links.len(),
{
    if i == links.len() - 1 {
        assert(links.remove(i) =~= links.drop_last());
    } else {
        lemma_key_links_remove(links.drop_last(), i, key);
        assert(links.remove(i).drop_last() =~= links.drop_last().remove(i));
        assert(links.remove(i).last() == links.last());
    }
}

/// The attachments of a process and those of all others are all attachments.
proof fn lemma_split(links: Seq<Attached>, pid: Pid, key: Key)
    ensures
        key_links(links, key) == key_links(table::links_without(links, pid), key) + key_atts(
            table::links_of(links, pid),
            key,
        ),
    decreases links.len(),
{
    if links.len() > 0 {
        let before = links.drop_last();
        lemma_split(before, pid, key);
        if links.last().pid == pid {
            lemma_key_atts_push(table::links_of(before, pid), links.last().attachment, key);
        } else {
            let rest = table::links_without(before, pid);
            assert(rest.push(links.last()).drop_last() =~= rest);
        }
    }
}

/// Letting one pending attachment go keeps the balance of the rest.
proof fn lemma_let_go_balanced(
    s: ShmState,
    pending: Seq<ProcessAttachment>,
    pid: Pid,
    now: u64,
)
    requires
        s.wf(),
        pending.len() > 0,
        balanced(s.registry, pending),
    ensures
        balanced(s.let_go(pending[0].key, pid, now).registry, pending.drop_first()),
{
    let key = pending[0].key;
    let rest = pending.drop_first();
    let after = s.let_go(key, pid, now);
    lemma_key_links_bounds(s.registry.links, key);
    lemma_key_atts_bounds(rest, key);
    assert(s.registry.get(key) is Some);
    let seg = s.registry.get(key)->0;
    let next = ShmState::released(seg, pid, now);
    table::lemma_index(s.registry.segs, key, 0);
    assert(seg.sound());
    assert(next.frames == seg.frames);
    table::law_replaced_is_found(s.registry, next);
    table::law_removed_is_gone(s.registry.replaced(next), key);
    assert forall|k: Key|
        match #[trigger] after.registry.get(k) {
            Some(g) => g.refs == key_links(after.registry.links, k) + key_atts(rest, k),
            None => key_links(after.registry.links, k) + key_atts(rest, k) == 0,
        } by {
        assert(k != key ==> after.registry.get(k) == s.registry.get(k)) by {
            assert(k != key ==> s.registry.replaced(next).get(k) == s.registry.get(k));
        }
        assert(s.registry.get(k) == s.registry.get(k));
    }
}

proof fn lemma_all_go_balanced(
    s: ShmState,
    list: Seq<ProcessAttachment>,
    pid: Pid,
    now: u64,
    n: int,
)
    requires
        s.wf(),
        balanced(s.registry, list),
        0 <= n <= list.len(),
    ensures
        s.let_all_go(list, pid, now, n).wf(),
        balanced(s.let_all_go(list, pid, now, n).registry, list.skip(n)),
    decreases n,
{
    if n > 0 {
        lemma_all_go_balanced(s, list, pid, now, n - 1);
        let mid = s.let_all_go(list, pid, now, n - 1);
        lemma_let_go_wf(mid, list[n - 1].key, pid, now);
        lemma_let_go_balanced(mid, list.skip(n - 1), pid, now);
        assert(list.skip(n - 1).drop_first() =~= list.skip(n));
    } else {
        assert(list.skip(0) =~= list);
    }
}

/// Creating a segment keeps the attachments counted.
pub proof fn law_created_segment_is_unattached(
    s: ShmState,
    key: Key,
    size: usize,
    flags: u32,
    pid: Pid,
    now: u64,
    frames: Seq<u64>,
)
    requires
        s.wf(),
        counted(s),
        s.creates(key, size, flags),
        s.has_key_for(key),
        new_segment(s.key_for(key), size as int, frames, flags, pid, now).sound(),
    ensures
        counted(s.created(key, size, flags, pid, now, frames)),
{
    let to = s.key_for(key);
    let after = s.created(key, size, flags, pid, now, frames);
    lemma_private_key(s);
    let seg = new_segment(to, size as int, frames, flags, pid, now);
    table::law_inserted_is_found(s.registry, seg);
    assert forall|k: Key|
        match #[trigger] after.registry.get(k) {
            Some(g) => g.refs == key_links(after.registry.links, k) + key_atts(Seq::empty(), k),
            None => key_links(after.registry.links, k) + key_atts(Seq::empty(), k) == 0,
        } by {
        assert(s.registry.get(k) == s.registry.get(k));
    }
}

/// Attaching a segment keeps the attachments counted (while a count can hold them).
pub proof fn law_attach_is_counted(
    s: ShmState,
    key: Key,
    virt: Address,
    flags: u32,
    pid: Pid,
    now: u64,
)
    requires
        s.wf(),
        counted(s),
        s.registry.links.len() < u32::MAX,
    ensures
        counted(s.attached(key, virt, flags, pid, now)),
{
    if let Ok(addr) = s.attach_answer(key, virt, flags, pid) {
        let after = s.attached(key, virt, flags, pid, now);
        let seg = s.registry.get(key)->0;
        let next = Seg {
            refs: seg.refs.wrapping_add(1),
            last_attach_pid: pid,
            attach_time: now,
            ..seg
        };
        table::lemma_index(s.registry.segs, key, 0);
        assert(seg.sound());
        table::law_replaced_is_found(s.registry, next);
        let link = Attached { pid, attachment: ProcessAttachment { key, virt_addr: addr, flags } };
        let links = s.registry.links;
        assert(links.push(link).drop_last() =~= links);
        lemma_key_links_bounds(links, key);
        assert forall|k: Key|
            match #[trigger] after.registry.get(k) {
                Some(g) => g.refs == key_links(after.registry.links, k) + key_atts(Seq::empty(), k),
                None => key_links(after.registry.links, k) + key_atts(Seq::empty(), k) == 0,
            } by {
            assert(after.registry.get(k) == s.registry.replaced(next).get(k));
            assert(s.registry.get(k) == s.registry.get(k));
        }
    }
}

/// Detaching a segment keeps the attachments counted, and what is attached is always
/// a segment: detaching fails only where nothing is attached.
pub proof fn law_detach_is_counted(s: ShmState, addr: Address, pid: Pid, now: u64)
    requires
        s.wf(),
        counted(s),
    ensures
        counted(s.detached(addr, pid, now)),
        s.detach_answer(addr, pid) is Ok <==> s.attachment_at(addr, pid) is Some,
{
    if let Some(a) = s.attachment_at(addr, pid) {
        let links = s.registry.links;
        table::lemma_link(links, pid, addr, 0);
        let i = table::link_from(links, pid, addr, 0)->0;
        let mid = s.without_link(addr, pid);
        let pending = seq![a];
        assert(pending.drop_first() =~= Seq::<ProcessAttachment>::empty());
        reveal_with_fuel(key_atts, 2);
        assert forall|k: Key|
            match #[trigger] mid.registry.get(k) {
                Some(g) => g.refs == key_links(mid.registry.links, k) + key_atts(pending, k),
                None => key_links(mid.registry.links, k) + key_atts(pending, k) == 0,
            } by {
            lemma_key_links_remove(links, i, k);
            assert(mid.registry.get(k) == s.registry.get(k));
        }
        assert(mid.registry.get(a.key) == s.registry.get(a.key));
        lemma_key_links_bounds(links.remove(i), a.key);
        lemma_let_go_balanced(mid, pending, pid, now);
    }
}

/// A control operation keeps the attachments counted.
pub proof fn law_control_is_counted(
    s: ShmState,
    key: Key,
    cmd: u32,
    buf: Option<ShmPerm>,
    now: u64,
)
    requires
        s.wf(),
        counted(s),
    ensures
        counted(s.controlled(key, cmd, buf, now)),
{
    if let Some(seg) = s.registry.get(key) {
        let after = s.controlled(key, cmd, buf, now);
        table::lemma_index(s.registry.segs, key, 0);
        assert(seg.sound());
        table::law_removed_is_gone(s.registry, key);
        let doomed = Seg { doomed: true, ..seg };
        let locked = Seg { locked: cmd == SHM_LOCK, ..seg };
        assert(doomed.frames == seg.frames && locked.frames == seg.frames);
        table::law_replaced_is_found(s.registry, doomed);
        table::law_replaced_is_found(s.registry, locked);
        if let Some(perm) = buf {
            let set = Seg { perm, mod_time: now, ..seg };
            assert(set.frames == seg.frames);
            table::law_replaced_is_found(s.registry, set);
        }
        assert forall|k: Key|
            match #[trigger] after.registry.get(k) {
                Some(g) => g.refs == key_links(after.registry.links, k) + key_atts(Seq::empty(), k),
                None => key_links(after.registry.links, k) + key_atts(Seq::empty(), k) == 0,
            } by {
            assert(s.registry.get(k) == s.registry.get(k));
        }
    }
}

/// Cleaning up after a process keeps the attachments counted, and the process has
/// none left.
pub proof fn law_cleanup_is_counted(s: ShmState, pid: Pid, now: u64)
    requires
        s.wf(),
        counted(s),
    ensures
        counted(s.cleaned(pid, now)),
        table::links_of(s.cleaned(pid, now).registry.links, pid).len() == 0,
{
    let list = table::links_of(s.registry.links, pid);
    let start = ShmState { registry: s.registry.cleared(pid), ..s };
    assert forall|k: Key|
        match #[trigger] start.registry.get(k) {
            Some(g) => g.refs == key_links(start.registry.links, k) + key_atts(list, k),
            None => key_links(start.registry.links, k) + key_atts(list, k) == 0,
        } by {
        lemma_split(s.registry.links, pid, k);
        assert(start.registry.get(k) == s.registry.get(k));
    }
    lemma_all_go_balanced(start, list, pid, now, list.len() as int);
    assert(list.skip(list.len() as int) =~= Seq::<ProcessAttachment>::empty());
    table::law_cleared_process_has_none(s.registry.links, pid, pid);
    lemma_all_go_links(start, list, pid, now, list.len() as int);
}

proof fn lemma_all_go_links(
    s: ShmState,
    list: Seq<ProcessAttachment>,
    pid: Pid,
    now: u64,
    n: int,
)
    ensures
        s.let_all_go(list, pid, now, n).registry.links == s.registry.links,
    decreases n,
{
    if n > 0 {
        lemma_all_go_links(s, list, pid, now, n - 1);
    }
}

/// Detaching what was just attached leaves the segment attached as often as before,
/// and the attachments as they were.
pub proof fn law_detach_undoes_attach(
    s: ShmState,
    key: Key,
    virt: Address,
    flags: u32,
    pid: Pid,
    t1: u64,
    t2: u64,
)
    requires
        s.wf(),
        s.attach_answer(key, virt, flags, pid) is Ok,
        s.registry.get(key)->0.refs < u32::MAX,
        !(s.registry.get(key)->0.doomed && s.registry.get(key)->0.refs == 0),
        s.attachment_at(s.attach_answer(key, virt, flags, pid)->Ok_0, pid) is None,
    ensures
        ({
            let addr = s.attach_answer(key, virt, flags, pid)->Ok_0;
            let mid = s.attached(key, virt, flags, pid, t1);
            let end = mid.detached(addr, pid, t2);
            &&& mid.detach_answer(addr, pid) is Ok
            &&& end.registry.links == s.registry.links
            &&& end.registry.get(key) matches Some(seg) && seg.refs == s.registry.get(key)->0.refs
                && seg.frames == s.registry.get(key)->0.frames
            &&& mid.detach_frees(addr, pid).len() == 0
        }),
{
    let addr = s.attach_answer(key, virt, flags, pid)->Ok_0;
    let links = s.registry.links;
    let seg = s.registry.get(key)->0;
    let mid = s.attached(key, virt, flags, pid, t1);
    let next = Seg { refs: seg.refs.wrapping_add(1), last_attach_pid: pid, attach_time: t1, ..seg };
    table::lemma_index(s.registry.segs, key, 0);
    assert(seg.sound());
    table::law_replaced_is_found(s.registry, next);
    table::lemma_link(links, pid, addr, 0);
    table::lemma_link(mid.registry.links, pid, addr, 0);
    let i = links.len() as int;
    assert(mid.registry.links[i].pid == pid && mid.registry.links[i].attachment.virt_addr == addr);
    let found = table::link_from(mid.registry.links, pid, addr, 0);
    assert(found is Some);
    if found->0 < i {
        assert(mid.registry.links[found->0] == links[found->0]);
    }
    assert(found == Some(i));
    assert(mid.registry.links.remove(i) =~= links);
    let apart = mid.without_link(addr, pid);
    assert(apart.registry.get(key) == mid.registry.get(key));
    assert(mid.registry.get(key) == s.registry.replaced(next).get(key));
    assert(apart.wf());
    let last = ShmState::released(next, pid, t2);
    assert(last.frames == seg.frames);
    table::law_replaced_is_found(apart.registry, last);
}

/// A segment that was removed while it was attached goes with its last attachment,
/// and its frames go with it.
pub proof fn law_removal_waits_for_last_detach(
    s: ShmState,
    key: Key,
    buf: Option<ShmPerm>,
    addr: Address,
    pid: Pid,
    now: u64,
)
    requires
        s.wf(),
        s.registry.get(key) is Some,
        s.registry.get(key)->0.refs > 0,
        s.attachment_at(addr, pid) matches Some(a) && a.key == key,
    ensures
        ({
            let marked = s.controlled(key, IPC_RMID, buf, now);
            let end = marked.detached(addr, pid, now);
            let seg = s.registry.get(key)->0;
            &&& marked.registry.get(key) is Some
            &&& s.control_frees(key, IPC_RMID).len() == 0
            &&& end.registry.get(key) is None <==> seg.refs == 1
            &&& seg.refs == 1 ==> marked.detach_frees(addr, pid) == seg.frames
        }),
{
    let marked = s.controlled(key, IPC_RMID, buf, now);
    let seg = s.registry.get(key)->0;
    let doomed = Seg { doomed: true, ..seg };
    table::lemma_index(s.registry.segs, key, 0);
    assert(seg.sound());
    assert(doomed.frames == seg.frames);
    table::law_replaced_is_found(s.registry, doomed);
    let apart = marked.without_link(addr, pid);
    assert(apart.registry.get(key) == marked.registry.get(key));
    assert(apart.wf());
    let next = ShmState::released(doomed, pid, now);
    assert(next.frames == seg.frames);
    table::law_replaced_is_found(apart.registry, next);
    table::law_removed_is_gone(apart.registry.replaced(next), key);
}

/// A segment that is created under a key is found there, large enough and not
/// attached.
pub proof fn law_created_segment_is_found(
    s: ShmState,
    key: Key,
    size: usize,
    flags: u32,
    pid: Pid,
    now: u64,
    frames: Seq<u64>,
)
    requires
        s.wf(),
        s.creates(key, size, flags),
        s.has_key_for(key),
        size + 4095 <= usize::MAX,
        new_segment(s.key_for(key), size as int, frames, flags, pid, now).sound(),
    ensures
        ({
            let after = s.created(key, size, flags, pid, now, frames);
            &&& after.registry.get(s.key_for(key)) matches Some(seg) && seg.size >= size
                && seg.size % 4096 == 0 && seg.refs == 0 && seg.frames == frames
            &&& forall|k: Key|
                k != s.key_for(key) ==> #[trigger] after.registry.get(k) == s.registry.get(k)
        }),
{
    let seg = new_segment(s.key_for(key), size as int, frames, flags, pid, now);
    lemma_private_key(s);
    table::law_inserted_is_found(s.registry, seg);
}

/// A request for a private segment is never answered that the segment exists: it gets a
/// key of its own, one that no segment has and that the next private segment will not
/// get; or there is no memory, which is also the answer where every key is in use.
pub proof fn law_private_key_is_new(
    pre: ShmState,
    post: ShmState,
    f0: FrameAllocator,
    f1: FrameAllocator,
    size: usize,
    flags: u32,
    pid: Pid,
    now: u64,
    r: ShmResult<Key>,
)
    requires
        pre.wf(),
        0 < size <= pre.config.max_segment_size,
        ShmManager::shmget_outcome(pre, post, f0, f1, IPC_PRIVATE, size, flags, pid, now, r),
        f1.wf(),
    ensures
        match r {
            Ok(k) => {
                &&& k != IPC_PRIVATE
                &&& pre.registry.get(k) is None
                &&& post.registry.get(k) is Some
                &&& post.private_key() != Some(k)
            },
            Err(e) => e == ShmError::OutOfMemory,
        },
        (forall|k: Key| k != IPC_PRIVATE ==> #[trigger] pre.registry.get(k) is Some) ==> r is Err,
{
    lemma_private_key(pre);
    lemma_private_key(post);
    if let Ok(k) = r {
        assert(pre.unused(k));
        let frames = choose|frames: Seq<u64>| #[trigger]
            allocated(f0, f1, frames) && frames.len() == rounded(size as int) / 4096 && post
                == pre.created(IPC_PRIVATE, size, flags, pid, now, frames);
        lemma_allocated_sound(f0, f1, frames);
        frame_alloc::lemma_count_bounds(f1.bitmap.in_use(), MAX_FRAMES as int);
        let seg = new_segment(k, size as int, frames, flags, pid, now);
        table::law_inserted_is_found(pre.registry, seg);
    }
}

/// Frames that were handed out are those of a machine.
proof fn lemma_allocated_sound(pre: FrameAllocator, post: FrameAllocator, frames: Seq<u64>)
    requires
        allocated(pre, post, frames),
    ensures
        post.bitmap.used_frames == pre.bitmap.used_frames + frames.len(),
        forall|i: int|
            0 <= i < frames.len() ==> (#[trigger] frames[i]) % 4096 == 0 && frames[i] / 4096
                <= usize::MAX,
    decreases frames.len(),
{
    if frames.len() > 0 {
        let mid = choose|mid: FrameAllocator|
            allocated(pre, mid, frames.drop_last()) && #[trigger] handed_out(
                mid,
                post,
                frames.last(),
            );
        lemma_allocated_sound(pre, mid, frames.drop_last());
        assert forall|i: int| 0 <= i < frames.len() implies (#[trigger] frames[i]) % 4096 == 0
            && frames[i] / 4096 <= usize::MAX by {
            if i < frames.len() - 1 {
                assert(frames.drop_last()[i] == frames[i]);
            }
        }
    }
}

/// How a request for a segment that need not be made is answered. None has no bytes or
/// more than are allowed. One that exists is given where it was not asked to be new and has
/// as many whole pages as are asked for; where there is none it has to be asked to be made.
/// Nothing changes but what is counted.
pub proof fn law_request_is_answered(
    m: &mut ShmManager,
    frames: &mut FrameAllocator,
    key: Key,
    size: usize,
    flags: u32,
    pid: Pid,
    now: u64,
    r: ShmResult<Key>,
)
    requires
        old(m)@.wf(),
        old(frames).wf(),
        size <= old(m).config.max_segment_size ==> size + 4095 <= usize::MAX,
        call_ensures(ShmManager::shmget, (m, frames, key, size, flags, pid, now), r),
        key != 0,
    ensures
        ({
            let found = old(m)@.registry.get(key);
            let max = old(m).config.max_segment_size;
            let same = final(m)@.registry == old(m)@.registry && *final(frames) == *old(frames);
            &&& size == 0 ==> r == Err::<Key, ShmError>(ShmError::ZeroSize) && same
            &&& size > max ==> r == Err::<Key, ShmError>(ShmError::SizeTooLarge { size, max })
                && same
            &&& 0 < size <= max && found is None && flags & 0o1000 == 0 ==> r == Err::<
                Key,
                ShmError,
            >(ShmError::NotFound { key }) && same
            &&& 0 < size <= max && found is Some && flags & 0o2000 != 0 ==> r == Err::<
                Key,
                ShmError,
            >(ShmError::AlreadyExists { key }) && same
            &&& 0 < size <= max && found is Some && flags & 0o2000 == 0 ==> same && (r == Ok::<
                Key,
                ShmError,
            >(key) <==> size <= found->0.size - found->0.size as int % 4096) && (r is Err
                ==> r->Err_0 is SizeTooLarge)
            &&& 0 < size <= max && found is None && flags & 0o1000 != 0 ==> r == Ok::<
                Key,
                ShmError,
            >(key) || r == Err::<Key, ShmError>(ShmError::OutOfMemory)
        }),
{
}

/// A segment that is made has whole pages that hold what was asked for and no page more,
/// each with a frame of its own. It may be read and written as its flags say, belongs to
/// the process that made it, and is not attached, not locked and not to be removed. Every
/// other segment and every attachment stays.
pub proof fn law_made_segment_holds_its_bytes(
    m: &mut ShmManager,
    frames: &mut FrameAllocator,
    key: Key,
    size: usize,
    flags: u32,
    pid: Pid,
    now: u64,
    r: ShmResult<Key>,
    other: Key,
)
    requires
        old(m)@.wf(),
        old(frames).wf(),
        size <= old(m).config.max_segment_size ==> size + 4095 <= usize::MAX,
        call_ensures(ShmManager::shmget, (m, frames, key, size, flags, pid, now), r),
        key == 0 || old(m)@.registry.get(key) is None,
        r is Ok,
    ensures
        ({
            let k = r->Ok_0;
            let seg = final(m)@.registry.get(k)->0;
            &&& key != 0 ==> k == key
            &&& old(m)@.registry.get(k) is None
            &&& final(m)@.registry.get(k) is Some
            &&& seg.key == k
            &&& seg.size as int % 4096 == 0
            &&& size <= seg.size < size + 4096
            &&& seg.frames.len() * 4096 == seg.size
            &&& seg.perm.mode == flags & (0o400u32 | 0o200u32)
            &&& seg.creator_pid == pid
            &&& seg.mod_time == now
            &&& seg.refs == 0 && !seg.locked && !seg.doomed
            &&& other != k ==> final(m)@.registry.get(other) == old(m)@.registry.get(other)
            &&& final(m)@.registry.links == old(m)@.registry.links
            &&& old(m).metrics.segments_created < u64::MAX ==> final(m).metrics.segments_created
                == old(m).metrics.segments_created + 1
            &&& old(m).metrics.total_bytes_allocated + seg.size <= u64::MAX ==> final(
                m).metrics.total_bytes_allocated == old(m).metrics.total_bytes_allocated + seg.size
        }),
{
    let pre = old(m)@;
    let post = final(m)@;
    lemma_private_key(pre);
    assert(pre.creates(key, size, flags));
    let list = choose|list: Seq<u64>| #[trigger]
        allocated(*old(frames), *final(frames), list) && list.len() == rounded(size as int) / 4096
            && post == pre.created(key, size, flags, pid, now, list);
    lemma_allocated_sound(*old(frames), *final(frames), list);
    frame_alloc::lemma_count_bounds(final(frames).bitmap.in_use(), MAX_FRAMES as int);
    let k = pre.key_for(key);
    if key == 0 {
        assert(pre.unused(k));
    }
    let seg = new_segment(k, size as int, list, flags, pid, now);
    table::law_inserted_is_found(pre.registry, seg);
}

/// A segment is attached exactly where it may be read, and written too unless it is
/// attached for reading only, and the process has not too many yet. It is attached where
/// the process asks, or at the place of its key where that can be addressed, and is then
/// attached once more, by that process at that time. A refusal for want of permission is
/// counted, and any refusal leaves all segments and attachments.
pub proof fn law_attached_where_allowed(
    m: &mut ShmManager,
    key: Key,
    virt: Address,
    flags: u32,
    pid: Pid,
    now: u64,
    r: ShmResult<Address>,
    other: Key,
)
    requires
        old(m)@.wf(),
        call_ensures(ShmManager::shmat, (m, key, virt, flags, pid, now), r),
    ensures
        ({
            let found = old(m)@.registry.get(key);
            let seg = found->0;
            let allowed = seg.perm.mode & 0o400 != 0 && (flags & 0o10000 != 0 || seg.perm.mode
                & 0o200 != 0);
            let held = table::links_of(old(m)@.registry.links, pid).len();
            &&& r is Ok <==> found is Some && allowed && held < old(
                m).config.max_segments_per_process
            &&& found is None ==> r == Err::<Address, ShmError>(ShmError::NotFound { key })
            &&& found is Some && !allowed ==> r == Err::<Address, ShmError>(
                ShmError::PermissionDenied,
            )
            &&& found is Some && allowed && r is Err ==> r->Err_0 is TooManyAttachments
                && r->Err_0->TooManyAttachments_pid == pid
            &&& r is Err ==> final(m)@.registry == old(m)@.registry
            &&& found is Some && !allowed && old(m).metrics.permission_denied < u64::MAX ==> final(
                m).metrics.permission_denied == old(m).metrics.permission_denied + 1
            &&& r matches Ok(a) ==> {
                let now_seg = final(m)@.registry.get(key)->0;
                let place = 0x8000_0000_0000 + key * 0x10_0000;
                &&& virt != 0 ==> a == virt
                &&& virt == 0 && place <= u64::MAX && place + (seg.frames.len() - 1) * 4096
                    <= u64::MAX ==> a == place
                &&& final(m)@.registry.get(key) is Some
                &&& seg.refs < u32::MAX ==> now_seg.refs == seg.refs + 1
                &&& now_seg.last_attach_pid == pid && now_seg.attach_time == now
                &&& now_seg.frames == seg.frames && now_seg.size == seg.size && now_seg.perm
                    == seg.perm && now_seg.doomed == seg.doomed && now_seg.last_detach_pid
                    == seg.last_detach_pid
                &&& other != key ==> final(m)@.registry.get(other) == old(m)@.registry.get(other)
                &&& final(m)@.registry.links == old(m)@.registry.links.push(
                    Attached {
                        pid,
                        attachment: ProcessAttachment { key, virt_addr: a, flags },
                    },
                )
                &&& old(m).metrics.attaches < u64::MAX ==> final(m).metrics.attaches == old(
                    m).metrics.attaches + 1
            }
        }),
{
    let s = old(m)@;
    if r is Ok {
        let seg = s.registry.get(key)->0;
        table::lemma_index(s.registry.segs, key, 0);
        assert(seg.sound());
        let next = Seg {
            refs: seg.refs.wrapping_add(1),
            last_attach_pid: pid,
            attach_time: now,
            ..seg
        };
        table::law_replaced_is_found(s.registry, next);
        assert(final(m)@.registry.segs == s.registry.replaced(next).segs);
        assert(final(m)@.registry.get(key) == s.registry.replaced(next).get(key));
        assert(final(m)@.registry.get(other) == s.registry.replaced(next).get(other));
    }
}

/// A process detaches what it has attached at an address, and nothing is attached there
/// otherwise. The segment is attached once less, by that process at that time; one that was
/// to be removed is gone with its last attachment, and its frames are given back. No other
/// segment changes.
pub proof fn law_detached_at_the_address(
    m: &mut ShmManager,
    frames: &mut FrameAllocator,
    addr: Address,
    pid: Pid,
    now: u64,
    r: ShmResult<()>,
    i: int,
    other: Key,
)
    requires
        old(m)@.wf(),
        call_ensures(ShmManager::shmdt, (m, frames, addr, pid, now), r),
        forall|j: int|
            0 <= j < i ==> (#[trigger] old(m)@.registry.links[j]).pid != pid || old(
                m)@.registry.links[j].attachment.virt_addr != addr,
    ensures
        i == old(m)@.registry.links.len() ==> r == Err::<(), ShmError>(
            ShmError::InvalidAddress { addr },
        ) && final(m)@ == old(m)@,
        0 <= i < old(m)@.registry.links.len() && old(m)@.registry.links[i].pid == pid && old(
            m)@.registry.links[i].attachment.virt_addr == addr ==> {
            let key = old(m)@.registry.links[i].attachment.key;
            let found = old(m)@.registry.get(key);
            let seg = found->0;
            let left = final(m)@.registry.get(key);
            let gone = seg.doomed && seg.refs <= 1;
            &&& final(m)@.registry.links == old(m)@.registry.links.remove(i)
            &&& r is Ok <==> found is Some
            &&& found is Some && gone ==> left is None && freed(
                *old(frames),
                *final(frames),
                seg.frames,
            )
            &&& found is Some && !gone ==> left is Some && *final(frames) == *old(frames)
                && left->0.frames == seg.frames && left->0.size == seg.size && left->0.doomed
                == seg.doomed
            &&& found is Some && !gone && seg.refs > 0 ==> left->0.refs == seg.refs - 1
                && left->0.last_detach_pid == pid && left->0.detach_time == now
            &&& other != key ==> final(m)@.registry.get(other) == old(m)@.registry.get(other)
            &&& found is Some && old(m).metrics.detaches < u64::MAX ==> final(m).metrics.detaches
                == old(m).metrics.detaches + 1
        },
{
    let s = old(m)@;
    let links = s.registry.links;
    table::lemma_link(links, pid, addr, 0);
    if 0 <= i < links.len() && links[i].pid == pid && links[i].attachment.virt_addr == addr {
        assert(table::link_from(links, pid, addr, 0) == Some(i));
        let key = links[i].attachment.key;
        let apart = s.without_link(addr, pid);
        assert(apart.registry.segs == s.registry.segs);
        assert(apart.registry.get(key) == s.registry.get(key));
        assert(apart.registry.get(other) == s.registry.get(other));
        if s.registry.get(key) is Some {
            let seg = s.registry.get(key)->0;
            table::lemma_index(s.registry.segs, key, 0);
            assert(seg.sound());
            let next = ShmState::released(seg, pid, now);
            assert(next.frames == seg.frames);
            table::law_replaced_is_found(apart.registry, next);
            table::law_removed_is_gone(apart.registry.replaced(next), key);
        }
    }
}

/// What the commands do to a segment. One tells its permissions, one sets them and when,
/// one locks and one unlocks it. Removing it takes it away at once with its frames where it
/// is not attached, and else once it is not. No other segment and no attachment changes,
/// and an unknown command changes nothing.
pub proof fn law_commands_to_a_segment(
    m: &mut ShmManager,
    frames: &mut FrameAllocator,
    key: Key,
    cmd: u32,
    buf: Option<ShmPerm>,
    now: u64,
    r: ShmResult<Option<ShmPerm>>,
    other: Key,
)
    requires
        old(m)@.wf(),
        call_ensures(ShmManager::shmctl, (m, frames, key, cmd, buf, now), r),
        old(m)@.registry.get(key) is Some,
    ensures
        ({
            let seg = old(m)@.registry.get(key)->0;
            let left = final(m)@.registry.get(key);
            &&& r is Ok <==> cmd <= 4
            &&& cmd > 4 ==> r->Err_0 is InvalidCommand && final(m)@ == old(m)@
            &&& cmd == 1 && buf is Some ==> r == Ok::<Option<ShmPerm>, ShmError>(Some(seg.perm))
            &&& cmd == 1 ==> final(m)@ == old(m)@
            &&& cmd == 2 && buf is Some ==> left is Some && left->0.perm == buf->0 && left->0.mod_time
                == now && left->0.refs == seg.refs && left->0.locked == seg.locked
            &&& cmd == 3 ==> left is Some && left->0.locked && left->0.perm == seg.perm && left->0.refs
                == seg.refs
            &&& cmd == 4 ==> left is Some && !left->0.locked && left->0.perm == seg.perm && left->0.refs
                == seg.refs
            &&& cmd == 0 && seg.refs == 0 ==> left is None && freed(
                *old(frames),
                *final(frames),
                seg.frames,
            )
            &&& cmd == 0 && seg.refs > 0 ==> left is Some && left->0.doomed && left->0.refs == seg.refs
            &&& cmd == 0 && seg.refs == 0 && old(m).metrics.segments_removed < u64::MAX ==> final(
                m).metrics.segments_removed == old(m).metrics.segments_removed + 1
            &&& cmd != 0 || seg.refs > 0 ==> *final(frames) == *old(frames)
            &&& left is Some ==> left->0.frames == seg.frames && left->0.size == seg.size
            &&& other != key ==> final(m)@.registry.get(other) == old(m)@.registry.get(other)
            &&& final(m)@.registry.links == old(m)@.registry.links
        }),
{
    let s = old(m)@;
    let seg = s.registry.get(key)->0;
    table::lemma_index(s.registry.segs, key, 0);
    assert(seg.sound());
    let doomed = Seg { doomed: true, ..seg };
    let locked = Seg { locked: cmd == 3, ..seg };
    assert(doomed.frames == seg.frames);
    assert(locked.frames == seg.frames);
    table::law_replaced_is_found(s.registry, doomed);
    table::law_replaced_is_found(s.registry, locked);
    if buf is Some {
        let set = Seg { perm: buf->0, mod_time: now, ..seg };
        assert(set.frames == seg.frames);
        table::law_replaced_is_found(s.registry, set);
    }
    table::law_removed_is_gone(s.registry, key);
}

/// The bytes that are told as used are those of the segments that are attached: attaching
/// one that was not adds its bytes to them, and to one more process, and changes neither
/// all the bytes nor how many segments there are.
pub proof fn law_attached_bytes_are_used(
    m: &mut ShmManager,
    key: Key,
    virt: Address,
    flags: u32,
    pid: Pid,
    now: u64,
    r: ShmResult<Address>,
    before: ShmStats,
    after: ShmStats,
)
    requires
        old(m)@.wf(),
        call_ensures(ShmManager::shmat, (m, key, virt, flags, pid, now), r),
        call_ensures(ShmManager::stats, (&*old(m),), before),
        call_ensures(ShmManager::stats, (&*final(m),), after),
        r is Ok,
        old(m)@.registry.get(key)->0.refs < u32::MAX,
    ensures
        after.active_segments == before.active_segments,
        after.total_bytes == before.total_bytes,
        after.used_bytes == before.used_bytes + (if old(m)@.registry.get(key)->0.refs == 0 {
            old(m)@.registry.get(key)->0.size as int
        } else {
            0
        }),
        after.attached_processes == before.attached_processes + 1,
{
    let s = old(m)@;
    let seg = s.registry.get(key)->0;
    table::lemma_index(s.registry.segs, key, 0);
    let i = table::index_from(s.registry.segs, key, 0)->0;
    let next = Seg { refs: seg.refs.wrapping_add(1), last_attach_pid: pid, attach_time: now, ..seg };
    let n = s.registry.segs.len() as int;
    lemma_totals_update(s.registry.segs, i, next, n);
    assert(final(m)@.registry.segs == s.registry.segs.update(i, next));
}

proof fn lemma_totals_update(segs: Seq<Seg>, i: int, next: Seg, n: int)
    requires
        0 <= i < segs.len(),
        0 <= n <= segs.len(),
        next.size == segs[i].size,
        next.refs == segs[i].refs + 1,
    ensures
        table::sizes(segs.update(i, next), false, n) == table::sizes(segs, false, n),
        table::sizes(segs.update(i, next), true, n) == table::sizes(segs, true, n) + (if i < n
            && segs[i].refs == 0 {
            segs[i].size as int
        } else {
            0
        }),
        table::refs_total(segs.update(i, next), n) == table::refs_total(segs, n) + (if i < n {
            1int
        } else {
            0
        }),
    decreases n,
{
    if n > 0 {
        lemma_totals_update(segs, i, next, n - 1);
    }
}

/// All the bytes are those of all segments: without segments there are none, and a segment
/// more at the end adds its own.
pub proof fn law_bytes_add_up(segs: Seq<Seg>, seg: Seg)
    ensures
        table::sizes(Seq::empty(), false, 0) == 0,
        table::sizes(segs.push(seg), false, (segs.len() + 1) as int) == table::sizes(
            segs,
            false,
            segs.len() as int,
        ) + seg.size,
        table::refs_total(segs.push(seg), (segs.len() + 1) as int) == table::refs_total(
            segs,
            segs.len() as int,
        ) + seg.refs,
{
    lemma_totals_prefix(segs.push(seg), segs, segs.len() as int);
}

proof fn lemma_totals_prefix(a: Seq<Seg>, b: Seq<Seg>, n: int)
    requires
        0 <= n <= a.len(),
        n <= b.len(),
        forall|i: int| 0 <= i < n ==> #[trigger] a[i] == b[i],
    ensures
        table::sizes(a, false, n) == table::sizes(b, false, n),
        table::refs_total(a, n) == table::refs_total(b, n),
    decreases n,
{
    if n > 0 {
        lemma_totals_prefix(a, b, n - 1);
        assert(a[n - 1] == b[n - 1]);
    }
}

/// The segment that is told of a key is the one that the key has, and one exists exactly
/// where one is told.
pub proof fn law_told_segment_has_the_key(
    m: &ShmManager,
    key: Key,
    r: Option<ShmSegment>,
    there: bool,
)
    requires
        call_ensures(shm_info, (m, key), r),
        call_ensures(shm_exists, (m, key), there),
    ensures
        there <==> r is Some,
        r matches Some(s) ==> s.key == key && m@.registry.segs.contains(s@),
        r is None ==> forall|i: int|
            0 <= i < m@.registry.segs.len() ==> (#[trigger] m@.registry.segs[i]).key != key,
{
    table::lemma_index(m@.registry.segs, key, 0);
}

/// The numbers that are reported of shared memory are those that were counted.
pub proof fn law_shm_report_is_what_was_counted(m: &ShmManager, r: ShmMetricsSnapshot)
    requires
        call_ensures(ShmManager::metrics_snapshot, (m,), r),
    ensures
        r.segments_created == m.metrics.segments_created,
        r.segments_removed == m.metrics.segments_removed,
        r.attaches == m.metrics.attaches,
        r.detaches == m.metrics.detaches,
        r.oom_events == m.metrics.oom_events,
        r.permission_denied == m.metrics.permission_denied,
        r.not_found == m.metrics.not_found,
        r.total_bytes_allocated == m.metrics.total_bytes_allocated,
{
}

/// Settings pass exactly where a segment may have a byte and a process an attachment.
pub proof fn law_shm_settings_allow_a_segment(c: &ShmConfig, r: Result<(), &'static str>)
    requires
        call_ensures(ShmConfig::validate, (c,), r),
    ensures
        r is Ok <==> c.max_segment_size > 0 && c.max_segments_per_process > 0,
        c.max_segment_size == 0 ==> r is Err && r->Err_0@ == "max_segment_size must be > 0"@,
{
}

/// What is told of shared memory has each number and its name.
pub proof fn law_shared_memory_is_told_by_name(s: &ShmStats, r: String)
    requires
        call_ensures(ShmStats::summary, (s,), r),
    ensures
        text::tells(r@, "SHM: "@ + text::decimal(s.active_segments as nat)),
        text::tells(r@, text::fixed(s.total_bytes as int, 1048576, 2) + " MiB total, "@),
        text::tells(r@, text::fixed(s.used_bytes as int, 1048576, 2) + " MiB used, "@),
        text::tells(r@, text::decimal(s.attached_processes as nat) + " processes attached"@),
{
    let pieces = seq![
        "SHM: "@,
        text::decimal(s.active_segments as nat),
        " segments, "@,
        text::fixed(s.total_bytes as int, 1048576, 2),
        " MiB total, "@,
        text::fixed(s.used_bytes as int, 1048576, 2),
        " MiB used, "@,
        text::decimal(s.attached_processes as nat),
        " processes attached"@,
    ];
    reveal_with_fuel(text::put_together, 10);
    assert(r@ == text::put_together(pieces, 9));
    text::lemma_tells(pieces, 9, 0);
    text::lemma_tells(pieces, 9, 3);
    text::lemma_tells(pieces, 9, 5);
    text::lemma_tells(pieces, 9, 7);
}

} // verus!
