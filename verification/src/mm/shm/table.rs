//! The registry of shared memory segments and of who has attached them.
use crate::memory::frame_alloc::MAX_FRAMES;
use crate::mm::shm::{Key, ProcessAttachment, ShmConfig, ShmError, ShmPerm, ShmResult, ShmSegment, ShmStats};
use vstd::prelude::*;

verus! {

/// Segments in the order of their keys, and attachments in the order in which they
/// were made.
#[derive(Debug)]
pub struct ShmTable {
    pub segments: Vec<ShmSegment>,
    pub attachments: Vec<Attached>,
}

/// An attachment and the process that has it.
#[derive(Debug, Clone, Copy)]
pub struct Attached {
    pub pid: u32,
    pub attachment: ProcessAttachment,
}

/// A segment.
#[verifier::ext_equal]
pub struct Seg {
    pub key: Key,
    pub size: usize,
    /// Start addresses of its frames.
    pub frames: Seq<u64>,
    /// How often it is attached.
    pub refs: u32,
    pub perm: ShmPerm,
    pub flags: u32,
    pub creator_pid: u32,
    pub last_attach_pid: u32,
    pub last_detach_pid: u32,
    pub attach_time: u64,
    pub detach_time: u64,
    pub mod_time: u64,
    pub locked: bool,
    /// It goes away with its last attachment.
    pub doomed: bool,
}

impl View for ShmSegment {
    type V = Seg;

    open spec fn view(&self) -> Seg {
        Seg {
            key: self.key,
            size: self.size,
            frames: self.phys_frames@,
            refs: self.ref_count,
            perm: self.perm,
            flags: self.flags,
            creator_pid: self.creator_pid,
            last_attach_pid: self.last_attach_pid,
            last_detach_pid: self.last_detach_pid,
            attach_time: self.attach_time,
            detach_time: self.detach_time,
            mod_time: self.mod_time,
            locked: self.locked,
            doomed: self.doomed,
        }
    }
}

impl Seg {
    /// Its frames start where frames start, and are no more than a machine has.
    pub open spec fn sound(self) -> bool {
        &&& self.frames.len() <= MAX_FRAMES
        &&& forall|i: int|
            0 <= i < self.frames.len() ==> (#[trigger] self.frames[i]) % 4096 == 0 && self.frames[i]
                / 4096 <= usize::MAX
    }
}

/// The segments and the attachments.
#[verifier::ext_equal]
pub struct Registry {
    pub segs: Seq<Seg>,
    pub links: Seq<Attached>,
}

impl View for ShmTable {
    type V = Registry;

    open spec fn view(&self) -> Registry {
        Registry { segs: segs_of(self.segments@), links: self.attachments@ }
    }
}

pub open spec fn segs_of(v: Seq<ShmSegment>) -> Seq<Seg> {
    Seq::new(v.len(), |i: int| v[i]@)
}

/// The place of the segment with that key, from place `i` on.
pub open spec fn index_from(segs: Seq<Seg>, key: Key, i: int) -> Option<int>
    decreases segs.len() - i,
{
    if i < 0 || i >= segs.len() {
        None
    } else if segs[i].key == key {
        Some(i)
    } else {
        index_from(segs, key, i + 1)
    }
}

/// How many of the first `n` segments have smaller keys.
pub open spec fn slot(segs: Seq<Seg>, key: Key, n: int) -> int
    decreases n,
{
    if n <= 0 {
        0
    } else if segs[n - 1].key < key {
        n
    } else {
        slot(segs, key, n - 1)
    }
}

/// The sizes of the first `n` segments, of all or of the attached ones, added up.
pub open spec fn sizes(segs: Seq<Seg>, attached_only: bool, n: int) -> int
    decreases n,
{
    if n <= 0 {
        0
    } else if attached_only && segs[n - 1].refs == 0 {
        sizes(segs, attached_only, n - 1)
    } else {
        sizes(segs, attached_only, n - 1) + segs[n - 1].size
    }
}

/// The attachments of the first `n` segments, added up.
pub open spec fn refs_total(segs: Seq<Seg>, n: int) -> int
    decreases n,
{
    if n <= 0 {
        0
    } else {
        refs_total(segs, n - 1) + segs[n - 1].refs
    }
}

/// The attachments of a process, oldest first.
pub open spec fn links_of(links: Seq<Attached>, pid: u32) -> Seq<ProcessAttachment>
    decreases links.len(),
{
    if links.len() == 0 {
        Seq::empty()
    } else {
        let before = links_of(links.drop_last(), pid);
        if links.last().pid == pid {
            before.push(links.last().attachment)
        } else {
            before
        }
    }
}

/// The attachments of all other processes.
pub open spec fn links_without(links: Seq<Attached>, pid: u32) -> Seq<Attached>
    decreases links.len(),
{
    if links.len() == 0 {
        Seq::empty()
    } else {
        let before = links_without(links.drop_last(), pid);
        if links.last().pid == pid {
            before
        } else {
            before.push(links.last())
        }
    }
}

/// The first attachment of a process at an address, from place `i` on.
pub open spec fn link_from(links: Seq<Attached>, pid: u32, addr: u64, i: int) -> Option<int>
    decreases links.len() - i,
{
    if i < 0 || i >= links.len() {
        None
    } else if links[i].pid == pid && links[i].attachment.virt_addr == addr {
        Some(i)
    } else {
        link_from(links, pid, addr, i + 1)
    }
}

impl Registry {
    /// Keys grow, so that no two segments share one, and all segments are sound.
    pub open spec fn wf(self) -> bool {
        &&& forall|i: int, j: int|
            0 <= i < j < self.segs.len() ==> (#[trigger] self.segs[i]).key < (
            #[trigger] self.segs[j]).key
        &&& forall|i: int| 0 <= i < self.segs.len() ==> (#[trigger] self.segs[i]).sound()
    }

    pub open spec fn get(self, key: Key) -> Option<Seg> {
        match index_from(self.segs, key, 0) {
            Some(i) => Some(self.segs[i]),
            None => None,
        }
    }

    /// With a new segment in its place.
    pub open spec fn inserted(self, seg: Seg) -> Registry {
        Registry {
            segs: self.segs.insert(slot(self.segs, seg.key, self.segs.len() as int), seg),
            ..self
        }
    }

    /// With the segment of that key changed.
    pub open spec fn replaced(self, seg: Seg) -> Registry {
        match index_from(self.segs, seg.key, 0) {
            Some(i) => Registry { segs: self.segs.update(i, seg), ..self },
            None => self,
        }
    }

    pub open spec fn removed(self, key: Key) -> Registry {
        match index_from(self.segs, key, 0) {
            Some(i) => Registry { segs: self.segs.remove(i), ..self },
            None => self,
        }
    }

    pub open spec fn linked(self, link: Attached) -> Registry {
        Registry { links: self.links.push(link), ..self }
    }

    /// Without the first attachment of the process at the address.
    pub open spec fn unlinked(self, pid: u32, addr: u64) -> Registry {
        match link_from(self.links, pid, addr, 0) {
            Some(i) => Registry { links: self.links.remove(i), ..self },
            None => self,
        }
    }

    pub open spec fn cleared(self, pid: u32) -> Registry {
        Registry { links: links_without(self.links, pid), ..self }
    }

    /// The bytes of all segments, and of those that are attached.
    pub open spec fn bytes(self, attached_only: bool) -> int {
        sizes(self.segs, attached_only, self.segs.len() as int)
    }

    pub open spec fn refs(self) -> int {
        refs_total(self.segs, self.segs.len() as int)
    }
}

/// [`index_from`] finds what there is to find.
pub proof fn lemma_index(segs: Seq<Seg>, key: Key, i: int)
    requires
        0 <= i,
    ensures
        match index_from(segs, key, i) {
            Some(k) => i <= k < segs.len() && segs[k].key == key,
            None => forall|k: int| i <= k < segs.len() ==> (#[trigger] segs[k]).key != key,
        },
    decreases segs.len() - i,
{
    if i < segs.len() && segs[i].key != key {
        lemma_index(segs, key, i + 1);
    }
}

/// Where keys differ, the place of a key is the one place with it.
pub proof fn lemma_unique(r: Registry, key: Key, k: int)
    requires
        r.wf(),
        0 <= k < r.segs.len(),
        r.segs[k].key == key,
    ensures
        index_from(r.segs, key, 0) == Some(k),
{
    lemma_index(r.segs, key, 0);
    let i = index_from(r.segs, key, 0)->0;
    if i < k {
        assert(r.segs[i].key < r.segs[k].key);
    } else if k < i {
        assert(r.segs[k].key < r.segs[i].key);
    }
}

/// The slot parts the smaller keys from the larger ones.
pub proof fn lemma_slot(r: Registry, key: Key, n: int)
    requires
        r.wf(),
        0 <= n <= r.segs.len(),
    ensures
        0 <= slot(r.segs, key, n) <= n,
        forall|k: int|
            0 <= k < slot(r.segs, key, n) ==> (#[trigger] r.segs[k]).key < key,
        forall|k: int|
            slot(r.segs, key, n) <= k < n ==> (#[trigger] r.segs[k]).key >= key,
    decreases n,
{
    if n > 0 {
        if r.segs[n - 1].key < key {
            assert forall|k: int| 0 <= k < n implies (#[trigger] r.segs[k]).key < key by {
                if k < n - 1 {
                    assert(r.segs[k].key < r.segs[n - 1].key);
                }
            }
        } else {
            lemma_slot(r, key, n - 1);
        }
    }
}

/// An inserted segment is found under its key, and every other key finds what it
/// found before.
pub proof fn law_inserted_is_found(r: Registry, seg: Seg)
    requires
        r.wf(),
        seg.sound(),
        r.get(seg.key) is None,
    ensures
        r.inserted(seg).wf(),
        r.inserted(seg).get(seg.key) == Some(seg),
        forall|key: Key| key != seg.key ==> #[trigger] r.inserted(seg).get(key) == r.get(key),
{
    let n = r.segs.len() as int;
    let p = slot(r.segs, seg.key, n);
    let q = r.inserted(seg);
    lemma_slot(r, seg.key, n);
    lemma_index(r.segs, seg.key, 0);
    assert forall|i: int, j: int| 0 <= i < j < q.segs.len() implies (#[trigger] q.segs[i]).key < (
    #[trigger] q.segs[j]).key by {
        if j < p {
            assert(r.segs[i].key < r.segs[j].key);
        } else if i < p && j == p {
            assert(r.segs[i].key < seg.key);
        } else if i < p {
            assert(r.segs[i].key < r.segs[j - 1].key);
        } else if i == p {
            assert(r.segs[j - 1].key >= seg.key);
            assert(r.segs[j - 1].key != seg.key);
        } else {
            assert(r.segs[i - 1].key < r.segs[j - 1].key);
        }
    }
    assert forall|i: int| 0 <= i < q.segs.len() implies (#[trigger] q.segs[i]).sound() by {
        if i < p {
            assert(r.segs[i].sound());
        } else if i > p {
            assert(r.segs[i - 1].sound());
        }
    }
    assert(q.segs[p] == seg);
    lemma_unique(q, seg.key, p);
    assert forall|key: Key| key != seg.key implies #[trigger] q.get(key) == r.get(key) by {
        lemma_index(r.segs, key, 0);
        lemma_index(q.segs, key, 0);
        match index_from(r.segs, key, 0) {
            Some(i) => {
                let k = if i < p {
                    i
                } else {
                    i + 1
                };
                assert(q.segs[k] == r.segs[i]);
                lemma_unique(q, key, k);
            },
            None => {
                if let Some(k) = index_from(q.segs, key, 0) {
                    let i = if k < p {
                        k
                    } else {
                        k - 1
                    };
                    assert(q.segs[k] == r.segs[i]);
                }
            },
        }
    }
}

/// A changed segment is found under its key, and every other key finds what it
/// found before.
pub proof fn law_replaced_is_found(r: Registry, seg: Seg)
    requires
        r.wf(),
        seg.sound(),
        r.get(seg.key) is Some,
    ensures
        r.replaced(seg).wf(),
        r.replaced(seg).get(seg.key) == Some(seg),
        forall|key: Key| key != seg.key ==> #[trigger] r.replaced(seg).get(key) == r.get(key),
{
    lemma_index(r.segs, seg.key, 0);
    let p = index_from(r.segs, seg.key, 0)->0;
    let q = r.replaced(seg);
    assert forall|i: int, j: int| 0 <= i < j < q.segs.len() implies (#[trigger] q.segs[i]).key < (
    #[trigger] q.segs[j]).key by {
        assert(r.segs[i].key < r.segs[j].key);
    }
    assert forall|i: int| 0 <= i < q.segs.len() implies (#[trigger] q.segs[i]).sound() by {
        assert(r.segs[i].sound());
    }
    assert(q.segs[p] == seg);
    lemma_unique(q, seg.key, p);
    assert forall|key: Key| key != seg.key implies #[trigger] q.get(key) == r.get(key) by {
        lemma_index(r.segs, key, 0);
        lemma_index(q.segs, key, 0);
        match index_from(r.segs, key, 0) {
            Some(i) => {
                assert(q.segs[i] == r.segs[i]);
                lemma_unique(q, key, i);
            },
            None => {
                if let Some(k) = index_from(q.segs, key, 0) {
                    assert(k == p || q.segs[k] == r.segs[k]);
                }
            },
        }
    }
}

/// A removed segment is not found any more, and every other key finds what it found
/// before.
pub proof fn law_removed_is_gone(r: Registry, gone: Key)
    requires
        r.wf(),
    ensures
        r.removed(gone).wf(),
        r.removed(gone).get(gone) is None,
        forall|key: Key| key != gone ==> #[trigger] r.removed(gone).get(key) == r.get(key),
{
    lemma_index(r.segs, gone, 0);
    if let Some(p) = index_from(r.segs, gone, 0) {
        let q = r.removed(gone);
        assert forall|i: int| 0 <= i < q.segs.len() implies #[trigger] q.segs[i] == r.segs[if i < p {
            i
        } else {
            i + 1
        }] by {}
        assert forall|i: int, j: int| 0 <= i < j < q.segs.len() implies (
        #[trigger] q.segs[i]).key < (#[trigger] q.segs[j]).key by {
            let a = if i < p {
                i
            } else {
                i + 1
            };
            let b = if j < p {
                j
            } else {
                j + 1
            };
            assert(r.segs[a].key < r.segs[b].key);
        }
        assert forall|i: int| 0 <= i < q.segs.len() implies (#[trigger] q.segs[i]).sound() by {
            let a = if i < p {
                i
            } else {
                i + 1
            };
            assert(r.segs[a].sound());
        }
        lemma_index(q.segs, gone, 0);
        if let Some(k) = index_from(q.segs, gone, 0) {
            let a = if k < p {
                k
            } else {
                k + 1
            };
            lemma_unique(r, gone, a);
        }
        assert forall|key: Key| key != gone implies #[trigger] q.get(key) == r.get(key) by {
            lemma_index(r.segs, key, 0);
            lemma_index(q.segs, key, 0);
            match index_from(r.segs, key, 0) {
                Some(i) => {
                    let k = if i < p {
                        i
                    } else {
                        i - 1
                    };
                    assert(q.segs[k] == r.segs[i]);
                    lemma_unique(q, key, k);
                },
                None => {
                    if let Some(k) = index_from(q.segs, key, 0) {
                        let a = if k < p {
                            k
                        } else {
                            k + 1
                        };
                        assert(q.segs[k] == r.segs[a]);
                    }
                },
            }
        }
    }
}

/// A process that was cleared has no attachments, and the others keep theirs.
pub proof fn law_cleared_process_has_none(links: Seq<Attached>, pid: u32, other: u32)
    ensures
        links_of(links_without(links, pid), pid).len() == 0,
        other != pid ==> links_of(links_without(links, pid), other) == links_of(links, other),
    decreases links.len(),
{
    if links.len() > 0 {
        law_cleared_process_has_none(links.drop_last(), pid, other);
        let rest = links_without(links.drop_last(), pid);
        if links.last().pid != pid {
            assert(rest.push(links.last()).drop_last() =~= rest);
        }
    }
}

/// A process has at most as many attachments as there are.
proof fn lemma_links_len(links: Seq<Attached>, pid: u32)
    ensures
        links_of(links, pid).len() <= links.len(),
        links_without(links, pid).len() <= links.len(),
    decreases links.len(),
{
    if links.len() > 0 {
        lemma_links_len(links.drop_last(), pid);
    }
}

/// [`link_from`] finds what there is to find.
pub proof fn lemma_link(links: Seq<Attached>, pid: u32, addr: u64, i: int)
    requires
        0 <= i,
    ensures
        match link_from(links, pid, addr, i) {
            Some(k) => i <= k < links.len() && links[k].pid == pid && links[k].attachment.virt_addr
                == addr && forall|j: int|
                i <= j < k ==> (#[trigger] links[j]).pid != pid || links[j].attachment.virt_addr
                    != addr,
            None => forall|k: int|
                i <= k < links.len() ==> (#[trigger] links[k]).pid != pid
                    || links[k].attachment.virt_addr != addr,
        },
    decreases links.len() - i,
{
    if i < links.len() {
        lemma_link(links, pid, addr, i + 1);
    }
}

impl ShmTable {
    /// No segments and no attachments.
    pub fn new() -> (r: Self)
        ensures
            r@ == (Registry { segs: Seq::empty(), links: Seq::empty() }),
            r@.wf(),
    {
        let t = ShmTable { segments: Vec::new(), attachments: Vec::new() };
        assert(segs_of(t.segments@) =~= Seq::empty());
        t
    }

    pub(crate) fn find(&self, key: Key) -> (r: Option<usize>)
        ensures
            match r {
                Some(i) => index_from(self@.segs, key, 0) == Some(i as int) && i
                    < self.segments@.len(),
                None => index_from(self@.segs, key, 0) is None,
            },
    {
        let mut i: usize = 0;
        while i < self.segments.len()
            invariant
                i <= self.segments@.len(),
                index_from(self@.segs, key, 0) == index_from(self@.segs, key, i as int),
            decreases self.segments@.len() - i,
        {
            if self.segments[i].key == key {
                return Some(i);
            }
            i += 1;
        }
        None
    }
}

/// Registers a segment, unless there is one with its key.
pub fn insert_segment(table: &mut ShmTable, seg: ShmSegment) -> (r: ShmResult<()>)
    requires
        old(table)@.wf(),
        seg@.sound(),
    ensures
        final(table)@.wf(),
        match old(table)@.get(seg.key) {
            Some(_) => r == Err::<(), ShmError>(ShmError::AlreadyExists { key: seg.key })
                && final(table)@ == old(table)@,
            None => r is Ok && final(table)@ == old(table)@.inserted(seg@),
        },
{
    let key: Key = seg.key;
    match table.find(key) {
        Some(_) => {
            return Err(ShmError::AlreadyExists { key });
        },
        None => {},
    }
    let mut i: usize = table.segments.len();
    while i > 0 && table.segments[i - 1].key >= key
        invariant
            i <= table.segments@.len(),
            *table == *old(table),
            slot(table@.segs, key, table@.segs.len() as int) == slot(table@.segs, key, i as int),
        decreases i,
    {
        i -= 1;
    }
    proof {
        lemma_slot(table@, key, i as int);
        law_inserted_is_found(table@, seg@);
    }
    table.segments.insert(i, seg);
    assert(table@.segs =~= old(table)@.inserted(seg@).segs);
    Ok(())
}

/// The segment with that key.
pub fn get_segment(table: &ShmTable, key: Key) -> (r: Option<&ShmSegment>)
    ensures
        match r {
            Some(s) => table@.get(key) == Some(s@),
            None => table@.get(key) is None,
        },
{
    match table.find(key) {
        Some(i) => Some(&table.segments[i]),
        None => None,
    }
}

/// The segment with that key, to be changed.
pub fn get_segment_mut(table: &mut ShmTable, key: Key) -> (r: Option<&mut ShmSegment>)
    ensures
        match r {
            Some(s) => {
                &&& old(table)@.get(key) == Some((*s)@)
                &&& final(s).key == key ==> final(table)@ == old(table)@.replaced((*final(s))@)
            },
            None => old(table)@.get(key) is None && *final(table) == *old(table),
        },
{
    match table.find(key) {
        Some(i) => {
            let ghost pre = *table;
            let ghost end = *final(table);
            let s = &mut table.segments[i];
            assert(end@.segs =~= pre@.segs.update(i as int, (*final(s))@));
            Some(s)
        },
        None => None,
    }
}

/// Shows every segment to `f`, in the order of the keys.
pub fn iter_segments<F: Fn(&ShmSegment)>(table: &ShmTable, f: F)
    requires
        forall|i: int|
            0 <= i < table.segments@.len() ==> call_requires(f, (&#[trigger] table.segments@[i],)),
    ensures
        forall|i: int|
            0 <= i < table.segments@.len() ==> call_ensures(
                f,
                (&#[trigger] table.segments@[i],),
                (),
            ),
{
    let mut i: usize = 0;
    while i < table.segments.len()
        invariant
            i <= table.segments@.len(),
            forall|j: int|
                0 <= j < table.segments@.len() ==> call_requires(
                    f,
                    (&#[trigger] table.segments@[j],),
                ),
            forall|j: int|
                0 <= j < i ==> call_ensures(f, (&#[trigger] table.segments@[j],), ()),
        decreases table.segments@.len() - i,
    {
        f(&table.segments[i]);
        i += 1;
    }
}

/// Takes the segment with that key out.
pub fn remove_segment(table: &mut ShmTable, key: Key) -> (r: Option<ShmSegment>)
    requires
        old(table)@.wf(),
    ensures
        final(table)@.wf(),
        final(table)@ == old(table)@.removed(key),
        match r {
            Some(s) => old(table)@.get(key) == Some(s@),
            None => old(table)@.get(key) is None,
        },
{
    proof {
        law_removed_is_gone(table@, key);
    }
    match table.find(key) {
        Some(i) => {
            let s = table.segments.remove(i);
            assert(table@.segs =~= old(table)@.removed(key).segs);
            Some(s)
        },
        None => None,
    }
}

/// Is there a segment with that key?
pub fn segment_exists(table: &ShmTable, key: Key) -> (r: bool)
    ensures
        r == (table@.get(key) is Some),
{
    table.find(key).is_some()
}

/// How many attachments a process has.
fn count_of(table: &ShmTable, pid: u32) -> (r: usize)
    ensures
        r == links_of(table@.links, pid).len(),
{
    let mut n: usize = 0;
    let mut i: usize = 0;
    assert(table.attachments@.take(0) =~= Seq::<Attached>::empty());
    while i < table.attachments.len()
        invariant
            i <= table.attachments@.len(),
            n <= i,
            n == links_of(table.attachments@.take(i as int), pid).len(),
        decreases table.attachments@.len() - i,
    {
        assert(table.attachments@.take(i + 1).drop_last() =~= table.attachments@.take(i as int));
        if table.attachments[i].pid == pid {
            n += 1;
        }
        i += 1;
    }
    assert(table.attachments@.take(i as int) =~= table.attachments@);
    n
}

/// Records an attachment, unless the process has as many as it may have.
pub fn add_attachment(
    table: &mut ShmTable,
    pid: u32,
    attachment: ProcessAttachment,
    config: &ShmConfig,
) -> (r: ShmResult<()>)
    ensures
        if links_of(old(table)@.links, pid).len() >= config.max_segments_per_process {
            r == Err::<(), ShmError>(
                ShmError::TooManyAttachments { pid, max: config.max_segments_per_process },
            ) && final(table)@ == old(table)@
        } else {
            r is Ok && final(table)@ == old(table)@.linked(Attached { pid, attachment })
        },
{
    if count_of(table, pid) >= config.max_segments_per_process {
        return Err(ShmError::TooManyAttachments { pid, max: config.max_segments_per_process });
    }
    table.attachments.push(Attached { pid, attachment });
    Ok(())
}

/// Takes out the first attachment of a process at an address.
pub fn remove_attachment(table: &mut ShmTable, pid: u32, addr: u64) -> (r: Option<
    ProcessAttachment,
>)
    ensures
        final(table)@ == old(table)@.unlinked(pid, addr),
        r == (match link_from(old(table)@.links, pid, addr, 0) {
            Some(i) => Some(old(table)@.links[i].attachment),
            None => None,
        }),
{
    let mut i: usize = 0;
    while i < table.attachments.len()
        invariant
            i <= table.attachments@.len(),
            *table == *old(table),
            link_from(table@.links, pid, addr, 0) == link_from(table@.links, pid, addr, i as int),
        decreases table.attachments@.len() - i,
    {
        if table.attachments[i].pid == pid && table.attachments[i].attachment.virt_addr == addr {
            let a = table.attachments.remove(i);
            return Some(a.attachment);
        }
        i += 1;
    }
    None
}

/// The attachments of a process, oldest first.
pub fn get_attachments(table: &ShmTable, pid: u32) -> (r: Vec<ProcessAttachment>)
    ensures
        r@ == links_of(table@.links, pid),
{
    let mut out: Vec<ProcessAttachment> = Vec::new();
    let mut i: usize = 0;
    assert(table.attachments@.take(0) =~= Seq::<Attached>::empty());
    while i < table.attachments.len()
        invariant
            i <= table.attachments@.len(),
            out@ == links_of(table.attachments@.take(i as int), pid),
        decreases table.attachments@.len() - i,
    {
        assert(table.attachments@.take(i + 1).drop_last() =~= table.attachments@.take(i as int));
        if table.attachments[i].pid == pid {
            out.push(table.attachments[i].attachment);
        }
        i += 1;
    }
    assert(table.attachments@.take(i as int) =~= table.attachments@);
    out
}

/// Takes all attachments of a process out, oldest first.
pub fn clear_attachments(table: &mut ShmTable, pid: u32) -> (r: Vec<ProcessAttachment>)
    ensures
        r@ == links_of(old(table)@.links, pid),
        final(table)@ == old(table)@.cleared(pid),
{
    let out = get_attachments(table, pid);
    let mut rest: Vec<Attached> = Vec::new();
    let mut i: usize = 0;
    assert(table.attachments@.take(0) =~= Seq::<Attached>::empty());
    while i < table.attachments.len()
        invariant
            i <= table.attachments@.len(),
            rest@ == links_without(table.attachments@.take(i as int), pid),
        decreases table.attachments@.len() - i,
    {
        assert(table.attachments@.take(i + 1).drop_last() =~= table.attachments@.take(i as int));
        if table.attachments[i].pid != pid {
            rest.push(table.attachments[i]);
        }
        i += 1;
    }
    assert(table.attachments@.take(i as int) =~= table.attachments@);
    table.attachments = rest;
    out
}

pub fn segment_count(table: &ShmTable) -> (r: usize)
    ensures
        r == table@.segs.len(),
{
    table.segments.len()
}

proof fn lemma_sizes_grow(segs: Seq<Seg>, attached_only: bool, i: int, n: int)
    requires
        0 <= i <= n,
    ensures
        0 <= sizes(segs, attached_only, i) <= sizes(segs, attached_only, n),
    decreases n,
{
    if i < n {
        lemma_sizes_grow(segs, attached_only, i, n - 1);
    } else if n > 0 {
        lemma_sizes_grow(segs, attached_only, n - 1, n - 1);
    }
}

/// Attached segments are some of all segments.
proof fn lemma_used_of_total(segs: Seq<Seg>, n: int)
    ensures
        sizes(segs, true, n) <= sizes(segs, false, n),
    decreases n,
{
    if n > 0 {
        lemma_used_of_total(segs, n - 1);
    }
}

proof fn lemma_refs_grow(segs: Seq<Seg>, i: int, n: int)
    requires
        0 <= i <= n,
    ensures
        0 <= refs_total(segs, i) <= refs_total(segs, n),
    decreases n,
{
    if i < n {
        lemma_refs_grow(segs, i, n - 1);
    } else if n > 0 {
        lemma_refs_grow(segs, n - 1, n - 1);
    }
}

fn add_sizes(table: &ShmTable, attached_only: bool) -> (r: usize)
    requires
        table@.bytes(attached_only) <= usize::MAX,
    ensures
        r == table@.bytes(attached_only),
{
    let mut total: usize = 0;
    let mut i: usize = 0;
    while i < table.segments.len()
        invariant
            i <= table.segments@.len(),
            table@.segs.len() == table.segments@.len(),
            table@.bytes(attached_only) <= usize::MAX,
            total == sizes(table@.segs, attached_only, i as int),
        decreases table.segments@.len() - i,
    {
        proof {
            lemma_sizes_grow(table@.segs, attached_only, i + 1, table@.segs.len() as int);
        }
        if !attached_only || table.segments[i].ref_count > 0 {
            total += table.segments[i].size;
        }
        i += 1;
    }
    total
}

/// The bytes of all segments.
pub fn total_bytes(table: &ShmTable) -> (r: usize)
    requires
        table@.bytes(false) <= usize::MAX,
    ensures
        r == table@.bytes(false),
{
    add_sizes(table, false)
}

/// The bytes of all segments that are attached.
pub fn used_bytes(table: &ShmTable) -> (r: usize)
    requires
        table@.bytes(true) <= usize::MAX,
    ensures
        r == table@.bytes(true),
{
    add_sizes(table, true)
}

/// How often segments are attached, all taken together.
pub fn attached_process_count(table: &ShmTable) -> (r: usize)
    requires
        table@.refs() <= usize::MAX,
    ensures
        r == table@.refs(),
{
    let mut total: usize = 0;
    let mut i: usize = 0;
    while i < table.segments.len()
        invariant
            i <= table.segments@.len(),
            table@.segs.len() == table.segments@.len(),
            table@.refs() <= usize::MAX,
            total == refs_total(table@.segs, i as int),
        decreases table.segments@.len() - i,
    {
        proof {
            lemma_refs_grow(table@.segs, i + 1, table@.segs.len() as int);
        }
        total += table.segments[i].ref_count as usize;
        i += 1;
    }
    total
}

/// The numbers of the registry.
pub fn stats(table: &ShmTable) -> (r: ShmStats)
    requires
        table@.bytes(false) <= usize::MAX,
        table@.refs() <= usize::MAX,
    ensures
        r.active_segments == table@.segs.len(),
        r.total_bytes == table@.bytes(false),
        r.used_bytes == table@.bytes(true),
        r.attached_processes == table@.refs(),
{
    proof {
        lemma_used_of_total(table@.segs, table@.segs.len() as int);
    }
    ShmStats {
        active_segments: segment_count(table),
        total_bytes: total_bytes(table),
        used_bytes: used_bytes(table),
        attached_processes: attached_process_count(table),
    }
}

/// An attachment that is added is the latest of its process, and no other process gets one;
/// it is refused exactly where the process has as many as it may. Taking it from its
/// address gives it back.
pub proof fn law_added_attachment_is_the_latest(
    t: &mut ShmTable,
    pid: u32,
    a: ProcessAttachment,
    config: &ShmConfig,
    r: ShmResult<()>,
    before: Vec<ProcessAttachment>,
    after: Vec<ProcessAttachment>,
    other: u32,
    before_other: Vec<ProcessAttachment>,
    after_other: Vec<ProcessAttachment>,
)
    requires
        call_ensures(add_attachment, (t, pid, a, config), r),
        call_ensures(get_attachments, (&*old(t), pid), before),
        call_ensures(get_attachments, (&*final(t), pid), after),
        call_ensures(get_attachments, (&*old(t), other), before_other),
        call_ensures(get_attachments, (&*final(t), other), after_other),
        other != pid,
    ensures
        r is Ok <==> before@.len() < config.max_segments_per_process,
        r is Ok ==> after@ == before@.push(a),
        r is Err ==> after@ == before@,
        after_other@ == before_other@,
        final(t)@.segs == old(t)@.segs,
{
    let links = old(t)@.links;
    let link = Attached { pid, attachment: a };
    assert(links.push(link).drop_last() =~= links);
}

/// The attachment that is taken from an address is one that the process has there; it is
/// gone, and the others stay in their order. Where the process has none there nothing
/// changes.
pub proof fn law_taken_attachment_is_at_the_address(
    t: &mut ShmTable,
    pid: u32,
    addr: u64,
    r: Option<ProcessAttachment>,
    i: int,
)
    requires
        call_ensures(remove_attachment, (t, pid, addr), r),
        0 <= i < old(t)@.links.len(),
    ensures
        r matches Some(a) ==> a.virt_addr == addr && old(t)@.links.contains(
            Attached { pid, attachment: a },
        ) && final(t)@.links.len() + 1 == old(t)@.links.len(),
        r is None ==> final(t)@ == old(t)@ && !(old(t)@.links[i].pid == pid && old(
            t)@.links[i].attachment.virt_addr == addr),
        !(old(t)@.links[i].pid == pid && old(t)@.links[i].attachment.virt_addr == addr) ==> final(
            t)@.links.contains(old(t)@.links[i]),
        final(t)@.segs == old(t)@.segs,
{
    let links = old(t)@.links;
    lemma_link(links, pid, addr, 0);
    match link_from(links, pid, addr, 0) {
        Some(k) => {
            assert(links[k] == (Attached { pid, attachment: links[k].attachment }));
            if i != k {
                let to = if i < k {
                    i
                } else {
                    i - 1
                };
                assert(final(t)@.links[to] == links[i]);
            }
        },
        None => {
            assert(final(t)@.links[i] == links[i]);
        },
    }
}

/// A segment goes in under a key that no segment has, and comes out under that key; every
/// other one stays.
pub proof fn law_segment_goes_in_and_out(
    t: &mut ShmTable,
    seg: ShmSegment,
    r: ShmResult<()>,
    u: &mut ShmTable,
    out: Option<ShmSegment>,
    other: Key,
)
    requires
        old(t)@.wf(),
        seg@.sound(),
        call_ensures(insert_segment, (t, seg), r),
        *old(u) == *final(t),
        call_ensures(remove_segment, (u, seg.key), out),
        other != seg.key,
    ensures
        r is Ok <==> old(t)@.get(seg.key) is None,
        r is Err ==> final(t)@ == old(t)@,
        r is Ok ==> out is Some && out->0@ == seg@,
        final(u)@.get(seg.key) is None,
        final(u)@.get(other) == old(t)@.get(other),
{
    if old(t)@.get(seg.key) is None {
        law_inserted_is_found(old(t)@, seg@);
    }
    law_removed_is_gone(old(u)@, seg.key);
}

} // verus!
