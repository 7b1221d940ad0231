//! Swap: pages that are kept in files, one file for each.
//!
//! The file system is not touched here. Swapping a page out hands out the file to be
//! written, and takes the news whether that succeeded; swapping it in hands out the
//! file to be read, and takes its content.
use crate::text;
use vstd::prelude::*;

verus! {

pub const SWAP_PAGE_SIZE: usize = 4096;

/// 64 MiB.
pub const DEFAULT_MAX_SWAP_PAGES: usize = 16384;

pub const DEFAULT_SWAP_PATH_PREFIX: &'static str = "/swap/page-";

/// Where the pages of the stress test start.
pub const STRESS_BASE: u64 = 0x7000_0000_0000;

pub type SlotId = u32;

/// Settings of swap.
#[derive(Debug)]
pub struct SwapConfig {
    pub max_pages: usize,
    /// What the paths of all files start with.
    pub path_prefix: String,
    pub log_operations: bool,
    pub collect_metrics: bool,
}

impl Default for SwapConfig {
    fn default() -> (r: Self)
        ensures
            r.max_pages == DEFAULT_MAX_SWAP_PAGES,
            r.path_prefix@ == DEFAULT_SWAP_PATH_PREFIX@,
            !r.log_operations,
            r.collect_metrics,
            r.broken_rule() is None,
    {
        proof {
            reveal_strlit("/swap/page-");
        }
        SwapConfig {
            max_pages: DEFAULT_MAX_SWAP_PAGES,
            path_prefix: DEFAULT_SWAP_PATH_PREFIX.to_owned(),
            log_operations: false,
            collect_metrics: true,
        }
    }
}

impl Clone for SwapConfig {
    fn clone(&self) -> (r: Self)
        ensures
            r.max_pages == self.max_pages,
            r.path_prefix@ == self.path_prefix@,
            r.log_operations == self.log_operations,
            r.collect_metrics == self.collect_metrics,
    {
        SwapConfig {
            max_pages: self.max_pages,
            path_prefix: self.path_prefix.clone(),
            log_operations: self.log_operations,
            collect_metrics: self.collect_metrics,
        }
    }
}

impl SwapConfig {
    /// The first rule that the configuration breaks, if any.
    pub open spec fn broken_rule(&self) -> Option<Seq<char>> {
        if self.max_pages == 0 {
            Some("max_pages must be > 0"@)
        } else if self.path_prefix@.len() == 0 {
            Some("path_prefix must not be empty"@)
        } else {
            None
        }
    }

    pub fn validate(&self) -> (r: Result<(), &'static str>)
        ensures
            match r {
                Ok(_) => self.broken_rule() is None,
                Err(e) => self.broken_rule() == Some(e@),
            },
    {
        if self.max_pages == 0 {
            return Err("max_pages must be > 0");
        }
        proof {
            text::lemma_encoded_len(self.path_prefix@);
        }
        if text::byte_len(&self.path_prefix) == 0 {
            return Err("path_prefix must not be empty");
        }
        Ok(())
    }

    pub fn with_max_pages(self, n: usize) -> (r: Self)
        ensures
            r == (SwapConfig { max_pages: n, ..self }),
    {
        SwapConfig { max_pages: n, ..self }
    }

    pub fn with_metrics(self) -> (r: Self)
        ensures
            r == (SwapConfig { collect_metrics: true, ..self }),
    {
        SwapConfig { collect_metrics: true, ..self }
    }
}

/// Errors of swap.
#[derive(Debug, Clone, PartialEq, Eq)]
pub enum SwapError {
    Full { max: usize },
    UnalignedAddress { addr: u64 },
    AlreadySwapped { addr: u64 },
    SlotNotFound { slot: SlotId },
    NotSwapped { addr: u64 },
    Io { path: String },
    Config(String),
}

pub type SwapResult<T> = Result<T, SwapError>;

/// An error without its representation.
pub enum Fault {
    Full { max: usize },
    UnalignedAddress { addr: u64 },
    AlreadySwapped { addr: u64 },
    SlotNotFound { slot: SlotId },
    NotSwapped { addr: u64 },
    Io { path: Seq<char> },
    Config(Seq<char>),
}

impl View for SwapError {
    type V = Fault;

    open spec fn view(&self) -> Fault {
        match *self {
            SwapError::Full { max } => Fault::Full { max },
            SwapError::UnalignedAddress { addr } => Fault::UnalignedAddress { addr },
            SwapError::AlreadySwapped { addr } => Fault::AlreadySwapped { addr },
            SwapError::SlotNotFound { slot } => Fault::SlotNotFound { slot },
            SwapError::NotSwapped { addr } => Fault::NotSwapped { addr },
            SwapError::Io { path } => Fault::Io { path: path@ },
            SwapError::Config(s) => Fault::Config(s@),
        }
    }
}

/// A file that holds a page.
#[derive(Debug, PartialEq, Eq)]
pub struct SwapSlot {
    pub slot_id: SlotId,
    pub path: String,
    pub size: usize,
}

/// A file that holds a page.
#[verifier::ext_equal]
pub struct Slot {
    pub id: SlotId,
    pub path: Seq<char>,
    pub size: int,
}

impl View for SwapSlot {
    type V = Slot;

    open spec fn view(&self) -> Slot {
        Slot { id: self.slot_id, path: self.path@, size: self.size as int }
    }
}

impl Clone for SwapSlot {
    fn clone(&self) -> (r: Self)
        ensures
            r@ == self@,
    {
        SwapSlot { slot_id: self.slot_id, path: self.path.clone(), size: self.size }
    }
}

/// A page that is swapped out.
#[derive(Debug)]
pub struct SwapEntry {
    pub addr: u64,
    pub slot: SwapSlot,
}

/// Which pages are swapped out, in the order of their addresses.
#[derive(Debug)]
pub struct SwapTable {
    pub entries: Vec<SwapEntry>,
    /// Numbers that were used and are free again; the last is used next.
    pub free_slots: Vec<SlotId>,
    pub next_slot: SlotId,
    pub total_slots: usize,
    pub used_slots: usize,
}

/// Which pages are swapped out.
#[verifier::ext_equal]
pub struct Swapped {
    pub entries: Seq<(u64, Slot)>,
    pub free: Seq<SlotId>,
    pub next: SlotId,
    pub total: int,
    pub used: int,
}

impl View for SwapTable {
    type V = Swapped;

    open spec fn view(&self) -> Swapped {
        Swapped {
            entries: entries_of(self.entries@),
            free: self.free_slots@,
            next: self.next_slot,
            total: self.total_slots as int,
            used: self.used_slots as int,
        }
    }
}

pub open spec fn entries_of(v: Seq<SwapEntry>) -> Seq<(u64, Slot)> {
    Seq::new(v.len(), |i: int| (v[i].addr, v[i].slot@))
}

/// The file of a slot.
pub open spec fn slot_path(prefix: Seq<char>, id: SlotId) -> Seq<char> {
    prefix + text::padded(text::decimal(id as nat), '0', 6)
}

pub open spec fn slot_with(prefix: Seq<char>, id: SlotId) -> Slot {
    Slot { id, path: slot_path(prefix, id), size: 4096 }
}

/// The place of an address, from place `i` on.
pub open spec fn place_from(entries: Seq<(u64, Slot)>, addr: u64, i: int) -> Option<int>
    decreases entries.len() - i,
{
    if i < 0 || i >= entries.len() {
        None
    } else if entries[i].0 == addr {
        Some(i)
    } else {
        place_from(entries, addr, i + 1)
    }
}

/// Behind how many of the first `n` entries an address belongs.
pub open spec fn rank(entries: Seq<(u64, Slot)>, addr: u64, n: int) -> int
    decreases n,
{
    if n <= 0 {
        0
    } else if entries[n - 1].0 < addr {
        n
    } else {
        rank(entries, addr, n - 1)
    }
}

/// The slots of the first `n` entries with addresses in `[start, end)`.
pub open spec fn slots_in(entries: Seq<(u64, Slot)>, start: u64, end: u64, n: int) -> Seq<Slot>
    decreases n,
{
    if n <= 0 {
        Seq::empty()
    } else if start <= entries[n - 1].0 < end {
        slots_in(entries, start, end, n - 1).push(entries[n - 1].1)
    } else {
        slots_in(entries, start, end, n - 1)
    }
}

/// The other ones of the first `n` entries.
pub open spec fn entries_outside(entries: Seq<(u64, Slot)>, start: u64, end: u64, n: int) -> Seq<
    (u64, Slot),
>
    decreases n,
{
    if n <= 0 {
        Seq::empty()
    } else if start <= entries[n - 1].0 < end {
        entries_outside(entries, start, end, n - 1)
    } else {
        entries_outside(entries, start, end, n - 1).push(entries[n - 1])
    }
}

impl Swapped {
    /// The file of a page.
    pub open spec fn get(self, addr: u64) -> Option<Slot> {
        match place_from(self.entries, addr, 0) {
            Some(i) => Some(self.entries[i].1),
            None => None,
        }
    }

    /// A slot can be had.
    pub open spec fn has_room(self) -> bool {
        self.used < self.total && (self.free.len() > 0 || self.next < u32::MAX)
    }

    /// The number of the next slot.
    pub open spec fn next_id(self) -> SlotId {
        if self.free.len() > 0 {
            self.free.last()
        } else {
            self.next
        }
    }

    /// With that slot taken.
    pub open spec fn taken(self) -> Swapped {
        if !self.has_room() {
            self
        } else if self.free.len() > 0 {
            Swapped { free: self.free.drop_last(), used: self.used + 1, ..self }
        } else {
            Swapped { next: (self.next + 1) as u32, used: self.used + 1, ..self }
        }
    }

    /// With a slot given back.
    pub open spec fn freed(self, id: SlotId) -> Swapped {
        Swapped {
            free: self.free.push(id),
            used: if self.used > 0 {
                self.used - 1
            } else {
                0
            },
            ..self
        }
    }

    /// With the first `n` slots of a list given back.
    pub open spec fn all_freed(self, slots: Seq<Slot>, n: int) -> Swapped
        decreases n,
    {
        if n <= 0 {
            self
        } else {
            self.all_freed(slots, n - 1).freed(slots[n - 1].id)
        }
    }

    /// With a page swapped out.
    pub open spec fn with(self, addr: u64, slot: Slot) -> Swapped {
        Swapped {
            entries: self.entries.insert(
                rank(self.entries, addr, self.entries.len() as int),
                (addr, slot),
            ),
            ..self
        }
    }

    pub open spec fn without(self, addr: u64) -> Swapped {
        match place_from(self.entries, addr, 0) {
            Some(i) => Swapped { entries: self.entries.remove(i), ..self },
            None => self,
        }
    }

    pub open spec fn evicted(self, start: u64, end: u64) -> Swapped {
        Swapped {
            entries: entries_outside(self.entries, start, end, self.entries.len() as int),
            ..self
        }
    }

    pub open spec fn victims(self, start: u64, end: u64) -> Seq<Slot> {
        slots_in(self.entries, start, end, self.entries.len() as int)
    }

    /// Addresses grow, and no more slots are in use than there are.
    pub open spec fn wf(self) -> bool {
        &&& forall|i: int, j: int|
            0 <= i < j < self.entries.len() ==> (#[trigger] self.entries[i]).0 < (
            #[trigger] self.entries[j]).0
        &&& 0 <= self.used <= self.total
    }
}

pub proof fn lemma_place(entries: Seq<(u64, Slot)>, addr: u64, i: int)
    requires
        0 <= i,
    ensures
        match place_from(entries, addr, i) {
            Some(k) => i <= k < entries.len() && entries[k].0 == addr,
            None => forall|k: int| i <= k < entries.len() ==> (#[trigger] entries[k]).0 != addr,
        },
    decreases entries.len() - i,
{
    if i < entries.len() && entries[i].0 != addr {
        lemma_place(entries, addr, i + 1);
    }
}

proof fn lemma_unique(s: Swapped, addr: u64, k: int)
    requires
        s.wf(),
        0 <= k < s.entries.len(),
        s.entries[k].0 == addr,
    ensures
        place_from(s.entries, addr, 0) == Some(k),
{
    lemma_place(s.entries, addr, 0);
    let i = place_from(s.entries, addr, 0)->0;
    if i < k {
        assert(s.entries[i].0 < s.entries[k].0);
    } else if k < i {
        assert(s.entries[k].0 < s.entries[i].0);
    }
}

proof fn lemma_rank(s: Swapped, addr: u64, n: int)
    requires
        s.wf(),
        0 <= n <= s.entries.len(),
    ensures
        0 <= rank(s.entries, addr, n) <= n,
        forall|k: int| 0 <= k < rank(s.entries, addr, n) ==> (#[trigger] s.entries[k]).0 < addr,
        forall|k: int| rank(s.entries, addr, n) <= k < n ==> (#[trigger] s.entries[k]).0 >= addr,
    decreases n,
{
    if n > 0 {
        if s.entries[n - 1].0 < addr {
            assert forall|k: int| 0 <= k < n implies (#[trigger] s.entries[k]).0 < addr by {
                if k < n - 1 {
                    assert(s.entries[k].0 < s.entries[n - 1].0);
                }
            }
        } else {
            lemma_rank(s, addr, n - 1);
        }
    }
}

/// A page that was swapped out is found with its file, and every other page is where
/// it was.
pub proof fn law_swapped_out_is_found(s: Swapped, addr: u64, slot: Slot)
    requires
        s.wf(),
        s.get(addr) is None,
    ensures
        s.with(addr, slot).wf(),
        s.with(addr, slot).get(addr) == Some(slot),
        forall|a: u64| a != addr ==> #[trigger] s.with(addr, slot).get(a) == s.get(a),
        s.with(addr, slot).without(addr) == s,
{
    let n = s.entries.len() as int;
    let p = rank(s.entries, addr, n);
    let t = s.with(addr, slot);
    lemma_rank(s, addr, n);
    lemma_place(s.entries, addr, 0);
    assert forall|i: int, j: int| 0 <= i < j < t.entries.len() implies (#[trigger] t.entries[i]).0
        < (#[trigger] t.entries[j]).0 by {
        if j < p {
            assert(s.entries[i].0 < s.entries[j].0);
        } else if i < p && j == p {
            assert(s.entries[i].0 < addr);
        } else if i < p {
            assert(s.entries[i].0 < s.entries[j - 1].0);
        } else if i == p {
            assert(s.entries[j - 1].0 >= addr);
            assert(s.entries[j - 1].0 != addr);
        } else {
            assert(s.entries[i - 1].0 < s.entries[j - 1].0);
        }
    }
    assert(t.entries[p] == (addr, slot));
    lemma_unique(t, addr, p);
    assert(t.without(addr).entries =~= s.entries);
    assert forall|a: u64| a != addr implies #[trigger] t.get(a) == s.get(a) by {
        lemma_place(s.entries, a, 0);
        lemma_place(t.entries, a, 0);
        match place_from(s.entries, a, 0) {
            Some(i) => {
                let k = if i < p {
                    i
                } else {
                    i + 1
                };
                assert(t.entries[k] == s.entries[i]);
                lemma_unique(t, a, k);
            },
            None => {
                if let Some(k) = place_from(t.entries, a, 0) {
                    let i = if k < p {
                        k
                    } else {
                        k - 1
                    };
                    assert(t.entries[k] == s.entries[i]);
                }
            },
        }
    }
}

/// A page that was taken out is not found any more, and every other page is where it
/// was.
pub proof fn law_taken_out_is_gone(s: Swapped, addr: u64)
    requires
        s.wf(),
    ensures
        s.without(addr).wf(),
        s.without(addr).get(addr) is None,
        forall|a: u64| a != addr ==> #[trigger] s.without(addr).get(a) == s.get(a),
        s.get(addr) matches Some(slot) ==> s.without(addr).with(addr, slot) == s,
{
    lemma_place(s.entries, addr, 0);
    if let Some(p) = place_from(s.entries, addr, 0) {
        let t = s.without(addr);
        assert forall|i: int| 0 <= i < t.entries.len() implies #[trigger] t.entries[i]
            == s.entries[if i < p {
            i
        } else {
            i + 1
        }] by {}
        assert forall|i: int, j: int| 0 <= i < j < t.entries.len() implies (
        #[trigger] t.entries[i]).0 < (#[trigger] t.entries[j]).0 by {
            let a = if i < p {
                i
            } else {
                i + 1
            };
            let b = if j < p {
                j
            } else {
                j + 1
            };
            assert(s.entries[a].0 < s.entries[b].0);
        }
        lemma_place(t.entries, addr, 0);
        if let Some(k) = place_from(t.entries, addr, 0) {
            let a = if k < p {
                k
            } else {
                k + 1
            };
            lemma_unique(s, addr, a);
        }
        assert forall|a: u64| a != addr implies #[trigger] t.get(a) == s.get(a) by {
            lemma_place(s.entries, a, 0);
            lemma_place(t.entries, a, 0);
            match place_from(s.entries, a, 0) {
                Some(i) => {
                    let k = if i < p {
                        i
                    } else {
                        i - 1
                    };
                    assert(t.entries[k] == s.entries[i]);
                    lemma_unique(t, a, k);
                },
                None => {
                    if let Some(k) = place_from(t.entries, a, 0) {
                        let i = if k < p {
                            k
                        } else {
                            k + 1
                        };
                        assert(t.entries[k] == s.entries[i]);
                    }
                },
            }
        }
        let q = rank(t.entries, addr, t.entries.len() as int);
        lemma_rank(t, addr, t.entries.len() as int);
        if q < p {
            assert(t.entries[q] == s.entries[q]);
            assert(s.entries[q].0 < s.entries[p].0);
        } else if p < q {
            assert(t.entries[p] == s.entries[p + 1]);
            assert(s.entries[p].0 < s.entries[p + 1].0);
        }
        assert(t.with(addr, s.entries[p].1).entries =~= s.entries);
    }
}

impl SwapTable {
    /// No page is swapped out.
    pub fn new(max_pages: usize) -> (r: Self)
        ensures
            r@ == (Swapped {
                entries: Seq::empty(),
                free: Seq::empty(),
                next: 0,
                total: max_pages as int,
                used: 0,
            }),
            r@.wf(),
    {
        let t = SwapTable {
            entries: Vec::new(),
            free_slots: Vec::new(),
            next_slot: 0,
            total_slots: max_pages,
            used_slots: 0,
        };
        assert(entries_of(t.entries@) =~= Seq::empty());
        t
    }

    /// A slot that is not in use.
    pub fn alloc_slot(&mut self, path_prefix: &str) -> (r: Option<SwapSlot>)
        requires
            old(self)@.wf(),
        ensures
            final(self)@.wf(),
            final(self)@ == old(self)@.taken(),
            match r {
                Some(slot) => old(self)@.has_room() && slot@ == slot_with(
                    path_prefix@,
                    old(self)@.next_id(),
                ),
                None => !old(self)@.has_room(),
            },
    {
        if self.used_slots >= self.total_slots {
            return None;
        }
        let id: SlotId = match self.free_slots.pop() {
            Some(id) => id,
            None => {
                let id: SlotId = self.next_slot;
                if id == u32::MAX {
                    assert(self.free_slots@ =~= old(self).free_slots@);
                    return None;
                }
                self.next_slot = id + 1;
                id
            },
        };
        self.used_slots += 1;
        let mut path = path_prefix.to_owned();
        text::push_zero_padded(&mut path, id as u64, 6);
        assert(self@ =~= old(self)@.taken());
        Some(SwapSlot { slot_id: id, path, size: SWAP_PAGE_SIZE })
    }

    /// Gives a slot back. Its file is to be deleted.
    pub fn free_slot(&mut self, slot: &SwapSlot)
        requires
            old(self)@.wf(),
        ensures
            final(self)@.wf(),
            final(self)@ == old(self)@.freed(slot.slot_id),
    {
        if self.used_slots > 0 {
            self.used_slots -= 1;
        }
        self.free_slots.push(slot.slot_id);
        assert(self@ =~= old(self)@.freed(slot.slot_id));
    }

    /// All slots, and those in use.
    pub fn stats(&self) -> (r: (usize, usize))
        ensures
            r == (self.total_slots, self.used_slots),
    {
        (self.total_slots, self.used_slots)
    }

    /// Forgets the pages in `[start, end)`, whose slots come out.
    pub fn evict_range(&mut self, start: u64, end: u64) -> (r: Vec<SwapSlot>)
        requires
            old(self)@.wf(),
        ensures
            final(self)@.wf(),
            final(self)@ == old(self)@.evicted(start, end),
            slots_of(r@) == old(self)@.victims(start, end),
    {
        let ghost all = self@.entries;
        let mut gone: Vec<SwapSlot> = Vec::new();
        let mut kept: Vec<SwapEntry> = Vec::new();
        let mut i: usize = 0;
        assert(slots_of(gone@) =~= Seq::empty());
        assert(entries_of(kept@) =~= Seq::empty());
        while i < self.entries.len()
            invariant
                i <= self.entries@.len(),
                *self == *old(self),
                all == self@.entries,
                slots_of(gone@) == slots_in(all, start, end, i as int),
                entries_of(kept@) == entries_outside(all, start, end, i as int),
            decreases self.entries@.len() - i,
        {
            let addr: u64 = self.entries[i].addr;
            let slot = self.entries[i].slot.clone();
            let ghost view = slot@;
            assert(all[i as int] == (addr, view));
            if addr >= start && addr < end {
                let ghost before = gone@;
                gone.push(slot);
                assert(slots_of(gone@) =~= slots_of(before).push(view));
            } else {
                let ghost before = kept@;
                kept.push(SwapEntry { addr, slot });
                assert(entries_of(kept@) =~= entries_of(before).push((addr, view)));
            }
            i += 1;
        }
        proof {
            lemma_outside_wf(self@, start, end, all.len() as int);
        }
        self.entries = kept;
        assert(self@ =~= old(self)@.evicted(start, end));
        gone
    }

    fn find(&self, addr: u64) -> (r: Option<usize>)
        ensures
            match r {
                Some(i) => place_from(self@.entries, addr, 0) == Some(i as int) && i
                    < self.entries@.len(),
                None => place_from(self@.entries, addr, 0) is None,
            },
    {
        let mut i: usize = 0;
        while i < self.entries.len()
            invariant
                i <= self.entries@.len(),
                place_from(self@.entries, addr, 0) == place_from(self@.entries, addr, i as int),
            decreases self.entries@.len() - i,
        {
            if self.entries[i].addr == addr {
                return Some(i);
            }
            i += 1;
        }
        None
    }

    fn insert(&mut self, addr: u64, slot: SwapSlot)
        requires
            old(self)@.wf(),
            old(self)@.get(addr) is None,
        ensures
            final(self)@.wf(),
            final(self)@ == old(self)@.with(addr, slot@),
    {
        let mut i: usize = self.entries.len();
        while i > 0 && self.entries[i - 1].addr >= addr
            invariant
                i <= self.entries@.len(),
                *self == *old(self),
                rank(self@.entries, addr, self@.entries.len() as int) == rank(
                    self@.entries,
                    addr,
                    i as int,
                ),
            decreases i,
        {
            i -= 1;
        }
        proof {
            lemma_rank(self@, addr, i as int);
            law_swapped_out_is_found(self@, addr, slot@);
        }
        self.entries.insert(i, SwapEntry { addr, slot });
        assert(self@ =~= old(self)@.with(addr, slot@));
    }
}

pub open spec fn slots_of(v: Seq<SwapSlot>) -> Seq<Slot> {
    Seq::new(v.len(), |i: int| v[i]@)
}

/// What is left is some of what there was, in the same order.
proof fn lemma_outside_wf(s: Swapped, start: u64, end: u64, n: int)
    requires
        s.wf(),
        0 <= n <= s.entries.len(),
    ensures
        ({
            let kept = entries_outside(s.entries, start, end, n);
            &&& forall|i: int, j: int|
                0 <= i < j < kept.len() ==> (#[trigger] kept[i]).0 < (#[trigger] kept[j]).0
            &&& forall|i: int|
                0 <= i < kept.len() ==> exists|k: int|
                    0 <= k < n && (#[trigger] s.entries[k]) == #[trigger] kept[i]
        }),
    decreases n,
{
    if n > 0 {
        lemma_outside_wf(s, start, end, n - 1);
        let before = entries_outside(s.entries, start, end, n - 1);
        let kept = entries_outside(s.entries, start, end, n);
        assert forall|i: int, j: int| 0 <= i < j < kept.len() implies (#[trigger] kept[i]).0 < (
        #[trigger] kept[j]).0 by {
            if j == before.len() {
                assert(before[i] == kept[i]);
                let k = choose|k: int| 0 <= k < n - 1 && s.entries[k] == before[i];
                assert(s.entries[k].0 < s.entries[n - 1].0);
            } else {
                assert(before[i] == kept[i] && before[j] == kept[j]);
            }
        }
        assert forall|i: int| 0 <= i < kept.len() implies exists|k: int|
            0 <= k < n && (#[trigger] s.entries[k]) == #[trigger] kept[i] by {
            if i < before.len() {
                assert(before[i] == kept[i]);
                let k = choose|k: int| 0 <= k < n - 1 && s.entries[k] == before[i];
                assert(s.entries[k] == kept[i]);
            } else {
                assert(s.entries[n - 1] == kept[i]);
            }
        }
    }
}

/// Numbers of swap.
#[derive(Debug, Clone, Copy, PartialEq, Eq)]
pub struct SwapStats {
    pub total_pages: usize,
    pub used_pages: usize,
    pub free_pages: usize,
    pub swaps_out: u64,
    pub swaps_in: u64,
    pub evictions: u64,
}

impl Default for SwapStats {
    fn default() -> (r: Self)
        ensures
            r == (SwapStats {
                total_pages: 0,
                used_pages: 0,
                free_pages: 0,
                swaps_out: 0,
                swaps_in: 0,
                evictions: 0,
            }),
    {
        SwapStats {
            total_pages: 0,
            used_pages: 0,
            free_pages: 0,
            swaps_out: 0,
            swaps_in: 0,
            evictions: 0,
        }
    }
}

impl SwapStats {
    /// The numbers as lines of text.
    pub fn describe(&self) -> (r: String)
        ensures
            r@ == "Swap Statistics:\n  Total pages: "@ + text::decimal(self.total_pages as nat)
                + "\n  Used pages: "@ + text::decimal(self.used_pages as nat)
                + "\n  Free pages: "@ + text::decimal(self.free_pages as nat)
                + "\n  Swaps out: "@ + text::decimal(self.swaps_out as nat)
                + "\n  Swaps in: "@ + text::decimal(self.swaps_in as nat) + "\n  Evictions: "@
                + text::decimal(self.evictions as nat) + "\n"@,
    {
        let mut out = "Swap Statistics:\n  Total pages: ".to_owned();
        text::push_decimal(&mut out, self.total_pages as u64);
        out.append("\n  Used pages: ");
        text::push_decimal(&mut out, self.used_pages as u64);
        out.append("\n  Free pages: ");
        text::push_decimal(&mut out, self.free_pages as u64);
        out.append("\n  Swaps out: ");
        text::push_decimal(&mut out, self.swaps_out);
        out.append("\n  Swaps in: ");
        text::push_decimal(&mut out, self.swaps_in);
        out.append("\n  Evictions: ");
        text::push_decimal(&mut out, self.evictions);
        out.append("\n");
        out
    }
}

/// What swap has done.
#[derive(Debug, Clone, Copy, PartialEq, Eq)]
pub struct SwapMetrics {
    pub swaps_out: u64,
    pub swaps_in: u64,
    pub evictions: u64,
    pub swap_full_events: u64,
    pub io_errors: u64,
}

impl Default for SwapMetrics {
    fn default() -> (r: Self)
        ensures
            r == (SwapMetrics {
                swaps_out: 0,
                swaps_in: 0,
                evictions: 0,
                swap_full_events: 0,
                io_errors: 0,
            }),
    {
        SwapMetrics {
            swaps_out: 0,
            swaps_in: 0,
            evictions: 0,
            swap_full_events: 0,
            io_errors: 0,
        }
    }
}

impl SwapMetrics {
    pub fn inc_swap_out(&mut self)
        ensures
            *final(self) == (SwapMetrics {
                swaps_out: old(self).swaps_out.wrapping_add(1),
                ..*old(self)
            }),
    {
        self.swaps_out = self.swaps_out.wrapping_add(1);
    }

    pub fn inc_swap_in(&mut self)
        ensures
            *final(self) == (SwapMetrics {
                swaps_in: old(self).swaps_in.wrapping_add(1),
                ..*old(self)
            }),
    {
        self.swaps_in = self.swaps_in.wrapping_add(1);
    }

    pub fn inc_eviction(&mut self)
        ensures
            *final(self) == (SwapMetrics {
                evictions: old(self).evictions.wrapping_add(1),
                ..*old(self)
            }),
    {
        self.evictions = self.evictions.wrapping_add(1);
    }

    pub fn inc_swap_full(&mut self)
        ensures
            *final(self) == (SwapMetrics {
                swap_full_events: old(self).swap_full_events.wrapping_add(1),
                ..*old(self)
            }),
    {
        self.swap_full_events = self.swap_full_events.wrapping_add(1);
    }

    pub fn inc_io_error(&mut self)
        ensures
            *final(self) == (SwapMetrics {
                io_errors: old(self).io_errors.wrapping_add(1),
                ..*old(self)
            }),
    {
        self.io_errors = self.io_errors.wrapping_add(1);
    }

    /// A copy of the counters.
    pub fn snapshot(&self) -> (r: SwapMetricsSnapshot)
        ensures
            r == (SwapMetricsSnapshot {
                swaps_out: self.swaps_out,
                swaps_in: self.swaps_in,
                evictions: self.evictions,
                swap_full_events: self.swap_full_events,
                io_errors: self.io_errors,
            }),
    {
        SwapMetricsSnapshot {
            swaps_out: self.swaps_out,
            swaps_in: self.swaps_in,
            evictions: self.evictions,
            swap_full_events: self.swap_full_events,
            io_errors: self.io_errors,
        }
    }
}

/// A copy of [`SwapMetrics`] at one moment.
#[derive(Debug, Clone, Copy, PartialEq, Eq)]
pub struct SwapMetricsSnapshot {
    pub swaps_out: u64,
    pub swaps_in: u64,
    pub evictions: u64,
    pub swap_full_events: u64,
    pub io_errors: u64,
}

// ---------------------------------------------------------------------------
// Swapping
// ---------------------------------------------------------------------------

/// Swap.
#[derive(Debug)]
pub struct SwapHandler {
    pub table: SwapTable,
    pub config: SwapConfig,
    pub metrics: SwapMetrics,
}

/// The state of swap.
#[verifier::ext_equal]
pub struct SwapState {
    pub table: Swapped,
    pub prefix: Seq<char>,
    pub max_pages: usize,
    pub metrics: SwapMetrics,
}

impl View for SwapHandler {
    type V = SwapState;

    open spec fn view(&self) -> SwapState {
        SwapState {
            table: self.table@,
            prefix: self.config.path_prefix@,
            max_pages: self.config.max_pages,
            metrics: self.metrics,
        }
    }
}

/// What swapping a page out starts with.
pub enum OutStart {
    Fails(Fault),
    /// The page is to be written there.
    Write(Slot),
}

impl SwapState {
    pub open spec fn wf(self) -> bool {
        self.table.wf()
    }

    /// What swapping a page out starts with.
    pub open spec fn out_start(self, addr: u64) -> OutStart {
        if addr % 4096 != 0 {
            OutStart::Fails(Fault::UnalignedAddress { addr })
        } else if self.table.get(addr) is Some {
            OutStart::Fails(Fault::AlreadySwapped { addr })
        } else if !self.table.has_room() {
            OutStart::Fails(Fault::Full { max: self.max_pages })
        } else {
            OutStart::Write(slot_with(self.prefix, self.table.next_id()))
        }
    }

    /// The state after that.
    pub open spec fn after_out_start(self, addr: u64) -> SwapState {
        match self.out_start(addr) {
            OutStart::Write(_) => SwapState { table: self.table.taken(), ..self },
            OutStart::Fails(Fault::Full { .. }) => SwapState {
                metrics: SwapMetrics {
                    swap_full_events: self.metrics.swap_full_events.wrapping_add(1),
                    ..self.metrics
                },
                ..self
            },
            OutStart::Fails(_) => self,
        }
    }

    /// The state after the page was written, or not.
    pub open spec fn after_write(self, addr: u64, slot: Slot, written: bool) -> SwapState {
        if written {
            SwapState {
                table: self.table.with(addr, slot),
                metrics: SwapMetrics {
                    swaps_out: self.metrics.swaps_out.wrapping_add(1),
                    ..self.metrics
                },
                ..self
            }
        } else {
            SwapState {
                table: self.table.freed(slot.id),
                metrics: SwapMetrics {
                    io_errors: self.metrics.io_errors.wrapping_add(1),
                    ..self.metrics
                },
                ..self
            }
        }
    }

    /// What swapping a page in starts with: the file to be read.
    pub open spec fn in_start(self, addr: u64) -> Result<Slot, Fault> {
        if addr % 4096 != 0 {
            Err(Fault::UnalignedAddress { addr })
        } else {
            match self.table.get(addr) {
                Some(slot) => Ok(slot),
                None => Err(Fault::NotSwapped { addr }),
            }
        }
    }

    /// The state after that.
    pub open spec fn after_in_start(self, addr: u64) -> SwapState {
        if self.in_start(addr) is Ok {
            SwapState { table: self.table.without(addr), ..self }
        } else {
            self
        }
    }

    /// The state after the page was read, or not.
    pub open spec fn after_read(self, addr: u64, slot: Slot, read: bool) -> SwapState {
        if read {
            SwapState {
                table: self.table.freed(slot.id),
                metrics: SwapMetrics {
                    swaps_in: self.metrics.swaps_in.wrapping_add(1),
                    ..self.metrics
                },
                ..self
            }
        } else {
            SwapState {
                table: self.table.with(addr, slot),
                metrics: SwapMetrics {
                    io_errors: self.metrics.io_errors.wrapping_add(1),
                    ..self.metrics
                },
                ..self
            }
        }
    }

    /// The state after the pages in `[start, end)` were forgotten.
    pub open spec fn after_evict(self, start: u64, end: u64) -> SwapState {
        let gone = self.table.victims(start, end);
        SwapState {
            table: self.table.evicted(start, end).all_freed(gone, gone.len() as int),
            metrics: SwapMetrics {
                evictions: evictions_after(self.metrics.evictions, gone.len() as int),
                ..self.metrics
            },
            ..self
        }
    }
}

/// A counter that went up `n` times.
pub open spec fn evictions_after(count: u64, n: int) -> u64
    decreases n,
{
    if n <= 0 {
        count
    } else {
        evictions_after(count, n - 1).wrapping_add(1)
    }
}

/// A page into which the start of some data was copied.
pub open spec fn filled(page: Seq<u8>, data: Seq<u8>) -> Seq<u8> {
    Seq::new(
        page.len(),
        |i: int|
            if i < data.len() && i < 4096 {
                data[i]
            } else {
                page[i]
            },
    )
}

impl SwapHandler {
    /// No page is swapped out, and nothing was counted yet.
    pub open spec fn is_fresh(self) -> bool {
        &&& self@.wf()
        &&& self@.table == (Swapped {
            entries: Seq::empty(),
            free: Seq::empty(),
            next: 0,
            total: self.config.max_pages as int,
            used: 0,
        })
        &&& self.metrics == (SwapMetrics {
            swaps_out: 0,
            swaps_in: 0,
            evictions: 0,
            swap_full_events: 0,
            io_errors: 0,
        })
    }

    /// As `is_fresh`, with the default settings.
    pub open spec fn is_default(self) -> bool {
        &&& self.is_fresh()
        &&& self.config.max_pages == DEFAULT_MAX_SWAP_PAGES
        &&& self.config.path_prefix@ == DEFAULT_SWAP_PATH_PREFIX@
        &&& !self.config.log_operations
        &&& self.config.collect_metrics
    }

    /// Swap with no page swapped out; the configuration must be valid.
    pub fn new(config: SwapConfig) -> (r: Self)
        requires
            config.broken_rule() is None,
        ensures
            r.config == config,
            r.is_fresh(),
    {
        let table = SwapTable::new(config.max_pages);
        SwapHandler { table, config, metrics: SwapMetrics::default() }
    }

    pub fn metrics(&self) -> (r: &SwapMetrics)
        ensures
            *r == self.metrics,
    {
        &self.metrics
    }

    pub fn config(&self) -> (r: &SwapConfig)
        ensures
            *r == self.config,
    {
        &self.config
    }

    /// Starts to swap a page out: the result is the file to write it to.
    pub fn swap_out(&mut self, vaddr: u64) -> (r: SwapResult<SwapSlot>)
        requires
            old(self)@.wf(),
        ensures
            final(self)@.wf(),
            match old(self)@.out_start(vaddr) {
                OutStart::Write(slot) => r matches Ok(s) && s@ == slot,
                OutStart::Fails(f) => r matches Err(e) && e@ == f,
            },
            final(self)@ == old(self)@.after_out_start(vaddr),
            final(self).config == old(self).config,
    {
        if vaddr % 4096 != 0 {
            return Err(SwapError::UnalignedAddress { addr: vaddr });
        }
        if self.table.find(vaddr).is_some() {
            return Err(SwapError::AlreadySwapped { addr: vaddr });
        }
        match self.table.alloc_slot(&self.config.path_prefix) {
            Some(slot) => Ok(slot),
            None => {
                self.metrics.inc_swap_full();
                Err(SwapError::Full { max: self.config.max_pages })
            },
        }
    }

    /// Ends to swap a page out: the page was written to the file, or not. If it was
    /// not, the file is to be deleted.
    pub fn swap_written(&mut self, vaddr: u64, slot: SwapSlot, written: bool) -> (r: SwapResult<()>)
        requires
            old(self)@.wf(),
            old(self)@.table.get(vaddr) is None,
        ensures
            final(self)@.wf(),
            if written {
                r is Ok
            } else {
                r matches Err(e) && e@ == (Fault::Io { path: slot.path@ })
            },
            final(self)@ == old(self)@.after_write(vaddr, slot@, written),
            final(self).config == old(self).config,
    {
        if !written {
            self.metrics.inc_io_error();
            self.table.free_slot(&slot);
            return Err(SwapError::Io { path: slot.path });
        }
        self.table.insert(vaddr, slot);
        self.metrics.inc_swap_out();
        Ok(())
    }

    /// Starts to swap a page in: the result is the file to read.
    pub fn swap_in(&mut self, vaddr: u64) -> (r: SwapResult<SwapSlot>)
        requires
            old(self)@.wf(),
        ensures
            final(self)@.wf(),
            match old(self)@.in_start(vaddr) {
                Ok(slot) => r matches Ok(s) && s@ == slot,
                Err(f) => r matches Err(e) && e@ == f,
            },
            final(self)@ == old(self)@.after_in_start(vaddr),
            final(self).config == old(self).config,
    {
        if vaddr % 4096 != 0 {
            return Err(SwapError::UnalignedAddress { addr: vaddr });
        }
        proof {
            law_taken_out_is_gone(self.table@, vaddr);
        }
        match self.table.find(vaddr) {
            Some(i) => {
                let e = self.table.entries.remove(i);
                assert(self@ =~= old(self)@.after_in_start(vaddr));
                Ok(e.slot)
            },
            None => Err(SwapError::NotSwapped { addr: vaddr }),
        }
    }

    /// Ends to swap a page in: here is what was in the file, if it could be read. Then
    /// the page is filled and the file is to be deleted; else the page stays swapped
    /// out.
    pub fn swap_read(
        &mut self,
        vaddr: u64,
        slot: SwapSlot,
        data: Option<&[u8]>,
        out: &mut [u8],
    ) -> (r: SwapResult<()>)
        requires
            old(self)@.wf(),
            old(self)@.table.get(vaddr) is None,
            old(out)@.len() == 4096,
        ensures
            final(self)@.wf(),
            final(self)@ == old(self)@.after_read(vaddr, slot@, data is Some),
            final(self).config == old(self).config,
            match data {
                Some(d) => r is Ok && final(out)@ == filled(old(out)@, d@),
                None => {
                    &&& r matches Err(e)
                    &&& e@ == (Fault::Io { path: slot.path@ })
                    &&& final(out)@ == old(out)@
                },
            },
    {
        match data {
            Some(d) => {
                let n: usize = if d.len() < SWAP_PAGE_SIZE {
                    d.len()
                } else {
                    SWAP_PAGE_SIZE
                };
                let mut i: usize = 0;
                while i < n
                    invariant
                        i <= n,
                        n <= d@.len(),
                        n <= 4096,
                        out@.len() == 4096,
                        old(out)@.len() == 4096,
                        forall|j: int| 0 <= j < i ==> #[trigger] out@[j] == d@[j],
                        forall|j: int| i <= j < 4096 ==> #[trigger] out@[j] == old(out)@[j],
                    decreases n - i,
                {
                    out[i] = d[i];
                    i += 1;
                }
                assert(out@ =~= filled(old(out)@, d@));
                self.table.free_slot(&slot);
                self.metrics.inc_swap_in();
                Ok(())
            },
            None => {
                self.metrics.inc_io_error();
                let path = slot.path.clone();
                self.table.insert(vaddr, slot);
                Err(SwapError::Io { path })
            },
        }
    }

    /// Is the page with that address swapped out?
    pub fn is_swapped(&self, vaddr: u64) -> (r: bool)
        ensures
            r == (self@.table.get((vaddr - vaddr % 4096) as u64) is Some),
    {
        self.table.find(vaddr - vaddr % 4096).is_some()
    }

    pub fn stats(&self) -> (r: SwapStats)
        requires
            self@.wf(),
        ensures
            r == (SwapStats {
                total_pages: self.table.total_slots,
                used_pages: self.table.used_slots,
                free_pages: (self.table.total_slots - self.table.used_slots) as usize,
                swaps_out: self.metrics.swaps_out,
                swaps_in: self.metrics.swaps_in,
                evictions: self.metrics.evictions,
            }),
    {
        let (total, used) = self.table.stats();
        SwapStats {
            total_pages: total,
            used_pages: used,
            free_pages: total - used,
            swaps_out: self.metrics.swaps_out,
            swaps_in: self.metrics.swaps_in,
            evictions: self.metrics.evictions,
        }
    }

    /// Forgets the pages in `[start, end)`. The result is their slots, whose files are
    /// to be deleted.
    pub fn evict_range(&mut self, start: u64, end: u64) -> (r: Vec<SwapSlot>)
        requires
            old(self)@.wf(),
        ensures
            final(self)@.wf(),
            slots_of(r@) == old(self)@.table.victims(start, end),
            final(self)@ == old(self)@.after_evict(start, end),
            final(self).config == old(self).config,
    {
        let slots = self.table.evict_range(start, end);
        let ghost begun = self.table@;
        let ghost gone = slots_of(slots@);
        let mut i: usize = 0;
        while i < slots.len()
            invariant
                i <= slots@.len(),
                gone == slots_of(slots@),
                self@.wf(),
                self.table@ == begun.all_freed(gone, i as int),
                self.config == old(self).config,
                self.metrics == (SwapMetrics {
                    evictions: evictions_after(old(self).metrics.evictions, i as int),
                    ..old(self).metrics
                }),
            decreases slots@.len() - i,
        {
            self.table.free_slot(&slots[i]);
            self.metrics.inc_eviction();
            i += 1;
        }
        assert(self@ =~= old(self)@.after_evict(start, end));
        slots
    }

    /// Pages are not kept by task, so that none is forgotten with a task.
    pub fn cleanup_task(&mut self, tid: u64)
        ensures
            *final(self) == *old(self),
    {
    }

    /// No page is swapped out before it has to be.
    pub fn reclaim_pages(&mut self, target: usize) -> (r: usize)
        ensures
            r == 0,
            *final(self) == *old(self),
    {
        0
    }

    /// How many pages the stress test takes: at most all.
    pub fn stress_pages(&self, n_pages: usize) -> (r: usize)
        ensures
            r == (if n_pages < self.config.max_pages {
                n_pages
            } else {
                self.config.max_pages
            }),
    {
        if n_pages < self.config.max_pages {
            n_pages
        } else {
            self.config.max_pages
        }
    }
}

/// The address of page `i` of the stress test.
pub fn stress_address(i: usize) -> (r: u64)
    requires
        STRESS_BASE + i * 4096 <= u64::MAX,
    ensures
        r == STRESS_BASE + i * 4096,
{
    STRESS_BASE + i as u64 * 4096
}

/// Byte `j` of page `i` of the stress test.
pub open spec fn stress_byte(i: int, j: int) -> u8 {
    ((i + j) % 256) as u8
}

/// Page `i` of the stress test.
pub fn stress_page(i: usize) -> (r: Vec<u8>)
    requires
        i + 4096 <= usize::MAX,
    ensures
        r@ == Seq::new(4096, |j: int| stress_byte(i as int, j)),
{
    let mut page: Vec<u8> = Vec::new();
    let mut j: usize = 0;
    while j < SWAP_PAGE_SIZE
        invariant
            j <= 4096,
            i + 4096 <= usize::MAX,
            page@.len() == j,
            forall|k: int| 0 <= k < j ==> #[trigger] page@[k] == stress_byte(i as int, k),
        decreases 4096 - j,
    {
        page.push(((i + j) % 256) as u8);
        j += 1;
    }
    assert(page@ =~= Seq::new(4096, |j: int| stress_byte(i as int, j)));
    page
}

/// Has page `i` of the stress test come back as it was?
pub fn stress_matches(i: usize, restored: &[u8]) -> (r: bool)
    requires
        i + 4096 <= usize::MAX,
    ensures
        r == (restored@ == Seq::new(4096, |j: int| stress_byte(i as int, j))),
{
    if restored.len() != SWAP_PAGE_SIZE {
        assert(restored@.len() != 4096);
        return false;
    }
    let mut j: usize = 0;
    while j < SWAP_PAGE_SIZE
        invariant
            j <= 4096,
            restored@.len() == 4096,
            i + 4096 <= usize::MAX,
            forall|k: int| 0 <= k < j ==> #[trigger] restored@[k] == stress_byte(i as int, k),
        decreases 4096 - j,
    {
        if restored[j] != ((i + j) % 256) as u8 {
            assert(restored@[j as int] != Seq::new(4096, |j: int| stress_byte(i as int, j))[
                j as int
            ]);
            return false;
        }
        j += 1;
    }
    assert(restored@ =~= Seq::new(4096, |j: int| stress_byte(i as int, j)));
    true
}

/// Swap of the system.
#[derive(Debug)]
pub struct SwapManager {
    pub handler: SwapHandler,
}

impl SwapManager {
    pub fn new(config: SwapConfig) -> (r: Self)
        requires
            config.broken_rule() is None,
        ensures
            r.handler.config == config,
            r.handler.is_fresh(),
    {
        SwapManager { handler: SwapHandler::new(config) }
    }

    pub fn default() -> (r: Self)
        ensures
            r.handler.is_default(),
    {
        SwapManager::new(SwapConfig::default())
    }

    pub fn config(&self) -> (r: &SwapConfig)
        ensures
            *r == self.handler.config,
    {
        self.handler.config()
    }

    pub fn metrics(&self) -> (r: &SwapMetrics)
        ensures
            *r == self.handler.metrics,
    {
        self.handler.metrics()
    }

    /// How much can be swapped out, in MiB.
    pub fn init(&self) -> (r: usize)
        requires
            self.handler.config.max_pages * 4096 <= usize::MAX,
        ensures
            r == self.handler.config.max_pages * 4096 / 1048576,
    {
        self.config().max_pages * 4096 / 1048576
    }
}

/// Sets swap up with the default settings, whatever it held before.
pub fn init(global: &mut Option<SwapHandler>)
    ensures
        *final(global) matches Some(h) && h.is_default(),
{
    *global = Some(SwapHandler::new(SwapConfig::default()));
}

/// Is the page with that address swapped out?
pub fn is_swapped(h: &SwapHandler, vaddr: u64) -> (r: bool)
    ensures
        r == (h@.table.get((vaddr - vaddr % 4096) as u64) is Some),
{
    h.is_swapped(vaddr)
}

/// Forgets the pages in `[start, end)`. The result is their slots, whose files are to be
/// deleted.
pub fn evict_range(h: &mut SwapHandler, start: u64, end: u64) -> (r: Vec<SwapSlot>)
    requires
        old(h)@.wf(),
    ensures
        final(h)@.wf(),
        slots_of(r@) == old(h)@.table.victims(start, end),
        final(h)@ == old(h)@.after_evict(start, end),
        final(h).config == old(h).config,
{
    h.evict_range(start, end)
}

/// Pages are not kept by task, so that none is forgotten with a task.
pub fn cleanup_task(h: &mut SwapHandler, tid: u64)
    ensures
        *final(h) == *old(h),
{
    h.cleanup_task(tid);
}

/// No page is swapped out before it has to be.
pub fn reclaim_pages(h: &mut SwapHandler, target: usize) -> (r: usize)
    ensures
        r == 0,
        *final(h) == *old(h),
{
    h.reclaim_pages(target)
}

/// All slots, and those in use.
pub fn stats(h: &SwapHandler) -> (r: (usize, usize))
    requires
        h@.wf(),
    ensures
        r == (h.table.total_slots, h.table.used_slots),
{
    let s = h.stats();
    (s.total_pages, s.used_pages)
}

// ---------------------------------------------------------------------------
// Laws: no two pages share a file
// ---------------------------------------------------------------------------

/// How often a number is in a list.
pub open spec fn copies(s: Seq<SlotId>, id: SlotId) -> int
    decreases s.len(),
{
    if s.len() == 0 {
        0
    } else {
        copies(s.drop_last(), id) + (if s.last() == id {
            1int
        } else {
            0
        })
    }
}

/// The slots of the pages.
pub open spec fn ids(entries: Seq<(u64, Slot)>) -> Seq<SlotId> {
    Seq::new(entries.len(), |i: int| entries[i].1.id)
}

pub open spec fn slot_ids(slots: Seq<Slot>) -> Seq<SlotId> {
    Seq::new(slots.len(), |i: int| slots[i].id)
}

/// Where a number is: with a page, free, or with a page on its way (`moving`).
pub open spec fn tally(t: Swapped, moving: Seq<SlotId>, id: SlotId) -> int {
    copies(ids(t.entries), id) + copies(t.free, id) + copies(moving, id)
}

/// Every number is in one place at most, and in none before it was first used; and as
/// many slots are in use as there are pages swapped out or on their way.
pub open spec fn tidy(t: Swapped, moving: Seq<SlotId>) -> bool {
    &&& forall|id: SlotId| #[trigger]
        tally(t, moving, id) <= 1 && (id >= t.next ==> tally(t, moving, id) == 0)
    &&& t.used == t.entries.len() + moving.len()
}

proof fn lemma_copies_bounds(s: Seq<SlotId>, id: SlotId)
    ensures
        0 <= copies(s, id),
    decreases s.len(),
{
    if s.len() > 0 {
        lemma_copies_bounds(s.drop_last(), id);
    }
}

proof fn lemma_copies_push(s: Seq<SlotId>, x: SlotId, id: SlotId)
    ensures
        copies(s.push(x), id) == copies(s, id) + (if x == id {
            1int
        } else {
            0
        }),
{
    assert(s.push(x).drop_last() =~= s);
}

proof fn lemma_copies_remove(s: Seq<SlotId>, i: int, id: SlotId)
    requires
        0 <= i < s.len(),
    ensures
        copies(s.remove(i), id) == copies(s, id) - (if s[i] == id {
            1int
        } else {
            0
        }),
    decreases s.len(),
{
    if i == s.len() - 1 {
        assert(s.remove(i) =~= s.drop_last());
    } else {
        lemma_copies_remove(s.drop_last(), i, id);
        assert(s.remove(i).drop_last() =~= s.drop_last().remove(i));
        assert(s.remove(i).last() == s.last());
    }
}

/// What is at two places is there twice.
proof fn lemma_copies_two(s: Seq<SlotId>, i: int, j: int)
    requires
        0 <= i < j < s.len(),
        s[i] == s[j],
    ensures
        copies(s, s[i]) >= 2,
{
    lemma_copies_remove(s, j, s[i]);
    let t = s.remove(j);
    assert(t[i] == s[i]);
    lemma_copies_remove(t, i, s[i]);
    lemma_copies_bounds(t.remove(i), s[i]);
}

/// A slot that is taken was in no place; now it is on its way.
pub proof fn law_new_slot_is_fresh(t: Swapped, moving: Seq<SlotId>)
    requires
        tidy(t, moving),
        t.has_room(),
    ensures
        tidy(t.taken(), moving.push(t.next_id())),
        copies(ids(t.entries), t.next_id()) == 0,
{
    let u = t.taken();
    let id = t.next_id();
    lemma_copies_bounds(ids(t.entries), id);
    lemma_copies_bounds(t.free, id);
    lemma_copies_bounds(moving, id);
    assert(tally(t, moving, id) <= 1);
    if t.free.len() > 0 {
        let n = t.free.len() - 1;
        lemma_copies_remove(t.free, n, id);
        lemma_copies_bounds(t.free.remove(n), id);
    }
    assert forall|x: SlotId| #[trigger]
        tally(u, moving.push(id), x) <= 1 && (x >= u.next ==> tally(u, moving.push(id), x)
            == 0) by {
        assert(tally(t, moving, x) <= 1);
        lemma_copies_push(moving, id, x);
        lemma_copies_bounds(ids(t.entries), x);
        lemma_copies_bounds(t.free, x);
        lemma_copies_bounds(moving, x);
    }
}

/// A page that arrives keeps its slot.
pub proof fn law_arrived_page_keeps_slot(
    t: Swapped,
    moving: Seq<SlotId>,
    i: int,
    addr: u64,
    slot: Slot,
)
    requires
        t.wf(),
        tidy(t, moving),
        0 <= i < moving.len(),
        slot.id == moving[i],
    ensures
        tidy(t.with(addr, slot), moving.remove(i)),
{
    let u = t.with(addr, slot);
    let p = rank(t.entries, addr, t.entries.len() as int);
    lemma_rank(t, addr, t.entries.len() as int);
    assert(ids(u.entries).remove(p) =~= ids(t.entries));
    assert forall|x: SlotId| #[trigger]
        tally(u, moving.remove(i), x) <= 1 && (x >= u.next ==> tally(u, moving.remove(i), x)
            == 0) by {
        assert(tally(t, moving, x) <= 1);
        lemma_copies_remove(moving, i, x);
        lemma_copies_remove(ids(u.entries), p, x);
    }
}

/// A slot that is given back is free.
pub proof fn law_freed_slot_is_free(t: Swapped, moving: Seq<SlotId>, i: int)
    requires
        tidy(t, moving),
        0 <= i < moving.len(),
    ensures
        tidy(t.freed(moving[i]), moving.remove(i)),
{
    let u = t.freed(moving[i]);
    assert forall|x: SlotId| #[trigger]
        tally(u, moving.remove(i), x) <= 1 && (x >= u.next ==> tally(u, moving.remove(i), x)
            == 0) by {
        assert(tally(t, moving, x) <= 1);
        lemma_copies_remove(moving, i, x);
        lemma_copies_push(t.free, moving[i], x);
    }
}

/// A page that is taken out has its slot on its way.
pub proof fn law_taken_page_moves_slot(t: Swapped, moving: Seq<SlotId>, addr: u64)
    requires
        t.wf(),
        tidy(t, moving),
        t.get(addr) is Some,
    ensures
        tidy(t.without(addr), moving.push(t.get(addr)->0.id)),
{
    lemma_place(t.entries, addr, 0);
    let p = place_from(t.entries, addr, 0)->0;
    let id = t.entries[p].1.id;
    let u = t.without(addr);
    assert(ids(u.entries) =~= ids(t.entries).remove(p));
    assert forall|x: SlotId| #[trigger]
        tally(u, moving.push(id), x) <= 1 && (x >= u.next ==> tally(u, moving.push(id), x)
            == 0) by {
        assert(tally(t, moving, x) <= 1);
        lemma_copies_push(moving, id, x);
        lemma_copies_remove(ids(t.entries), p, x);
    }
}

proof fn lemma_evict_split(entries: Seq<(u64, Slot)>, start: u64, end: u64, n: int, id: SlotId)
    requires
        0 <= n <= entries.len(),
    ensures
        copies(ids(entries.take(n)), id) == copies(
            ids(entries_outside(entries, start, end, n)),
            id,
        ) + copies(slot_ids(slots_in(entries, start, end, n)), id),
        entries_outside(entries, start, end, n).len() + slots_in(entries, start, end, n).len()
            == n,
    decreases n,
{
    if n > 0 {
        lemma_evict_split(entries, start, end, n - 1, id);
        let e = entries[n - 1];
        let kept = entries_outside(entries, start, end, n - 1);
        let gone = slots_in(entries, start, end, n - 1);
        assert(ids(entries.take(n)) =~= ids(entries.take(n - 1)).push(e.1.id));
        lemma_copies_push(ids(entries.take(n - 1)), e.1.id, id);
        assert(ids(kept.push(e)) =~= ids(kept).push(e.1.id));
        lemma_copies_push(ids(kept), e.1.id, id);
        assert(slot_ids(gone.push(e.1)) =~= slot_ids(gone).push(e.1.id));
        lemma_copies_push(slot_ids(gone), e.1.id, id);
    } else {
        assert(ids(entries.take(0)) =~= Seq::empty());
        assert(ids(entries_outside(entries, start, end, 0)) =~= Seq::empty());
        assert(slot_ids(slots_in(entries, start, end, 0)) =~= Seq::empty());
    }
}

proof fn lemma_all_freed(t: Swapped, slots: Seq<Slot>, n: int, id: SlotId)
    requires
        0 <= n <= slots.len(),
    ensures
        t.all_freed(slots, n).entries == t.entries,
        t.all_freed(slots, n).next == t.next,
        t.used >= n ==> t.all_freed(slots, n).used == t.used - n,
        copies(t.all_freed(slots, n).free, id) == copies(t.free, id) + copies(
            slot_ids(slots.take(n)),
            id,
        ),
    decreases n,
{
    if n > 0 {
        lemma_all_freed(t, slots, n - 1, id);
        lemma_copies_push(t.all_freed(slots, n - 1).free, slots[n - 1].id, id);
        assert(slot_ids(slots.take(n)) =~= slot_ids(slots.take(n - 1)).push(slots[n - 1].id));
        lemma_copies_push(slot_ids(slots.take(n - 1)), slots[n - 1].id, id);
    } else {
        assert(slot_ids(slots.take(0)) =~= Seq::empty());
    }
}

/// Pages that are forgotten leave their slots free.
pub proof fn law_evicted_slots_are_free(t: Swapped, moving: Seq<SlotId>, start: u64, end: u64)
    requires
        tidy(t, moving),
    ensures
        ({
            let gone = t.victims(start, end);
            tidy(t.evicted(start, end).all_freed(gone, gone.len() as int), moving)
        }),
{
    let gone = t.victims(start, end);
    let n = gone.len() as int;
    let mid = t.evicted(start, end);
    let u = mid.all_freed(gone, n);
    lemma_evict_split(t.entries, start, end, t.entries.len() as int, 0);
    lemma_all_freed(mid, gone, n, 0);
    assert forall|x: SlotId| #[trigger]
        tally(u, moving, x) <= 1 && (x >= u.next ==> tally(u, moving, x) == 0) by {
        assert(tally(t, moving, x) <= 1);
        lemma_evict_split(t.entries, start, end, t.entries.len() as int, x);
        assert(t.entries.take(t.entries.len() as int) =~= t.entries);
        lemma_all_freed(mid, gone, n, x);
        assert(gone.take(n) =~= gone);
    }
}

/// No two pages that are swapped out share a file.
pub proof fn law_files_differ(t: Swapped, moving: Seq<SlotId>, prefix: Seq<char>, i: int, j: int)
    requires
        tidy(t, moving),
        0 <= i < j < t.entries.len(),
        t.entries[i].1 == slot_with(prefix, t.entries[i].1.id),
        t.entries[j].1 == slot_with(prefix, t.entries[j].1.id),
    ensures
        t.entries[i].1.path != t.entries[j].1.path,
{
    let (a, b) = (t.entries[i].1.id, t.entries[j].1.id);
    let all = ids(t.entries);
    assert(all[i] == a && all[j] == b);
    if a == b {
        lemma_copies_two(all, i, j);
        lemma_copies_bounds(t.free, a);
        lemma_copies_bounds(moving, a);
        assert(tally(t, moving, a) <= 1);
    }
    lemma_paths_differ(prefix, a, b);
}

/// A page that was swapped out and is swapped in again comes from the file that it was
/// written to, and what was written is what it holds then.
pub proof fn law_swapped_page_comes_back(
    s: SwapState,
    addr: u64,
    page: Seq<u8>,
    buffer: Seq<u8>,
)
    requires
        s.wf(),
        s.out_start(addr) is Write,
        page.len() == 4096,
        buffer.len() == 4096,
    ensures
        ({
            let slot = s.out_start(addr)->Write_0;
            let out = s.after_out_start(addr).after_write(addr, slot, true);
            let reading = out.after_in_start(addr);
            let end = reading.after_read(addr, slot, true);
            &&& out.table.get(addr) == Some(slot)
            &&& out.in_start(addr) == Ok::<Slot, Fault>(slot)
            &&& filled(buffer, page) == page
            &&& end.table.get(addr) is None
            &&& end.table.entries == s.table.entries
            &&& end.table.used == s.table.used
        }),
{
    let slot = s.out_start(addr)->Write_0;
    let begun = s.after_out_start(addr);
    assert(begun.table.entries == s.table.entries);
    assert(begun.table.get(addr) == s.table.get(addr));
    law_swapped_out_is_found(begun.table, addr, slot);
    let out = begun.after_write(addr, slot, true);
    law_taken_out_is_gone(out.table, addr);
    assert(filled(buffer, page) =~= page);
    let reading = out.after_in_start(addr);
    assert(reading.table.entries == s.table.entries);
    let end = reading.after_read(addr, slot, true);
    assert(end.table.get(addr) == reading.table.get(addr));
}

// ---------------------------------------------------------------------------
// Laws: pages and the files that they are in
// ---------------------------------------------------------------------------

/// A page that is swapped out or in, with the answer of the file.
pub enum Move {
    Out { addr: u64, data: Seq<u8>, written: bool },
    In { addr: u64, read: bool },
}

impl Move {
    pub open spec fn addr(self) -> u64 {
        match self {
            Move::Out { addr, .. } => addr,
            Move::In { addr, .. } => addr,
        }
    }
}

/// Swap together with its files, by their paths.
pub struct Store {
    pub swap: SwapState,
    pub files: Map<Seq<char>, Seq<u8>>,
}

impl Store {
    /// Nothing is on its way, and every page is in the file of its slot.
    pub open spec fn sound(self) -> bool {
        &&& self.swap.wf()
        &&& tidy(self.swap.table, Seq::empty())
        &&& forall|i: int|
            0 <= i < self.swap.table.entries.len() ==> (#[trigger] self.swap.table.entries[i]).1
                == slot_with(self.swap.prefix, self.swap.table.entries[i].1.id)
    }

    /// After a page was swapped out or in, or that was refused. A file that could not be
    /// written is deleted, and so is one that was read.
    pub open spec fn after(self, m: Move) -> Store {
        match m {
            Move::Out { addr, data, written } => {
                let begun = self.swap.after_out_start(addr);
                match self.swap.out_start(addr) {
                    OutStart::Write(slot) => Store {
                        swap: begun.after_write(addr, slot, written),
                        files: if written {
                            self.files.insert(slot.path, data)
                        } else {
                            self.files.remove(slot.path)
                        },
                    },
                    OutStart::Fails(_) => Store { swap: begun, ..self },
                }
            },
            Move::In { addr, read } => {
                let begun = self.swap.after_in_start(addr);
                match self.swap.in_start(addr) {
                    Ok(slot) => Store {
                        swap: begun.after_read(addr, slot, read),
                        files: if read {
                            self.files.remove(slot.path)
                        } else {
                            self.files
                        },
                    },
                    Err(_) => Store { swap: begun, ..self },
                }
            },
        }
    }

    pub open spec fn after_all(self, moves: Seq<Move>) -> Store
        decreases moves.len(),
    {
        if moves.len() == 0 {
            self
        } else {
            self.after_all(moves.drop_last()).after(moves.last())
        }
    }

    /// What the page with that address was swapped out with.
    pub open spec fn page(self, addr: u64) -> Option<Seq<u8>> {
        match self.swap.table.get(addr) {
            Some(slot) => if self.files.contains_key(slot.path) {
                Some(self.files[slot.path])
            } else {
                None
            },
            None => None,
        }
    }
}

/// Swap with no page swapped out is sound.
pub proof fn law_fresh_swap_is_sound(h: SwapHandler, files: Map<Seq<char>, Seq<u8>>)
    requires
        h.is_fresh(),
    ensures
        (Store { swap: h@, files }).sound(),
{
    let t = h@.table;
    let none = Seq::<SlotId>::empty();
    assert(ids(t.entries) =~= none);
    assert(forall|id: SlotId| tally(t, none, id) == 0);
}

proof fn lemma_paths_differ(prefix: Seq<char>, a: SlotId, b: SlotId)
    requires
        a != b,
    ensures
        slot_path(prefix, a) != slot_path(prefix, b),
{
    text::lemma_zero_padded_differ(a as nat, b as nat, 6);
    let (p, q) = (
        text::padded(text::decimal(a as nat), '0', 6),
        text::padded(text::decimal(b as nat), '0', 6),
    );
    if prefix + p == prefix + q {
        assert(p =~= (prefix + p).skip(prefix.len() as int));
        assert(q =~= (prefix + q).skip(prefix.len() as int));
    }
}

/// A number that is with no page is not that of an entry.
proof fn lemma_unused_id(entries: Seq<(u64, Slot)>, id: SlotId, i: int)
    requires
        copies(ids(entries), id) == 0,
        0 <= i < entries.len(),
    ensures
        entries[i].1.id != id,
{
    lemma_copies_remove(ids(entries), i, id);
    lemma_copies_bounds(ids(entries).remove(i), id);
}

/// An entry put in among entries whose slots are named by their numbers.
proof fn lemma_named_with(t: Swapped, prefix: Seq<char>, addr: u64, slot: Slot)
    requires
        t.wf(),
        slot == slot_with(prefix, slot.id),
        forall|i: int|
            0 <= i < t.entries.len() ==> (#[trigger] t.entries[i]).1 == slot_with(
                prefix,
                t.entries[i].1.id,
            ),
    ensures
        forall|i: int|
            0 <= i < t.with(addr, slot).entries.len() ==> (#[trigger] t.with(
                addr,
                slot,
            ).entries[i]).1 == slot_with(prefix, t.with(addr, slot).entries[i].1.id),
{
    let p = rank(t.entries, addr, t.entries.len() as int);
    lemma_rank(t, addr, t.entries.len() as int);
    let u = t.with(addr, slot);
    assert forall|i: int| 0 <= i < u.entries.len() implies (#[trigger] u.entries[i]).1
        == slot_with(prefix, u.entries[i].1.id) by {
        if i < p {
            assert(u.entries[i] == t.entries[i]);
        } else if i > p {
            assert(u.entries[i] == t.entries[i - 1]);
        }
    }
}

/// Swapping a page out or in leaves swap sound and every other page as it was, in its
/// file.
pub proof fn law_other_pages_stay(s: Store, m: Move, addr: u64)
    requires
        s.sound(),
        m.addr() != addr,
    ensures
        s.after(m).sound(),
        s.after(m).swap.prefix == s.swap.prefix,
        s.after(m).swap.table.get(addr) == s.swap.table.get(addr),
        s.after(m).page(addr) == s.page(addr),
{
    let t = s.swap.table;
    let none = Seq::<SlotId>::empty();
    lemma_place(t.entries, addr, 0);
    match m {
        Move::Out { addr: a, data, written } => {
            if let OutStart::Write(slot) = s.swap.out_start(a) {
                lemma_out(s, a, data, written);
                if let Some(i) = place_from(t.entries, addr, 0) {
                    law_new_slot_is_fresh(t, none);
                    lemma_unused_id(t.entries, slot.id, i);
                    lemma_paths_differ(s.swap.prefix, t.entries[i].1.id, slot.id);
                }
            }
        },
        Move::In { addr: a, read } => {
            if let Ok(slot) = s.swap.in_start(a) {
                lemma_in(s, a, read);
                lemma_place(t.entries, a, 0);
                if let Some(i) = place_from(t.entries, addr, 0) {
                    let j = place_from(t.entries, a, 0)->0;
                    if i < j {
                        law_files_differ(t, none, s.swap.prefix, i, j);
                    } else {
                        law_files_differ(t, none, s.swap.prefix, j, i);
                    }
                }
            }
        },
    }
}

/// Swapping a page out.
proof fn lemma_out(s: Store, a: u64, data: Seq<u8>, written: bool)
    requires
        s.sound(),
        s.swap.out_start(a) is Write,
    ensures
        ({
            let slot = s.swap.out_start(a)->Write_0;
            let m = Move::Out { addr: a, data, written };
            &&& s.after(m).sound()
            &&& s.after(m).swap.prefix == s.swap.prefix
            &&& forall|b: u64|
                b != a ==> #[trigger] s.after(m).swap.table.get(b) == s.swap.table.get(b)
            &&& s.after(m).swap.table.get(a) == (if written {
                Some(slot)
            } else {
                None
            })
        }),
{
    let t = s.swap.table;
    let none = Seq::<SlotId>::empty();
    let slot = s.swap.out_start(a)->Write_0;
    let one = none.push(slot.id);
    let begun = t.taken();
    law_new_slot_is_fresh(t, none);
    assert(begun.entries == t.entries);
    assert(begun.get(a) == t.get(a));
    assert(one.remove(0) =~= none);
    if written {
        law_swapped_out_is_found(begun, a, slot);
        law_arrived_page_keeps_slot(begun, one, 0, a, slot);
        lemma_named_with(begun, s.swap.prefix, a, slot);
        assert forall|b: u64| b != a implies #[trigger] begun.with(a, slot).get(b) == t.get(b) by {
            assert(begun.get(b) == t.get(b));
        }
    } else {
        law_freed_slot_is_free(begun, one, 0);
        let u = begun.freed(slot.id);
        assert(u.entries == t.entries);
        assert forall|b: u64| #[trigger] u.get(b) == t.get(b) by {}
    }
}

/// Swapping a page in.
proof fn lemma_in(s: Store, a: u64, read: bool)
    requires
        s.sound(),
        s.swap.in_start(a) is Ok,
    ensures
        ({
            let slot = s.swap.in_start(a)->Ok_0;
            let m = Move::In { addr: a, read };
            &&& s.after(m).sound()
            &&& s.after(m).swap.prefix == s.swap.prefix
            &&& forall|b: u64|
                b != a ==> #[trigger] s.after(m).swap.table.get(b) == s.swap.table.get(b)
            &&& s.after(m).swap.table.get(a) == (if read {
                None
            } else {
                Some(slot)
            })
            &&& s.after(m).swap.table.used == s.swap.table.used - (if read {
                1int
            } else {
                0
            })
        }),
{
    let t = s.swap.table;
    let none = Seq::<SlotId>::empty();
    let slot = s.swap.in_start(a)->Ok_0;
    let one = none.push(slot.id);
    let begun = t.without(a);
    lemma_place(t.entries, a, 0);
    law_taken_out_is_gone(t, a);
    law_taken_page_moves_slot(t, none, a);
    assert(one.remove(0) =~= none);
    let p = place_from(t.entries, a, 0)->0;
    assert forall|i: int| 0 <= i < begun.entries.len() implies (#[trigger] begun.entries[i]).1
        == slot_with(s.swap.prefix, begun.entries[i].1.id) by {
        let j = if i < p {
            i
        } else {
            i + 1
        };
        assert(begun.entries[i] == t.entries[j]);
    }
    if read {
        law_freed_slot_is_free(begun, one, 0);
        let u = begun.freed(slot.id);
        assert(u.entries == begun.entries);
        assert forall|b: u64| #[trigger] u.get(b) == begun.get(b) by {}
    } else {
        assert(begun.with(a, slot) == t);
    }
}

/// However many other pages are swapped out and in, a page stays as it was, in its file.
pub proof fn law_page_stays_over_moves(s: Store, moves: Seq<Move>, addr: u64)
    requires
        s.sound(),
        forall|i: int| 0 <= i < moves.len() ==> (#[trigger] moves[i]).addr() != addr,
    ensures
        s.after_all(moves).sound(),
        s.after_all(moves).swap.table.get(addr) == s.swap.table.get(addr),
        s.after_all(moves).page(addr) == s.page(addr),
    decreases moves.len(),
{
    if moves.len() > 0 {
        let before = moves.drop_last();
        assert forall|i: int| 0 <= i < before.len() implies (#[trigger] before[i]).addr()
            != addr by {
            assert(before[i] == moves[i]);
        }
        law_page_stays_over_moves(s, before, addr);
        law_other_pages_stay(s.after_all(before), moves.last(), addr);
    }
}

/// A page that was swapped out comes back, whatever other pages are swapped out and in
/// meanwhile: what is read is what was written, one slot less is in use then, the page
/// cannot be swapped in a second time, and every other page is where it was.
pub proof fn law_page_comes_back_after_others(
    s: Store,
    addr: u64,
    data: Seq<u8>,
    moves: Seq<Move>,
    buffer: Seq<u8>,
)
    requires
        s.sound(),
        s.swap.out_start(addr) is Write,
        data.len() == 4096,
        buffer.len() == 4096,
        forall|i: int| 0 <= i < moves.len() ==> (#[trigger] moves[i]).addr() != addr,
    ensures
        ({
            let slot = s.swap.out_start(addr)->Write_0;
            let later = s.after(Move::Out { addr, data, written: true }).after_all(moves);
            let end = later.after(Move::In { addr, read: true });
            &&& later.swap.in_start(addr) == Ok::<Slot, Fault>(slot)
            &&& later.files.contains_key(slot.path)
            &&& filled(buffer, later.files[slot.path]) == data
            &&& end.sound()
            &&& end.swap.table.get(addr) is None
            &&& end.swap.in_start(addr) == Err::<Slot, Fault>(Fault::NotSwapped { addr })
            &&& end.swap.table.used == later.swap.table.used - 1
            &&& forall|a: u64|
                a != addr ==> #[trigger] end.swap.table.get(a) == later.swap.table.get(a)
            &&& forall|a: u64| a != addr ==> #[trigger] end.page(a) == later.page(a)
        }),
{
    let out = s.after(Move::Out { addr, data, written: true });
    let later = out.after_all(moves);
    lemma_out(s, addr, data, true);
    law_page_stays_over_moves(out, moves, addr);
    lemma_in(later, addr, true);
    assert(filled(buffer, data) =~= data);
    let back = Move::In { addr, read: true };
    assert forall|a: u64| a != addr implies #[trigger] later.after(back).page(a) == later.page(
        a,
    ) by {
        law_other_pages_stay(later, back, a);
    }
}

/// The page of an entry, whether it is swapped out, is found by its address alone.
proof fn lemma_entry_found(t: Swapped, i: int)
    requires
        t.wf(),
        0 <= i < t.entries.len(),
    ensures
        t.get(t.entries[i].0) == Some(t.entries[i].1),
        place_from(t.entries, t.entries[i].0, 0) == Some(i),
{
    lemma_place(t.entries, t.entries[i].0, 0);
}

/// A page is swapped out exactly where it starts at a page boundary, is not swapped out
/// already, and there is room. It gets a slot of its own size, which is one more in use;
/// where it is refused nothing changes but the count of refusals for want of room.
pub proof fn law_swap_out_takes_a_slot(h: &mut SwapHandler, addr: u64, r: SwapResult<SwapSlot>)
    requires
        old(h)@.wf(),
        call_ensures(SwapHandler::swap_out, (h, addr), r),
    ensures
        ({
            let t = old(h)@.table;
            let swapped = exists|i: int| 0 <= i < t.entries.len() && (#[trigger] t.entries[i]).0 == addr;
            let room = t.used < t.total && (t.free.len() > 0 || t.next < u32::MAX);
            &&& r is Ok <==> addr as int % 4096 == 0 && !swapped && room
            &&& addr as int % 4096 != 0 ==> r is Err && r->Err_0@ == (Fault::UnalignedAddress {
                addr,
            })
            &&& addr as int % 4096 == 0 && swapped ==> r is Err && r->Err_0@
                == (Fault::AlreadySwapped { addr })
            &&& addr as int % 4096 == 0 && !swapped && !room ==> r is Err && r->Err_0@
                == (Fault::Full { max: old(h).config.max_pages })
            &&& r is Ok ==> r->Ok_0.size == 4096 && final(h)@.table.used == t.used + 1
            &&& r is Ok && t.free.len() > 0 ==> r->Ok_0.slot_id == t.free.last() && final(
                h)@.table.free == t.free.drop_last()
            &&& r is Ok && t.free.len() == 0 ==> r->Ok_0.slot_id == t.next && final(h)@.table.next
                == t.next + 1
            &&& r is Err ==> final(h)@.table == t
            &&& final(h)@.table.entries == t.entries
            &&& r is Err && r->Err_0@ is Full && old(h).metrics.swap_full_events < u64::MAX
                ==> final(h).metrics.swap_full_events == old(h).metrics.swap_full_events + 1
            &&& final(h).metrics.swaps_out == old(h).metrics.swaps_out
        }),
{
    let t = old(h)@.table;
    lemma_place(t.entries, addr, 0);
}

/// The file of a slot has the slot's number in decimal behind the prefix, in at least six
/// digits.
pub proof fn law_slot_file_has_its_number(prefix: Seq<char>, id: SlotId)
    ensures
        ({
            let path = slot_path(prefix, id);
            let digits = path.skip(prefix.len() as int);
            let number = text::decimal(id as nat);
            &&& path.take(prefix.len() as int) == prefix
            &&& digits.len() >= 6
            &&& number.len() >= 6 ==> digits == number
            &&& number.len() < 6 ==> digits == Seq::new(
                (6 - number.len()) as nat,
                |i: int| '0',
            ) + number
        }),
{
    let path = slot_path(prefix, id);
    let number = text::decimal(id as nat);
    assert(path.take(prefix.len() as int) =~= prefix);
    assert(path.skip(prefix.len() as int) =~= text::padded(number, '0', 6));
}

/// A page that was written is swapped out, in the slot it was written to; one that could
/// not be written is not, and its slot is free again. No other page is touched, and what
/// was done is counted.
pub proof fn law_written_page_is_swapped_out(
    h: &mut SwapHandler,
    addr: u64,
    slot: SwapSlot,
    written: bool,
    r: SwapResult<()>,
    other: u64,
)
    requires
        old(h)@.wf(),
        old(h)@.table.get(addr) is None,
        call_ensures(SwapHandler::swap_written, (h, addr, slot, written), r),
    ensures
        r is Ok <==> written,
        written ==> final(h)@.table.get(addr) == Some(slot@) && final(h)@.table.used == old(
            h)@.table.used && final(h)@.table.free == old(h)@.table.free,
        !written ==> final(h)@.table.get(addr) is None && final(h)@.table.free == old(
            h)@.table.free.push(slot.slot_id),
        !written && old(h)@.table.used > 0 ==> final(h)@.table.used == old(h)@.table.used - 1,
        other != addr ==> final(h)@.table.get(other) == old(h)@.table.get(other),
        written && old(h).metrics.swaps_out < u64::MAX ==> final(h).metrics.swaps_out == old(
            h).metrics.swaps_out + 1,
        !written && old(h).metrics.io_errors < u64::MAX ==> final(h).metrics.io_errors == old(
            h).metrics.io_errors + 1,
        final(h).metrics.swaps_in == old(h).metrics.swaps_in,
{
    if written {
        law_swapped_out_is_found(old(h)@.table, addr, slot@);
    }
}

/// A page is swapped in from the slot that it was swapped out to. While it is read it is not
/// swapped out; once it is read its slot is free, and the bytes of the file stand in the
/// page, as many as both have. Where it could not be read it is swapped out as before.
pub proof fn law_read_page_has_the_bytes(
    h: &mut SwapHandler,
    addr: u64,
    r: SwapResult<SwapSlot>,
    g: &mut SwapHandler,
    data: Option<&[u8]>,
    out: &mut [u8],
    done: SwapResult<()>,
    i: int,
)
    requires
        old(h)@.wf(),
        call_ensures(SwapHandler::swap_in, (h, addr), r),
        r is Ok,
        *old(g) == *final(h),
        old(out)@.len() == 4096,
        call_ensures(SwapHandler::swap_read, (g, addr, r->Ok_0, data, out), done),
        0 <= i < 4096,
    ensures
        addr as int % 4096 == 0,
        old(h)@.table.get(addr) == Some(r->Ok_0@),
        final(h)@.table.get(addr) is None,
        done is Ok <==> data is Some,
        data matches Some(d) ==> final(out)@.len() == 4096 && final(out)@[i] == (if i < d@.len() {
            d@[i]
        } else {
            old(out)@[i]
        }),
        data is None ==> final(out)@ == old(out)@ && final(g)@.table.get(addr) == old(
            h)@.table.get(addr) && final(g)@.table.used == old(h)@.table.used,
        data is Some ==> final(g)@.table.get(addr) is None && final(g)@.table.free.last()
            == r->Ok_0.slot_id,
        data is Some && old(h)@.table.used > 0 ==> final(g)@.table.used == old(h)@.table.used - 1,
        data is Some && old(h).metrics.swaps_in < u64::MAX ==> final(g).metrics.swaps_in == old(
            h).metrics.swaps_in + 1,
        data is None && old(h).metrics.io_errors < u64::MAX ==> final(g).metrics.io_errors == old(
            h).metrics.io_errors + 1,
{
    let t = old(h)@.table;
    law_taken_out_is_gone(t, addr);
    law_swapped_out_is_found(t.without(addr), addr, r->Ok_0@);
}

/// Whether a page is swapped out is the same for all its addresses.
pub proof fn law_whole_page_is_swapped(h: &SwapHandler, a: u64, b: u64, ra: bool, rb: bool)
    requires
        call_ensures(SwapHandler::is_swapped, (h, a), ra),
        call_ensures(SwapHandler::is_swapped, (h, b), rb),
        a as int / 4096 == b as int / 4096,
    ensures
        ra == rb,
        a as int % 4096 == 0 ==> ra == (h@.table.get(a) is Some),
{
}

proof fn lemma_victims(entries: Seq<(u64, Slot)>, start: u64, end: u64, n: int)
    requires
        0 <= n <= entries.len(),
    ensures
        slots_in(entries, start, end, n).len() + entries_outside(entries, start, end, n).len() == n,
        forall|i: int|
            0 <= i < n && start <= (#[trigger] entries[i]).0 < end ==> slots_in(
                entries,
                start,
                end,
                n,
            ).contains(entries[i].1),
        forall|i: int|
            0 <= i < n && !(start <= (#[trigger] entries[i]).0 < end) ==> entries_outside(
                entries,
                start,
                end,
                n,
            ).contains(entries[i]),
        forall|k: int|
            0 <= k < entries_outside(entries, start, end, n).len() ==> !(start <= (
            #[trigger] entries_outside(entries, start, end, n)[k]).0 < end),
    decreases n,
{
    if n > 0 {
        lemma_victims(entries, start, end, n - 1);
        let s0 = slots_in(entries, start, end, n - 1);
        let s1 = slots_in(entries, start, end, n);
        let e0 = entries_outside(entries, start, end, n - 1);
        let e1 = entries_outside(entries, start, end, n);
        assert forall|i: int| 0 <= i < n && start <= (#[trigger] entries[i]).0 < end implies
            s1.contains(entries[i].1) by {
            if i < n - 1 {
                let k = choose|k: int| 0 <= k < s0.len() && s0[k] == entries[i].1;
                assert(s1[k] == entries[i].1);
            } else {
                assert(s1[s1.len() - 1] == entries[i].1);
            }
        }
        assert forall|i: int| 0 <= i < n && !(start <= (#[trigger] entries[i]).0 < end) implies
            e1.contains(entries[i]) by {
            if i < n - 1 {
                let k = choose|k: int| 0 <= k < e0.len() && e0[k] == entries[i];
                assert(e1[k] == entries[i]);
            } else {
                assert(e1[e1.len() - 1] == entries[i]);
            }
        }
    }
}

/// Evicting a range drops exactly the pages with an address in it: their slots are returned
/// and free again, and every other page stays swapped out.
pub proof fn law_evicted_range_is_gone(
    h: &mut SwapHandler,
    start: u64,
    end: u64,
    r: Vec<SwapSlot>,
    i: int,
)
    requires
        old(h)@.wf(),
        call_ensures(SwapHandler::evict_range, (h, start, end), r),
        0 <= i < old(h)@.table.entries.len(),
    ensures
        ({
            let e = old(h)@.table.entries[i];
            let inside = start <= e.0 && e.0 < end;
            &&& inside ==> slots_of(r@).contains(e.1)
            &&& inside ==> final(h)@.table.get(e.0) is None
            &&& !inside ==> final(h)@.table.get(e.0) == Some(e.1)
            &&& final(h)@.table.entries.len() + r@.len() == old(h)@.table.entries.len()
            &&& old(h)@.table.used >= r@.len() ==> final(h)@.table.used == old(h)@.table.used
                - r@.len()
            &&& final(h)@.table.free.len() == old(h)@.table.free.len() + r@.len()
            &&& old(h).metrics.evictions + r@.len() <= u64::MAX ==> final(h).metrics.evictions
                == old(h).metrics.evictions + r@.len()
        }),
{
    let t = old(h)@.table;
    let n = t.entries.len() as int;
    let e = t.entries[i];
    let gone = t.victims(start, end);
    lemma_victims(t.entries, start, end, n);
    assert(slots_of(r@).len() == r@.len());
    lemma_all_freed_table(t.evicted(start, end), gone, gone.len() as int);
    lemma_evictions(old(h).metrics.evictions, gone.len() as int);
    let left = final(h)@.table;
    assert(left.entries == entries_outside(t.entries, start, end, n));
    if start <= e.0 && e.0 < end {
        lemma_place(left.entries, e.0, 0);
    } else {
        let k = choose|k: int| 0 <= k < left.entries.len() && left.entries[k] == e;
        lemma_entry_found(left, k);
    }
}

proof fn lemma_all_freed_table(t: Swapped, slots: Seq<Slot>, n: int)
    requires
        0 <= n <= slots.len(),
    ensures
        t.all_freed(slots, n).entries == t.entries,
        t.all_freed(slots, n).free.len() == t.free.len() + n,
        t.used >= n ==> t.all_freed(slots, n).used == t.used - n,
    decreases n,
{
    if n > 0 {
        lemma_all_freed_table(t, slots, n - 1);
    }
}

proof fn lemma_evictions(count: u64, n: int)
    requires
        0 <= n,
    ensures
        count + n <= u64::MAX ==> evictions_after(count, n) == count + n,
    decreases n,
{
    if n > 0 {
        lemma_evictions(count, n - 1);
    }
}

/// Used and free pages make up all pages of the swap, and the numbers told are those that
/// were counted.
pub proof fn law_swap_numbers_add_up(h: &SwapHandler, s: SwapStats, told: (usize, usize))
    requires
        h@.wf(),
        call_ensures(SwapHandler::stats, (h,), s),
        call_ensures(stats, (h,), told),
    ensures
        s.used_pages + s.free_pages == s.total_pages,
        s.total_pages == h.table.total_slots,
        s.used_pages == h.table.used_slots,
        told == (s.total_pages, s.used_pages),
        s.swaps_out == h.metrics.swaps_out,
        s.swaps_in == h.metrics.swaps_in,
        s.evictions == h.metrics.evictions,
{
}

/// The pages of a stress run lie one behind the other. A page is taken for its own exactly
/// where each byte is the sum of its number and its place, and that is how pages are filled.
pub proof fn law_stress_page_is_recognised(
    i: usize,
    page: Vec<u8>,
    back: &[u8],
    r: bool,
    at: u64,
    next: u64,
    j: int,
)
    requires
        i + 4096 <= usize::MAX,
        call_ensures(stress_page, (i,), page),
        call_ensures(stress_matches, (i, back), r),
        call_ensures(stress_address, (i,), at),
        call_ensures(stress_address, ((i + 1) as usize,), next),
        0 <= j < 4096,
    ensures
        page@.len() == 4096,
        page@[j] == (i + j) % 256,
        r <==> back@ == page@,
        next == at + 4096,
        at >= 0x7000_0000_0000,
{
}

/// A stress run takes no more pages than it is asked for and than the swap has.
pub proof fn law_stress_run_fits(h: &SwapHandler, n: usize, r: usize)
    requires
        call_ensures(SwapHandler::stress_pages, (h, n), r),
    ensures
        r <= n,
        r <= h.config.max_pages,
        r == n || r == h.config.max_pages,
{
}

/// The size of the swap is told in whole MiB of 256 pages each, rounded down.
pub proof fn law_swap_is_told_in_mib(m: &SwapManager, r: usize)
    requires
        m.handler.config.max_pages * 4096 <= usize::MAX,
        call_ensures(SwapManager::init, (m,), r),
    ensures
        r * 256 <= m.handler.config.max_pages < (r + 1) * 256,
{
}

/// Settings pass exactly where the swap has a page and its files have a place.
pub proof fn law_swap_settings_have_room(c: &SwapConfig, r: Result<(), &'static str>)
    requires
        call_ensures(SwapConfig::validate, (c,), r),
    ensures
        r is Ok <==> c.max_pages > 0 && c.path_prefix@.len() > 0,
        c.max_pages == 0 ==> r is Err && r->Err_0@ == "max_pages must be > 0"@,
{
}

/// What is told of the swap has each number on a line behind its name.
pub proof fn law_swap_is_told_by_name(s: &SwapStats, r: String)
    requires
        call_ensures(SwapStats::describe, (s,), r),
    ensures
        text::tells(r@, "Swap Statistics:\n  Total pages: "@ + text::decimal(s.total_pages as nat)),
        text::tells(r@, "\n  Used pages: "@ + text::decimal(s.used_pages as nat)),
        text::tells(r@, "\n  Free pages: "@ + text::decimal(s.free_pages as nat)),
        text::tells(r@, "\n  Swaps out: "@ + text::decimal(s.swaps_out as nat)),
        text::tells(r@, "\n  Swaps in: "@ + text::decimal(s.swaps_in as nat)),
        text::tells(r@, "\n  Evictions: "@ + text::decimal(s.evictions as nat)),
{
    let pieces = seq![
        "Swap Statistics:\n  Total pages: "@,
        text::decimal(s.total_pages as nat),
        "\n  Used pages: "@,
        text::decimal(s.used_pages as nat),
        "\n  Free pages: "@,
        text::decimal(s.free_pages as nat),
        "\n  Swaps out: "@,
        text::decimal(s.swaps_out as nat),
        "\n  Swaps in: "@,
        text::decimal(s.swaps_in as nat),
        "\n  Evictions: "@,
        text::decimal(s.evictions as nat),
        "\n"@,
    ];
    reveal_with_fuel(text::put_together, 14);
    assert(r@ == text::put_together(pieces, 13));
    text::lemma_tells(pieces, 13, 0);
    text::lemma_tells(pieces, 13, 2);
    text::lemma_tells(pieces, 13, 4);
    text::lemma_tells(pieces, 13, 6);
    text::lemma_tells(pieces, 13, 8);
    text::lemma_tells(pieces, 13, 10);
}

} // verus!
