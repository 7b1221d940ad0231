//! Slab allocator: caches of objects of one size, cut out of whole pages.
//!
//! Objects are known by their address; the memory behind an address belongs to
//! the caller, who also clears it.
use crate::text;
use vstd::prelude::*;
use vstd::string::*;

verus! {

/// Page size in bytes.
pub const PAGE_SIZE: usize = 4096;

/// Offset at which physical memory is mapped.
pub const PHYS_OFF: u64 = 0xFFFF_8000_0000_0000;

/// Smallest object size in bytes.
pub const MIN_OBJECT_SIZE: usize = 8;

/// Object alignment in bytes.
pub const OBJECT_ALIGN: usize = 16;

/// Names and object sizes of the caches for common kernel objects.
pub open spec fn default_cache_list() -> Seq<(Seq<char>, usize)> {
    seq![
        ("task"@, 256usize),
        ("socket"@, 512usize),
        ("file"@, 128usize),
        ("inode"@, 192usize),
        ("dentry"@, 96usize),
        ("pipe"@, 64usize),
        ("page"@, 64usize),
        ("buffer"@, 256usize),
    ]
}

/// The names as character sequences.
pub open spec fn cache_list(v: Seq<(String, usize)>) -> Seq<(Seq<char>, usize)> {
    Seq::new(v.len(), |i: int| (v[i].0@, v[i].1))
}

/// The caches for common kernel objects.
pub fn default_caches() -> (r: Vec<(String, usize)>)
    ensures
        cache_list(r@) == default_cache_list(),
{
    let mut v: Vec<(String, usize)> = Vec::new();
    v.push(("task".to_owned(), 256));
    v.push(("socket".to_owned(), 512));
    v.push(("file".to_owned(), 128));
    v.push(("inode".to_owned(), 192));
    v.push(("dentry".to_owned(), 96));
    v.push(("pipe".to_owned(), 64));
    v.push(("page".to_owned(), 64));
    v.push(("buffer".to_owned(), 256));
    assert(cache_list(v@) =~= default_cache_list());
    v
}

/// Configuration of the slab allocator.
#[derive(Debug, Clone)]
pub struct SlabConfig {
    pub page_size: usize,
    pub min_object_size: usize,
    pub object_align: usize,
    pub default_caches: Vec<(String, usize)>,
    pub collect_metrics: bool,
    pub log_operations: bool,
}

impl Default for SlabConfig {
    fn default() -> (r: Self)
        ensures
            r.page_size == PAGE_SIZE,
            r.min_object_size == MIN_OBJECT_SIZE,
            r.object_align == OBJECT_ALIGN,
            cache_list(r.default_caches@) == default_cache_list(),
            r.collect_metrics,
            !r.log_operations,
    {
        SlabConfig {
            page_size: PAGE_SIZE,
            min_object_size: MIN_OBJECT_SIZE,
            object_align: OBJECT_ALIGN,
            default_caches: default_caches(),
            collect_metrics: true,
            log_operations: false,
        }
    }
}

impl SlabConfig {
    /// The first rule that the configuration breaks, if any.
    pub open spec fn broken_rule(&self) -> Option<Seq<char>> {
        if self.page_size == 0 {
            Some("page_size must be > 0"@)
        } else if self.min_object_size == 0 {
            Some("min_object_size must be > 0"@)
        } else if self.object_align == 0 {
            Some("object_align must be > 0"@)
        } else if self.page_size & (self.page_size - 1) as usize != 0 {
            Some("page_size must be a power of two"@)
        } else if self.object_align & (self.object_align - 1) as usize != 0 {
            Some("object_align must be a power of two"@)
        } else {
            None
        }
    }

    pub fn validate(&self) -> (r: Result<(), &'static str>)
        ensures
            match r {
                Ok(_) => self.broken_rule() is None,
                Err(e) => self.broken_rule() == Some(e@),
            },
    {
        if self.page_size == 0 {
            return Err("page_size must be > 0");
        }
        if self.min_object_size == 0 {
            return Err("min_object_size must be > 0");
        }
        if self.object_align == 0 {
            return Err("object_align must be > 0");
        }
        if self.page_size & (self.page_size - 1) != 0 {
            return Err("page_size must be a power of two");
        }
        if self.object_align & (self.object_align - 1) != 0 {
            return Err("object_align must be a power of two");
        }
        Ok(())
    }

    pub fn with_page_size(self, size: usize) -> (r: Self)
        ensures
            r == (SlabConfig { page_size: size, ..self }),
    {
        SlabConfig { page_size: size, ..self }
    }

    pub fn with_metrics(self) -> (r: Self)
        ensures
            r == (SlabConfig { collect_metrics: true, ..self }),
    {
        SlabConfig { collect_metrics: true, ..self }
    }

    pub fn with_logging(self) -> (r: Self)
        ensures
            r == (SlabConfig { log_operations: true, ..self }),
    {
        SlabConfig { log_operations: true, ..self }
    }
}

/// Errors of the slab allocator.
#[derive(Debug, Clone, PartialEq, Eq)]
pub enum SlabError {
    CacheNotFound { name: String },
    CacheAlreadyExists { name: String },
    InvalidObjectSize { size: usize, min: usize },
    AllocationFailed { name: String },
    DoubleFree { name: String },
    Config(String),
}

pub type SlabResult<T> = Result<T, SlabError>;

impl SlabError {
    pub open spec fn is_not_found(&self, n: Seq<char>) -> bool {
        *self matches SlabError::CacheNotFound { name } && name@ == n
    }

    pub open spec fn is_already_exists(&self, n: Seq<char>) -> bool {
        *self matches SlabError::CacheAlreadyExists { name } && name@ == n
    }

    pub open spec fn is_allocation_failed(&self, n: Seq<char>) -> bool {
        *self matches SlabError::AllocationFailed { name } && name@ == n
    }

    pub open spec fn is_double_free(&self, n: Seq<char>) -> bool {
        *self matches SlabError::DoubleFree { name } && name@ == n
    }
}

// ---------------------------------------------------------------------------
// One cache
// ---------------------------------------------------------------------------

/// `size` rounded up by the alignment mask.
pub open spec fn rounded(size: usize, align: usize) -> usize {
    ((size + align - 1) as usize) & !((align - 1) as usize)
}

/// The size of the objects for a request of `size` bytes, or `None` where the
/// size is too small or its objects would not fit in a page.
pub open spec fn object_size(size: usize, config: SlabConfig) -> Option<usize> {
    if size < config.min_object_size || rounded(size, config.object_align) > config.page_size {
        None
    } else {
        Some(rounded(size, config.object_align))
    }
}

/// Rounding up to a power of two `align` gives the least size from `size` up
/// that has no bit below `align`.
pub proof fn law_object_size_rounds_up(size: usize, align: usize)
    requires
        align > 0,
        align & (align - 1) as usize == 0,
        size + align - 1 <= usize::MAX,
    ensures
        size <= rounded(size, align) < size + align,
        rounded(size, align) & (align - 1) as usize == 0,
{
    let m = (align - 1) as usize;
    let y = (size + m) as usize;
    assert(y & !m <= y && y - (y & !m) <= m && (y & !m) & m == 0) by (bit_vector);
}

/// A size above zero is never rounded to zero.
proof fn lemma_rounded_positive(size: usize, align: usize)
    requires
        align > 0,
        size > 0,
        size + align - 1 <= usize::MAX,
    ensures
        rounded(size, align) > 0,
{
    let m = (align - 1) as usize;
    let y = (size + m) as usize;
    assert(y & !m == 0 ==> y <= m) by (bit_vector);
}

/// The addresses of the objects in the page at physical address `page`.
pub open spec fn objects_in(page: u64, page_size: int, obj_size: int) -> Seq<u64> {
    Seq::new(
        (page_size / obj_size) as nat,
        |i: int| (PHYS_OFF + page + i * obj_size) as u64,
    )
}

/// An object that is handed out: all its bytes are to be set to 0 before it is used.
#[derive(Debug, Clone, Copy, PartialEq, Eq, Structural)]
pub struct Object {
    pub addr: u64,
    pub size: usize,
}

impl Object {
    /// Byte `p` belongs to the object.
    pub open spec fn contains(self, p: int) -> bool {
        self.addr <= p < self.addr + self.size
    }

    /// Memory after the object was cleared.
    pub open spec fn cleared(self, memory: spec_fn(int) -> u8) -> spec_fn(int) -> u8 {
        |p: int|
            if self.contains(p) {
                0u8
            } else {
                memory(p)
            }
    }
}

/// Cache of objects of one size.
#[derive(Debug)]
pub struct SlabCache {
    pub obj_size: usize,
    /// The addresses of the free objects; the last is handed out next.
    pub free_list: Vec<u64>,
    /// Objects cut out of pages so far.
    pub total: usize,
    /// Objects that are free.
    pub free: usize,
    /// Pages that the cache was given.
    pub pages: usize,
    pub name: String,
    pub page_size: usize,
}

impl SlabCache {
    /// The count of free objects is that of the list.
    pub open spec fn wf(&self) -> bool {
        self.free == self.free_list@.len()
    }

    /// At least one object fits in a page, and the counts have room for another
    /// page.
    pub open spec fn can_grow(&self) -> bool {
        &&& 0 < self.obj_size <= self.page_size
        &&& self.total + self.page_size / self.obj_size <= usize::MAX
        &&& self.pages < usize::MAX
    }

    /// A page that was asked for lies within the mapping of physical memory.
    pub open spec fn page_fits(&self, page: Option<u64>) -> bool {
        page matches Some(p) ==> PHYS_OFF + p + self.page_size <= u64::MAX
    }

    /// Size, name and page size are those of `pre`.
    pub open spec fn same_kind(&self, pre: SlabCache) -> bool {
        &&& self.obj_size == pre.obj_size
        &&& self.name@ == pre.name@
        &&& self.page_size == pre.page_size
    }

    /// `self` is `pre` with the objects of `page` added; unchanged where there is
    /// no page.
    pub open spec fn grown_from(&self, pre: SlabCache, page: Option<u64>) -> bool {
        let n = pre.page_size / pre.obj_size;
        &&& self.same_kind(pre)
        &&& match page {
            Some(p) => {
                &&& self.free_list@ == pre.free_list@ + objects_in(
                    p,
                    pre.page_size as int,
                    pre.obj_size as int,
                )
                &&& self.total == pre.total + n
                &&& self.free == pre.free + n
                &&& self.pages == pre.pages + 1
            },
            None => *self == pre,
        }
    }

    /// What an allocation returns and leaves behind, given the page that the
    /// page source hands out when the list is empty.
    pub open spec fn alloc_outcome(
        pre: SlabCache,
        post: SlabCache,
        page: Option<u64>,
        r: Option<Object>,
    ) -> bool {
        if pre.free_list@.len() > 0 {
            &&& r == Some(Object { addr: pre.free_list@.last(), size: pre.obj_size })
            &&& post.same_kind(pre)
            &&& post.free_list@ == pre.free_list@.drop_last()
            &&& post.total == pre.total
            &&& post.free == pre.free - 1
            &&& post.pages == pre.pages
        } else {
            match page {
                Some(p) => {
                    let objects = objects_in(
                        p,
                        pre.page_size as int,
                        pre.obj_size as int,
                    );
                    &&& r == Some(Object { addr: objects.last(), size: pre.obj_size })
                    &&& post.same_kind(pre)
                    &&& post.free_list@ == objects.drop_last()
                    &&& post.total == pre.total + objects.len()
                    &&& post.free == objects.len() - 1
                    &&& post.pages == pre.pages + 1
                },
                None => r is None && post == pre,
            }
        }
    }

    /// What freeing the object at `p` returns and leaves behind; address 0 is no
    /// object and is ignored.
    pub open spec fn free_outcome(
        pre: SlabCache,
        post: SlabCache,
        p: u64,
        r: SlabResult<()>,
    ) -> bool {
        if p == 0 {
            r is Ok && post == pre
        } else if pre.free_list@.contains(p) {
            &&& post == pre
            &&& r matches Err(e) && e.is_double_free(pre.name@)
        } else {
            &&& r is Ok
            &&& post.same_kind(pre)
            &&& post.free_list@ == pre.free_list@.push(p)
            &&& post.total == pre.total
            &&& post.free == pre.free + 1
            &&& post.pages == pre.pages
        }
    }

    /// Creates an empty cache for objects of `size` bytes.
    pub fn new(name: &str, size: usize, config: &SlabConfig) -> (r: SlabResult<Self>)
        requires
            config.object_align > 0,
            size >= config.min_object_size ==> size + config.object_align - 1 <= usize::MAX,
        ensures
            match r {
                Ok(c) => {
                    &&& object_size(size, *config) == Some(c.obj_size)
                    &&& c.wf()
                    &&& c.free_list@ == Seq::<u64>::empty()
                    &&& c.total == 0
                    &&& c.free == 0
                    &&& c.pages == 0
                    &&& c.name@ == name@
                    &&& c.page_size == config.page_size
                    &&& size > 0 ==> c.obj_size > 0
                },
                Err(e) => {
                    &&& object_size(size, *config) is None
                    &&& e == (SlabError::InvalidObjectSize { size, min: config.min_object_size })
                },
            },
    {
        if size < config.min_object_size {
            return Err(SlabError::InvalidObjectSize { size, min: config.min_object_size });
        }
        let obj_size: usize = (size + (config.object_align - 1)) & !(config.object_align - 1);
        if obj_size > config.page_size {
            return Err(SlabError::InvalidObjectSize { size, min: config.min_object_size });
        }
        proof {
            if size > 0 {
                lemma_rounded_positive(size, config.object_align);
            }
        }
        Ok(
            SlabCache {
                obj_size,
                free_list: Vec::new(),
                total: 0,
                free: 0,
                pages: 0,
                name: name.to_owned(),
                page_size: config.page_size,
            },
        )
    }

    /// Adds the objects of `page` to the free list; `false` where there is no
    /// page.
    pub fn grow_with(&mut self, page: Option<u64>) -> (r: bool)
        requires
            old(self).wf(),
            old(self).can_grow(),
            old(self).page_fits(page),
        ensures
            final(self).wf(),
            r == (page is Some),
            final(self).grown_from(*old(self), page),
    {
        let p: u64 = match page {
            Some(p) => p,
            None => {
                return false;
            },
        };
        let base: u64 = PHYS_OFF + p;
        let n: usize = self.page_size / self.obj_size;
        let ghost all = objects_in(p, self.page_size as int, self.obj_size as int);
        let mut i: usize = 0;
        proof {
            let d = self.obj_size as int;
            let q = self.page_size as int;
            vstd::arithmetic::div_mod::lemma_fundamental_div_mod(q, d);
            assert(n * d <= q) by (nonlinear_arith)
                requires
                    q == d * (q / d) + q % d,
                    n == q / d,
                    q % d >= 0,
            ;
        }
        while i < n
            invariant
                i <= n,
                n == all.len(),
                all == objects_in(p, self.page_size as int, self.obj_size as int),
                base == PHYS_OFF + p,
                base + self.page_size <= u64::MAX,
                n * self.obj_size <= self.page_size,
                self.obj_size == old(self).obj_size,
                self.obj_size > 0,
                self.page_size == old(self).page_size,
                self.name == old(self).name,
                self.pages == old(self).pages,
                self.total == old(self).total,
                self.free == old(self).free,
                self.free_list@ == old(self).free_list@ + all.take(i as int),
            decreases n - i,
        {
            proof {
                let d = self.obj_size as int;
                assert(0 <= i * d < n * d) by (nonlinear_arith)
                    requires
                        0 <= i < n,
                        d > 0,
                ;
            }
            let offset: usize = i * self.obj_size;
            self.free_list.push(base + offset as u64);
            proof {
                assert(all[i as int] == base + offset);
                assert(all.take(i + 1) =~= all.take(i as int).push(all[i as int]));
                assert(old(self).free_list@ + all.take(i + 1) =~= (old(self).free_list@ + all.take(
                    i as int,
                )).push(all[i as int]));
            }
            i += 1;
        }
        proof {
            assert(all.take(n as int) =~= all);
        }
        self.total += n;
        self.free = self.free_list.len();
        self.pages += 1;
        true
    }

    /// Asks the page source for a page and adds its objects to the free list.
    pub fn grow(&mut self, alloc_page_fn: impl Fn() -> Option<u64>) -> (r: bool)
        requires
            old(self).wf(),
            old(self).can_grow(),
            call_requires(alloc_page_fn, ()),
            forall|page: Option<u64>| #[trigger]
                call_ensures(alloc_page_fn, (), page) ==> old(self).page_fits(page),
        ensures
            final(self).wf(),
            exists|page: Option<u64>| #[trigger]
                call_ensures(alloc_page_fn, (), page) && r == (page is Some) && final(self).grown_from(*old(self), page),
    {
        let page = alloc_page_fn();
        self.grow_with(page)
    }

    /// Takes an object off the free list, which is first filled from `page` where
    /// it is empty.
    pub fn alloc_with(&mut self, page: Option<u64>) -> (r: Option<Object>)
        requires
            old(self).wf(),
            old(self).free_list@.len() == 0 ==> old(self).can_grow() && old(self).page_fits(page),
        ensures
            final(self).wf(),
            SlabCache::alloc_outcome(*old(self), *final(self), page, r),
    {
        if self.free_list.len() == 0 {
            if !self.grow_with(page) {
                return None;
            }
            proof {
                vstd::arithmetic::div_mod::lemma_div_non_zero(
                    self.page_size as int,
                    self.obj_size as int,
                );
                let all = objects_in(page->0, self.page_size as int, self.obj_size as int);
                assert(Seq::<u64>::empty() + all =~= all);
            }
        }
        match self.free_list.pop() {
            Some(addr) => {
                self.free -= 1;
                Some(Object { addr, size: self.obj_size })
            },
            None => None,
        }
    }

    /// Takes an object off the free list, to be cleared by the caller; asks the page
    /// source for a page where the list is empty.
    pub fn allocate(&mut self, alloc_page_fn: impl Fn() -> Option<u64>) -> (r: Option<Object>)
        requires
            old(self).wf(),
            old(self).free_list@.len() == 0 ==> {
                &&& old(self).can_grow()
                &&& call_requires(alloc_page_fn, ())
                &&& forall|page: Option<u64>| #[trigger]
                    call_ensures(alloc_page_fn, (), page) ==> old(self).page_fits(page)
            },
        ensures
            final(self).wf(),
            if old(self).free_list@.len() > 0 {
                SlabCache::alloc_outcome(*old(self), *final(self), None, r)
            } else {
                exists|page: Option<u64>| #[trigger]
                    call_ensures(alloc_page_fn, (), page) && SlabCache::alloc_outcome(
                        *old(self),
                        *final(self),
                        page,
                        r,
                    )
            },
    {
        if self.free_list.len() == 0 {
            let page = alloc_page_fn();
            self.alloc_with(page)
        } else {
            self.alloc_with(None)
        }
    }

    /// Puts an object back on the free list.
    pub fn free(&mut self, p: u64) -> (r: SlabResult<()>)
        requires
            old(self).wf(),
        ensures
            final(self).wf(),
            SlabCache::free_outcome(*old(self), *final(self), p, r),
    {
        if p == 0 {
            return Ok(());
        }
        let mut i: usize = 0;
        while i < self.free_list.len()
            invariant
                *self == *old(self),
                self.wf(),
                p != 0,
                i <= self.free_list@.len(),
                forall|j: int| 0 <= j < i ==> self.free_list@[j] != p,
            decreases self.free_list@.len() - i,
        {
            if self.free_list[i] == p {
                assert(self.free_list@[i as int] == p);
                return Err(SlabError::DoubleFree { name: self.name.clone() });
            }
            i += 1;
        }
        self.free_list.push(p);
        self.free = self.free_list.len();
        Ok(())
    }

    pub fn obj_size(&self) -> (r: usize)
        ensures
            r == self.obj_size,
    {
        self.obj_size
    }

    pub fn pages(&self) -> (r: usize)
        ensures
            r == self.pages,
    {
        self.pages
    }

    pub fn name(&self) -> (r: &str)
        ensures
            r@ == self.name@,
    {
        self.name.as_str()
    }

    /// Whether the next allocation needs a page.
    pub fn needs_page(&self) -> (r: bool)
        ensures
            r == (self.free_list@.len() == 0),
    {
        self.free_list.len() == 0
    }

    /// Forgets all objects. The pages are not tracked, so none is given back.
    pub fn clear(&mut self, _free_page_fn: impl Fn(u64))
        ensures
            final(self).wf(),
            final(self).same_kind(*old(self)),
            final(self).free_list@ == Seq::<u64>::empty(),
            final(self).total == 0,
            final(self).free == 0,
            final(self).pages == 0,
    {
        self.free_list.clear();
        self.total = 0;
        self.free = 0;
        self.pages = 0;
    }

    /// Adds the cache's figures to `target` and gives it the cache's name.
    pub fn merge_stats(&self, target: &mut SlabStats)
        requires
            old(target).total + self.total <= usize::MAX,
            old(target).free + self.free <= usize::MAX,
            old(target).pages + self.pages <= usize::MAX,
        ensures
            final(target).total == old(target).total + self.total,
            final(target).free == old(target).free + self.free,
            final(target).pages == old(target).pages + self.pages,
            final(target).name@ == self.name@,
    {
        target.total = target.total + self.total;
        target.free = target.free + self.free;
        target.pages = target.pages + self.pages;
        target.name = self.name.clone();
    }

    /// The cache's figures.
    fn own_stats(&self) -> (r: SlabStats)
        ensures
            r.describes(*self),
    {
        let mut s = SlabStats::default();
        self.merge_stats(&mut s);
        s
    }
}

/// Statistics of a slab cache.
#[derive(Debug, Clone, PartialEq, Eq)]
pub struct SlabStats {
    pub name: String,
    pub total: usize,
    pub free: usize,
    pub pages: usize,
}

impl Default for SlabStats {
    fn default() -> (r: Self)
        ensures
            r.name@ == Seq::<char>::empty(),
            r.total == 0,
            r.free == 0,
            r.pages == 0,
    {
        SlabStats { name: String::new(), total: 0, free: 0, pages: 0 }
    }
}

impl SlabStats {
    /// The figures are those of `c`.
    pub open spec fn describes(&self, c: SlabCache) -> bool {
        &&& self.name@ == c.name@
        &&& self.total == c.total
        &&& self.free == c.free
        &&& self.pages == c.pages
    }

    /// The figures in one line; `usage` is the part in use, in percent, as it is shown.
    pub fn describe(&self, usage: &str) -> (r: String)
        requires
            self.free <= self.total,
        ensures
            r@ == text::padded(self.name@, ' ', 12) + ": total="@ + text::padded(
                text::decimal(self.total as nat),
                ' ',
                6,
            ) + ", used="@ + text::padded(
                text::decimal((self.total - self.free) as nat),
                ' ',
                6,
            ) + ", free="@ + text::padded(text::decimal(self.free as nat), ' ', 6) + ", pages="@
                + text::padded(text::decimal(self.pages as nat), ' ', 4) + " ("@ + usage@ + "%)"@,
    {
        let mut out = String::new();
        text::push_text_padded(&mut out, self.name.as_str(), 12);
        assert(out@ =~= text::padded(self.name@, ' ', 12));
        out.append(": total=");
        text::push_space_padded(&mut out, self.total as u64, 6);
        out.append(", used=");
        text::push_space_padded(&mut out, (self.total - self.free) as u64, 6);
        out.append(", free=");
        text::push_space_padded(&mut out, self.free as u64, 6);
        out.append(", pages=");
        text::push_space_padded(&mut out, self.pages as u64, 4);
        out.append(" (");
        out.append(usage);
        out.append("%)");
        out
    }
}

/// Counters of the slab allocator.
#[derive(Debug, Clone, Copy, PartialEq, Eq)]
pub struct SlabMetrics {
    pub allocations: u64,
    pub frees: u64,
    pub allocation_failures: u64,
    pub free_failures: u64,
    pub grows: u64,
    pub cache_creations: u64,
    pub cache_deletions: u64,
}

impl Default for SlabMetrics {
    fn default() -> (r: Self)
        ensures
            r == (SlabMetrics {
                allocations: 0,
                frees: 0,
                allocation_failures: 0,
                free_failures: 0,
                grows: 0,
                cache_creations: 0,
                cache_deletions: 0,
            }),
    {
        SlabMetrics {
            allocations: 0,
            frees: 0,
            allocation_failures: 0,
            free_failures: 0,
            grows: 0,
            cache_creations: 0,
            cache_deletions: 0,
        }
    }
}

impl SlabMetrics {
    pub fn inc_alloc(&mut self)
        ensures
            *final(self) == (SlabMetrics {
                allocations: old(self).allocations.wrapping_add(1),
                ..*old(self)
            }),
    {
        self.allocations = self.allocations.wrapping_add(1);
    }

    pub fn inc_free(&mut self)
        ensures
            *final(self) == (SlabMetrics {
                frees: old(self).frees.wrapping_add(1),
                ..*old(self)
            }),
    {
        self.frees = self.frees.wrapping_add(1);
    }

    pub fn inc_alloc_failure(&mut self)
        ensures
            *final(self) == (SlabMetrics {
                allocation_failures: old(self).allocation_failures.wrapping_add(1),
                ..*old(self)
            }),
    {
        self.allocation_failures = self.allocation_failures.wrapping_add(1);
    }

    pub fn inc_free_failure(&mut self)
        ensures
            *final(self) == (SlabMetrics {
                free_failures: old(self).free_failures.wrapping_add(1),
                ..*old(self)
            }),
    {
        self.free_failures = self.free_failures.wrapping_add(1);
    }

    pub fn inc_grow(&mut self)
        ensures
            *final(self) == (SlabMetrics {
                grows: old(self).grows.wrapping_add(1),
                ..*old(self)
            }),
    {
        self.grows = self.grows.wrapping_add(1);
    }

    pub fn inc_cache_creation(&mut self)
        ensures
            *final(self) == (SlabMetrics {
                cache_creations: old(self).cache_creations.wrapping_add(1),
                ..*old(self)
            }),
    {
        self.cache_creations = self.cache_creations.wrapping_add(1);
    }

    pub fn inc_cache_deletion(&mut self)
        ensures
            *final(self) == (SlabMetrics {
                cache_deletions: old(self).cache_deletions.wrapping_add(1),
                ..*old(self)
            }),
    {
        self.cache_deletions = self.cache_deletions.wrapping_add(1);
    }

    /// A copy of the counters.
    pub fn snapshot(&self) -> (r: SlabMetricsSnapshot)
        ensures
            r == (SlabMetricsSnapshot {
                allocations: self.allocations,
                frees: self.frees,
                allocation_failures: self.allocation_failures,
                free_failures: self.free_failures,
                grows: self.grows,
                cache_creations: self.cache_creations,
                cache_deletions: self.cache_deletions,
            }),
    {
        SlabMetricsSnapshot {
            allocations: self.allocations,
            frees: self.frees,
            allocation_failures: self.allocation_failures,
            free_failures: self.free_failures,
            grows: self.grows,
            cache_creations: self.cache_creations,
            cache_deletions: self.cache_deletions,
        }
    }
}

/// A copy of [`SlabMetrics`] at one moment.
#[derive(Debug, Clone, Copy, PartialEq, Eq)]
pub struct SlabMetricsSnapshot {
    pub allocations: u64,
    pub frees: u64,
    pub allocation_failures: u64,
    pub free_failures: u64,
    pub grows: u64,
    pub cache_creations: u64,
    pub cache_deletions: u64,
}

// ---------------------------------------------------------------------------
// Manager
// ---------------------------------------------------------------------------

/// The caches are in ascending order of name; so no name occurs twice.
pub open spec fn sorted(caches: Seq<SlabCache>) -> bool {
    forall|i: int, j: int|
        0 <= i < j < caches.len() ==> text::precedes(
            (#[trigger] caches[i]).name@,
            (#[trigger] caches[j]).name@,
        )
}

/// Position `i` holds the cache called `name`.
pub open spec fn cache_at(caches: Seq<SlabCache>, name: Seq<char>, i: int) -> bool {
    0 <= i < caches.len() && caches[i].name@ == name
}

/// There is a cache called `name`.
pub open spec fn has_cache(caches: Seq<SlabCache>, name: Seq<char>) -> bool {
    exists|i: int| cache_at(caches, name, i)
}

/// The position of the cache called `name`.
pub open spec fn cache_pos(caches: Seq<SlabCache>, name: Seq<char>) -> int {
    choose|i: int| cache_at(caches, name, i)
}

/// `c` is an empty cache called `name` for objects of `obj_size` bytes.
pub open spec fn fresh(c: SlabCache, name: Seq<char>, obj_size: usize, page_size: usize) -> bool {
    &&& c.name@ == name
    &&& c.obj_size == obj_size
    &&& c.page_size == page_size
    &&& c.free_list@ == Seq::<u64>::empty()
    &&& c.total == 0
    &&& c.free == 0
    &&& c.pages == 0
}

/// `post` is `pre` with one empty cache put in its place.
pub open spec fn one_more(
    pre: Seq<SlabCache>,
    post: Seq<SlabCache>,
    name: Seq<char>,
    obj_size: usize,
    page_size: usize,
) -> bool {
    exists|k: int|
        0 <= k <= pre.len() && post == pre.insert(k, #[trigger] post[k]) && fresh(
            post[k],
            name,
            obj_size,
            page_size,
        )
}

/// The object size of the cache `n` once the first `k` entries of `list` were
/// created in turn, where an entry whose name is taken or whose size is invalid
/// is skipped; `None` where there is no such cache.
pub open spec fn listed_size(
    list: Seq<(String, usize)>,
    config: SlabConfig,
    n: Seq<char>,
    k: int,
) -> Option<usize>
    decreases k,
{
    if k <= 0 {
        None
    } else {
        let prev = listed_size(list, config, n, k - 1);
        if prev is None && list[k - 1].0@ == n {
            object_size(list[k - 1].1, config)
        } else {
            prev
        }
    }
}

/// The caches are the empty ones of the first `k` entries of `list`.
pub open spec fn freshly_listed(
    caches: Seq<SlabCache>,
    list: Seq<(String, usize)>,
    config: SlabConfig,
    k: int,
) -> bool {
    forall|n: Seq<char>| #![trigger has_cache(caches, n)] #![trigger listed_size(list, config, n, k)]
        match listed_size(list, config, n, k) {
            Some(size) => has_cache(caches, n) && fresh(
                caches[cache_pos(caches, n)],
                n,
                size,
                config.page_size,
            ),
            None => !has_cache(caches, n),
        }
}

/// Every entry of `list` can be rounded up.
pub open spec fn sizes_fit(list: Seq<(String, usize)>, config: SlabConfig) -> bool {
    forall|i: int| 0 <= i < list.len() ==> (#[trigger] list[i]).1 + config.object_align - 1 <= usize::MAX
}

/// Bytes in the pages of the first `n` caches.
pub open spec fn memory_of(caches: Seq<SlabCache>, page_size: int, n: int) -> int
    decreases n,
{
    if n <= 0 {
        0
    } else {
        memory_of(caches, page_size, n - 1) + caches[n - 1].pages * page_size
    }
}

proof fn lemma_sorted_unique(caches: Seq<SlabCache>, name: Seq<char>, i: int)
    requires
        sorted(caches),
        cache_at(caches, name, i),
    ensures
        has_cache(caches, name),
        cache_pos(caches, name) == i,
{
    let j = cache_pos(caches, name);
    assert(cache_at(caches, name, j));
    text::lemma_order_total(name, name);
}

/// Putting a cache between its neighbours keeps the order and all other caches.
proof fn lemma_insert_sorted(caches: Seq<SlabCache>, k: int, c: SlabCache)
    requires
        sorted(caches),
        0 <= k <= caches.len(),
        forall|i: int| 0 <= i < k ==> text::precedes((#[trigger] caches[i]).name@, c.name@),
        k < caches.len() ==> text::precedes(c.name@, caches[k].name@),
    ensures
        sorted(caches.insert(k, c)),
        forall|n: Seq<char>| #[trigger]
            has_cache(caches.insert(k, c), n) <==> has_cache(caches, n) || n == c.name@,
        forall|n: Seq<char>|
            has_cache(caches, n) ==> caches.insert(k, c)[#[trigger] cache_pos(
                caches.insert(k, c),
                n,
            )] == caches[cache_pos(caches, n)],
        caches.insert(k, c)[cache_pos(caches.insert(k, c), c.name@)] == c,
{
    let l2 = caches.insert(k, c);
    assert forall|i: int, j: int| 0 <= i < j < l2.len() implies text::precedes(
        (#[trigger] l2[i]).name@,
        (#[trigger] l2[j]).name@,
    ) by {
        let i0 = if i < k { i } else { i - 1 };
        let j0 = if j < k { j } else { j - 1 };
        if i == k {
            if j0 > k {
                text::lemma_order_transitive(c.name@, caches[k].name@, caches[j0].name@);
            }
        }
    }
    assert forall|n: Seq<char>| #[trigger]
        has_cache(l2, n) <==> has_cache(caches, n) || n == c.name@ by {
        if has_cache(l2, n) {
            let i = cache_pos(l2, n);
            if i < k {
                assert(cache_at(caches, n, i));
            } else if i > k {
                assert(cache_at(caches, n, i - 1));
            }
        }
        if has_cache(caches, n) {
            let i = cache_pos(caches, n);
            assert(cache_at(l2, n, if i < k { i } else { i + 1 }));
        }
        if n == c.name@ {
            assert(cache_at(l2, n, k));
        }
    }
    assert forall|n: Seq<char>| has_cache(caches, n) implies l2[#[trigger] cache_pos(l2, n)]
        == caches[cache_pos(caches, n)] by {
        let i = cache_pos(caches, n);
        let j = if i < k { i } else { i + 1 };
        assert(cache_at(l2, n, j));
        lemma_sorted_unique(l2, n, j);
    }
    assert(cache_at(l2, c.name@, k));
    lemma_sorted_unique(l2, c.name@, k);
}

/// The slab caches with their page source and counters.
pub struct SlabManager<A: Fn() -> Option<u64>, F: Fn(u64)> {
    pub config: SlabConfig,
    pub caches: Vec<SlabCache>,
    pub metrics: SlabMetrics,
    pub alloc_page_fn: A,
    pub free_page_fn: F,
}

/// The page source can be asked, and the pages that it hands out lie within the
/// mapping of physical memory.
pub open spec fn page_source_ok<A: Fn() -> Option<u64>>(source: A, page_size: usize) -> bool {
    &&& call_requires(source, ())
    &&& forall|page: Option<u64>| #[trigger]
        call_ensures(source, (), page) ==> (page matches Some(p) ==> PHYS_OFF + p + page_size
            <= u64::MAX)
}

impl<A: Fn() -> Option<u64>, F: Fn(u64)> SlabManager<A, F> {
    pub open spec fn wf(&self) -> bool {
        &&& self.config.broken_rule() is None
        &&& sorted(self.caches@)
        &&& forall|i: int|
            0 <= i < self.caches@.len() ==> {
                let c = #[trigger] self.caches@[i];
                &&& c.wf()
                &&& 0 < c.obj_size <= c.page_size
                &&& c.page_size == self.config.page_size
            }
        &&& page_source_ok(self.alloc_page_fn, self.config.page_size)
    }

    /// Everything but the caches and the counters is as in `pre`.
    pub open spec fn same_setup(&self, pre: Self) -> bool {
        &&& self.config == pre.config
        &&& self.alloc_page_fn == pre.alloc_page_fn
        &&& self.free_page_fn == pre.free_page_fn
    }

    /// With the default settings, the default caches, all empty, and nothing counted but
    /// their creation.
    pub open spec fn is_default(&self) -> bool {
        &&& self.wf()
        &&& self.config.page_size == PAGE_SIZE
        &&& self.config.min_object_size == MIN_OBJECT_SIZE
        &&& self.config.object_align == OBJECT_ALIGN
        &&& cache_list(self.config.default_caches@) == default_cache_list()
        &&& freshly_listed(self.caches@, self.config.default_caches@, self.config, 8)
        &&& self.metrics == (SlabMetrics {
            allocations: 0,
            frees: 0,
            allocation_failures: 0,
            free_failures: 0,
            grows: 0,
            cache_creations: self.caches@.len() as u64,
            cache_deletions: 0,
        })
    }

    /// Creates a manager with the configured caches; the configuration must be
    /// valid.
    pub fn new(config: SlabConfig, alloc_page_fn: A, free_page_fn: F) -> (r: Self)
        requires
            config.broken_rule() is None,
            sizes_fit(config.default_caches@, config),
            page_source_ok(alloc_page_fn, config.page_size),
        ensures
            r.wf(),
            r.config == config,
            r.alloc_page_fn == alloc_page_fn,
            r.free_page_fn == free_page_fn,
            freshly_listed(
                r.caches@,
                config.default_caches@,
                config,
                config.default_caches@.len() as int,
            ),
            r.metrics == (SlabMetrics {
                allocations: 0,
                frees: 0,
                allocation_failures: 0,
                free_failures: 0,
                grows: 0,
                cache_creations: r.caches@.len() as u64,
                cache_deletions: 0,
            }),
    {
        let mut manager = SlabManager {
            config,
            caches: Vec::new(),
            metrics: SlabMetrics::default(),
            alloc_page_fn,
            free_page_fn,
        };
        manager.create_listed();
        manager
    }

    /// Creates the configured caches.
    fn create_listed(&mut self)
        requires
            old(self).wf(),
            old(self).caches@.len() == 0,
            sizes_fit(old(self).config.default_caches@, old(self).config),
        ensures
            final(self).wf(),
            final(self).same_setup(*old(self)),
            freshly_listed(
                final(self).caches@,
                final(self).config.default_caches@,
                final(self).config,
                final(self).config.default_caches@.len() as int,
            ),
            final(self).metrics == (SlabMetrics {
                cache_creations: old(self).metrics.cache_creations.wrapping_add(
                    final(self).caches@.len() as u64,
                ),
                ..old(self).metrics
            }),
    {
        let ghost list = self.config.default_caches@;
        let mut k: usize = 0;
        while k < self.config.default_caches.len()
            invariant
                self.wf(),
                self.same_setup(*old(self)),
                list == self.config.default_caches@,
                sizes_fit(list, self.config),
                k <= list.len(),
                self.caches@.len() <= k,
                freshly_listed(self.caches@, list, self.config, k as int),
                self.metrics == (SlabMetrics {
                    cache_creations: old(self).metrics.cache_creations.wrapping_add(
                        self.caches@.len() as u64,
                    ),
                    ..old(self).metrics
                }),
            decreases list.len() - k,
        {
            let name = self.config.default_caches[k].0.clone();
            let size: usize = self.config.default_caches[k].1;
            let ghost before = self.caches@;
            let ghost config = self.config;
            assert(list[k as int].0@ == name@ && list[k as int].1 == size);
            let outcome = self.create_cache(name.as_str(), size);
            proof {
                let now = self.caches@;
                assert forall|n: Seq<char>|
                    #![trigger has_cache(now, n)]
                    #![trigger listed_size(list, config, n, k + 1)]
                    match listed_size(list, config, n, k + 1) {
                        Some(size) => has_cache(now, n) && fresh(
                            now[cache_pos(now, n)],
                            n,
                            size,
                            config.page_size,
                        ),
                        None => !has_cache(now, n),
                    } by {
                    assert(has_cache(before, n) || !has_cache(before, n));
                    assert(has_cache(before, name@) || !has_cache(before, name@));
                    if outcome is Ok {
                        let obj = object_size(size, config)->0;
                        let p = choose|p: int|
                            0 <= p <= before.len() && now == before.insert(p, #[trigger] now[p])
                                && fresh(now[p], name@, obj, config.page_size);
                        assert(now == before.insert(p, now[p]));
                        lemma_one_more_lookup(before, now, p, n);
                    }
                }
            }
            k += 1;
        }
    }

    /// Creates an empty cache for objects of `size` bytes.
    pub fn create_cache(&mut self, name: &str, size: usize) -> (r: SlabResult<()>)
        requires
            old(self).wf(),
            size + old(self).config.object_align - 1 <= usize::MAX,
        ensures
            final(self).wf(),
            final(self).same_setup(*old(self)),
            match r {
                Ok(_) => {
                    &&& !has_cache(old(self).caches@, name@)
                    &&& object_size(size, old(self).config) matches Some(obj) && one_more(
                        old(self).caches@,
                        final(self).caches@,
                        name@,
                        obj,
                        old(self).config.page_size,
                    )
                    &&& final(self).metrics == (SlabMetrics {
                        cache_creations: old(self).metrics.cache_creations.wrapping_add(1),
                        ..old(self).metrics
                    })
                },
                Err(e) => {
                    &&& final(self).caches@ == old(self).caches@
                    &&& final(self).metrics == old(self).metrics
                    &&& if has_cache(old(self).caches@, name@) {
                        e.is_already_exists(name@)
                    } else {
                        &&& object_size(size, old(self).config) is None
                        &&& e == (SlabError::InvalidObjectSize {
                            size,
                            min: old(self).config.min_object_size,
                        })
                    }
                },
            },
    {
        let mut k: usize = 0;
        while k < self.caches.len() && text::before(self.caches[k].name.as_str(), name)
            invariant
                *self == *old(self),
                self.wf(),
                k <= self.caches@.len(),
                forall|i: int|
                    0 <= i < k ==> text::precedes((#[trigger] self.caches@[i]).name@, name@),
            decreases self.caches@.len() - k,
        {
            k += 1;
        }
        let taken = k < self.caches.len() && text::same(self.caches[k].name.as_str(), name);
        proof {
            if taken {
                assert(cache_at(self.caches@, name@, k as int));
            } else if has_cache(self.caches@, name@) {
                let i = cache_pos(self.caches@, name@);
                text::lemma_order_total(name@, name@);
                assert(cache_at(self.caches@, name@, i));
                if i > k {
                    assert(text::precedes(self.caches@[k as int].name@, self.caches@[i].name@));
                }
            }
        }
        if taken {
            return Err(SlabError::CacheAlreadyExists { name: name.to_owned() });
        }
        match SlabCache::new(name, size, &self.config) {
            Ok(cache) => {
                proof {
                    if k < self.caches@.len() {
                        text::lemma_order_total(self.caches@[k as int].name@, name@);
                    }
                    lemma_insert_sorted(self.caches@, k as int, cache);
                    assert(self.config.min_object_size > 0);
                }
                let ghost c = cache;
                let ghost before = self.caches@;
                self.caches.insert(k, cache);
                self.metrics.inc_cache_creation();
                proof {
                    assert(self.caches@[k as int] == c);
                    assert forall|i: int| 0 <= i < self.caches@.len() implies {
                        let c = #[trigger] self.caches@[i];
                        &&& c.wf()
                        &&& 0 < c.obj_size <= c.page_size
                        &&& c.page_size == self.config.page_size
                    } by {
                        if i < k {
                            assert(self.caches@[i] == before[i]);
                        } else if i > k {
                            assert(self.caches@[i] == before[i - 1]);
                        }
                    }
                }
                Ok(())
            },
            Err(e) => Err(e),
        }
    }

    /// The position of a cache.
    fn lookup(&self, name: &str) -> (r: Option<usize>)
        ensures
            match r {
                Some(i) => cache_at(self.caches@, name@, i as int),
                None => !has_cache(self.caches@, name@),
            },
    {
        let mut i: usize = 0;
        while i < self.caches.len()
            invariant
                i <= self.caches@.len(),
                forall|j: int| 0 <= j < i ==> (#[trigger] self.caches@[j]).name@ != name@,
            decreases self.caches@.len() - i,
        {
            if text::same(self.caches[i].name.as_str(), name) {
                return Some(i);
            }
            i += 1;
        }
        None
    }

    /// What an allocation returns and leaves behind, given the page that the page
    /// source hands out when the cache's list is empty.
    pub open spec fn alloc_outcome(
        pre: Self,
        post: Self,
        name: Seq<char>,
        page: Option<u64>,
        r: SlabResult<Object>,
    ) -> bool {
        let i = cache_pos(pre.caches@, name);
        &&& post.same_setup(pre)
        &&& if !has_cache(pre.caches@, name) {
            &&& post.caches@ == pre.caches@
            &&& post.metrics == pre.metrics
            &&& r matches Err(e) && e.is_not_found(name)
        } else {
            &&& post.caches@ == pre.caches@.update(i, post.caches@[i])
            &&& match r {
                Ok(p) => {
                    &&& SlabCache::alloc_outcome(
                        pre.caches@[i],
                        post.caches@[i],
                        page,
                        Some(p),
                    )
                    &&& post.metrics == (SlabMetrics {
                        allocations: pre.metrics.allocations.wrapping_add(1),
                        ..pre.metrics
                    })
                },
                Err(e) => {
                    &&& SlabCache::alloc_outcome(pre.caches@[i], post.caches@[i], page, None)
                    &&& e.is_allocation_failed(name)
                    &&& post.metrics == (SlabMetrics {
                        allocation_failures: pre.metrics.allocation_failures.wrapping_add(1),
                        ..pre.metrics
                    })
                },
            }
        }
    }

    /// The cache `name`, if there is one and its list is empty, has room for the
    /// counts of another page.
    pub open spec fn can_serve(&self, name: Seq<char>) -> bool {
        forall|i: int|
            #[trigger] cache_at(self.caches@, name, i) && self.caches@[i].free_list@.len() == 0
                ==> self.caches@[i].can_grow()
    }

    /// Takes an object from the cache `name`, whose list is first filled from
    /// `page` where it is empty.
    pub fn alloc_with(&mut self, name: &str, page: Option<u64>) -> (r: SlabResult<Object>)
        requires
            old(self).wf(),
            old(self).can_serve(name@),
            page matches Some(p) ==> PHYS_OFF + p + old(self).config.page_size <= u64::MAX,
        ensures
            final(self).wf(),
            Self::alloc_outcome(*old(self), *final(self), name@, page, r),
    {
        let i: usize = match self.lookup(name) {
            Some(i) => i,
            None => {
                return Err(SlabError::CacheNotFound { name: name.to_owned() });
            },
        };
        proof {
            lemma_sorted_unique(self.caches@, name@, i as int);
        }
        let ghost before = self.caches@;
        let got = self.caches[i].alloc_with(page);
        proof {
            lemma_same_names(before, self.caches@);
        }
        match got {
            Some(p) => {
                self.metrics.inc_alloc();
                Ok(p)
            },
            None => {
                self.metrics.inc_alloc_failure();
                Err(SlabError::AllocationFailed { name: name.to_owned() })
            },
        }
    }

    /// The cache `name` is there, and its list is empty.
    pub open spec fn lacks_objects(&self, name: Seq<char>) -> bool {
        has_cache(self.caches@, name) && self.caches@[cache_pos(
            self.caches@,
            name,
        )].free_list@.len() == 0
    }

    /// Takes an object from the cache `name`; asks the page source for a page
    /// where the cache's list is empty.
    pub fn allocate(&mut self, name: &str) -> (r: SlabResult<Object>)
        requires
            old(self).wf(),
            old(self).can_serve(name@),
        ensures
            final(self).wf(),
            if old(self).lacks_objects(name@) {
                exists|page: Option<u64>| #[trigger]
                    call_ensures(old(self).alloc_page_fn, (), page) && Self::alloc_outcome(
                        *old(self),
                        *final(self),
                        name@,
                        page,
                        r,
                    )
            } else {
                Self::alloc_outcome(*old(self), *final(self), name@, None, r)
            },
    {
        let empty = match self.lookup(name) {
            Some(i) => {
                proof {
                    lemma_sorted_unique(self.caches@, name@, i as int);
                }
                self.caches[i].needs_page()
            },
            None => false,
        };
        if empty {
            let page = (self.alloc_page_fn)();
            self.alloc_with(name, page)
        } else {
            self.alloc_with(name, None)
        }
    }

    /// Puts an object back into the cache `name`.
    pub fn free(&mut self, name: &str, p: u64) -> (r: SlabResult<()>)
        requires
            old(self).wf(),
        ensures
            final(self).wf(),
            final(self).same_setup(*old(self)),
            if !has_cache(old(self).caches@, name@) {
                &&& final(self).caches@ == old(self).caches@
                &&& final(self).metrics == old(self).metrics
                &&& r matches Err(e) && e.is_not_found(name@)
            } else {
                let i = cache_pos(old(self).caches@, name@);
                &&& final(self).caches@ == old(self).caches@.update(i, final(self).caches@[i])
                &&& SlabCache::free_outcome(
                    old(self).caches@[i],
                    final(self).caches@[i],
                    p,
                    r,
                )
                &&& final(self).metrics == if r is Ok {
                    SlabMetrics {
                        frees: old(self).metrics.frees.wrapping_add(1),
                        ..old(self).metrics
                    }
                } else {
                    SlabMetrics {
                        free_failures: old(self).metrics.free_failures.wrapping_add(1),
                        ..old(self).metrics
                    }
                }
            },
    {
        let i: usize = match self.lookup(name) {
            Some(i) => i,
            None => {
                return Err(SlabError::CacheNotFound { name: name.to_owned() });
            },
        };
        proof {
            lemma_sorted_unique(self.caches@, name@, i as int);
        }
        let ghost before = self.caches@;
        let outcome = self.caches[i].free(p);
        proof {
            lemma_same_names(before, self.caches@);
        }
        match outcome {
            Ok(()) => {
                self.metrics.inc_free();
                Ok(())
            },
            Err(e) => {
                self.metrics.inc_free_failure();
                Err(e)
            },
        }
    }

    /// Removes the cache `name`.
    pub fn delete_cache(&mut self, name: &str) -> (r: SlabResult<()>)
        requires
            old(self).wf(),
        ensures
            final(self).wf(),
            final(self).same_setup(*old(self)),
            match r {
                Ok(_) => {
                    &&& has_cache(old(self).caches@, name@)
                    &&& final(self).caches@ == old(self).caches@.remove(
                        cache_pos(old(self).caches@, name@),
                    )
                    &&& !has_cache(final(self).caches@, name@)
                    &&& final(self).metrics == (SlabMetrics {
                        cache_deletions: old(self).metrics.cache_deletions.wrapping_add(1),
                        ..old(self).metrics
                    })
                },
                Err(e) => {
                    &&& !has_cache(old(self).caches@, name@)
                    &&& e.is_not_found(name@)
                    &&& final(self).caches@ == old(self).caches@
                    &&& final(self).metrics == old(self).metrics
                },
            },
    {
        let i: usize = match self.lookup(name) {
            Some(i) => i,
            None => {
                return Err(SlabError::CacheNotFound { name: name.to_owned() });
            },
        };
        proof {
            lemma_sorted_unique(self.caches@, name@, i as int);
        }
        let ghost before = self.caches@;
        let _ = self.caches.remove(i);
        self.metrics.inc_cache_deletion();
        proof {
            let now = self.caches@;
            assert forall|j: int| 0 <= j < now.len() implies {
                let c = #[trigger] now[j];
                &&& c.wf()
                &&& 0 < c.obj_size <= c.page_size
                &&& c.page_size == self.config.page_size
            } by {
                assert(now[j] == before[if j < i {
                    j
                } else {
                    j + 1
                }]);
            }
            if has_cache(now, name@) {
                let j = cache_pos(now, name@);
                let j0 = if j < i {
                    j
                } else {
                    j + 1
                };
                assert(cache_at(before, name@, j0));
                lemma_sorted_unique(before, name@, j0);
            }
        }
        Ok(())
    }

    /// Statistics of the cache `name`.
    pub fn cache_stats(&self, name: &str) -> (r: SlabResult<SlabStats>)
        requires
            self.wf(),
        ensures
            match r {
                Ok(s) => has_cache(self.caches@, name@) && s.describes(
                    self.caches@[cache_pos(self.caches@, name@)],
                ),
                Err(e) => !has_cache(self.caches@, name@) && e.is_not_found(name@),
            },
    {
        match self.lookup(name) {
            Some(i) => {
                proof {
                    lemma_sorted_unique(self.caches@, name@, i as int);
                }
                Ok(self.caches[i].own_stats())
            },
            None => Err(SlabError::CacheNotFound { name: name.to_owned() }),
        }
    }

    /// Statistics of all caches, in ascending order of name.
    pub fn all_stats(&self) -> (r: Vec<SlabStats>)
        ensures
            r@.len() == self.caches@.len(),
            forall|i: int|
                0 <= i < r@.len() ==> (#[trigger] r@[i]).describes(self.caches@[i]),
    {
        let mut out: Vec<SlabStats> = Vec::new();
        let mut i: usize = 0;
        while i < self.caches.len()
            invariant
                i <= self.caches@.len(),
                out@.len() == i,
                forall|j: int| 0 <= j < i ==> (#[trigger] out@[j]).describes(self.caches@[j]),
            decreases self.caches@.len() - i,
        {
            out.push(self.caches[i].own_stats());
            i += 1;
        }
        out
    }

    /// Bytes in the pages of all caches.
    pub fn total_memory_used(&self) -> (r: usize)
        requires
            memory_of(
                self.caches@,
                self.config.page_size as int,
                self.caches@.len() as int,
            ) <= usize::MAX,
        ensures
            r == memory_of(
                self.caches@,
                self.config.page_size as int,
                self.caches@.len() as int,
            ),
    {
        let mut sum: usize = 0;
        let mut i: usize = 0;
        while i < self.caches.len()
            invariant
                i <= self.caches@.len(),
                sum == memory_of(self.caches@, self.config.page_size as int, i as int),
                memory_of(
                    self.caches@,
                    self.config.page_size as int,
                    self.caches@.len() as int,
                ) <= usize::MAX,
            decreases self.caches@.len() - i,
        {
            proof {
                lemma_memory_grows(
                    self.caches@,
                    self.config.page_size as int,
                    i + 1,
                    self.caches@.len() as int,
                );
                lemma_memory_grows(self.caches@, self.config.page_size as int, 0, i as int);
            }
            let bytes: usize = self.caches[i].pages() * self.config.page_size;
            sum = sum + bytes;
            i += 1;
        }
        sum
    }

    pub fn cache_count(&self) -> (r: usize)
        ensures
            r == self.caches@.len(),
    {
        self.caches.len()
    }

    pub fn cache_exists(&self, name: &str) -> (r: bool)
        ensures
            r == has_cache(self.caches@, name@),
    {
        match self.lookup(name) {
            Some(_) => true,
            None => false,
        }
    }

    /// Drops all caches and creates the configured ones anew.
    pub fn reset(&mut self)
        requires
            old(self).wf(),
            sizes_fit(old(self).config.default_caches@, old(self).config),
        ensures
            final(self).wf(),
            final(self).same_setup(*old(self)),
            freshly_listed(
                final(self).caches@,
                final(self).config.default_caches@,
                final(self).config,
                final(self).config.default_caches@.len() as int,
            ),
            final(self).metrics == (SlabMetrics {
                cache_creations: old(self).metrics.cache_creations.wrapping_add(
                    final(self).caches@.len() as u64,
                ),
                ..old(self).metrics
            }),
    {
        self.caches.clear();
        self.create_listed();
    }

    pub fn metrics(&self) -> (r: &SlabMetrics)
        ensures
            *r == self.metrics,
    {
        &self.metrics
    }

    pub fn config(&self) -> (r: &SlabConfig)
        ensures
            *r == self.config,
    {
        &self.config
    }

    pub fn metrics_snapshot(&self) -> (r: SlabMetricsSnapshot)
        ensures
            r == snapshot_of(self.metrics),
    {
        self.metrics.snapshot()
    }
}

/// Lookups in lists that differ by one inserted cache.
proof fn lemma_one_more_lookup(before: Seq<SlabCache>, now: Seq<SlabCache>, p: int, n: Seq<char>)
    requires
        sorted(before),
        sorted(now),
        0 <= p <= before.len(),
        now == before.insert(p, now[p]),
    ensures
        has_cache(now, n) <==> has_cache(before, n) || n == now[p].name@,
        has_cache(before, n) ==> now[cache_pos(now, n)] == before[cache_pos(before, n)],
        now[cache_pos(now, now[p].name@)] == now[p],
{
    let c = now[p];
    assert forall|i: int| 0 <= i < p implies text::precedes(
        (#[trigger] before[i]).name@,
        c.name@,
    ) by {
        assert(before[i] == now[i]);
    }
    if p < before.len() {
        assert(before[p] == now[p + 1]);
    }
    lemma_insert_sorted(before, p, c);
    assert(has_cache(before.insert(p, c), n) || !has_cache(before.insert(p, c), n));
}

/// Lists with the same names in the same places are sorted alike.
proof fn lemma_same_names(before: Seq<SlabCache>, now: Seq<SlabCache>)
    requires
        sorted(before),
        now.len() == before.len(),
        forall|i: int| 0 <= i < now.len() ==> (#[trigger] now[i]).name@ == before[i].name@,
    ensures
        sorted(now),
{
}

proof fn lemma_memory_grows(caches: Seq<SlabCache>, page_size: int, i: int, n: int)
    requires
        0 <= i <= n <= caches.len(),
        page_size >= 0,
    ensures
        memory_of(caches, page_size, i) <= memory_of(caches, page_size, n),
    decreases n - i,
{
    if i < n {
        lemma_memory_grows(caches, page_size, i, n - 1);
        let x = caches[n - 1].pages as int;
        assert(x * page_size >= 0) by (nonlinear_arith)
            requires
                x >= 0,
                page_size >= 0,
        ;
    }
}

pub open spec fn snapshot_of(m: SlabMetrics) -> SlabMetricsSnapshot {
    SlabMetricsSnapshot {
        allocations: m.allocations,
        frees: m.frees,
        allocation_failures: m.allocation_failures,
        free_failures: m.free_failures,
        grows: m.grows,
        cache_creations: m.cache_creations,
        cache_deletions: m.cache_deletions,
    }
}

impl<A: Fn() -> Option<u64>, F: Fn(u64)> SlabManager<A, F> {
    /// Creates a manager with the default configuration.
    pub fn default_with_functions(alloc_page_fn: A, free_page_fn: F) -> (r: Self)
        requires
            page_source_ok(alloc_page_fn, PAGE_SIZE),
        ensures
            r.is_default(),
            r.alloc_page_fn == alloc_page_fn,
            r.free_page_fn == free_page_fn,
    {
        let config = SlabConfig::default();
        proof {
            assert(4096usize & (4096usize - 1) as usize == 0) by (bit_vector);
            assert(16usize & (16usize - 1) as usize == 0) by (bit_vector);
            let list = config.default_caches@;
            assert(cache_list(list).len() == 8);
            assert forall|i: int| 0 <= i < list.len() implies (#[trigger] list[i]).1 + 16 - 1
                <= usize::MAX by {
                assert(cache_list(list)[i].1 == default_cache_list()[i].1);
            }
        }
        Self::new(config, alloc_page_fn, free_page_fn)
    }
}

// ---------------------------------------------------------------------------
// The kernel-wide instance, which its owner passes in
// ---------------------------------------------------------------------------

/// Sets up the instance on first use; a second call changes nothing.
pub fn init<A: Fn() -> Option<u64>, F: Fn(u64)>(
    global: &mut Option<SlabManager<A, F>>,
    alloc_page_fn: A,
    free_page_fn: F,
)
    requires
        *old(global) is None ==> page_source_ok(alloc_page_fn, PAGE_SIZE),
    ensures
        match *old(global) {
            Some(_) => *final(global) == *old(global),
            None => *final(global) matches Some(m) && {
                &&& m.is_default()
                &&& m.alloc_page_fn == alloc_page_fn
                &&& m.free_page_fn == free_page_fn
            },
        },
{
    if global.is_none() {
        *global = Some(SlabManager::default_with_functions(alloc_page_fn, free_page_fn));
    }
}

/// Takes an object from the cache `name`.
pub fn allocate<A: Fn() -> Option<u64>, F: Fn(u64)>(manager: &mut SlabManager<A, F>, name: &str) -> (r: Option<Object>)
    requires
        old(manager).wf(),
        old(manager).can_serve(name@),
    ensures
        final(manager).wf(),
        exists|page: Option<u64>, res: SlabResult<Object>|
            #[trigger] SlabManager::<A, F>::alloc_outcome(
                *old(manager),
                *final(manager),
                name@,
                page,
                res,
            ) && r == match res {
                Ok(p) => Some(p),
                Err(_) => None,
            } && (if old(manager).lacks_objects(name@) {
                call_ensures(old(manager).alloc_page_fn, (), page)
            } else {
                page is None
            }),
{
    let res = manager.allocate(name);
    let ghost outcome = res;
    proof {
        if old(manager).lacks_objects(name@) {
            let page = choose|page: Option<u64>| #[trigger]
                call_ensures(old(manager).alloc_page_fn, (), page) && SlabManager::<
                    A,
                    F,
                >::alloc_outcome(*old(manager), *manager, name@, page, outcome);
            assert(SlabManager::<A, F>::alloc_outcome(
                *old(manager),
                *manager,
                name@,
                page,
                outcome,
            ));
        } else {
            assert(SlabManager::<A, F>::alloc_outcome(
                *old(manager),
                *manager,
                name@,
                None,
                outcome,
            ));
        }
    }
    match res {
        Ok(p) => Some(p),
        Err(_) => None,
    }
}

/// Puts an object back into the cache `name`; a failure only shows in the
/// counters.
pub fn free<A: Fn() -> Option<u64>, F: Fn(u64)>(manager: &mut SlabManager<A, F>, name: &str, p: u64)
    requires
        old(manager).wf(),
    ensures
        final(manager).wf(),
        final(manager).same_setup(*old(manager)),
        if !has_cache(old(manager).caches@, name@) {
            &&& final(manager).caches@ == old(manager).caches@
            &&& final(manager).metrics == old(manager).metrics
        } else {
            let i = cache_pos(old(manager).caches@, name@);
            &&& final(manager).caches@ == old(manager).caches@.update(
                i,
                final(manager).caches@[i],
            )
            &&& exists|r: SlabResult<()>| #[trigger]
                SlabCache::free_outcome(
                    old(manager).caches@[i],
                    final(manager).caches@[i],
                    p,
                    r,
                ) && final(manager).metrics == (if r is Ok {
                    SlabMetrics {
                        frees: old(manager).metrics.frees.wrapping_add(1),
                        ..old(manager).metrics
                    }
                } else {
                    SlabMetrics {
                        free_failures: old(manager).metrics.free_failures.wrapping_add(1),
                        ..old(manager).metrics
                    }
                })
        },
{
    let r = manager.free(name, p);
    proof {
        let l = old(manager).caches@;
        if has_cache(l, name@) {
            let i = cache_pos(l, name@);
            assert(SlabCache::free_outcome(l[i], manager.caches@[i], p, r));
        }
    }
}

/// Creates a cache; a failure is ignored.
pub fn create_cache<A: Fn() -> Option<u64>, F: Fn(u64)>(manager: &mut SlabManager<A, F>, name: &str, size: usize)
    requires
        old(manager).wf(),
        size + old(manager).config.object_align - 1 <= usize::MAX,
    ensures
        final(manager).wf(),
        final(manager).same_setup(*old(manager)),
        if has_cache(old(manager).caches@, name@) || object_size(
            size,
            old(manager).config,
        ) is None {
            &&& final(manager).caches@ == old(manager).caches@
            &&& final(manager).metrics == old(manager).metrics
        } else {
            &&& one_more(
                old(manager).caches@,
                final(manager).caches@,
                name@,
                object_size(size, old(manager).config)->0,
                old(manager).config.page_size,
            )
            &&& final(manager).metrics == (SlabMetrics {
                cache_creations: old(manager).metrics.cache_creations.wrapping_add(1),
                ..old(manager).metrics
            })
        },
{
    let _ = manager.create_cache(name, size);
}

/// Removes a cache, if it is there.
pub fn delete_cache<A: Fn() -> Option<u64>, F: Fn(u64)>(manager: &mut SlabManager<A, F>, name: &str)
    requires
        old(manager).wf(),
    ensures
        final(manager).wf(),
        final(manager).same_setup(*old(manager)),
        if has_cache(old(manager).caches@, name@) {
            &&& final(manager).caches@ == old(manager).caches@.remove(
                cache_pos(old(manager).caches@, name@),
            )
            &&& final(manager).metrics == (SlabMetrics {
                cache_deletions: old(manager).metrics.cache_deletions.wrapping_add(1),
                ..old(manager).metrics
            })
        } else {
            &&& final(manager).caches@ == old(manager).caches@
            &&& final(manager).metrics == old(manager).metrics
        },
{
    let _ = manager.delete_cache(name);
}

/// Statistics of all caches, in ascending order of name.
pub fn all_stats<A: Fn() -> Option<u64>, F: Fn(u64)>(manager: &SlabManager<A, F>) -> (r: Vec<SlabStats>)
    ensures
        r@.len() == manager.caches@.len(),
        forall|i: int| 0 <= i < r@.len() ==> (#[trigger] r@[i]).describes(manager.caches@[i]),
{
    manager.all_stats()
}

/// Statistics of the cache `name`.
pub fn cache_stats<A: Fn() -> Option<u64>, F: Fn(u64)>(manager: &SlabManager<A, F>, name: &str) -> (r: Option<SlabStats>)
    requires
        manager.wf(),
    ensures
        match r {
            Some(s) => has_cache(manager.caches@, name@) && s.describes(
                manager.caches@[cache_pos(manager.caches@, name@)],
            ),
            None => !has_cache(manager.caches@, name@),
        },
{
    match manager.cache_stats(name) {
        Ok(s) => Some(s),
        Err(_) => None,
    }
}

/// Bytes in the pages of all caches.
pub fn total_memory_used<A: Fn() -> Option<u64>, F: Fn(u64)>(manager: &SlabManager<A, F>) -> (r: usize)
    requires
        memory_of(
            manager.caches@,
            manager.config.page_size as int,
            manager.caches@.len() as int,
        ) <= usize::MAX,
    ensures
        r == memory_of(
            manager.caches@,
            manager.config.page_size as int,
            manager.caches@.len() as int,
        ),
{
    manager.total_memory_used()
}

/// A copy of the counters.
pub fn metrics<A: Fn() -> Option<u64>, F: Fn(u64)>(manager: &SlabManager<A, F>) -> (r: SlabMetricsSnapshot)
    ensures
        r == snapshot_of(manager.metrics),
{
    manager.metrics_snapshot()
}

// ---------------------------------------------------------------------------
// Laws
// ---------------------------------------------------------------------------

/// An object that was just allocated can be freed, and then the free list and
/// the count are what they were.
pub proof fn law_free_undoes_alloc(
    s0: SlabCache,
    s1: SlabCache,
    s2: SlabCache,
    page: Option<u64>,
    object: Object,
    freed: SlabResult<()>,
)
    requires
        s0.wf(),
        s0.free_list@.no_duplicates(),
        s0.free_list@.len() > 0,
        object.addr != 0,
        SlabCache::alloc_outcome(s0, s1, page, Some(object)),
        SlabCache::free_outcome(s1, s2, object.addr, freed),
    ensures
        freed is Ok,
        s2.free_list@ == s0.free_list@,
        s2.free == s0.free,
        s2.total == s0.total,
{
    let l = s0.free_list@;
    let p = object.addr;
    if s1.free_list@.contains(p) {
        let i = choose|i: int| 0 <= i < s1.free_list@.len() && s1.free_list@[i] == p;
        assert(l[i] == p && l[l.len() - 1] == p);
    }
    assert(l.drop_last().push(l.last()) =~= l);
}

/// A second free of the same object is refused and changes nothing.
pub proof fn law_double_free_refused(
    s0: SlabCache,
    s1: SlabCache,
    s2: SlabCache,
    p: u64,
    again: SlabResult<()>,
)
    requires
        p != 0,
        SlabCache::free_outcome(s0, s1, p, Ok(())),
        SlabCache::free_outcome(s1, s2, p, again),
    ensures
        again matches Err(e) && e.is_double_free(s0.name@),
        s2 == s1,
{
    assert(s1.free_list@[s1.free_list@.len() - 1] == p);
}

/// The objects of one page have different addresses and lie within the page one
/// after the other.
pub proof fn law_objects_disjoint(page: u64, page_size: int, obj_size: int, i: int, j: int)
    requires
        0 < obj_size <= page_size,
        PHYS_OFF + page + page_size <= u64::MAX,
        0 <= i < j < page_size / obj_size,
    ensures
        objects_in(page, page_size, obj_size)[i] + obj_size <= objects_in(
            page,
            page_size,
            obj_size,
        )[j],
        objects_in(page, page_size, obj_size)[j] + obj_size <= PHYS_OFF + page + page_size,
        PHYS_OFF + page <= objects_in(page, page_size, obj_size)[i],
{
    let n = page_size / obj_size;
    vstd::arithmetic::div_mod::lemma_fundamental_div_mod(page_size, obj_size);
    assert(n * obj_size <= page_size && 0 <= i * obj_size && i * obj_size + obj_size <= j
        * obj_size && j * obj_size + obj_size <= n * obj_size) by (nonlinear_arith)
        requires
            page_size == obj_size * n + page_size % obj_size,
            page_size % obj_size >= 0,
            0 <= i < j < n,
            obj_size > 0,
    ;
}

// ---------------------------------------------------------------------------
// Live objects
// ---------------------------------------------------------------------------

/// The object at `x` was cut out of one of the pages.
pub open spec fn cut_from(pages: Seq<u64>, page_size: int, obj_size: int, x: u64) -> bool {
    exists|k: int|
        0 <= k < pages.len() && objects_in(#[trigger] pages[k], page_size, obj_size).contains(x)
}

/// The page can be mapped and has no byte in common with any of the others.
pub open spec fn new_page(pages: Seq<u64>, page_size: int, p: u64) -> bool {
    &&& PHYS_OFF + p + page_size <= u64::MAX
    &&& forall|k: int|
        0 <= k < pages.len() ==> p + page_size <= #[trigger] pages[k] || pages[k] + page_size <= p
}

/// The pages are all different, the free and the live objects were cut out of them,
/// and none is among them twice.
pub open spec fn accounted(
    list: Seq<u64>,
    pages: Seq<u64>,
    live: Seq<u64>,
    page_size: int,
    obj_size: int,
) -> bool {
    &&& forall|k: int|
        0 <= k < pages.len() ==> new_page(pages.take(k), page_size, #[trigger] pages[k])
    &&& list.no_duplicates()
    &&& live.no_duplicates()
    &&& forall|x: u64| #[trigger]
        list.contains(x) ==> !live.contains(x) && cut_from(pages, page_size, obj_size, x)
    &&& forall|x: u64| #[trigger] live.contains(x) ==> cut_from(pages, page_size, obj_size, x)
}

/// The cache was given these pages and has these live objects.
pub open spec fn tracks(c: SlabCache, pages: Seq<u64>, live: Seq<u64>) -> bool {
    &&& c.wf()
    &&& 0 < c.obj_size <= c.page_size
    &&& c.pages == pages.len()
    &&& c.total == c.free + live.len()
    &&& accounted(c.free_list@, pages, live, c.page_size as int, c.obj_size as int)
}

/// The objects of one page are all different, lie in it, and are no address 0.
proof fn lemma_objects(page: u64, page_size: int, obj_size: int)
    requires
        0 < obj_size <= page_size,
        PHYS_OFF + page + page_size <= u64::MAX,
    ensures
        objects_in(page, page_size, obj_size).len() >= 1,
        objects_in(page, page_size, obj_size).no_duplicates(),
        forall|x: u64| #[trigger]
            objects_in(page, page_size, obj_size).contains(x) ==> PHYS_OFF + page <= x && x
                + obj_size <= PHYS_OFF + page + page_size,
{
    let s = objects_in(page, page_size, obj_size);
    let n = page_size / obj_size;
    vstd::arithmetic::div_mod::lemma_fundamental_div_mod(page_size, obj_size);
    assert(n >= 1 && n * obj_size <= page_size) by (nonlinear_arith)
        requires
            page_size == obj_size * n + page_size % obj_size,
            0 <= page_size % obj_size < obj_size,
            0 < obj_size <= page_size,
    ;
    assert forall|i: int| 0 <= i < s.len() implies PHYS_OFF + page <= #[trigger] s[i] && s[i]
        + obj_size <= PHYS_OFF + page + page_size && s[i] == PHYS_OFF + page + i * obj_size by {
        assert(0 <= i * obj_size && i * obj_size + obj_size <= n * obj_size) by (nonlinear_arith)
            requires
                0 <= i < n,
                obj_size > 0,
        ;
    }
    assert forall|i: int, j: int| 0 <= i < s.len() && 0 <= j < s.len() && i != j implies s[i]
        != s[j] by {
        if i < j {
            law_objects_disjoint(page, page_size, obj_size, i, j);
        } else {
            law_objects_disjoint(page, page_size, obj_size, j, i);
        }
    }
}

/// An object of a new page was not cut out of any other.
proof fn lemma_objects_are_new(pages: Seq<u64>, page_size: int, obj_size: int, p: u64, x: u64)
    requires
        0 < obj_size <= page_size,
        forall|k: int|
            0 <= k < pages.len() ==> new_page(pages.take(k), page_size, #[trigger] pages[k]),
        new_page(pages, page_size, p),
        objects_in(p, page_size, obj_size).contains(x),
    ensures
        !cut_from(pages, page_size, obj_size, x),
        cut_from(pages.push(p), page_size, obj_size, x),
        forall|y: u64|
            cut_from(pages, page_size, obj_size, y) ==> #[trigger] cut_from(
                pages.push(p),
                page_size,
                obj_size,
                y,
            ),
        forall|k: int|
            0 <= k < pages.push(p).len() ==> new_page(
                pages.push(p).take(k),
                page_size,
                #[trigger] pages.push(p)[k],
            ),
{
    let all = pages.push(p);
    lemma_objects(p, page_size, obj_size);
    if cut_from(pages, page_size, obj_size, x) {
        let k = choose|k: int|
            0 <= k < pages.len() && objects_in(
                #[trigger] pages[k],
                page_size,
                obj_size,
            ).contains(x);
        lemma_objects(pages[k], page_size, obj_size);
    }
    assert(all[pages.len() as int] == p);
    assert forall|y: u64| cut_from(pages, page_size, obj_size, y) implies #[trigger] cut_from(
        all,
        page_size,
        obj_size,
        y,
    ) by {
        let k = choose|k: int|
            0 <= k < pages.len() && objects_in(
                #[trigger] pages[k],
                page_size,
                obj_size,
            ).contains(y);
        assert(all[k] == pages[k]);
    }
    assert forall|k: int| 0 <= k < all.len() implies new_page(
        all.take(k),
        page_size,
        #[trigger] all[k],
    ) by {
        assert(all.take(k) =~= pages.take(k));
        if k == pages.len() {
            assert(pages.take(k) =~= pages);
        } else {
            assert(all[k] == pages[k]);
        }
    }
}

/// No object is at address 0.
proof fn lemma_object_address(pages: Seq<u64>, page_size: int, obj_size: int, x: u64)
    requires
        0 < obj_size <= page_size,
        forall|k: int|
            0 <= k < pages.len() ==> new_page(pages.take(k), page_size, #[trigger] pages[k]),
        cut_from(pages, page_size, obj_size, x),
    ensures
        x != 0,
{
    let k = choose|k: int|
        0 <= k < pages.len() && objects_in(#[trigger] pages[k], page_size, obj_size).contains(x);
    lemma_objects(pages[k], page_size, obj_size);
}

/// A new cache has no pages and no objects.
pub proof fn law_new_cache_has_no_objects(c: SlabCache)
    requires
        c.wf(),
        0 < c.obj_size <= c.page_size,
        c.free_list@ == Seq::<u64>::empty(),
        c.total == 0,
        c.pages == 0,
    ensures
        tracks(c, Seq::empty(), Seq::empty()),
{
}

/// Two different objects have no byte in common.
pub proof fn law_objects_are_apart(
    c: SlabCache,
    pages: Seq<u64>,
    live: Seq<u64>,
    x: u64,
    y: u64,
)
    requires
        tracks(c, pages, live),
        c.free_list@.contains(x) || live.contains(x),
        c.free_list@.contains(y) || live.contains(y),
        x != y,
    ensures
        x + c.obj_size <= y || y + c.obj_size <= x,
        x != 0,
{
    let size = c.obj_size as int;
    let page_size = c.page_size as int;
    let k = choose|k: int|
        0 <= k < pages.len() && objects_in(#[trigger] pages[k], page_size, size).contains(x);
    let h = choose|h: int|
        0 <= h < pages.len() && objects_in(#[trigger] pages[h], page_size, size).contains(y);
    lemma_objects(pages[k], page_size, size);
    lemma_objects(pages[h], page_size, size);
    if k == h {
        let s = objects_in(pages[k], page_size, size);
        let i = choose|i: int| 0 <= i < s.len() && s[i] == x;
        let j = choose|j: int| 0 <= j < s.len() && s[j] == y;
        if i < j {
            law_objects_disjoint(pages[k], page_size, size, i, j);
        } else {
            law_objects_disjoint(pages[k], page_size, size, j, i);
        }
    } else if k < h {
        assert(pages.take(h)[k] == pages[k]);
    } else {
        assert(pages.take(k)[h] == pages[h]);
    }
}

/// A new page brings only objects that there were none of.
proof fn lemma_page_accounted(
    list: Seq<u64>,
    pages: Seq<u64>,
    live: Seq<u64>,
    page_size: int,
    size: int,
    p: u64,
)
    requires
        0 < size <= page_size,
        accounted(list, pages, live, page_size, size),
        new_page(pages, page_size, p),
    ensures
        accounted(
            list + objects_in(p, page_size, size),
            pages.push(p),
            live,
            page_size,
            size,
        ),
{
    let new = objects_in(p, page_size, size);
    let longer = list + new;
    let all = pages.push(p);
    lemma_objects(p, page_size, size);
    assert(new.contains(new[0]));
    lemma_objects_are_new(pages, page_size, size, p, new[0]);
    assert forall|x: u64| #[trigger] longer.contains(x) implies !live.contains(x) && cut_from(
        all,
        page_size,
        size,
        x,
    ) by {
        let i = choose|i: int| 0 <= i < longer.len() && longer[i] == x;
        if i < list.len() {
            assert(list[i] == x);
            assert(list.contains(x));
        } else {
            assert(new[i - list.len()] == x);
            assert(new.contains(x));
            lemma_objects_are_new(pages, page_size, size, p, x);
        }
    }
    assert forall|x: u64| #[trigger] live.contains(x) implies cut_from(
        all,
        page_size,
        size,
        x,
    ) by {
        assert(cut_from(pages, page_size, size, x));
    }
    assert forall|i: int, j: int|
        0 <= i < longer.len() && 0 <= j < longer.len() && i != j implies longer[i]
        != longer[j] by {
        let n = list.len() as int;
        if i < n && j < n {
            assert(list[i] == longer[i] && list[j] == longer[j]);
        } else if i >= n && j >= n {
            assert(new[i - n] == longer[i] && new[j - n] == longer[j]);
        } else {
            let (o, w) = if i < n {
                (i, j)
            } else {
                (j, i)
            };
            assert(list[o] == longer[o] && new[w - n] == longer[w]);
            assert(list.contains(longer[o]));
            assert(new.contains(longer[w]));
            lemma_objects_are_new(pages, page_size, size, p, longer[w]);
        }
    }
}

/// The last free object becomes live.
proof fn lemma_last_accounted(
    list: Seq<u64>,
    pages: Seq<u64>,
    live: Seq<u64>,
    page_size: int,
    size: int,
)
    requires
        accounted(list, pages, live, page_size, size),
        list.len() > 0,
    ensures
        accounted(list.drop_last(), pages, live.push(list.last()), page_size, size),
{
    let x = list.last();
    let now = live.push(x);
    assert(list[list.len() - 1] == x);
    assert(list.contains(x));
    assert forall|y: u64| #[trigger] list.drop_last().contains(y) implies list.contains(y) && y
        != x by {
        let i = choose|i: int| 0 <= i < list.drop_last().len() && list.drop_last()[i] == y;
        assert(list[i] == y);
    }
    assert forall|y: u64| #[trigger] now.contains(y) implies y == x || live.contains(y) by {
        let i = choose|i: int| 0 <= i < now.len() && now[i] == y;
        if i < live.len() {
            assert(live[i] == y);
        }
    }
    assert forall|i: int, j: int| 0 <= i < now.len() && 0 <= j < now.len() && i != j implies now[i]
        != now[j] by {
        if i < live.len() {
            assert(live.contains(live[i]));
        }
        if j < live.len() {
            assert(live.contains(live[j]));
        }
    }
}

/// Growing by a page that was not given before keeps the account.
pub proof fn law_growing_keeps_track(
    c: SlabCache,
    d: SlabCache,
    pages: Seq<u64>,
    live: Seq<u64>,
    p: u64,
)
    requires
        tracks(c, pages, live),
        new_page(pages, c.page_size as int, p),
        d.grown_from(c, Some(p)),
    ensures
        tracks(d, pages.push(p), live),
{
    lemma_objects(p, c.page_size as int, c.obj_size as int);
    lemma_page_accounted(
        c.free_list@,
        pages,
        live,
        c.page_size as int,
        c.obj_size as int,
        p,
    );
}

/// An object that is allocated, where a page that the cache asks for was not given
/// before, meets no live object; then it is live itself. Clearing it leaves all its
/// bytes 0 and changes no live object.
pub proof fn law_new_object_meets_no_live_one(
    c: SlabCache,
    d: SlabCache,
    pages: Seq<u64>,
    live: Seq<u64>,
    page: Option<u64>,
    object: Object,
    memory: spec_fn(int) -> u8,
)
    requires
        tracks(c, pages, live),
        d.wf(),
        c.free_list@.len() == 0 && page is Some ==> new_page(
            pages,
            c.page_size as int,
            page->0,
        ),
        SlabCache::alloc_outcome(c, d, page, Some(object)),
    ensures
        object.addr != 0,
        object.size == c.obj_size,
        forall|y: u64| #[trigger]
            live.contains(y) ==> object.addr + c.obj_size <= y || y + c.obj_size <= object.addr,
        forall|p: int| object.contains(p) ==> #[trigger] object.cleared(memory)(p) == 0,
        forall|y: u64, p: int|
            #![trigger live.contains(y), object.cleared(memory)(p)]
            live.contains(y) && y <= p < y + c.obj_size ==> object.cleared(memory)(p)
                == memory(p),
        tracks(
            d,
            if c.free_list@.len() > 0 {
                pages
            } else {
                pages.push(page->0)
            },
            live.push(object.addr),
        ),
        d.total - d.free == live.len() + 1,
{
    let x = object.addr;
    let now = if c.free_list@.len() > 0 {
        pages
    } else {
        pages.push(page->0)
    };
    let page_size = c.page_size as int;
    let size = c.obj_size as int;
    if c.free_list@.len() > 0 {
        lemma_last_accounted(c.free_list@, pages, live, page_size, size);
    } else {
        let p = page->0;
        let s = objects_in(p, page_size, size);
        lemma_objects(p, page_size, size);
        lemma_page_accounted(c.free_list@, pages, live, page_size, size, p);
        assert(c.free_list@ + s =~= s);
        lemma_last_accounted(s, now, live, page_size, size);
    }
    assert(live.push(x)[live.len() as int] == x);
    assert(live.push(x).contains(x));
    lemma_object_address(now, page_size, size, x);
    assert forall|y: u64| #[trigger] live.contains(y) implies x + c.obj_size <= y || y + c.obj_size
        <= x by {
        let i = choose|i: int| 0 <= i < live.len() && live[i] == y;
        assert(live.push(x)[i] == y);
        assert(live.push(x).contains(y));
        law_objects_are_apart(d, now, live.push(x), x, y);
    }
}

/// A live object can be freed, and is then free and not live; the others stay.
pub proof fn law_live_object_is_freed(
    c: SlabCache,
    d: SlabCache,
    pages: Seq<u64>,
    live: Seq<u64>,
    at: int,
    r: SlabResult<()>,
)
    requires
        tracks(c, pages, live),
        d.wf(),
        0 <= at < live.len(),
        SlabCache::free_outcome(c, d, live[at], r),
    ensures
        r is Ok,
        tracks(d, pages, live.remove(at)),
        d.total - d.free == live.len() - 1,
{
    let x = live[at];
    let size = c.obj_size as int;
    let page_size = c.page_size as int;
    let rest = live.remove(at);
    assert(live.contains(x));
    assert(cut_from(pages, page_size, size, x));
    lemma_object_address(pages, page_size, size, x);
    let list = d.free_list@;
    assert forall|y: u64| #[trigger] rest.contains(y) implies y != x && live.contains(y) by {
        let i = choose|i: int| 0 <= i < rest.len() && rest[i] == y;
        let j = if i < at {
            i
        } else {
            i + 1
        };
        assert(live[j] == y);
    }
    assert forall|i: int, j: int| 0 <= i < rest.len() && 0 <= j < rest.len() && i != j implies rest[i]
        != rest[j] by {
        assert(rest[i] == live[if i < at {
            i
        } else {
            i + 1
        }]);
        assert(rest[j] == live[if j < at {
            j
        } else {
            j + 1
        }]);
    }
    assert forall|y: u64| #[trigger] list.contains(y) implies !rest.contains(y) && cut_from(
        pages,
        page_size,
        size,
        y,
    ) by {
        let i = choose|i: int| 0 <= i < list.len() && list[i] == y;
        if i < c.free_list@.len() {
            assert(c.free_list@[i] == y);
            assert(c.free_list@.contains(y));
        }
    }
    assert forall|i: int, j: int| 0 <= i < list.len() && 0 <= j < list.len() && i != j implies list[i]
        != list[j] by {
        let n = c.free_list@.len();
        if i < n {
            assert(c.free_list@.contains(list[i])) by {
                assert(c.free_list@[i] == list[i]);
            }
        }
        if j < n {
            assert(c.free_list@.contains(list[j])) by {
                assert(c.free_list@[j] == list[j]);
            }
        }
    }
}

/// A page that a cache gets is cut into as many objects as fit and no fewer, one behind the
/// other from its start on; they are added to the free ones, which stay. Without a page
/// nothing changes.
pub proof fn law_page_is_cut_into_objects(c: &mut SlabCache, page: Option<u64>, r: bool, i: int)
    requires
        old(c).wf(),
        old(c).can_grow(),
        old(c).page_fits(page),
        call_ensures(SlabCache::grow_with, (c, page), r),
    ensures
        r <==> page is Some,
        page is None ==> *final(c) == *old(c),
        page matches Some(p) ==> {
            let n = final(c).total - old(c).total;
            let was = old(c).free_list@;
            &&& n * old(c).obj_size <= old(c).page_size
            &&& old(c).page_size < (n + 1) * old(c).obj_size
            &&& final(c).free == old(c).free + n
            &&& final(c).pages == old(c).pages + 1
            &&& final(c).free_list@.len() == was.len() + n
            &&& 0 <= i < was.len() ==> final(c).free_list@[i] == was[i]
            &&& 0 <= i < n ==> final(c).free_list@[was.len() + i] == 0xFFFF_8000_0000_0000 + p + i
                * old(c).obj_size
        },
        final(c).obj_size == old(c).obj_size,
        final(c).page_size == old(c).page_size,
{
    let (size, obj) = (old(c).page_size as int, old(c).obj_size as int);
    let n = size / obj;
    vstd::arithmetic::div_mod::lemma_fundamental_div_mod(size, obj);
    let rest = size % obj;
    assert(n * obj <= size && size < (n + 1) * obj) by (nonlinear_arith)
        requires
            size == obj * n + rest,
            0 <= rest < obj,
    ;
    if page is Some && 0 <= i < n {
        let p = page->0;
        assert(i * obj >= 0 && i * obj + obj <= n * obj) by (nonlinear_arith)
            requires
                0 <= i < n,
                obj > 0,
        ;
        assert(final(c).free_list@[old(c).free_list@.len() + i] == objects_in(p, size, obj)[i]);
    }
}

/// The object that was freed last is the one that is handed out next, with the size of the
/// cache's objects; then the cache is as it was before the free.
pub proof fn law_freed_object_is_next(
    c: &mut SlabCache,
    p: u64,
    r: SlabResult<()>,
    d: &mut SlabCache,
    page: Option<u64>,
    next: Option<Object>,
)
    requires
        old(c).wf(),
        p != 0,
        call_ensures(SlabCache::free, (c, p), r),
        r is Ok,
        *old(d) == *final(c),
        call_ensures(SlabCache::alloc_with, (d, page), next),
    ensures
        next is Some,
        next->0.addr == p,
        next->0.size == old(c).obj_size,
        final(c).free == old(c).free + 1,
        final(c).total == old(c).total,
        final(d).free_list@ == old(c).free_list@,
        final(d).free == old(c).free,
        final(d).total == old(c).total,
        final(d).pages == old(c).pages,
{
    assert(old(c).free_list@.push(p).drop_last() =~= old(c).free_list@);
}

/// A cache is made exactly for objects that are not too small and, rounded up to the
/// alignment, fit into a page; it starts without objects and pages.
pub proof fn law_new_cache_takes_fitting_objects(
    name: &str,
    size: usize,
    config: &SlabConfig,
    r: SlabResult<SlabCache>,
)
    requires
        config.broken_rule() is None,
        size + config.object_align - 1 <= usize::MAX,
        call_ensures(SlabCache::new, (name, size, config), r),
    ensures
        r matches Ok(c) ==> {
            &&& size >= config.min_object_size
            &&& size <= c.obj_size < size + config.object_align
            &&& c.obj_size & (config.object_align - 1) as usize == 0
            &&& c.obj_size <= config.page_size
            &&& c.total == 0 && c.free == 0 && c.pages == 0 && c.free_list@.len() == 0
            &&& c.name@ == name@
        },
        r is Err ==> size < config.min_object_size || size + config.object_align
            > config.page_size,
        size < config.min_object_size || size > config.page_size ==> r is Err,
        r is Err ==> r->Err_0 is InvalidObjectSize && r->Err_0->size == size,
{
    law_object_size_rounds_up(size, config.object_align);
}

/// Settings pass exactly where sizes are above zero and page and alignment are powers of
/// two.
pub proof fn law_slab_settings_are_powers_of_two(c: &SlabConfig, r: Result<(), &'static str>)
    requires
        call_ensures(SlabConfig::validate, (c,), r),
    ensures
        r is Ok <==> c.page_size > 0 && c.min_object_size > 0 && c.object_align > 0 && c.page_size
            & (c.page_size - 1) as usize == 0 && c.object_align & (c.object_align - 1) as usize
            == 0,
        c.page_size == 0 ==> r is Err && r->Err_0@ == "page_size must be > 0"@,
{
}

/// Statistics of caches add up, number by number.
pub proof fn law_statistics_add_up(c: &SlabCache, t: &mut SlabStats)
    requires
        call_ensures(SlabCache::merge_stats, (c, t), ()),
    ensures
        final(t).total - old(t).total == c.total,
        final(t).free - old(t).free == c.free,
        final(t).pages - old(t).pages == c.pages,
{
}

proof fn lemma_memory_update(caches: Seq<SlabCache>, i: int, c: SlabCache, page_size: int, n: int)
    requires
        0 <= i < caches.len(),
        0 <= n <= caches.len(),
    ensures
        memory_of(caches.update(i, c), page_size, n) == memory_of(caches, page_size, n) + (if i
            < n {
            (c.pages - caches[i].pages) * page_size
        } else {
            0
        }),
    decreases n,
{
    if n > 0 {
        lemma_memory_update(caches, i, c, page_size, n - 1);
        if i == n - 1 {
            let (a, b) = (c.pages as int, caches[i].pages as int);
            assert((a - b) * page_size == a * page_size - b * page_size) by (nonlinear_arith);
        }
    }
}

/// An object comes from the cache of its name. It is the cache's latest free one where it
/// has one, and then no memory is taken; else a page is taken for the cache, and the memory
/// in use grows by it. No other cache changes.
pub proof fn law_object_comes_from_its_cache<A: Fn() -> Option<u64>, F: Fn(u64)>(
    m: &mut SlabManager<A, F>,
    name: &str,
    page: Option<u64>,
    r: SlabResult<Object>,
    i: int,
    j: int,
    before: usize,
    after: usize,
)
    requires
        old(m).wf(),
        old(m).can_serve(name@),
        page matches Some(p) ==> PHYS_OFF + p + old(m).config.page_size <= u64::MAX,
        call_ensures(SlabManager::<A, F>::alloc_with, (m, name, page), r),
        call_ensures(SlabManager::<A, F>::total_memory_used, (&*old(m),), before),
        call_ensures(SlabManager::<A, F>::total_memory_used, (&*final(m),), after),
        0 <= i < old(m).caches@.len(),
        old(m).caches@[i].name@ == name@,
        0 <= j < old(m).caches@.len(),
    ensures
        ({
            let c = old(m).caches@[i];
            let d = final(m).caches@[i];
            let some = c.free_list@.len() > 0;
            &&& final(m).caches@.len() == old(m).caches@.len()
            &&& j != i ==> final(m).caches@[j] == old(m).caches@[j]
            &&& r is Ok <==> some || page is Some
            &&& some ==> r->Ok_0.addr == c.free_list@.last() && r->Ok_0.size == c.obj_size && after
                == before && d.free == c.free - 1
            &&& !some && page is Some ==> r->Ok_0.size == c.obj_size && d.pages == c.pages + 1
                && after == before + old(m).config.page_size
            &&& r is Err ==> r->Err_0.is_allocation_failed(name@) && after == before
            &&& r is Ok && old(m).metrics.allocations < u64::MAX ==> final(m).metrics.allocations
                == old(m).metrics.allocations + 1
            &&& r is Err && old(m).metrics.allocation_failures < u64::MAX ==> final(
                m).metrics.allocation_failures == old(m).metrics.allocation_failures + 1
            &&& r is Err ==> final(m).metrics.allocations == old(m).metrics.allocations
            &&& final(m).metrics.frees == old(m).metrics.frees
        }),
{
    let caches = old(m).caches@;
    assert(cache_at(caches, name@, i));
    let k = cache_pos(caches, name@);
    assert(cache_at(caches, name@, k));
    lemma_one_place(caches, i, k);
    let size = old(m).config.page_size as int;
    let n = caches.len() as int;
    lemma_memory_update(caches, i, final(m).caches@[i], size, n);
    let (a, b) = (final(m).caches@[i].pages as int, caches[i].pages as int);
    assert((a - b) * size == (if a == b + 1 {
        size
    } else if a == b {
        0
    } else {
        (a - b) * size
    })) by (nonlinear_arith);
}

/// Caches in order have different names.
proof fn lemma_one_place(caches: Seq<SlabCache>, i: int, k: int)
    requires
        sorted(caches),
        0 <= i < caches.len(),
        0 <= k < caches.len(),
        caches[i].name@ == caches[k].name@,
    ensures
        i == k,
{
    if i < k {
        assert(text::precedes(caches[i].name@, caches[k].name@));
        lemma_not_before_itself(caches[i].name@);
    } else if k < i {
        assert(text::precedes(caches[k].name@, caches[i].name@));
        lemma_not_before_itself(caches[i].name@);
    }
}

proof fn lemma_not_before_itself(s: Seq<char>)
    ensures
        !text::precedes(s, s),
    decreases s.len(),
{
    if s.len() > 0 {
        lemma_not_before_itself(s.drop_first());
    }
}

/// An object that is given back to the cache of its name is free there, unless it is so
/// already; no other cache changes, and what was done is counted.
pub proof fn law_object_goes_back_to_its_cache<A: Fn() -> Option<u64>, F: Fn(u64)>(
    m: &mut SlabManager<A, F>,
    name: &str,
    p: u64,
    r: SlabResult<()>,
    i: int,
    j: int,
)
    requires
        old(m).wf(),
        p != 0,
        call_ensures(SlabManager::<A, F>::free, (m, name, p), r),
        0 <= i < old(m).caches@.len(),
        old(m).caches@[i].name@ == name@,
        0 <= j < old(m).caches@.len(),
    ensures
        ({
            let c = old(m).caches@[i];
            let d = final(m).caches@[i];
            &&& j != i ==> final(m).caches@[j] == old(m).caches@[j]
            &&& r is Ok <==> !c.free_list@.contains(p)
            &&& r is Ok ==> d.free_list@ == c.free_list@.push(p) && d.free == c.free + 1 && d.total
                == c.total && d.pages == c.pages
            &&& r is Err ==> d == c && r->Err_0.is_double_free(name@)
            &&& r is Ok && old(m).metrics.frees < u64::MAX ==> final(m).metrics.frees == old(
                m).metrics.frees + 1
            &&& r is Err && old(m).metrics.free_failures < u64::MAX ==> final(
                m).metrics.free_failures == old(m).metrics.free_failures + 1
            &&& final(m).metrics.allocations == old(m).metrics.allocations
        }),
{
    let caches = old(m).caches@;
    assert(cache_at(caches, name@, i));
    let k = cache_pos(caches, name@);
    assert(cache_at(caches, name@, k));
    lemma_one_place(caches, i, k);
}

/// A cache is there after it was made and not after it was deleted, and neither makes
/// another cache come or go.
pub proof fn law_made_cache_is_there<A: Fn() -> Option<u64>, F: Fn(u64)>(
    m: &mut SlabManager<A, F>,
    name: &str,
    size: usize,
    r: SlabResult<()>,
    d: &mut SlabManager<A, F>,
    gone: SlabResult<()>,
    i: int,
)
    requires
        old(m).wf(),
        call_ensures(SlabManager::<A, F>::create_cache, (m, name, size), r),
        old(d).wf(),
        call_ensures(SlabManager::<A, F>::delete_cache, (d, name), gone),
        0 <= i,
    ensures
        r is Ok ==> has_cache(final(m).caches@, name@) && !has_cache(old(m).caches@, name@)
            && final(m).caches@.len() == old(m).caches@.len() + 1,
        r is Err ==> final(m).caches@ == old(m).caches@,
        i < old(m).caches@.len() ==> final(m).caches@.contains(old(m).caches@[i]),
        has_cache(old(m).caches@, name@) ==> r is Err && r->Err_0.is_already_exists(name@),
        gone is Ok <==> has_cache(old(d).caches@, name@),
        !has_cache(final(d).caches@, name@),
        i < old(d).caches@.len() && old(d).caches@[i].name@ != name@ ==> final(d).caches@.contains(
            old(d).caches@[i],
        ),
{
    let pre = old(m).caches@;
    let post = final(m).caches@;
    if r is Ok {
        let obj = object_size(size, old(m).config)->0;
        let k = choose|k: int|
            0 <= k <= pre.len() && post == pre.insert(k, #[trigger] post[k]) && fresh(
                post[k],
                name@,
                obj,
                old(m).config.page_size,
            );
        assert(cache_at(post, name@, k));
        if i < pre.len() {
            let to = if i < k {
                i
            } else {
                i + 1
            };
            assert(post[to] == pre[i]);
        }
    } else if i < pre.len() {
        assert(post[i] == pre[i]);
    }
    if i < old(d).caches@.len() && old(d).caches@[i].name@ != name@ {
        if gone is Ok {
            let k = cache_pos(old(d).caches@, name@);
            assert(cache_at(old(d).caches@, name@, k));
            let to = if i < k {
                i
            } else {
                i - 1
            };
            assert(final(d).caches@[to] == old(d).caches@[i]);
        } else {
            assert(final(d).caches@[i] == old(d).caches@[i]);
        }
    }
}

/// The numbers that the slabs report are those that they counted.
pub proof fn law_slab_report_is_what_was_counted<A: Fn() -> Option<u64>, F: Fn(u64)>(
    m: &SlabManager<A, F>,
    r: SlabMetricsSnapshot,
)
    requires
        call_ensures(SlabManager::<A, F>::metrics_snapshot, (m,), r),
    ensures
        r.allocations == m.metrics.allocations,
        r.frees == m.metrics.frees,
        r.allocation_failures == m.metrics.allocation_failures,
        r.free_failures == m.metrics.free_failures,
        r.grows == m.metrics.grows,
        r.cache_creations == m.metrics.cache_creations,
        r.cache_deletions == m.metrics.cache_deletions,
{
}

/// What is told of a cache has each number behind its name; used is what is not free.
pub proof fn law_cache_is_told_by_name(s: &SlabStats, usage: &str, r: String)
    requires
        call_ensures(SlabStats::describe, (s, usage), r),
        s.free <= s.total,
    ensures
        text::tells(r@, text::padded(s.name@, ' ', 12) + ": total="@),
        text::tells(r@, ", used="@ + text::padded(text::decimal((s.total - s.free) as nat), ' ', 6)),
        text::tells(r@, ", free="@ + text::padded(text::decimal(s.free as nat), ' ', 6)),
        text::tells(r@, ", pages="@ + text::padded(text::decimal(s.pages as nat), ' ', 4)),
        text::tells(r@, " ("@ + usage@),
{
    let pieces = seq![
        text::padded(s.name@, ' ', 12),
        ": total="@,
        text::padded(text::decimal(s.total as nat), ' ', 6),
        ", used="@,
        text::padded(text::decimal((s.total - s.free) as nat), ' ', 6),
        ", free="@,
        text::padded(text::decimal(s.free as nat), ' ', 6),
        ", pages="@,
        text::padded(text::decimal(s.pages as nat), ' ', 4),
        " ("@,
        usage@,
        "%)"@,
    ];
    reveal_with_fuel(text::put_together, 13);
    assert(r@ == text::put_together(pieces, 12));
    text::lemma_tells(pieces, 12, 0);
    text::lemma_tells(pieces, 12, 3);
    text::lemma_tells(pieces, 12, 5);
    text::lemma_tells(pieces, 12, 7);
    text::lemma_tells(pieces, 12, 9);
}

} // verus!
